use germ_core::deps::atom::Atom;
use germ_core::deps::useflag::UseFlag;
use germ_core::error::Error;
use germ_core::files::entry::{Entry, Operation, Precedence};
use germ_core::files::pkgfile::useflags::{PackageUseRecords, PackageUseTarget, UseFlags, UseReset, UseSpec};
use germ_core::files::pkgfile::AtomPolicy;
use germ_core::files::pkguse::PackageUseEntries;
use germ_core::makenv::MakeEnv;
use germ_core::useflag::UseExpandConfig;

type Model = (usize, Operation, String);

fn model(e: &Entry<UseFlag>) -> Model {
    (e.precedence().ordinal(), e.operation(), e.key())
}

fn entry(value: &str, prec: Precedence) -> Option<Model> {
    Some(model(&Entry::<UseFlag>::from_str(value, prec).unwrap()))
}

fn flag(value: &str) -> PackageUseTarget {
    PackageUseTarget::Flag(UseFlag::parse(value).unwrap())
}

fn expand(group: &str, value: &str) -> PackageUseTarget {
    PackageUseTarget::Expand { group: group.to_owned(), value: UseFlag::parse(value).unwrap() }
}

fn target(spec: &UseSpec, t: &PackageUseTarget) -> Option<Model> {
    spec.get(t).map(model)
}

fn config() -> Result<UseExpandConfig, Error> {
    let makenv = MakeEnv::from_content(
        "USE_EXPAND=\"LLVM_TARGETS\"
                USE_EXPAND_UNPREFIXED=\"ARCH\"",
    )?;
    UseExpandConfig::from_makenv(&makenv)
}

fn flags_for<'a>(rules: &'a [(Atom, UseFlags)], atom: &str) -> &'a UseFlags {
    let atom = Atom::new(atom).unwrap().to_string();
    &rules.iter().find(|(a, _)| a.to_string() == atom).expect("missing package USE rule").1
}

fn get(flags: &UseFlags, name: &str) -> Option<Model> {
    flags.get(&UseFlag::parse(name).unwrap()).map(model)
}

fn atom(a: &str) -> Atom {
    Atom::new(a).unwrap()
}

#[test]
fn test_parse_duplicate_atom_updates_flags() {
    let policy = PackageUseRecords::from_string(
        "app-admin/sudo foo -bar baz
                app-admin/sudo -foo",
        Precedence::User,
    )
    .unwrap();
    let sudo = policy.get(&atom("app-admin/sudo")).unwrap();

    assert_eq!(target(sudo, &flag("foo")), entry("-foo", Precedence::User));
    assert_eq!(target(sudo, &flag("bar")), entry("-bar", Precedence::User));
    assert_eq!(target(sudo, &flag("baz")), entry("baz", Precedence::User));
}

fn check_parse_keeps_expansion_symbolic(spec: &UseSpec) {
    assert!(spec.get(&flag("foo")).is_some());
    assert!(spec.get(&flag("llvm_targets_AMDGPU")).is_some());
    assert!(spec.get(&expand("LLVM_TARGETS", "AMDGPU")).is_some());
    assert!(spec.get(&expand("ARCH", "amd64")).is_some());
    assert!(spec.resets().is_empty());
}

#[test]
fn useflags_test_parse_keeps_expansion_symbolic() {
    let spec = UseSpec::parse(
        "foo llvm_targets_AMDGPU LLVM_TARGETS: AMDGPU ARCH: amd64 LLVM_TARGETS:",
        Precedence::User,
    )
    .unwrap();
    check_parse_keeps_expansion_symbolic(&spec);
}

#[test]
fn pkguse_test_parse_keeps_expansion_symbolic() {
    let spec = UseSpec::parse(
        "foo llvm_targets_AMDGPU LLVM_TARGETS: AMDGPU ARCH: amd64 LLVM_TARGETS:",
        Precedence::User,
    )
    .unwrap();
    check_parse_keeps_expansion_symbolic(&spec);
}

#[test]
fn useflags_test_parse_group_context_is_line_local() {
    let entries = PackageUseRecords::from_string(
        "dev-lang/rust LLVM_TARGETS: AMDGPU
                app-arch/xz-utils direct_flag",
        Precedence::User,
    )
    .unwrap();
    let xz = entries.get(&atom("app-arch/xz-utils")).unwrap();
    assert!(xz.get(&flag("direct_flag")).is_some());
}

#[test]
fn pkguse_test_parse_group_context_is_line_local() {
    let entries = PackageUseEntries::from_string(
        "dev-lang/rust LLVM_TARGETS: AMDGPU\napp-arch/xz-utils direct_flag",
        Precedence::User,
    )
    .unwrap();
    let xz = entries.get(&atom("app-arch/xz-utils")).unwrap();
    assert!(xz.get(&flag("direct_flag")).is_some());
}

fn check_parse_resets() {
    let spec = UseSpec::parse("foo bar -* baz", Precedence::User).unwrap();
    assert!(spec.get(&flag("foo")).is_none());
    assert!(spec.get(&flag("bar")).is_none());
    assert!(spec.get(&flag("baz")).is_some());
    assert!(spec.has_reset(&UseReset::All));

    let spec = UseSpec::parse("LLVM_TARGETS: X86 -* AMDGPU", Precedence::User).unwrap();
    assert!(spec.get(&expand("LLVM_TARGETS", "X86")).is_none());
    assert!(spec.get(&expand("LLVM_TARGETS", "AMDGPU")).is_some());
    assert!(spec.has_reset(&UseReset::Group("LLVM_TARGETS".to_owned())));
}

#[test]
fn useflags_test_parse_resets() {
    check_parse_resets();
}

#[test]
fn pkguse_test_parse_resets() {
    check_parse_resets();
}

#[test]
fn useflags_test_resolve_expansion_groups() {
    let entries = PackageUseRecords::from_string(
        "dev-lang/rust LLVM_TARGETS: WebAssembly -AMDGPU ARCH: amd64 -x86",
        Precedence::Profile(2),
    )
    .unwrap();
    let resolved = entries.expand(&config().unwrap()).unwrap();
    let flags = flags_for(&resolved, "dev-lang/rust");

    assert_eq!(get(flags, "llvm_targets_WebAssembly"), entry("llvm_targets_WebAssembly", Precedence::Profile(2)));
    assert_eq!(get(flags, "llvm_targets_AMDGPU"), entry("-llvm_targets_AMDGPU", Precedence::Profile(2)));
    assert_eq!(get(flags, "amd64"), entry("amd64", Precedence::Profile(2)));
    assert_eq!(get(flags, "x86"), entry("-x86", Precedence::Profile(2)));
}

#[test]
fn pkguse_test_resolve_expansion_groups() {
    let entries = PackageUseEntries::from_string(
        "dev-lang/rust LLVM_TARGETS: WebAssembly -AMDGPU ARCH: amd64 -x86",
        Precedence::User,
    )
    .unwrap();
    let resolved = entries.expand(&config().unwrap()).unwrap();
    let flags = flags_for(&resolved, "dev-lang/rust");

    assert_eq!(get(flags, "llvm_targets_WebAssembly"), entry("llvm_targets_WebAssembly", Precedence::User));
    assert_eq!(get(flags, "llvm_targets_AMDGPU"), entry("-llvm_targets_AMDGPU", Precedence::User));
    assert_eq!(get(flags, "amd64"), entry("amd64", Precedence::User));
    assert_eq!(get(flags, "x86"), entry("-x86", Precedence::User));
}

#[test]
fn test_resolve_preserves_operation_and_precedence() {
    let entries = PackageUseEntries::from_string("dev-lang/rust LLVM_TARGETS: AMDGPU", Precedence::Profile(2)).unwrap();
    let resolved = entries.expand(&config().unwrap()).unwrap();
    let flags = flags_for(&resolved, "dev-lang/rust");
    let e = flags.get(&UseFlag::parse("llvm_targets_AMDGPU").unwrap()).unwrap();
    assert_eq!(e.operation(), Operation::Apply);
    assert_eq!(e.precedence(), Precedence::Profile(2));
}

fn check_resolve_rejects_invalid_groups(read: impl Fn(&str) -> Result<Vec<(Atom, UseFlags)>, Error>) {
    let cases = [
        "dev-lang/rust UNKNOWN: value",
        "dev-lang/rust llvm_targets: AMDGPU",
        "dev-lang/rust foo ARCH: foo",
    ];
    for line in cases {
        assert!(read(line).is_err(), "{line}");
    }
    assert!(read("dev-lang/rust UNKNOWN:").is_ok());
}

#[test]
fn useflags_test_resolve_rejects_invalid_groups() {
    check_resolve_rejects_invalid_groups(|line| {
        PackageUseRecords::from_string(line, Precedence::User).unwrap().expand(&config().unwrap())
    });
}

#[test]
fn pkguse_test_resolve_rejects_invalid_groups() {
    check_resolve_rejects_invalid_groups(|line| {
        PackageUseEntries::from_string(line, Precedence::User).unwrap().expand(&config().unwrap())
    });
}

#[test]
fn test_resolve_ignores_reset_only_group() {
    let entries = PackageUseEntries::from_string("dev-lang/rust UNKNOWN: -*", Precedence::User).unwrap();
    let resolved = entries.expand(&config().unwrap()).unwrap();
    let flags = flags_for(&resolved, "dev-lang/rust");
    assert!(flags.iter().is_empty());
}

#[test]
fn useflags_test_inherit_ignores_reset_only_group() {
    let parent = PackageUseRecords::from_string("dev-lang/rust LLVM_TARGETS: X86", Precedence::Profile(0)).unwrap();
    let child = PackageUseRecords::from_string("dev-lang/rust UNKNOWN: -*", Precedence::User)
        .unwrap()
        .inherit(&parent);
    let resolved = child.expand(&config().unwrap()).unwrap();
    let flags = flags_for(&resolved, "dev-lang/rust");
    assert_eq!(get(flags, "llvm_targets_X86"), entry("llvm_targets_X86", Precedence::Profile(0)));
}

#[test]
fn pkguse_test_inherit_ignores_reset_only_group() {
    let parent = PackageUseEntries::from_string("dev-lang/rust LLVM_TARGETS: X86", Precedence::Profile(0)).unwrap();
    let child = PackageUseEntries::from_string("dev-lang/rust UNKNOWN: -*", Precedence::User)
        .unwrap()
        .inherit(&parent);
    let resolved = child.expand(&config().unwrap()).unwrap();
    let flags = flags_for(&resolved, "dev-lang/rust");
    assert_eq!(get(flags, "llvm_targets_X86"), entry("llvm_targets_X86", Precedence::Profile(0)));
}

#[test]
fn test_resolve_rejects_overlapping_groups() {
    let makenv = MakeEnv::from_content(
        "USE_EXPAND=\"ARCH\"
                USE_EXPAND_UNPREFIXED=\"ARCH\"",
    )
    .unwrap();
    assert!(UseExpandConfig::from_makenv(&makenv).is_err());
}

#[test]
fn test_resolve_rejects_overlapping_namespaces() {
    let makenv = MakeEnv::from_content("USE_EXPAND=\"ARCH\"\nUSE_EXPAND_UNPREFIXED=\"ARCH\"").unwrap();
    assert!(UseExpandConfig::from_makenv(&makenv).is_err());
}

#[test]
fn test_inherit_group_reset() {
    let grand_parent =
        PackageUseRecords::from_string("dev-lang/rust lto LLVM_TARGETS: X86", Precedence::Profile(0)).unwrap();
    let parent = PackageUseRecords::from_string("dev-lang/rust -lto LLVM_TARGETS: -* AMDGPU", Precedence::Profile(1))
        .unwrap()
        .inherit(&grand_parent);

    let parent_flags = parent.copy().expand(&config().unwrap()).unwrap();
    let parent_flags = flags_for(&parent_flags, "dev-lang/rust");
    assert_eq!(get(parent_flags, "lto"), entry("-lto", Precedence::Profile(1)));
    assert_eq!(get(parent_flags, "llvm_targets_X86"), None);
    assert_eq!(get(parent_flags, "llvm_targets_AMDGPU"), entry("llvm_targets_AMDGPU", Precedence::Profile(1)));

    let child = PackageUseRecords::from_string("dev-lang/rust lto LLVM_TARGETS: -* WebAssembly", Precedence::User)
        .unwrap()
        .inherit(&parent);
    let flags = child.expand(&config().unwrap()).unwrap();
    let flags = flags_for(&flags, "dev-lang/rust");
    assert_eq!(get(flags, "lto"), entry("lto", Precedence::User));
    assert_eq!(get(flags, "llvm_targets_X86"), None);
    assert_eq!(get(flags, "llvm_targets_AMDGPU"), None);
    assert_eq!(get(flags, "llvm_targets_WebAssembly"), entry("llvm_targets_WebAssembly", Precedence::User));
}

#[test]
fn test_inherit_from_resets_and_readds() {
    let grand_parent = PackageUseEntries::from_string("dev-lang/rust LLVM_TARGETS: X86", Precedence::Profile(0)).unwrap();
    let parent = PackageUseEntries::from_string("dev-lang/rust LLVM_TARGETS: -* AMDGPU", Precedence::Profile(1)).unwrap();
    let parent = parent.inherit(&grand_parent);
    let child = PackageUseEntries::new().inherit(&parent);
    let flags = child.expand(&config().unwrap()).unwrap();
    let flags = flags_for(&flags, "dev-lang/rust");

    assert_eq!(get(flags, "llvm_targets_X86"), None);
    assert_eq!(get(flags, "llvm_targets_AMDGPU"), entry("llvm_targets_AMDGPU", Precedence::Profile(1)));
}

#[test]
fn test_inherit_from_keeps_group_reset_local() {
    let parent = PackageUseEntries::from_string("dev-lang/rust foo LLVM_TARGETS: X86", Precedence::Profile(0)).unwrap();
    let child = PackageUseEntries::from_string("dev-lang/rust LLVM_TARGETS: -* AMDGPU", Precedence::Profile(1))
        .unwrap()
        .inherit(&parent);
    let flags = child.expand(&config().unwrap()).unwrap();
    let flags = flags_for(&flags, "dev-lang/rust");

    assert_eq!(get(flags, "foo"), entry("foo", Precedence::Profile(0)));
    assert_eq!(get(flags, "llvm_targets_X86"), None);
    assert_eq!(get(flags, "llvm_targets_AMDGPU"), entry("llvm_targets_AMDGPU", Precedence::Profile(1)));
}

fn check_resets_are_local_to_atom(resolved: Vec<(Atom, UseFlags)>) {
    let rust = flags_for(&resolved, "dev-lang/rust");
    assert_eq!(get(rust, "llvm_targets_AMDGPU"), entry("llvm_targets_AMDGPU", Precedence::User));
    assert_eq!(get(rust, "llvm_targets_X86"), None);

    let wildcard = flags_for(&resolved, "*/*");
    assert_eq!(get(wildcard, "llvm_targets_X86"), entry("llvm_targets_X86", Precedence::User));
}

const LOCAL_RESETS: &str = "
            dev-lang/rust LLVM_TARGETS: -* AMDGPU
            */* LLVM_TARGETS: X86
            ";

#[test]
fn useflags_test_resets_are_local_to_atom() {
    let entries = PackageUseRecords::from_string(LOCAL_RESETS, Precedence::User).unwrap();
    check_resets_are_local_to_atom(entries.expand(&config().unwrap()).unwrap());
}

#[test]
fn pkguse_test_resets_are_local_to_atom() {
    let entries = PackageUseEntries::from_string(LOCAL_RESETS, Precedence::User).unwrap();
    check_resets_are_local_to_atom(entries.expand(&config().unwrap()).unwrap());
}

#[test]
fn pkguse_test_from_string() {
    let content = "
            # Enable sysvinit symlinks by default.
            sys-apps/systemd sysv-utils
            media-libs/mesa -opencl # ROCm should be the opencl provider

            app-admin/sudo foo -bar baz
            app-admin/sudo -foo
        ";

    let file = PackageUseEntries::from_string(content, Precedence::User).unwrap();
    assert_eq!(file.len(), 3);

    let systemd = file.get(&atom("sys-apps/systemd")).unwrap();
    assert_eq!(target(systemd, &flag("sysv-utils")), entry("sysv-utils", Precedence::User));

    let mesa = file.get(&atom("media-libs/mesa")).unwrap();
    assert_eq!(target(mesa, &flag("opencl")), entry("-opencl", Precedence::User));

    let sudo = file.get(&atom("app-admin/sudo")).unwrap();
    assert_eq!(target(sudo, &flag("foo")), entry("-foo", Precedence::User));
    assert_eq!(target(sudo, &flag("bar")), entry("-bar", Precedence::User));
    assert_eq!(target(sudo, &flag("baz")), entry("baz", Precedence::User));
}

#[test]
fn test_inherit_from_merges_precedence() {
    let grand_parent = PackageUseEntries::from_string(
        "
            dev-libs/libffi foo -bar baz foobar
            app-arch/xz-utils foo bar -test
            app-arch/zstd baz -foo
            sys-apps/systemd -foo
            dev-libs/libffi foobar
            ",
        Precedence::Profile(0),
    )
    .unwrap();

    let parent = PackageUseEntries::from_string(
        "
            dev-libs/libffi foobar
            app-arch/xz-utils -foo bar baz test
            app-arch/rpm -foo
            ",
        Precedence::Profile(1),
    )
    .unwrap();

    let child = PackageUseEntries::from_string(
        "
            app-arch/xz-utils -foo -bar baz
            app-arch/zstd foo
            app-arch/rpm foo
            dev-libs/libffi -foobar
            ",
        Precedence::User,
    )
    .unwrap();
    let child = child.inherit(&parent.inherit(&grand_parent));
    let resolved = child.expand(&config().unwrap()).unwrap();

    assert_eq!(resolved.len(), 5);

    let libffi = flags_for(&resolved, "dev-libs/libffi");
    assert_eq!(get(libffi, "foo"), entry("foo", Precedence::Profile(0)));
    assert_eq!(get(libffi, "bar"), entry("-bar", Precedence::Profile(0)));
    assert_eq!(get(libffi, "baz"), entry("baz", Precedence::Profile(0)));
    assert_eq!(get(libffi, "foobar"), entry("-foobar", Precedence::User));

    let zstd = flags_for(&resolved, "app-arch/zstd");
    assert_eq!(get(zstd, "baz"), entry("baz", Precedence::Profile(0)));
    assert_eq!(get(zstd, "foo"), entry("foo", Precedence::User));

    let rpm = flags_for(&resolved, "app-arch/rpm");
    assert_eq!(get(rpm, "foo"), entry("foo", Precedence::User));
}

#[test]
fn test_use_expand_config_materialize_and_implicit() {
    let env = MakeEnv::from_content(
        "USE_EXPAND=VIDEO_CARDS USE_EXPAND_UNPREFIXED=ARCH VIDEO_CARDS='amdgpu -nouveau' ARCH=amd64
         USE_EXPAND_IMPLICIT=ARCH USE_EXPAND_VALUES_ARCH='amd64 arm64'",
    )
    .unwrap();
    let cfg = UseExpandConfig::from_makenv(&env).unwrap();
    let m: Vec<(String, bool)> =
        cfg.materialize(&env).unwrap().iter().map(|(f, b)| (f.as_str().to_owned(), *b)).collect();
    assert_eq!(
        m,
        [
            ("video_cards_amdgpu".to_owned(), true),
            ("video_cards_nouveau".to_owned(), false),
            ("amd64".to_owned(), true),
        ]
    );
    let implicit: Vec<String> = cfg.implicit_flags(&env).unwrap().iter().map(|f| f.as_str().to_owned()).collect();
    assert_eq!(implicit, ["amd64", "arm64"]);
}

#[test]
fn test_equal_atoms_share_flags() {
    let policy = PackageUseRecords::from_string(
        "=app-admin/sudo-1.9 foo
                =app-admin/sudo-1.9-r0 -bar",
        Precedence::User,
    )
    .unwrap();
    assert_eq!(policy.len(), 1);
    let sudo = policy.get(&atom("=app-admin/sudo-1.9.0")).is_none();
    assert!(sudo);
    let sudo = policy.get(&atom("=app-admin/sudo-1.9-r00")).unwrap();
    assert_eq!(target(sudo, &flag("foo")), entry("foo", Precedence::User));
    assert_eq!(target(sudo, &flag("bar")), entry("-bar", Precedence::User));
}
