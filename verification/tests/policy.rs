use germ_core::conf::masks::useflag::UseMasks;
use germ_core::conf::masks::{PackageMasks, RepoPackageMasks, UserPackageMasks};
use germ_core::conf::system::SysConf;
use germ_core::deps::useflag::UseFlag;
use germ_core::deps::{DepExpression, ExpressionKind};
use germ_core::eapi::Eapi;
use germ_core::error::Error;
use germ_core::files::entry::Precedence;
use germ_core::files::linefile::LineEntries;
use germ_core::files::pkgfile::keywords::PackageAcceptKeywords;
use germ_core::files::pkgfile::useflags::PackageUseRecords;
use germ_core::files::pkguse::PackageUseEntries;
use germ_core::makenv::stack::MakeEnvStack;
use germ_core::makenv::MakeEnv;
use germ_core::package::cpv::CPV;
use germ_core::package::metadata::{PackageMetadata, RawPackageMetadata};
use germ_core::package::names::{CatName, PkgName};
use germ_core::package::version::PackageVersion;
use germ_core::package::Package;
use germ_core::policy::keyword::EffectiveKeywords;
use germ_core::policy::pkgmask;
use germ_core::policy::useflag::{EffectiveUse, LocalRecords, UsePolicy};
use germ_core::policy::PackagePolicy;
use germ_core::profile::{Profile, ProfileUseRecords};
use germ_core::repository::RepoName;
use germ_core::useflag::UseExpandConfig;

fn cpv(category: &str, package: &str, version: &str) -> CPV {
    CPV::new(
        CatName::new(category).unwrap(),
        PkgName::new(package).unwrap(),
        PackageVersion::try_from(version).unwrap(),
    )
}

fn package_metadata(vars: &[(&str, &str)]) -> PackageMetadata {
    let mut values = vec![
        ("EAPI".to_owned(), "8".to_owned()),
        ("DESCRIPTION".to_owned(), "test".to_owned()),
        ("SLOT".to_owned(), "0".to_owned()),
    ];
    for (k, v) in vars {
        values.push((k.to_string(), v.to_string()));
    }
    PackageMetadata::from_raw(&RawPackageMetadata::new(values), None).unwrap()
}

fn flag(name: &str) -> UseFlag {
    UseFlag::parse(name).unwrap()
}

fn sorted(mut v: Vec<(String, bool)>) -> Vec<(String, bool)> {
    v.sort();
    v
}

fn states(v: Vec<(UseFlag, bool)>) -> Vec<(String, bool)> {
    sorted(v.iter().map(|(f, b)| (f.as_str().to_owned(), *b)).collect())
}

#[test]
fn test_global_use() {
    let stack = MakeEnvStack::new(
        MakeEnv::from_content("USE=foo").unwrap(),
        MakeEnv::from_content("USE=\"bar -foo\"").unwrap(),
        MakeEnv::new(),
    )
    .unwrap();
    assert_eq!(states(stack.global_use().unwrap()), [("bar".to_owned(), true)]);

    let stack = MakeEnvStack::new(
        MakeEnv::from_content("USE=foo").unwrap(),
        MakeEnv::new(),
        MakeEnv::from_content("USE=-foo").unwrap(),
    )
    .unwrap();
    assert_eq!(states(stack.global_use().unwrap()), [("foo".to_owned(), false)]);

    let stack = MakeEnvStack::new(
        MakeEnv::from_content("USE=\"foo bar\"").unwrap(),
        MakeEnv::new(),
        MakeEnv::from_content("USE=\"-* baz\"").unwrap(),
    )
    .unwrap();
    assert_eq!(states(stack.global_use().unwrap()), [("baz".to_owned(), true)]);

    let stack = MakeEnvStack::new(MakeEnv::new(), MakeEnv::new(), MakeEnv::from_content("USE=+invalid").unwrap()).unwrap();
    assert!(stack.global_use().is_err());
}

#[test]
fn test_global_use_expansion() {
    let stack = MakeEnvStack::new(
        MakeEnv::from_content(
            "USE_EXPAND=VIDEO_CARDS
                 VIDEO_CARDS=amdgpu",
        )
        .unwrap(),
        MakeEnv::from_content("VIDEO_CARDS=nouveau").unwrap(),
        MakeEnv::from_content("VIDEO_CARDS=\"-amdgpu radeonsi\"").unwrap(),
    )
    .unwrap();
    assert_eq!(
        states(stack.global_use().unwrap()),
        sorted(vec![
            ("video_cards_amdgpu".to_owned(), false),
            ("video_cards_nouveau".to_owned(), true),
            ("video_cards_radeonsi".to_owned(), true),
        ])
    );

    let stack = MakeEnvStack::new(
        MakeEnv::from_content(
            "USE_EXPAND=VIDEO_CARDS
                VIDEO_CARDS=amdgpu",
        )
        .unwrap(),
        MakeEnv::new(),
        MakeEnv::from_content(
            "USE_EXPAND=\"-VIDEO_CARDS INPUT_DEVICES\"
                    INPUT_DEVICES=libinput",
        )
        .unwrap(),
    )
    .unwrap();
    assert_eq!(states(stack.global_use().unwrap()), [("input_devices_libinput".to_owned(), true)]);
}

#[test]
fn test_iuse_implicit_profile() {
    let stack = MakeEnvStack::new(
        MakeEnv::new(),
        MakeEnv::from_content(
            "IUSE_IMPLICIT=profile_flag
                 USE_EXPAND_UNPREFIXED=ARCH
                 USE_EXPAND_IMPLICIT=ARCH
                 USE_EXPAND_VALUES_ARCH=\"amd64\"",
        )
        .unwrap(),
        MakeEnv::from_content("IUSE_IMPLICIT=local_flag").unwrap(),
    )
    .unwrap();

    let mut flags: Vec<String> = stack.iuse_implicit().unwrap().iter().map(|f| f.as_str().to_owned()).collect();
    flags.sort();
    assert_eq!(flags, ["amd64", "profile_flag"]);
}

#[test]
fn test_stack_arch_and_accept_keywords() {
    let stack = MakeEnvStack::new(
        MakeEnv::from_content("ARCH=amd64 ACCEPT_KEYWORDS=amd64").unwrap(),
        MakeEnv::new(),
        MakeEnv::from_content("ACCEPT_KEYWORDS=~amd64").unwrap(),
    )
    .unwrap();
    assert_eq!(stack.arch().unwrap().as_str(), "amd64");
    let accepted: Vec<String> = stack.accept_keywords().unwrap().iter().map(|s| s.to_string()).collect();
    assert_eq!(accepted, ["amd64", "~amd64"]);
    let empty = MakeEnvStack::new(MakeEnv::new(), MakeEnv::new(), MakeEnv::new()).unwrap();
    assert!(empty.arch().is_err());
}

fn empty_config() -> UseExpandConfig {
    UseExpandConfig::from_makenv(&MakeEnv::new()).unwrap()
}

fn empty_profile_records() -> ProfileUseRecords {
    ProfileUseRecords {
        use_mask: LineEntries::new(),
        use_force: LineEntries::new(),
        use_stable_mask: LineEntries::new(),
        use_stable_force: LineEntries::new(),
        package_use: PackageUseRecords::new(),
        package_use_mask: PackageUseRecords::new(),
        package_use_force: PackageUseRecords::new(),
        package_use_stable_mask: PackageUseRecords::new(),
        package_use_stable_force: PackageUseRecords::new(),
        expand_config: empty_config(),
    }
}

fn use_state(makenv: &str, make_conf: &str, package_use: &str, iuse: &str, flag_name: &str) -> Result<Option<bool>, Error> {
    let global = MakeEnv::from_content(makenv)?;
    let user = MakeEnv::from_content(make_conf)?;
    let makenv_stack = MakeEnvStack::new(global, MakeEnv::new(), user)?;
    let local = LocalRecords {
        package_use: PackageUseRecords::from_content(package_use, Precedence::User)?,
        use_mask: LineEntries::new(),
        package_use_mask: PackageUseRecords::new(),
    };
    let policy = UsePolicy::new(makenv_stack.global_use()?, Vec::new(), empty_profile_records(), local)?;
    let package = Package::new(
        cpv("dev-lang", "rust", "1.0"),
        RepoName::new("gentoo")?,
        package_metadata(&[("IUSE", iuse)]),
    );
    Ok(policy.effective_for(&package, false).state(&flag(flag_name)))
}

#[test]
fn test_eval_required_use() {
    // expression, foo state, bar state, expected
    let cases = [
        ("foo", true, false, true),
        ("!foo", false, false, true),
        ("!foo", true, false, false),
        ("foo bar", true, true, true),
        ("foo bar", true, false, false),
        ("( foo bar )", true, true, true),
        ("( foo bar )", true, false, false),
        ("|| ( foo bar )", false, true, true),
        ("|| ( foo bar )", false, false, false),
        ("^^ ( foo bar )", true, false, true),
        ("^^ ( foo bar )", true, true, false),
        ("?? ( foo bar )", true, false, true),
        ("?? ( foo bar )", true, true, false),
        ("foo? ( bar )", false, false, true),
        ("foo? ( bar )", true, true, true),
        ("foo? ( bar )", true, false, false),
        ("!foo? ( bar )", false, true, true),
        ("!foo? ( bar )", false, false, false),
        ("!foo? ( bar )", true, true, true),
        ("!foo? ( bar )", true, false, true),
    ];

    for (input, foo_state, bar_state, expected) in cases {
        let expr = DepExpression::<UseFlag>::parse(Eapi::Eight, ExpressionKind::RequiredUse, input).unwrap();
        let enabled = [("foo", foo_state), ("bar", bar_state)]
            .into_iter()
            .filter_map(|(f, on)| if on { Some(flag(f)) } else { None })
            .collect();
        let state = EffectiveUse::new(vec![flag("foo"), flag("bar")], enabled);
        let actual = state.satisfies(&expr).unwrap();
        assert_eq!(actual, expected, "{input}");
    }
}

#[test]
fn test_eval_required_use_unavailable_flag() {
    let expr = DepExpression::<UseFlag>::parse(Eapi::Eight, ExpressionKind::RequiredUse, "foo baz").unwrap();
    let state = EffectiveUse::new(vec![flag("foo")], vec![flag("foo")]);
    assert_eq!(state.satisfies(&expr).unwrap_err().to_string(), "flag baz is not available");
}

#[test]
fn test_effective_use() {
    // makenv, make_conf, package_use, iuse, flag, expected
    let cases = [
        ("USE=foo", "", "*/* -foo", "+foo", "foo", Some(false)),
        ("", "USE=-foo", "*/* foo", "foo", "foo", Some(true)),
        ("USE=foo", "", "", "", "foo", None),
        ("", "", "", "+foo", "foo", Some(true)),
        ("", "USE=-foo", "", "+foo", "foo", Some(false)),
    ];

    for case in cases {
        assert_eq!(use_state(case.0, case.1, case.2, case.3, case.4).unwrap(), case.5);
    }
}

fn profile_with_expansions() -> Profile {
    Profile {
        make_defaults: MakeEnv::from_content("USE_EXPAND=\"LLVM_TARGETS\"\nUSE_EXPAND_UNPREFIXED=\"ARCH\"").unwrap(),
        package_mask: LineEntries::new(),
        package_unmask: LineEntries::new(),
        package_accept_keywords: PackageAcceptKeywords::new(),
        use_mask: LineEntries::new(),
        use_force: LineEntries::new(),
        use_stable_mask: LineEntries::new(),
        use_stable_force: LineEntries::new(),
        package_use: PackageUseEntries::new(),
        package_use_mask: PackageUseEntries::new(),
        package_use_force: PackageUseEntries::new(),
        package_use_stable_mask: PackageUseEntries::new(),
        package_use_stable_force: PackageUseEntries::new(),
    }
}

fn rust_package() -> Package {
    Package::new(cpv("dev-lang", "rust", "1.97.1"), RepoName::new("gentoo").unwrap(), package_metadata(&[]))
}

#[test]
fn test_package_use_mask() {
    let profile = profile_with_expansions();
    let package_use_mask =
        PackageUseEntries::from_string("dev-lang/rust wasm LLVM_TARGETS: AMDGPU ARCH: amd64", Precedence::User).unwrap();
    let masks = UseMasks::new(&profile, PackageUseEntries::new(), LineEntries::new(), package_use_mask).unwrap();

    let package = rust_package();
    assert!(masks.is_masked_for_pkg(&package, &flag("wasm")));
    assert!(masks.is_masked_for_pkg(&package, &flag("llvm_targets_AMDGPU")));
    assert!(masks.is_masked_for_pkg(&package, &flag("amd64")));
}

#[test]
fn test_package_use_force() {
    let mut profile = profile_with_expansions();
    profile.package_use_force =
        PackageUseEntries::from_string("dev-lang/rust wasm LLVM_TARGETS: AMDGPU ARCH: amd64", Precedence::Profile(0))
            .unwrap();
    let masks = UseMasks::new(&profile, PackageUseEntries::new(), LineEntries::new(), PackageUseEntries::new()).unwrap();

    let package = rust_package();
    assert!(masks.is_forced_for_pkg(&package, &flag("wasm")));
    assert!(masks.is_forced_for_pkg(&package, &flag("llvm_targets_AMDGPU")));
    assert!(masks.is_forced_for_pkg(&package, &flag("amd64")));
}

#[test]
fn test_stable_package_use_policy() {
    let mut profile = profile_with_expansions();
    profile.package_use_stable_mask =
        PackageUseEntries::from_string("dev-lang/rust LLVM_TARGETS: AMDGPU", Precedence::Profile(0)).unwrap();
    profile.package_use_stable_force =
        PackageUseEntries::from_string("dev-lang/rust ARCH: amd64", Precedence::Profile(0)).unwrap();
    let masks = UseMasks::new(&profile, PackageUseEntries::new(), LineEntries::new(), PackageUseEntries::new()).unwrap();

    let package = rust_package();
    assert!(masks.is_masked_for_pkg(&package, &flag("llvm_targets_AMDGPU")));
    assert!(masks.is_forced_for_pkg(&package, &flag("amd64")));
}

#[test]
fn test_use_masks_global() {
    let mut profile = profile_with_expansions();
    profile.use_force = LineEntries::from_string("forced", Precedence::Profile(0)).unwrap();
    let masks = UseMasks::new(
        &profile,
        PackageUseEntries::new(),
        LineEntries::from_string("masked", Precedence::User).unwrap(),
        PackageUseEntries::new(),
    )
    .unwrap();
    assert!(masks.is_masked(&flag("masked")));
    assert!(!masks.is_masked(&flag("forced")));
    assert!(masks.is_forced(&flag("forced")));
    assert!(!masks.is_forced_for_pkg(&rust_package(), &flag("other")));
}

#[test]
fn mod_test_is_masked() {
    let mask_lines = LineEntries::from_string("dev-lang/rust\napp-editors/vim", Precedence::User).unwrap();
    let unmask_lines = LineEntries::from_string("=dev-lang/rust-1.50*", Precedence::User).unwrap();
    let manager = PackageMasks::new(
        RepoPackageMasks { mask: LineEntries::new(), unmask: LineEntries::new() },
        &profile_with_expansions(),
        UserPackageMasks::new(mask_lines, unmask_lines),
    );

    let repo = RepoName::new("gentoo").unwrap();
    let pkg1 = Package::new(cpv("dev-lang", "rust", "1.50-r2"), repo.copy(), package_metadata(&[]));
    assert!(!manager.is_masked(&pkg1), "{} should not be masked", pkg1.to_string());

    let pkg2 = Package::new(cpv("dev-lang", "rust", "1.60-r1"), repo.copy(), package_metadata(&[]));
    assert!(manager.is_masked(&pkg2), "{} should be masked", pkg2.to_string());

    let pkg3 = Package::new(cpv("app-editors", "vim", "8.2"), repo.copy(), package_metadata(&[]));
    assert!(manager.is_masked(&pkg3), "{} should be masked", pkg3.to_string());

    let pkg4 = Package::new(cpv("app-editors", "nano", "5.0"), repo, package_metadata(&[]));
    assert!(!manager.is_masked(&pkg4), "{} should not be masked", pkg4.to_string());
}

#[test]
fn test_portage_paths() {
    let config = SysConf::new("/tmp/root".to_owned());
    assert_eq!(config.portage_conf(), "/tmp/root/etc/portage");
    assert_eq!(config.default_portage_conf(), "/tmp/root/usr/share/portage/config");
    assert_eq!(config.with_ebuild_jobs(4).ebuild_jobs(), 4);
}

#[test]
fn test_package_policy_evaluate() {
    let keywords = EffectiveKeywords::new(
        vec![germ_core::keyword::KeywordSelector::from_str("amd64").unwrap()],
        PackageAcceptKeywords::new(),
    );
    let usepolicy = UsePolicy::new(
        Vec::new(),
        Vec::new(),
        empty_profile_records(),
        LocalRecords {
            package_use: PackageUseRecords::new(),
            use_mask: LineEntries::new(),
            package_use_mask: PackageUseRecords::new(),
        },
    )
    .unwrap();
    let masks = pkgmask::PackageMasks::new(
        pkgmask::RepositorySource { mask: LineEntries::new(), unmask: LineEntries::new() },
        pkgmask::PortageSource {
            profile_mask: LineEntries::new(),
            profile_unmask: LineEntries::new(),
            local_mask: LineEntries::from_string("app-editors/vim", Precedence::User).unwrap(),
            local_unmask: LineEntries::new(),
        },
    );
    let policy = PackagePolicy::new(keywords, usepolicy, masks);
    let repo = RepoName::new("gentoo").unwrap();
    let ok = Package::new(
        cpv("dev-lang", "rust", "1.0"),
        repo.copy(),
        package_metadata(&[("KEYWORDS", "amd64"), ("IUSE", "+foo"), ("REQUIRED_USE", "foo")]),
    );
    assert!(policy.evaluate(&ok).unwrap());
    let masked = Package::new(cpv("app-editors", "vim", "9.0"), repo.copy(), package_metadata(&[("KEYWORDS", "amd64")]));
    assert!(!policy.evaluate(&masked).unwrap());
    let unsatisfied = Package::new(
        cpv("dev-lang", "rust", "1.0"),
        repo.copy(),
        package_metadata(&[("KEYWORDS", "amd64"), ("IUSE", "foo"), ("REQUIRED_USE", "foo")]),
    );
    assert!(!policy.evaluate(&unsatisfied).unwrap());
    let broken = Package::new(
        cpv("dev-lang", "rust", "1.0"),
        repo,
        package_metadata(&[("KEYWORDS", "amd64"), ("REQUIRED_USE", "foo")]),
    );
    assert!(policy.evaluate(&broken).is_err());
}
