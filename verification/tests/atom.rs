use germ_core::deps::atom::constraints::SlotConstraint;
use germ_core::deps::atom::Atom;
use germ_core::deps::useflag::{PrefixedUseFlag, UseFlag};
use germ_core::package::cpv::CPV;
use germ_core::package::names::{CatName, PkgName};
use germ_core::package::slot::{PackageSlot, SlotName};
use germ_core::package::version::PackageVersion;

fn cpv(category: &str, package: &str, version: &str) -> CPV {
    CPV::new(
        CatName::new(category).unwrap(),
        PkgName::new(package).unwrap(),
        PackageVersion::try_from(version).unwrap(),
    )
}

fn slot_name(name: &str) -> SlotName {
    SlotName::new(name).unwrap()
}

#[test]
fn test_package_name_ok() {
    for name in ["foo", "foo-", "foo--", "foo+bar", "foo_+", "foo-r2"] {
        let parsed = PkgName::new(name).unwrap();
        assert_eq!(parsed.as_str(), name);
    }
}

#[test]
fn test_package_name_err() {
    for name in [
        "", "-foo", "+foo", "foo.bar", "foo/bar", "foo ", "foo*", "foo-1", "foo-1a",
        "foo-1_alpha", "foo-1_beta", "foo-1_pre", "foo-1_rc1", "foo-1_p2", "foo-1-r0",
        "foo-1-r2", "foo-r2-2",
    ] {
        assert!(PkgName::new(name).is_err(), "{name:?} should be invalid");
    }
}

#[test]
fn category_name_errors_name_the_input() {
    assert_eq!(CatName::new("dev-lang").unwrap().as_str(), "dev-lang");
    let err = CatName::new("dev lang").unwrap_err();
    assert_eq!(err.to_string(), "invalid category name: 'dev lang'");
}

#[test]
fn test_slot_name_parse() {
    for name in ["0", "2", "foo", "2.30"] {
        assert_eq!(SlotName::new(name).unwrap().as_str(), name);
    }
}

#[test]
fn test_slot_name_rejects_invalid() {
    for name in ["", "*", "=", "2/3", "2="] {
        assert!(SlotName::new(name).is_err());
    }
}

#[test]
fn test_slot_parse() {
    for slot in ["0", "2", "2/3", "foo/bar"] {
        assert!(PackageSlot::new(slot).is_ok());
    }
}

#[test]
fn test_sub_slot() {
    let slot = PackageSlot::new("2").unwrap();
    assert_eq!(slot.slot().as_str(), "2");
    assert_eq!(slot.sub_slot().as_str(), "2");
    assert_eq!(slot.to_string(), "2");

    let slot = PackageSlot::new("2/2").unwrap();
    assert_eq!(slot.sub_slot().as_str(), "2");
    assert_eq!(slot.to_string(), "2/2");
}

#[test]
fn test_slot_display_sub_slot() {
    assert_eq!(PackageSlot::new("2/2.30").unwrap().to_string(), "2/2.30");
}

#[test]
fn test_slot_rejects_constraint() {
    for slot in ["*", "=", "2=", "2/3="] {
        assert!(PackageSlot::new(slot).is_err());
    }
}

#[test]
fn default_slot_is_zero() {
    assert_eq!(PackageSlot::default().to_string(), "0");
}

#[test]
fn test_slot_constraint_parse() {
    for (input, expected) in [
        ("*", SlotConstraint::Any),
        ("=", SlotConstraint::AnyRebuild),
        ("2", SlotConstraint::Slot(slot_name("2"))),
        ("2=", SlotConstraint::SlotRebuild(slot_name("2"))),
        ("2/3", SlotConstraint::SlotSubSlot(slot_name("2"), slot_name("3"))),
        (
            "2/3=",
            SlotConstraint::SlotSubSlotRebuild(slot_name("2"), slot_name("3")),
        ),
    ] {
        let constraint = SlotConstraint::new(input).unwrap();
        assert_eq!(constraint, expected);
        assert_eq!(constraint.to_string(), input);
    }
}

#[test]
fn test_slot_constraint_matches_implicit_sub_slot() {
    let slot = PackageSlot::new("15").unwrap();
    for constraint in ["15", "15=", "15/15", "15/15=", "*", "="] {
        assert!(SlotConstraint::new(constraint).unwrap().matches(&slot));
    }
    for constraint in ["14", "14=", "15/0", "15/0="] {
        assert!(!SlotConstraint::new(constraint).unwrap().matches(&slot));
    }
}

#[test]
fn test_slot_constraint_matches_explicit_sub_slot() {
    let slot = PackageSlot::new("15/16").unwrap();
    for constraint in ["15", "15=", "15/16", "15/16="] {
        assert!(SlotConstraint::new(constraint).unwrap().matches(&slot));
    }
    assert!(!SlotConstraint::new("15/15").unwrap().matches(&slot));
}

#[test]
fn test_slot_constraint_value_equality() {
    assert_ne!(SlotConstraint::Any, SlotConstraint::Slot(slot_name("15")));
}

#[test]
fn test_atom_parse() {
    for atom in [
        "dev-lang/rust",
        "*/*",
        "*/rust",
        "dev-lang/*",
        "dev-lang/rust:1.92.0",
        "cat/foo-r2",
        "cat/foo-::repo-",
        "net-misc/*:*::gentoo",
        "x11-drivers/nvidia-drivers:0/390",
        "sys-libs/glibc[audit,caps(-)]",
        "=sys-apps/memtest86+-7.2.0",
        "=cat/pkg-1-r2",
        ">=sys-apps/sed-4.8",
        "<net-misc/dhcp-3",
        "<=net-misc/dhcp-3.0_p2",
        ">dev-lang/python-3.14.3_beta-r2:3.14",
        "~dev-lang/rust-1.70.0:1.70.0/1::gentoo",
        ">=sys-libs/glibc-2.41-r10:2.2::gentoo[cet,clang]",
        "=dev-libs/glib-2*",
        "=dev-lang/rust-1.70*:1.70.0",
        "=kde-frameworks/kwindowsystem-6*:6/6.23::gentoo",
        "=app-arch/7zip-26*[rar]",
    ] {
        let parsed = Atom::new(atom).unwrap();
        assert_eq!(parsed.to_string(), atom);
    }
}

#[test]
fn test_atom_default() {
    assert_eq!(Atom::default().to_string(), "*/*");
}

#[test]
fn test_atom_matches_cpv() {
    let cpv = cpv("sys-devel", "gcc", "15.2.1_p20251122-r1");
    for atom in [
        "sys-devel/gcc",
        "=sys-devel/gcc-15*",
        "=sys-devel/gcc-15.2*",
        "=sys-devel/gcc-15.2.1*",
        "=sys-devel/gcc-15.2.1_p20251122-r1",
        ">sys-devel/gcc-15",
        ">=sys-devel/gcc-15.2.1",
        "<sys-devel/gcc-16",
        "<=sys-devel/gcc-15.2.2_p20260101",
        "~sys-devel/gcc-15.2.1_p20251122",
    ] {
        let parsed = Atom::new(atom).unwrap();
        assert!(parsed.matches(&cpv), "{atom} should match");
    }
}

#[test]
fn test_atom_excludes_cpv() {
    let cpv = cpv("sys-devel", "gcc", "15.2.1_p20251122-r1");
    for atom in [
        "sys-devel/binutils",
        "virtual/gcc",
        "<sys-devel/gcc-15",
        "<=sys-devel/gcc-15.2.1",
        ">sys-devel/gcc-16",
        ">=sys-devel/gcc-15.2.2_p20251122-r2",
        "=sys-devel/gcc-15.2.2",
        "=sys-devel/gcc-15.2.2*",
        "=sys-devel/gcc-15.2.1_p20260330",
        "~sys-devel/gcc-15.3",
        "~sys-devel/gcc-15",
        "~sys-devel/gcc-15.2",
        "~sys-devel/gcc-15.2.1",
        "~sys-devel/gcc-15.2.1_p20260101",
    ] {
        let parsed = Atom::new(atom).unwrap();
        assert!(!parsed.matches(&cpv), "{atom} shouldn't match");
    }
}

#[test]
fn test_atom_parse_error() {
    for atom in [
        "invalid-atom",
        "dev-lang/",
        "/rust",
        "x11-drivers/nvidia-drivers:0/",
        "<=net-misc/*-3.0_p2",
        ">=dev-lang/rust-",
        "dev-lang/rust-1.70.0",
        "cat/pkg-1",
        "cat/pkg-1-2",
        "cat/pkg-1-r2",
        "cat/pkg::repo-1",
        "=cat/pkg-1-2",
        "=cat/pkg-1-2*",
        "=dev-lang/rust-1.70.0_extra",
        "dev-lang/rust:::",
        "dev-lang/rust*",
        "=dev-lang/rust*",
        "=dev-lang/rust-1.*",
        "dev-lang/rust[]",
        "dev-lang/rust[,]",
        "=kde-frameworks/*-6*::gentoo",
    ] {
        assert!(Atom::new(atom).is_err(), "{atom}");
    }
}

#[test]
fn atom_error_messages() {
    assert_eq!(
        Atom::new("invalid-atom").unwrap_err().to_string(),
        "'invalid-atom' is not a valid atom"
    );
    assert_eq!(
        Atom::new("cat/pkg-1").unwrap_err().to_string(),
        "unable to parse atom 'cat/pkg-1'"
    );
}

#[test]
fn test_atom_qualified_name() {
    for (atom, expected) in [
        ("dev-lang/rust", "dev-lang/rust"),
        ("*/*", "*/*"),
        ("dev-lang/*", "dev-lang/*"),
        ("=dev-lang/rust-1", "dev-lang/rust"),
    ] {
        assert_eq!(Atom::new(atom).unwrap().qualified_name(), expected);
    }
}

#[test]
fn test_atom_use_deps() {
    let atom = Atom::new("cat/pkg[foo,-bar,!baz?,qux(-)=]").unwrap();
    assert_eq!(atom.to_string(), "cat/pkg[foo,-bar,!baz?,qux(-)=]");
    assert!(Atom::new("cat/pkg").unwrap().use_deps().is_empty());
    for atom in [
        "cat/pkg[]",
        "cat/pkg[foo,]",
        "cat/pkg[foo bar]",
        "cat/pkg[foo, -bar]",
        "cat/pkg[!foo]",
        "cat/pkg[-foo?]",
    ] {
        assert!(Atom::new(atom).is_err(), "{atom}");
    }
}

#[test]
fn atom_accessors() {
    let atom = Atom::new(">=sys-libs/glibc-2.41-r10:2.2::gentoo[cet,clang]").unwrap();
    assert_eq!(atom.category().unwrap().as_str(), "sys-libs");
    assert_eq!(atom.package().unwrap().as_str(), "glibc");
    assert_eq!(atom.repo().unwrap().as_str(), "gentoo");
    assert_eq!(atom.slot().unwrap().to_string(), "2.2");
    assert_eq!(atom.use_deps().len(), 2);
    let wild = Atom::new("*/*").unwrap();
    assert!(wild.category().is_none());
    assert!(wild.package().is_none());
}

#[test]
fn test_cpv_matches_atom_true() {
    let cpv = cpv("sys-devel", "gcc", "15.2.1_p20251122-r1");
    for atom in [
        "sys-devel/gcc",
        "=sys-devel/gcc-15*",
        "=sys-devel/gcc-15.2*",
        "=sys-devel/gcc-15.2.1*",
        "=sys-devel/gcc-15.2.1_p20251122-r1",
        ">sys-devel/gcc-15",
        ">=sys-devel/gcc-15.2.1",
        "<sys-devel/gcc-16",
        "<=sys-devel/gcc-15.2.2_p20260101",
        "~sys-devel/gcc-15.2.1_p20251122",
    ] {
        assert!(cpv.matches_atom(&Atom::new(atom).unwrap()), "{atom}");
    }
}

#[test]
fn test_cpv_matches_atom_false() {
    let cpv = cpv("sys-devel", "gcc", "15.2.1_p20251122-r1");
    for atom in [
        "sys-devel/binutils",
        "virtual/gcc",
        "<sys-devel/gcc-15",
        "<=sys-devel/gcc-15.2.1",
        ">sys-devel/gcc-16",
        ">=sys-devel/gcc-15.2.2_p20251122-r2",
        "=sys-devel/gcc-15.2.2",
        "=sys-devel/gcc-15.2.2*",
        "=sys-devel/gcc-15.2.1_p20260330",
        "~sys-devel/gcc-15.3",
        "~sys-devel/gcc-15",
        "~sys-devel/gcc-15.2",
        "~sys-devel/gcc-15.2.1",
        "~sys-devel/gcc-15.2.1_p20260101",
    ] {
        assert!(!cpv.matches_atom(&Atom::new(atom).unwrap()), "{atom}");
    }
}

#[test]
fn test_cpv_explicit_r0_formatting() {
    let cpv = cpv("dev-libs", "pkg", "1.0-r0");
    assert_eq!(cpv.fqn(), "dev-libs/pkg-1.0-r0");
    assert_eq!(cpv.to_string(), "dev-libs/pkg-1.0-r0");
    assert_eq!(cpv.pf(), "pkg-1.0-r0");
    assert_eq!(cpv.pvr(), "1.0-r0");
    assert_eq!(cpv.pr(), "r0");
}

#[test]
fn test_package_fmt() {
    let cpv = cpv("app-editors", "vim", "7.0.174-r1");
    assert_eq!(cpv.to_string(), "app-editors/vim-7.0.174-r1");
    assert_eq!(cpv.fqn(), "app-editors/vim-7.0.174-r1");
    assert_eq!(cpv.qualified_name(), "app-editors/vim");
    assert_eq!(cpv.p(), "vim-7.0.174");
    assert_eq!(cpv.pf(), "vim-7.0.174-r1");
    assert_eq!(cpv.pn(), "vim");
    assert_eq!(cpv.pv(), "7.0.174");
    assert_eq!(cpv.pr(), "r1");
    assert_eq!(cpv.pvr(), "7.0.174-r1");
}

#[test]
fn test_use_flag_display() {
    assert_eq!(UseFlag::parse("foo").unwrap().to_string(), "foo");
    assert_eq!(PrefixedUseFlag::new("-foo").unwrap().to_string(), "-foo");
}

#[test]
fn use_flag_rejects_empty() {
    assert_eq!(UseFlag::parse("").unwrap_err().to_string(), "use flag cannot be empty");
    assert!(PrefixedUseFlag::new("+").is_err());
}
