use germ_core::deps::atom::Atom;
use germ_core::deps::useflag::UseFlag;
use germ_core::files::entry::{Entry, FileEntry, Operation, Precedence, SysAtom};
use germ_core::files::linefile::LineEntries;
use germ_core::package::cpv::CPV;
use germ_core::package::metadata::{PackageMetadata, RawPackageMetadata};
use germ_core::package::names::{CatName, PkgName};
use germ_core::package::version::PackageVersion;
use germ_core::package::{Package, PackageView};
use germ_core::policy::pkgmask::{PackageMasks, PortageSource, RepositorySource};
use germ_core::repository::RepoName;
use germ_core::vdb::InstalledPackage;

fn model<T: FileEntry>(e: &Entry<T>) -> (usize, Operation, String) {
    (e.precedence().ordinal(), e.operation(), e.key())
}

fn models<T: FileEntry>(entries: LineEntries<T>) -> Vec<(usize, Operation, String)> {
    entries.into_iter().iter().map(model).collect()
}

fn cpv(category: &str, package: &str, version: &str) -> CPV {
    CPV::new(
        CatName::new(category).unwrap(),
        PkgName::new(package).unwrap(),
        PackageVersion::try_from(version).unwrap(),
    )
}

fn package_metadata(vars: &[(&str, &str)]) -> PackageMetadata {
    let mut values = vec![
        ("EAPI".to_owned(), "8".to_owned()),
        ("DESCRIPTION".to_owned(), "test".to_owned()),
        ("SLOT".to_owned(), "0".to_owned()),
    ];
    for (k, v) in vars {
        values.push((k.to_string(), v.to_string()));
    }
    PackageMetadata::from_raw(&RawPackageMetadata::new(values), None).unwrap()
}

fn entry<T: FileEntry>(value: &str, prec: Precedence) -> (usize, Operation, String) {
    model(&Entry::<T>::from_str(value, prec).unwrap())
}

#[test]
fn test_ordered_from_str_ok() {
    let e = Entry::<UseFlag>::from_str("foo", Precedence::User).unwrap();
    assert_eq!(e.precedence(), Precedence::User);
    assert_eq!(e.operation(), Operation::Apply);
    assert_eq!(e.inner().as_str(), UseFlag::parse("foo").unwrap().as_str());

    let e = Entry::<UseFlag>::from_str("-bar", Precedence::Repository).unwrap();
    assert_eq!(e.precedence(), Precedence::Repository);
    assert_eq!(e.operation(), Operation::Unset);
    assert_eq!(e.inner().as_str(), UseFlag::parse("bar").unwrap().as_str());
}

#[test]
fn test_sysatom_from_str_ok() {
    let atom = SysAtom::from_str("*sys-libs/glibc");
    assert!(atom.is_ok());
    assert!(SysAtom::from_str("sys-libs/glibc").is_err());
}

#[test]
fn linefile_test_from_string() {
    let content = "
            dev-libs/libffi # inline comment

            # this is a comment
            app-arch/xz-utils # added because of XY
            app-arch/zstd
            -app-arch/rpm # removal comment
        ";

    let file = LineEntries::<Atom>::from_string(content, Precedence::Repository).unwrap();
    assert_eq!(
        models(file),
        vec![
            entry::<Atom>("dev-libs/libffi", Precedence::Repository),
            entry::<Atom>("app-arch/xz-utils", Precedence::Repository),
            entry::<Atom>("app-arch/zstd", Precedence::Repository),
            entry::<Atom>("-app-arch/rpm", Precedence::Repository),
        ]
    );
}

#[test]
fn linefile_test_inherit_from() {
    let grand_parent = LineEntries::<Atom>::from_string(
        "
            dev-libs/libffi
            app-arch/xz-utils
            app-arch/zstd
            app-arch/rpm
        ",
        Precedence::Repository,
    )
    .unwrap();

    let parent = LineEntries::<Atom>::from_string(
        "
            -app-arch/rpm
            -sys-libs/glibc
            ",
        Precedence::Profile(0),
    )
    .unwrap();

    let mut child = LineEntries::<Atom>::from_string(
        "
            -app-arch/xz-utils
            app-arch/zstd
            app-arch/rpm
            -app-arch/rpm
            ",
        Precedence::Profile(1),
    )
    .unwrap();

    child.inherit_from(&parent.inherit(&grand_parent));

    assert_eq!(
        models(child),
        vec![
            entry::<Atom>("dev-libs/libffi", Precedence::Repository),
            entry::<Atom>("-sys-libs/glibc", Precedence::Profile(0)),
            entry::<Atom>("-app-arch/xz-utils", Precedence::Profile(1)),
            entry::<Atom>("app-arch/zstd", Precedence::Profile(1)),
            entry::<Atom>("-app-arch/rpm", Precedence::Profile(1)),
        ]
    );
}

#[test]
fn test_linefile_error_names_line() {
    let err = LineEntries::<Atom>::from_string("dev-libs/libffi\n\n# c\nnot an atom!\n", Precedence::User)
        .unwrap_err();
    assert_eq!(err.to_string(), "error in line 4: not an atom!");
}

#[test]
fn test_linefile_into_inner() {
    let file = LineEntries::<UseFlag>::from_string("foo\n-bar # x\n", Precedence::User).unwrap();
    let values: Vec<String> = file.into_inner().iter().map(|f| f.as_str().to_owned()).collect();
    assert_eq!(values, ["foo", "bar"]);
}

#[test]
fn pkgmask_test_is_masked() {
    let masks = PackageMasks::new(
        RepositorySource { mask: LineEntries::new(), unmask: LineEntries::new() },
        PortageSource {
            profile_mask: LineEntries::new(),
            profile_unmask: LineEntries::new(),
            local_mask: LineEntries::from_string(
                "dev-lang/rust
                        app-editors/vim",
                Precedence::User,
            )
            .unwrap(),
            local_unmask: LineEntries::from_string("=dev-lang/rust-1.50*", Precedence::User).unwrap(),
        },
    );

    let repo = RepoName::new("gentoo").unwrap();
    let rust_unmasked = Package::new(cpv("dev-lang", "rust", "1.50-r2"), repo.copy(), package_metadata(&[]));
    let rust_masked = Package::new(cpv("dev-lang", "rust", "1.60-r1"), repo.copy(), package_metadata(&[]));
    let vim = Package::new(cpv("app-editors", "vim", "8.2"), repo.copy(), package_metadata(&[]));
    let nano = Package::new(cpv("app-editors", "nano", "5.0"), repo, package_metadata(&[]));

    assert!(!masks.is_masked(&rust_unmasked));
    assert!(masks.is_masked(&rust_masked));
    assert!(masks.is_masked(&vim));
    assert!(!masks.is_masked(&nano));
}

#[test]
fn test_pkgmask_higher_mask_wins() {
    let masks = PackageMasks::new(
        RepositorySource {
            mask: LineEntries::new(),
            unmask: LineEntries::from_string("dev-lang/rust", Precedence::Repository).unwrap(),
        },
        PortageSource {
            profile_mask: LineEntries::new(),
            profile_unmask: LineEntries::new(),
            local_mask: LineEntries::from_string("dev-lang/rust", Precedence::User).unwrap(),
            local_unmask: LineEntries::new(),
        },
    );
    let repo = RepoName::new("gentoo").unwrap();
    let rust = Package::new(cpv("dev-lang", "rust", "1.0"), repo, package_metadata(&[]));
    assert!(masks.is_masked(&rust));
}

fn assert_package_view_matches_atoms<P: PackageView>(package: &P) {
    for atom in [
        "sys-devel/gcc",
        "sys-devel/gcc::gentoo",
        "=sys-devel/gcc-15*",
        "sys-devel/gcc:15",
        "sys-devel/gcc:15=",
        "sys-devel/gcc:15/15",
        "sys-devel/gcc:15/15=",
        "sys-devel/gcc:*",
        "sys-devel/gcc:=",
    ] {
        let atom = Atom::new(atom).unwrap();
        assert!(package.matches_atom(&atom), "{} should match", atom.to_string());
    }

    for atom in [
        "sys-devel/gcc::local",
        "sys-devel/binutils",
        "virtual/gcc",
        "<sys-devel/gcc-15",
        "sys-devel/gcc:14",
        "sys-devel/gcc:14=",
        "sys-devel/gcc:15/0",
        "sys-devel/gcc:15/0=",
    ] {
        let atom = Atom::new(atom).unwrap();
        assert!(!package.matches_atom(&atom), "{} shouldn't match", atom.to_string());
    }
}

#[test]
fn test_package_view_matches_repository_package() {
    let package = Package::new(
        cpv("sys-devel", "gcc", "15.2.1_p20251122-r1"),
        RepoName::new("gentoo").unwrap(),
        package_metadata(&[("SLOT", "15")]),
    );
    assert_package_view_matches_atoms(&package);
    assert_eq!(package.qualified_name(), "sys-devel/gcc");
}

#[test]
fn test_package_view_matches_installed_package() {
    let package = InstalledPackage::from_parts(
        cpv("sys-devel", "gcc", "15.2.1_p20251122-r1"),
        RepoName::new("gentoo").unwrap(),
        package_metadata(&[("SLOT", "15")]),
        Vec::default(),
    );
    assert_package_view_matches_atoms(&package);
    assert_eq!(package.qualified_name(), "sys-devel/gcc");
}

#[test]
fn test_package_display() {
    let package = Package::new(
        cpv("dev-lang", "rust", "1.98.1"),
        RepoName::new("gentoo").unwrap(),
        package_metadata(&[]),
    );
    assert_eq!(package.to_string(), "dev-lang/rust-1.98.1::gentoo");
}

#[test]
fn test_equal_versions_are_one_entry() {
    let repo = LineEntries::<Atom>::from_string("=dev-lang/rust-1.50", Precedence::Repository).unwrap();
    let profile = LineEntries::<Atom>::from_string("-=dev-lang/rust-1.50-r0", Precedence::Profile(0)).unwrap();
    let merged = models(profile.inherit(&repo));
    assert_eq!(merged.len(), 1);
    assert_eq!(merged[0].1, Operation::Unset);
    let a = Atom::new("=dev-lang/rust-01.50").unwrap();
    let b = Atom::new("=dev-lang/rust-1.50-r0").unwrap();
    let c = Atom::new("=dev-lang/rust-1.5").unwrap();
    assert_eq!(a.key_string(), b.key_string());
    assert_ne!(a.key_string(), c.key_string());
}
