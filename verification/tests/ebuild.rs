use germ_core::eapi::{Eapi, EapiError};
use germ_core::ebuild::{metadata_lines, Ebuild, EbuildError};
use germ_core::package::cpv::CPV;
use germ_core::package::names::{CatName, PkgName};
use germ_core::package::version::PackageVersion;
use germ_core::repository::{RepoName, Repository};

fn repo() -> Repository {
    Repository::new(RepoName::new("repo").unwrap(), "/repos/repo".to_owned(), vec![], vec![])
}

fn cpv(category: &str, package: &str, version: &str) -> CPV {
    CPV::new(
        CatName::new(category).unwrap(),
        PkgName::new(package).unwrap(),
        PackageVersion::try_from(version).unwrap(),
    )
}

#[test]
fn test_eapi_declarations() {
    for (line, expected) in [
        ("EAPI=7", Some("7")),
        ("  EAPI='7'", Some("7")),
        ("EAPI=\"7\" # comment", Some("7")),
        ("EAPI='7\"", None),
        ("EAPI=\"7'", None),
        ("EAPI = 7", None),
    ] {
        assert_eq!(Ebuild::parse_eapi_declaration(line).as_deref(), expected);
    }
}

#[test]
fn test_ebuild_without_eapi() {
    let contents = ["", "  # comment", "DESCRIPTION=missing", "EAPI="];
    let repo = repo();
    for (index, content) in contents.iter().enumerate() {
        let cpv = cpv("cat", "pkg", &(index + 1).to_string());
        assert!(matches!(
            Ebuild::new(&cpv, &repo, content).unwrap_err(),
            EbuildError::UnsupportedEapi(Eapi::Zero)
        ));
    }
}

#[test]
fn test_unrecognized_eapi() {
    let repo = repo();
    let cpv = cpv("cat", "pkg", "1");
    let err = Ebuild::new(&cpv, &repo, "EAPI=abc").unwrap_err();
    assert!(matches!(
        err,
        EbuildError::Eapi(EapiError::Unrecognized(value)) if value == "abc"
    ));
}

#[test]
fn test_unsupported_eapi() {
    let repo = repo();
    let cpv = cpv("cat", "pkg", "1");
    let err = Ebuild::new(&cpv, &repo, "EAPI=6").unwrap_err();
    assert!(matches!(err, EbuildError::UnsupportedEapi(Eapi::Six)));
}

#[test]
fn test_ebuild_eq() {
    let path = "/dev/null".to_owned();
    let cpv = cpv("cat", "pkg", "1");
    let repo = repo();
    let ebuild1 = Ebuild {
        path: path.clone(),
        eapi: Eapi::Eight,
        cpv: &cpv,
        repo: &repo,
    };
    let ebuild2 = Ebuild {
        path: path.clone(),
        eapi: Eapi::Eight,
        cpv: &cpv,
        repo: &repo,
    };
    assert_eq!(ebuild1, ebuild2);
}

#[test]
fn test_ebuild_new_ok_and_path() {
    let repo = repo();
    let cpv = cpv("cat", "pkg", "1.0-r1");
    let ebuild = Ebuild::new(&cpv, &repo, "# header\n\nEAPI=8\nSLOT=0\n").unwrap();
    assert_eq!(ebuild.eapi, Eapi::Eight);
    assert_eq!(ebuild.path, "/repos/repo/cat/pkg/pkg-1.0-r1.ebuild");
    assert_eq!(Ebuild::path_of(&cpv, &repo), "/repos/repo/cat/pkg/pkg-1.0-r1.ebuild");
}

#[test]
fn test_eapi_taken_from_first_code_line_only() {
    let repo = repo();
    let cpv = cpv("cat", "pkg", "1");
    // The declaration must be the first line that is not blank or a comment.
    let err = Ebuild::new(&cpv, &repo, "SLOT=0\nEAPI=8\n").unwrap_err();
    assert!(matches!(err, EbuildError::UnsupportedEapi(Eapi::Zero)));
}

#[test]
fn test_metadata_lines() {
    let lines = vec!["EAPI=8".to_owned(), " SLOT = 0/1 ".to_owned(), "DEPEND=a=b".to_owned()];
    let pairs = metadata_lines(&lines).unwrap();
    assert_eq!(
        pairs,
        vec![
            ("EAPI".to_owned(), "8".to_owned()),
            ("SLOT".to_owned(), "0/1".to_owned()),
            ("DEPEND".to_owned(), "a=b".to_owned())
        ]
    );
    let err = metadata_lines(&vec!["EAPI=8".to_owned(), "broken".to_owned()]).unwrap_err();
    assert_eq!(err.to_string(), "invalid metadata line: broken");
}
