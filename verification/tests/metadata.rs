use germ_core::eapi::Eapi;
use germ_core::keyword::{Keyword, KeywordSelector};
use germ_core::package::metadata::{MetaVar, PackageMetadata, PackageMetadataError, RawPackageMetadata};
use germ_core::repository::Arch;

fn raw(variables: &[(&'static str, &'static str)]) -> RawPackageMetadata {
    RawPackageMetadata::new(
        variables
            .iter()
            .map(|(k, v)| (k.to_string(), v.to_string()))
            .collect(),
    )
}

fn raw_metadata() -> RawPackageMetadata {
    raw(&[
        ("DEPEND", ""),
        (
            "RDEPEND",
            " \tpython_single_target_python3_11? ( \t\t\tdev-lang/python:3.11 \t\t)",
        ),
        ("SLOT", "0/0"),
        ("SRC_URI", "https://localhost/a https://localhost/b"),
        ("RESTRICT", ""),
        ("HOMEPAGE", "https://localhost"),
        ("LICENSE", "GPL-3"),
        ("PROPERTIES", "live test_network"),
        ("DESCRIPTION", "Example python package"),
        ("KEYWORDS", "amd64 ~arm64"),
        ("IUSE", "examples +ipv6"),
        ("REQUIRED_USE", "^^ ( python_single_target_python3_11 )"),
        ("PDEPEND", ""),
        (
            "BDEPEND",
            " \tpython_single_target_python3_11? ( \t dev-python/setuptools \t )",
        ),
        ("EAPI", "8"),
        ("DEFINED_PHASES", ""),
        ("IDEPEND", "dev-python/installer"),
        (
            "INHERITED",
            " bash-completion-r1 eapi9-ver edo linux-info systemd",
        ),
    ])
}

fn strings(v: &[String]) -> Vec<&str> {
    v.iter().map(|s| s.as_str()).collect()
}

#[test]
fn test_metadata_from_raw_ok() {
    let metadata = PackageMetadata::from_raw(&raw_metadata(), None).unwrap();
    assert_eq!(metadata.eapi(), Eapi::Eight);
    assert_eq!(metadata.description(), "Example python package");
    assert_eq!(strings(metadata.homepage()), ["https://localhost"]);
    assert_eq!(
        strings(metadata.src_uri()),
        ["https://localhost/a", "https://localhost/b"]
    );
    assert_eq!(strings(metadata.license()), ["GPL-3"]);
    assert_eq!(strings(metadata.properties()), ["live", "test_network"]);
    assert_eq!(
        metadata.keywords(),
        &[
            Keyword::Stable(Arch::new("amd64").unwrap()),
            Keyword::Testing(Arch::new("arm64").unwrap())
        ]
    );
    assert_eq!(
        strings(metadata.inherit()),
        [
            "bash-completion-r1",
            "eapi9-ver",
            "edo",
            "linux-info",
            "systemd"
        ]
    );
    assert_eq!(metadata.restrict().to_string(), "");
    assert!(metadata.defined_phases().is_empty());
    assert_eq!(
        metadata.iuse().iter().map(|e| e.to_string()).collect::<Vec<_>>(),
        ["examples", "+ipv6"]
    );
    assert_eq!(
        metadata.required_use().to_string(),
        "^^ ( python_single_target_python3_11 )"
    );
    assert_eq!(metadata.slot().to_string(), "0/0");
    assert_eq!(metadata.depend().to_string(), "");
    assert_eq!(
        metadata.bdepend().to_string(),
        "python_single_target_python3_11? ( dev-python/setuptools )"
    );
    assert_eq!(metadata.idepend().to_string(), "dev-python/installer");
    assert_eq!(metadata.pdepend().to_string(), "");
    assert_eq!(
        metadata.rdepend().to_string(),
        "python_single_target_python3_11? ( dev-lang/python:3.11 )"
    );
}

#[test]
fn test_metadata_from_raw_eapi_mismatch() {
    let variables = raw(&[
        ("EAPI", "7"),
        ("DESCRIPTION", "Test package"),
        ("SLOT", "0"),
    ]);
    assert!(matches!(
        PackageMetadata::from_raw(&variables, Some(Eapi::Eight)),
        Err(PackageMetadataError::EapiMismatch {
            expected: Eapi::Eight,
            found: Eapi::Seven
        })
    ));
}

#[test]
fn test_metadata_raw_eapi_7() {
    let variables = raw(&[
        ("EAPI", "7"),
        ("DESCRIPTION", "Test package"),
        ("SLOT", "0"),
        ("BDEPEND", "dev-python/setuptools"),
        ("IDEPEND", "("),
    ]);
    let metadata = PackageMetadata::from_raw(&variables, None).unwrap();
    assert_eq!(metadata.bdepend().to_string(), "dev-python/setuptools");
    assert_eq!(metadata.idepend().to_string(), "");
}

#[test]
fn test_metadata_raw_missing() {
    let variables = raw(&[("EAPI", "8"), ("DESCRIPTION", "Test package")]);
    assert!(matches!(
        PackageMetadata::from_raw(&variables, None),
        Err(PackageMetadataError::Missing(MetaVar::Slot))
    ));
}

#[test]
fn test_metadata_raw_empty() {
    let description = raw(&[("EAPI", "8"), ("DESCRIPTION", ""), ("SLOT", "0")]);
    assert!(matches!(
        PackageMetadata::from_raw(&description, None),
        Err(PackageMetadataError::Empty(MetaVar::Description))
    ));

    let slot = raw(&[("EAPI", "8"), ("DESCRIPTION", "Test package"), ("SLOT", "")]);
    assert!(matches!(
        PackageMetadata::from_raw(&slot, None),
        Err(PackageMetadataError::Empty(MetaVar::Slot))
    ));
}

#[test]
fn test_metadata_raw_invalid() {
    let slot = raw(&[
        ("EAPI", "8"),
        ("DESCRIPTION", "Test package"),
        ("SLOT", "invalid/slot/value"),
    ]);
    assert!(matches!(
        PackageMetadata::from_raw(&slot, None),
        Err(PackageMetadataError::Invalid {
            var: MetaVar::Slot,
            ..
        })
    ));

    let iuse = raw(&[
        ("EAPI", "8"),
        ("DESCRIPTION", "Test package"),
        ("SLOT", "0"),
        ("IUSE", "foo?"),
    ]);
    assert!(matches!(
        PackageMetadata::from_raw(&iuse, None),
        Err(PackageMetadataError::Invalid {
            var: MetaVar::IUse,
            ..
        })
    ));
}

#[test]
fn test_metadata_to_string_cache_lines() {
    let variables = raw(&[
        ("EAPI", "8"),
        ("DESCRIPTION", "Test package"),
        ("SLOT", "0"),
        ("KEYWORDS", "~amd64"),
    ]);
    let metadata = PackageMetadata::from_raw(&variables, Some(Eapi::Eight)).unwrap();
    let text = metadata.to_string();
    assert!(text.contains("DESCRIPTION=Test package\n"));
    assert!(text.contains("KEYWORDS=~amd64\n"));
    assert!(text.contains("SLOT=0\n"));
}

#[test]
fn test_metadata_last_value_wins() {
    let variables = raw(&[
        ("EAPI", "8"),
        ("DESCRIPTION", "first"),
        ("DESCRIPTION", "second"),
        ("SLOT", "0"),
    ]);
    let metadata = PackageMetadata::from_raw(&variables, None).unwrap();
    assert_eq!(metadata.description(), "second");
}

#[test]
fn test_keyword_valid() {
    let tests = [
        ("amd64", Keyword::Stable(Arch::new("amd64").unwrap())),
        ("~arm64", Keyword::Testing(Arch::new("arm64").unwrap())),
        ("-x86", Keyword::Unsupported(Arch::new("x86").unwrap())),
        ("-*", Keyword::UnlistedUnsupported),
    ];
    for (input, expected) in tests {
        assert_eq!(Keyword::from_str(input).unwrap(), expected);
    }
}

#[test]
fn test_keyword_invalid() {
    for input in ["", "!", "~", "-", "~~amd64", "-*x86"] {
        assert!(Keyword::from_str(input).is_err());
    }
}

#[test]
fn test_keyword_selector_match() {
    assert!(KeywordSelector::from_str("amd64").unwrap().matches(Some(&Keyword::from_str("amd64").unwrap())));
    assert!(KeywordSelector::from_str("~*").unwrap().matches(Some(&Keyword::from_str("~arm64").unwrap())));
    assert!(!KeywordSelector::from_str("*").unwrap().matches(Some(&Keyword::from_str("~amd64").unwrap())));
    assert!(!KeywordSelector::from_str("~*").unwrap().matches(Some(&Keyword::from_str("-amd64").unwrap())));
    assert!(KeywordSelector::from_str("**").unwrap().matches(Some(&Keyword::UnlistedUnsupported)));
    assert!(KeywordSelector::from_str("**").unwrap().matches(None));
}

#[test]
fn test_keyword_to_string_round_trip() {
    for input in ["amd64", "~arm64", "-x86", "-*"] {
        assert_eq!(Keyword::from_str(input).unwrap().to_string(), input);
    }
}
