use germ_core::deps::atom::Atom;
use germ_core::package::version::base::{NumberComponent, VersionNumber};
use germ_core::package::version::matching::matches_wildcard;
use germ_core::package::version::numeric::NumericComponent;
use germ_core::package::version::revision::PackageRevision;
use germ_core::package::version::suffix::{VersionSuffix, VersionSuffixes};
use germ_core::package::version::PackageVersion;
use std::cmp::Ordering;
use std::collections::hash_map::DefaultHasher;
use std::fmt::Debug;
use std::hash::{Hash, Hasher};

fn hash_of<T: Hash>(value: &T) -> u64 {
    let mut hasher = DefaultHasher::new();
    value.hash(&mut hasher);
    hasher.finish()
}

fn assert_eq_hash<T: Hash + PartialEq + Debug>(left: &T, right: &T) {
    assert_eq!(left, right);
    assert_eq!(hash_of(left), hash_of(right));
}

fn numeric(value: &str) -> NumericComponent {
    NumericComponent::new(value).unwrap()
}

fn version(value: &str) -> PackageVersion {
    PackageVersion::try_from(value).unwrap()
}

#[test]
fn test_numeric_component_parse() {
    let component = NumericComponent::new("000123").unwrap();
    assert_eq!(component.as_str(), "000123");
    assert_eq!(component.to_string(), "000123");
    assert_eq!(NumericComponent::new("456").unwrap().as_str(), "456");
}

#[test]
fn test_numeric_component_parse_error() {
    for value in ["", "+1", "-1", " 1", "1 ", "１２"] {
        assert!(NumericComponent::new(value).is_err());
    }
}

#[test]
fn test_numeric_component_equality() {
    for (left, right) in [("03", "3"), ("0", "000"), ("000123", "123")] {
        assert_eq_hash(&numeric(left), &numeric(right));
    }
}

#[test]
fn test_numeric_component_ordering() {
    let huge = numeric("999999999999999999999999999999999");
    let larger_huge = numeric("1999999999999999999999999999999999");
    assert!(huge < larger_huge);
}

#[test]
fn test_package_revision_equality() {
    let implicit = PackageRevision::new(None).unwrap();
    let explicit_zero = PackageRevision::new(Some("0")).unwrap();
    let padded = PackageRevision::new(Some("03")).unwrap();
    let canonical = PackageRevision::new(Some("3")).unwrap();
    let r9999 = PackageRevision::new(Some("999999999999999999999999999999999")).unwrap();

    assert_eq_hash(&implicit, &explicit_zero);
    assert_eq_hash(&padded, &canonical);
    assert!(implicit < canonical);
    assert!(canonical < r9999);
    assert_eq!(implicit.as_str(), None);
    assert_eq!(explicit_zero.as_str(), Some("0"));
    assert_eq!(padded.as_str(), Some("03"));
    assert_eq!(r9999.as_str(), Some("999999999999999999999999999999999"));
}

fn assert_number(input: &str, components: Vec<NumberComponent>, letter: Option<char>) {
    let parsed = VersionNumber::new(input).unwrap();
    assert_eq!(parsed.components(), &components);
    assert_eq!(parsed.letter(), letter);
    let rebuilt = VersionNumber::new(input).unwrap();
    assert_eq_hash(&parsed, &rebuilt);
}

#[test]
fn test_version_number_parse() {
    assert_number(
        "1.2.3a",
        vec![
            NumberComponent::Numeric(numeric("1")),
            NumberComponent::Numeric(numeric("2")),
            NumberComponent::Numeric(numeric("3")),
        ],
        Some('a'),
    );
    assert_number(
        "2.0.1",
        vec![
            NumberComponent::Numeric(numeric("2")),
            NumberComponent::Numeric(numeric("0")),
            NumberComponent::Numeric(numeric("1")),
        ],
        None,
    );
    assert_number(
        "1.2.03",
        vec![
            NumberComponent::Numeric(numeric("1")),
            NumberComponent::Numeric(numeric("2")),
            NumberComponent::Alphabetic("03".into()),
        ],
        None,
    );
    assert_number(
        "20251122",
        vec![NumberComponent::Numeric(numeric("20251122"))],
        None,
    );
    assert_eq_hash(
        &VersionNumber::new("1.030").unwrap(),
        &VersionNumber::new("1.03").unwrap(),
    );
}

#[test]
fn test_version_number_parse_error() {
    for version in ["", ".", "1..2", "1.2.3A", "1.2.3!"] {
        assert!(
            VersionNumber::new(version).is_err(),
            "Version '{version}' should be invalid"
        );
    }
}

#[test]
fn test_version_number_display() {
    for (input, expected) in [
        ("1.2.3a", "1.2.3a"),
        ("2.0.1", "2.0.1"),
        ("1.2.03", "1.2.03"),
        ("20251122", "20251122"),
    ] {
        assert_eq!(VersionNumber::new(input).unwrap().to_string(), expected);
    }
}

#[test]
fn test_number_component_ordering() {
    let alpha03 = NumberComponent::Alphabetic("03".into());
    let alpha3 = NumberComponent::Alphabetic("3".into());
    assert!(alpha03 < alpha3);
}

#[test]
fn test_number_component_display() {
    for (component, expected) in [
        (NumberComponent::Numeric(numeric("2")), "2"),
        (NumberComponent::Alphabetic("03".into()), "03"),
        (NumberComponent::Numeric(numeric("3")), "3"),
    ] {
        assert_eq!(component.to_string(), expected);
    }
}

#[test]
fn test_version_suffixes_parse() {
    let cases: Vec<(&str, Vec<VersionSuffix>)> = vec![
        ("", vec![]),
        ("_alpha", vec![VersionSuffix::Alpha(None)]),
        (
            "_alpha1_beta2",
            vec![
                VersionSuffix::Alpha(Some(numeric("1"))),
                VersionSuffix::Beta(Some(numeric("2"))),
            ],
        ),
        (
            "_pre_rc_p20230101",
            vec![
                VersionSuffix::Pre(None),
                VersionSuffix::Rc(None),
                VersionSuffix::Patch(Some(numeric("20230101"))),
            ],
        ),
    ];
    for (input, expected) in cases {
        let suffixes = VersionSuffixes::new(input).unwrap();
        assert_eq_hash(suffixes.iter(), &expected);
    }
}

#[test]
fn test_version_suffixes_parse_error() {
    assert!(VersionSuffixes::new("_alpha__beta").is_err());
}

#[test]
fn test_version_suffix_parse() {
    for (input, expected) in [
        ("alpha", VersionSuffix::Alpha(None)),
        ("alpha1", VersionSuffix::Alpha(Some(numeric("1")))),
        ("beta", VersionSuffix::Beta(None)),
        ("beta2", VersionSuffix::Beta(Some(numeric("2")))),
        ("pre", VersionSuffix::Pre(None)),
        ("pre3", VersionSuffix::Pre(Some(numeric("3")))),
        ("rc", VersionSuffix::Rc(None)),
        ("rc4", VersionSuffix::Rc(Some(numeric("4")))),
        ("p", VersionSuffix::Patch(None)),
        ("p20230101", VersionSuffix::Patch(Some(numeric("20230101")))),
        (
            "alpha999999999999999999999999",
            VersionSuffix::Alpha(Some(numeric("999999999999999999999999"))),
        ),
    ] {
        let suffix = VersionSuffix::new(input).unwrap();
        assert_eq_hash(&suffix, &expected);
    }
}

#[test]
fn test_version_suffix_parse_error() {
    for input in ["alph", "betaa", "prex", "rc!", "patch1", "unknown", "p-1"] {
        assert!(VersionSuffix::new(input).is_err());
    }
}

#[test]
fn test_version_suffix_equality() {
    assert_eq_hash(
        &VersionSuffix::Alpha(None),
        &VersionSuffix::Alpha(Some(numeric("0"))),
    );
}

#[test]
fn test_version_suffix_display() {
    for (suffix, expected) in [
        (VersionSuffix::Alpha(Some(numeric("1"))), "alpha1"),
        (VersionSuffix::Beta(None), "beta"),
        (VersionSuffix::Pre(Some(numeric("3"))), "pre3"),
        (VersionSuffix::Rc(None), "rc"),
        (VersionSuffix::Patch(Some(numeric("20231231"))), "p20231231"),
        (VersionSuffix::Patch(Some(numeric("01234"))), "p01234"),
        (
            VersionSuffix::Alpha(Some(numeric("999999999999999999999999"))),
            "alpha999999999999999999999999",
        ),
    ] {
        assert_eq!(suffix.to_string(), expected);
    }
}

#[test]
fn test_version_wildcard_matching() {
    let tests = [
        ("1_pre", "1_pre", true),
        ("1_pre", "1_pre1", true),
        ("1_pre", "1_pre10", true),
        ("1_pre", "1_rc1", false),
        ("1_pre", "1", false),
        ("1_alpha", "1_beta", false),
        ("1_pre1", "1_pre1", true),
        ("1_pre1", "1_pre", false),
        ("1_pre1", "1_pre0", false),
        ("1_pre1", "1_pre10", false),
        ("1_pre0", "1_pre", true),
        ("1_pre0", "1_pre0", true),
        ("1_pre0", "1_pre1", false),
        ("1_pre_beta", "1_pre_beta", true),
        ("1_pre_beta", "1_pre1_beta", false),
        ("1_pre0_beta", "1_pre_beta", true),
        ("1-r1", "1-r1", true),
        ("1-r1", "1-r11", false),
        ("1-r1", "1_alpha1", false),
        ("1-r0", "1", true),
        ("1-r0", "1-r0", true),
        ("1-r0", "1-r1", false),
        ("1-r0", "1_alpha", false),
        ("1.1", "1.1-r1", true),
        ("1.1", "1.10-r1", false),
        ("1", "1.1", true),
        ("15", "15.2.1a", true),
        ("15.2", "15.2.1a", true),
        ("15.2.1", "15.2.1a", true),
        ("15.2.1a", "15.2.1a", true),
        ("15.2.1b", "15.2.1a", false),
        ("15.2.2", "15.2.1a", false),
    ];
    for (wildcard, candidate, expected) in tests {
        assert_eq!(
            matches_wildcard(&version(wildcard), &version(candidate)),
            expected,
            "{wildcard} vs {candidate}"
        );
    }
}

#[test]
fn test_package_version_new() {
    let version = PackageVersion::new("2.0.1", Some("_beta2_p20240101"), Some("1")).unwrap();
    assert_eq!(version.to_string(), "2.0.1_beta2_p20240101-r1");
}

#[test]
fn test_package_version_ordering() {
    let cases = [
        ("1.2.03", "1.2.3", Ordering::Less),
        ("1.2.3", "1.2.4", Ordering::Less),
        ("1.2.3", "1.2.3a", Ordering::Less),
        ("1.2.3a", "1.2.3b", Ordering::Less),
        ("1.2.3b", "1.2.3.1", Ordering::Less),
        ("1.2.3.1", "1.2.4", Ordering::Less),
        ("1.2.4", "1.10.0", Ordering::Less),
        ("1.10.0", "1.10.0.1", Ordering::Less),
        ("1.10.0.1", "2.0", Ordering::Less),
        (
            "999999999999999999999999999999999",
            "1999999999999999999999999999999999",
            Ordering::Less,
        ),
        ("2.0", "20251122", Ordering::Less),
        ("1_alpha", "1_beta_p", Ordering::Less),
        ("1_beta", "1_alpha_p", Ordering::Greater),
        ("1_alpha_beta_p", "1_alpha", Ordering::Less),
        ("1_alpha", "1_alpha_p", Ordering::Less),
        ("1_alpha", "1_alpha0", Ordering::Equal),
        ("1", "1-r0", Ordering::Equal),
        ("1-r1", "1-r2", Ordering::Less),
    ];
    for (left, right, expected) in cases {
        assert_eq!(version(left).cmp(&version(right)), expected, "{left} vs {right}");
    }
}

#[test]
fn test_package_version_hash() {
    for (left, right) in [
        ("1", "01"),
        ("1.030", "1.03"),
        ("1_alpha01", "1_alpha1"),
        ("1_alpha", "1_alpha0"),
        ("1", "1-r0"),
        ("1-r03", "1-r3"),
    ] {
        assert_eq_hash(&version(left), &version(right));
    }
}

#[test]
fn test_package_version_parse() {
    for input in [
        "1",
        "1-r2",
        "1_alpha",
        "1_alpha0",
        "1.0.0",
        "1.0.0-r0",
        "1.2.3a_alpha1",
        "2.0.1_beta2_p20240101-r1",
        "1_alpha999999999999999999999999",
        "1-r999999999999999999999999999999999",
        "1_alpha999999999999999999999999-r999999999999999999999999999999999",
    ] {
        assert_eq!(version(input).to_string(), input);
    }
}

#[test]
fn test_package_version_parse_error() {
    for input in [
        "",
        "1.1.1aa",
        "0.33.1A",
        "1..0",
        "a.b.c",
        "20251212_ALPHA-r9999",
        "1.2.3a_unknownsuffix",
        "2.0.1_betaX-r1",
        "1.0.0-ra",
        "1.0.0-r",
        "1.0.0-r-1",
        "1.0.0:-r1",
    ] {
        assert!(PackageVersion::try_from(input).is_err(), "{input}");
    }
}

#[test]
fn test_package_version_revision_spelling() {
    let padded = PackageVersion::new("1.0.0", None, Some("0302")).unwrap();
    let canonical = PackageVersion::new("1.0.0", None, Some("302")).unwrap();
    assert_eq_hash(&padded, &canonical);
    assert_eq!(padded.pr(), "r0302");
    assert_eq!(padded.pvr(), "1.0.0-r0302");
}

#[test]
fn test_package_version_zero_revision() {
    let implicit = PackageVersion::new("1.0.0", None, None).unwrap();
    let explicit = PackageVersion::new("1.0.0", None, Some("0")).unwrap();
    assert_eq_hash(&implicit, &explicit);
    assert_eq!(implicit.pr(), "r0");
    assert_eq!(explicit.pr(), "r0");
    assert_eq!(implicit.pvr(), "1.0.0");
    assert_eq!(explicit.pvr(), "1.0.0-r0");
}

#[test]
fn test_package_version_wildcard_atom() {
    let version = PackageVersion::new("15.2.1a", None, None).unwrap();
    for (atom, expected) in [
        ("=dev-libs/pkg-15*", true),
        ("=dev-libs/pkg-15.2*", true),
        ("=dev-libs/pkg-15.2.1*", true),
        ("=dev-libs/pkg-15.2.1a*", true),
        ("=dev-libs/pkg-15.2.1b*", false),
        ("=dev-libs/pkg-15.2.2*", false),
    ] {
        assert_eq!(version.matches_atom(&Atom::new(atom).unwrap()), expected, "{atom}");
    }
}

#[test]
fn test_package_version_zero_revision_atom() {
    let version = PackageVersion::new("1.0.0", None, Some("0")).unwrap();
    for atom in ["=dev-libs/pkg-1.0.0", "=dev-libs/pkg-1.0.0-r0"] {
        assert!(version.matches_atom(&Atom::new(atom).unwrap()));
    }
}

#[test]
fn version_order_is_antisymmetric_on_examples() {
    let a = version("1.2_rc1-r1");
    let b = version("1.2_p1");
    assert_eq!(a.cmp(&b), Ordering::Less);
    assert_eq!(b.cmp(&a), Ordering::Greater);
    assert_eq!(a.cmp(&a), Ordering::Equal);
}

#[test]
fn test_numeric_order_is_value_order() {
    assert_eq!(numeric("03").order(&numeric("3")), 0);
    assert_eq!(numeric("0").order(&numeric("000")), 0);
    assert_eq!(numeric("000123").order(&numeric("123")), 0);
    assert_eq!(
        numeric("999999999999999999999999999999999").order(&numeric("1999999999999999999999999999999999")),
        -1
    );
    assert_eq!(numeric("10").order(&numeric("9")), 1);
}
