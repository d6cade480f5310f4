use germ_core::deps::atom::Atom;
use germ_core::files::entry::{Operation, Precedence};
use germ_core::files::pkgfile::keywords::{KeywordRule, KeywordSpec, PackageAcceptKeywords};
use germ_core::files::pkgfile::{AtomPolicies, AtomPolicy};
use germ_core::keyword::KeywordSelector;
use germ_core::package::cpv::CPV;
use germ_core::package::metadata::{PackageMetadata, RawPackageMetadata};
use germ_core::package::names::{CatName, PkgName};
use germ_core::package::version::PackageVersion;
use germ_core::package::Package;
use germ_core::policy::keyword::{EffectiveKeywords, KeywordEvalResult};
use germ_core::repository::RepoName;
use germ_core::vdb::InstalledPackage;

/// A rule by its kind, precedence and, for a selector, its operation and text.
fn rule(r: &KeywordRule) -> (&'static str, usize, Option<(Operation, String)>) {
    match r {
        KeywordRule::Selector(e) => (
            "selector",
            e.precedence().ordinal(),
            Some((e.operation(), e.inner().to_string())),
        ),
        KeywordRule::AtomOnly(p) => ("atom-only", p.ordinal(), None),
        KeywordRule::Reset(p) => ("reset", p.ordinal(), None),
    }
}

fn selector(text: &str, prec: Precedence) -> (&'static str, usize, Option<(Operation, String)>) {
    let (op, body) = match text.strip_prefix('-') {
        Some(b) => (Operation::Unset, b),
        None => (Operation::Apply, text),
    };
    ("selector", prec.ordinal(), Some((op, body.to_owned())))
}

fn rules(spec: &KeywordSpec) -> Vec<(&'static str, usize, Option<(Operation, String)>)> {
    spec.rules().iter().map(rule).collect()
}

#[test]
fn test_keyword_spec_parse() {
    let spec = KeywordSpec::parse("amd64 ~arm64 * ~* ** -amd64 -~arm64 -~* -**", Precedence::User).unwrap();
    assert_eq!(
        rules(&spec),
        [
            selector("amd64", Precedence::User),
            selector("~arm64", Precedence::User),
            selector("*", Precedence::User),
            selector("~*", Precedence::User),
            selector("**", Precedence::User),
            selector("-amd64", Precedence::User),
            selector("-~arm64", Precedence::User),
            selector("-~*", Precedence::User),
            selector("-**", Precedence::User),
        ]
    );

    let spec = KeywordSpec::parse("amd64 -* ~arm64", Precedence::User).unwrap();
    assert_eq!(
        rules(&spec),
        [("reset", Precedence::User.ordinal(), None), selector("~arm64", Precedence::User)]
    );
}

#[test]
fn test_atom_only_defaults_testing() {
    let entries = PackageAcceptKeywords::from_content("net-analyzer/netcat", Precedence::User).unwrap();
    let rules = entries.into_rules();
    assert_eq!(rules.len(), 1);
    assert_eq!(rules[0].0.to_string(), Atom::new("net-analyzer/netcat").unwrap().to_string());
    assert_eq!(rule(&rules[0].1), ("atom-only", Precedence::User.ordinal(), None));
}

#[test]
fn test_duplicate_atom_reset() {
    let entries = PackageAcceptKeywords::from_content(
        r#"
                dev-lang/rust amd64
                dev-lang/rust -*
                dev-lang/rust ~amd64
            "#,
        Precedence::User,
    )
    .unwrap();
    let rules: Vec<_> = entries.into_rules().iter().map(|(_, r)| rule(r)).collect();
    assert_eq!(
        rules,
        [("reset", Precedence::User.ordinal(), None), selector("~amd64", Precedence::User)]
    );
}

#[test]
fn test_keyword_spec_inherit_reset() {
    let parent = PackageAcceptKeywords::from_content("dev-lang/rust amd64", Precedence::Profile(0)).unwrap();
    let mut child = PackageAcceptKeywords::from_content("dev-lang/rust -* ~amd64", Precedence::Profile(1)).unwrap();
    child.inherit_from(&parent);
    let rules: Vec<_> = child.into_rules().iter().map(|(_, r)| rule(r)).collect();
    assert_eq!(
        rules,
        [("reset", Precedence::Profile(1).ordinal(), None), selector("~amd64", Precedence::Profile(1))]
    );
}

#[test]
fn mod_test_from_string() {
    let policies = AtomPolicies::<KeywordSpec>::from_string(
        "
                # ignored
                dev-lang/rust first
                dev-lang/rust second # comment
                app-editors/vim third
            ",
        Precedence::User,
    )
    .unwrap();
    assert_eq!(
        rules(policies.get(&Atom::new("dev-lang/rust").unwrap()).unwrap()),
        [selector("first", Precedence::User), selector("second", Precedence::User)]
    );
    assert_eq!(
        rules(policies.get(&Atom::new("app-editors/vim").unwrap()).unwrap()),
        [selector("third", Precedence::User)]
    );
}

#[test]
fn mod_test_inherit_from() {
    let parent = AtomPolicies::<KeywordSpec>::from_string(
        "dev-lang/rust parent\napp-editors/vim inherited",
        Precedence::Profile(0),
    )
    .unwrap();
    let mut child = AtomPolicies::<KeywordSpec>::from_string(
        "dev-lang/rust child\napp-editors/nano own",
        Precedence::Profile(1),
    )
    .unwrap();
    child.inherit_from(&parent);
    assert_eq!(
        rules(child.get(&Atom::new("dev-lang/rust").unwrap()).unwrap()),
        [selector("parent", Precedence::Profile(0)), selector("child", Precedence::Profile(1))]
    );
    assert_eq!(
        rules(child.get(&Atom::new("app-editors/vim").unwrap()).unwrap()),
        [selector("inherited", Precedence::Profile(0))]
    );
}

#[test]
fn test_atom_policies_error_line() {
    let err = AtomPolicies::<KeywordSpec>::from_string("dev-lang/rust amd64\nnot/valid/atom x", Precedence::User)
        .unwrap_err();
    assert_eq!(err.to_string(), "error in line 2: not/valid/atom x");
}

fn cpv(category: &str, package: &str, version: &str) -> CPV {
    CPV::new(
        CatName::new(category).unwrap(),
        PkgName::new(package).unwrap(),
        PackageVersion::try_from(version).unwrap(),
    )
}

fn metadata(keywords: &str) -> PackageMetadata {
    let values = vec![
        ("EAPI".to_owned(), "8".to_owned()),
        ("DESCRIPTION".to_owned(), "test".to_owned()),
        ("SLOT".to_owned(), "0".to_owned()),
        ("KEYWORDS".to_owned(), keywords.to_owned()),
    ];
    PackageMetadata::from_raw(&RawPackageMetadata::new(values), None).unwrap()
}

fn policy(accept_keywords: &str, package_keywords: &str) -> EffectiveKeywords {
    EffectiveKeywords::new(
        accept_keywords
            .split_whitespace()
            .map(|s| KeywordSelector::from_str(s).unwrap())
            .collect(),
        PackageAcceptKeywords::from_string(package_keywords, Precedence::User).unwrap(),
    )
}

fn package<'a>(keywords: impl IntoIterator<Item = &'a str>) -> Package {
    let keywords: Vec<&str> = keywords.into_iter().collect();
    Package::new(
        cpv("dev-lang", "rust", "1.0"),
        RepoName::new("gentoo").unwrap(),
        metadata(&keywords.join(" ")),
    )
}

#[test]
fn test_policy_global_keywords() {
    let policy = policy("amd64 ~arm64", "");
    let test_cases = [
        ("amd64", KeywordEvalResult::new(true, true)),
        ("~arm64", KeywordEvalResult::new(true, false)),
        ("~amd64", KeywordEvalResult::new(false, false)),
    ];

    for (keyword, expected) in test_cases {
        let pkg = package([keyword]);
        assert_eq!(policy.evaluate(&pkg), expected);
    }
}

#[test]
fn test_policy_global_wildcards() {
    let test_cases = &[
        ("*", "amd64", KeywordEvalResult::new(true, true)),
        ("*", "~amd64", KeywordEvalResult::new(false, false)),
        ("~*", "~amd64", KeywordEvalResult::new(true, false)),
        ("~*", "amd64", KeywordEvalResult::new(false, false)),
        ("**", "", KeywordEvalResult::new(true, false)),
        ("**", "-amd64", KeywordEvalResult::new(true, false)),
    ];

    for &(accept_keywords, package_keywords, expected) in test_cases {
        let policy = policy(accept_keywords, "");
        let pkg = package(package_keywords.split_whitespace());
        assert_eq!(policy.evaluate(&pkg), expected);
    }
}

#[test]
fn test_policy_selector_reject() {
    let policy = policy("amd64", "dev-lang/rust -amd64");
    let pkg = package(["amd64"]);
    assert_eq!(policy.evaluate(&pkg), KeywordEvalResult::new(false, false));
}

#[test]
fn test_policy_reset_accept() {
    let policy = policy("amd64", "dev-lang/rust -* ~amd64");
    let pkg = package(["~amd64"]);
    assert_eq!(policy.evaluate(&pkg), KeywordEvalResult::new(true, false));
}

#[test]
fn test_policy_atom_order() {
    let keywords = policy(
        "",
        "*/* -~amd64
            dev-lang/rust ~amd64",
    );
    let pkg = package(["~amd64"]);
    assert_eq!(keywords.evaluate(&pkg), KeywordEvalResult::new(true, false));

    let keywords = policy(
        "",
        "dev-lang/rust ~amd64
            */* -~amd64",
    );
    let pkg = package(["~amd64"]);
    assert_eq!(keywords.evaluate(&pkg), KeywordEvalResult::new(false, false));
}

#[test]
fn test_policy_precedence() {
    let profile = PackageAcceptKeywords::from_string("dev-lang/rust amd64", Precedence::Profile(0)).unwrap();
    let user = PackageAcceptKeywords::from_string("*/* -amd64", Precedence::User).unwrap();
    let package_accept_keywords = user.inherit(&profile);
    let policy = EffectiveKeywords::new(Vec::default(), package_accept_keywords);

    let pkg = package(["amd64"]);
    assert_eq!(policy.evaluate(&pkg), KeywordEvalResult::new(false, false));
}

#[test]
fn test_policy_any() {
    let policy = policy("", "dev-lang/rust **");
    let test_cases = [
        ("", KeywordEvalResult::new(true, false)),
        ("-amd64", KeywordEvalResult::new(true, false)),
        ("-*", KeywordEvalResult::new(true, false)),
    ];

    for (package_keywords, expected) in test_cases {
        let pkg = package(package_keywords.split_whitespace());
        assert_eq!(policy.evaluate(&pkg), expected);
    }
}

#[test]
fn test_policy_installed_package() {
    let policy = policy("amd64", "");
    let pkg = InstalledPackage::from_parts(
        cpv("dev-lang", "rust", "1.0"),
        RepoName::new("gentoo").unwrap(),
        metadata("amd64"),
        Vec::new(),
    );
    assert_eq!(policy.evaluate(&pkg), KeywordEvalResult::new(true, true));
}

#[test]
fn test_policy_stable_keywords() {
    let keywords = policy("amd64 ~amd64", "");
    let pkg = package(["amd64"]);
    assert_eq!(keywords.evaluate(&pkg), KeywordEvalResult::new(true, false));

    let keywords = policy("amd64 ~arm64", "");
    let pkg = package(["amd64", "arm64"]);
    assert_eq!(keywords.evaluate(&pkg), KeywordEvalResult::new(true, false));

    let keywords = policy("amd64", "dev-lang/rust ~amd64");
    let pkg = package(["amd64"]);
    assert_eq!(keywords.evaluate(&pkg), KeywordEvalResult::new(true, false));
}

#[test]
fn test_policy_atom_only_accepts_testing() {
    let keywords = policy("amd64", "dev-lang/rust");
    let pkg = package(["~amd64"]);
    assert_eq!(keywords.evaluate(&pkg), KeywordEvalResult::new(true, false));
    let pkg = package(["~arm64"]);
    assert_eq!(keywords.evaluate(&pkg), KeywordEvalResult::new(false, false));
}
