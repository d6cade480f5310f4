use germ_core::error::Error;
use germ_core::makenv::name::EnvVarName;
use germ_core::makenv::value::EnvValue;
use germ_core::makenv::MakeEnv;

#[test]
fn test_makenv_from_content_ok() {
    let content = r#"
# This is a comment
USE="cet"

# Should result in BOOTSTRAP_USE="${BOOTSTRAP_USE} cet"
BOOTSTRAP_USE="${BOOTSTRAP_USE}
$USE"

# Should result in USE="cet -foo -bar"
USE="${USE} -foo"
USE="${USE} -bar"

enable_year2038="no"
        "#;
    let makenv = MakeEnv::from_content(content).unwrap();
    assert_eq!(makenv.get("USE").unwrap().to_string(), "cet -foo -bar");
    assert_eq!(
        makenv.get("BOOTSTRAP_USE").unwrap().to_string(),
        "${BOOTSTRAP_USE} cet"
    );
    assert_eq!(makenv.get("enable_year2038").unwrap().to_string(), "no");
}

#[test]
fn test_makenv_from_content_err() {
    assert!(MakeEnv::from_content("/VAR1=test").is_err());
}

#[test]
fn test_makenv_vars() {
    let makenv = MakeEnv::from_content("ARCH=amd64 USE=foo").unwrap();
    let mut vars = makenv
        .vars()
        .iter()
        .map(|(name, value)| (name.as_str(), value.to_string()))
        .collect::<Vec<_>>();
    vars.sort();
    assert_eq!(
        vars,
        [("ARCH", "amd64".to_owned()), ("USE", "foo".to_owned())]
    );
}

#[test]
fn test_makenv_expand_from() {
    let parent = MakeEnv::from_content("USE=foo").unwrap();
    let mut child = MakeEnv::from_content("USE=\"${USE} -foo\"").unwrap();
    child.expand_from(&parent);

    assert_eq!(
        child.get("USE").map(|v| v.to_string()),
        Some("foo -foo".into())
    );
}

#[test]
fn test_makenv_inherit_from() {
    let parent_content = r#"
        USE="cet -iconv"
        INPUT_DEVICES="libinput"
        "#;
    let child_content = r#"
        USE="${USE} seccomp branding -cet"
        GRUB_PLATFORM="efi-64"
        "#;
    let parent = MakeEnv::from_content(parent_content).unwrap();
    let mut child = MakeEnv::from_content(child_content).unwrap();
    child.inherit_from(&parent);
    assert_eq!(child.get("USE").unwrap().to_string(), "seccomp branding");
    assert_eq!(child.get("INPUT_DEVICES").unwrap().to_string(), "libinput");
    assert_eq!(child.get("GRUB_PLATFORM").unwrap().to_string(), "efi-64");
}

fn fold_contents(contents: &[&str]) -> Result<MakeEnv, Error> {
    let envs = contents
        .iter()
        .map(|content| MakeEnv::from_content(content))
        .collect::<Result<Vec<_>, _>>()
        .unwrap();
    let layers = envs.iter().collect::<Vec<_>>();
    MakeEnv::fold_with_use_expand(&layers)
}

#[test]
fn test_fold_with_use_expand_members() {
    let env = fold_contents(&[
        "USE_EXPAND='CAMERAS ROOT'
            USE_EXPAND_UNPREFIXED=ARCH
            CAMERAS=canon
            ROOT='-* root'
            ARCH='amd64 x86'",
        "CAMERAS='-canon ptp2'
            ROOT=desktop
            ARCH='-x86 arm64'",
    ])
    .unwrap();
    assert_eq!(env.get("CAMERAS").unwrap().to_string(), "ptp2");
    assert_eq!(env.get("ROOT").unwrap().to_string(), "root desktop");
    assert_eq!(env.get("ARCH").unwrap().to_string(), "amd64 arm64");
}

#[test]
fn test_fold_with_use_expand_readdition() {
    let env = fold_contents(&[
        "USE_EXPAND=CAMERAS CAMERAS=canon",
        "USE_EXPAND=-CAMERAS CAMERAS='-canon nikon'",
        "USE_EXPAND=CAMERAS CAMERAS=ptp2",
    ])
    .unwrap();
    assert_eq!(env.get("CAMERAS").unwrap().to_string(), "nikon ptp2");
}

#[test]
fn test_fold_with_use_expand_reference() {
    let env = fold_contents(&[
        "MEMBER_NAMES=CAMERAS CAMERAS=canon",
        "USE_EXPAND='${MEMBER_NAMES}' CAMERAS='-canon nikon'",
    ])
    .unwrap();
    assert_eq!(env.get("CAMERAS").unwrap().to_string(), "nikon");
}

#[test]
fn test_fold_with_use_expand_overlap() {
    assert!(fold_contents(&["USE_EXPAND=FOO USE_EXPAND_UNPREFIXED=FOO"]).is_err());
}

#[test]
fn test_env_name_valid() {
    for name in ["ARCH", "USE", "enable_year2038", "USE_EXPAND_VALUES_ARCH"] {
        let parsed = EnvVarName::new(name).unwrap();
        assert_eq!(parsed.as_str(), name);
    }
}

#[test]
fn test_env_name_invalid() {
    for name in ["", "-VAR", "1VAR", "/VAR1", "VAR-1", "VAR.1"] {
        assert!(EnvVarName::new(name).is_err(), "{name:?} should be invalid");
    }
}

#[test]
fn test_env_value_expand() {
    let vars = vec![
        (EnvVarName::new("VAR1").unwrap(), EnvValue::new("value1")),
        (EnvVarName::new("VAR2").unwrap(), EnvValue::new("value2")),
    ];
    let value = EnvValue::new("${VAR1} $VAR2 ${VAR3}");
    assert_eq!(value.expand_with(&vars).to_string(), "value1 value2 ${VAR3}");
}

#[test]
fn test_env_value_merge_incremental() {
    let parent = EnvValue::new("X branding -* asm accessibility");
    let mut child = EnvValue::new("blas -accessibility");
    child.inherit(&parent);
    assert_eq!(child.to_string(), "asm blas");
}

#[test]
fn test_env_value_normalize_idempotent() {
    let mut once = EnvValue::new("a -b b -* c -c d");
    once.normalize();
    let mut twice = once.copy();
    twice.normalize();
    assert_eq!(once.to_string(), twice.to_string());
    assert_eq!(once.to_string(), "d");
}

#[test]
fn test_makenv_later_assignment_wins() {
    let env = MakeEnv::from_content("A=1 B=2 A=3").unwrap();
    assert_eq!(env.get("A").unwrap().to_string(), "3");
    assert_eq!(env.vars().len(), 2);
    assert!(env.get("C").is_none());
}
