use germ_core::ebuild::handler::functions::version::{parse_range, ver_cut, ver_rs, ver_split, ver_test};
use germ_core::ebuild::handler::prot::ParentMessage;
use germ_core::package::cpv::CPV;
use germ_core::package::names::{CatName, PkgName};
use germ_core::package::version::PackageVersion;

fn make_cpv(category: &str, package: &str, version: PackageVersion) -> CPV {
    CPV::new(CatName::new(category).unwrap(), PkgName::new(package).unwrap(), version)
}


#[test]
fn test_ver_cut_ok() {
    // (range, version, expected output)
    let test_cases = [
        ("1", None, "1"),
        ("1-1", None, "1"),
        ("1-2", None, "1.2"),
        ("2-", None, "2.3b_alpha4"),
        ("1-", None, "1.2.3b_alpha4"),
        ("3-4", None, "3b"),
        ("5", None, "alpha"),
        ("1-2", Some(".1.2.3"), "1.2"),
        ("0-2", Some(".1.2.3"), ".1.2"),
        ("2-3", Some("1.2.3."), "2.3"),
        ("2-", Some("1.2.3."), "2.3."),
        ("2-4", Some("1.2.3."), "2.3."),
        // Special cases (out of bounds, ...)
        ("0-2", Some("1.2.3"), "1.2"),
        ("2-5", Some("1.2.3"), "2.3"),
        ("4", Some("1.2.3"), ""),
        ("0", Some("1.2.3"), ""),
        ("4-", Some("1.2.3"), ""),
    ];
    let cpv = make_cpv("app-editors", "vim", PackageVersion::new("1.2.3b", Some("_alpha4"), None).unwrap());
    for (range, version, expected) in test_cases {
        let response = ParentMessage::Success(Some(expected.to_owned()));
        assert_eq!(
            ver_cut(&cpv, range, version).unwrap_or_else(|_| panic!(
                "Failed for input range: {range}, version: {version:?}"
            )),
            response,
            "Failed for input range: {range}, version: {version:?}",
        );
    }
}

#[test]
fn test_ver_cut_err() {
    let pkg = make_cpv("app-editors", "vim", PackageVersion::new("1.2.3b", Some("_alpha4"), None).unwrap());
    let test_cases = ["-2", "3-2", "foo", "2-bar"];
    for range in test_cases {
        assert!(
            ver_cut(&pkg, range, None).is_err(),
            "Expected error for input range: {range}",
        );
    }
}

#[test]
fn test_ver_rs_ok() {
    // (args, expected output)
    let test_cases = [
        (vec!["1", "-", "1.2.3"], "1-2.3"),
        (vec!["2", "-", "1.2.3"], "1.2-3"),
        (vec!["1-2", "-", "1.2.3.4"], "1-2-3.4"),
        (vec!["2-", "-", "1.2.3.4"], "1.2-3-4"),
        (vec!["2", ".", "1.2-3"], "1.2.3"),
        (vec!["3", ".", "1.2.3a"], "1.2.3.a"),
        (vec!["2-3", "-", "1.2_alpha4"], "1.2-alpha-4"),
        (vec!["3", "-", "2", "", "1.2.3b_alpha4"], "1.23-b_alpha4"),
        (vec!["3-5", "_", "4-6", "-", "a1b2c3d4e5"], "a1b_2-c-3-d4e5"),
        (vec!["1", "-", ".1.2.3"], ".1-2.3"),
        (vec!["0", "-", ".1.2.3"], "-1.2.3"),
        // Special cases (out of bounds, ...)
        (vec!["0", "-", "1.2.3"], "1.2.3"),
        (vec!["3", ".", "1.2.3"], "1.2.3"),
        (vec!["3-", ".", "1.2.3"], "1.2.3"),
        (vec!["3-5", ".", "1.2.3"], "1.2.3"),
        (vec!["2-3", "-"], "1.2-alpha-4"),
    ];
    let cpv = make_cpv("app-editors", "vim", PackageVersion::new("1.2", Some("_alpha4"), None).unwrap());
    for (args, expected) in test_cases {
        let response = ParentMessage::Success(Some(expected.to_owned()));
        let args = args.into_iter().map(String::from).collect::<Vec<_>>();
        assert_eq!(
            ver_rs(&cpv, &args).unwrap_or_else(|_| panic!("Failed for input args: {args:?}")),
            response,
            "Failed for input args: {args:?}"
        );
    }
}

#[test]
fn test_ver_rs_err() {
    let pkg = make_cpv("app-editors", "vim", PackageVersion::new("1.2b", Some("_alpha4"), None).unwrap());
    let test_cases = [vec![], vec!["1"], vec!["foo", "-"]];
    for args in test_cases {
        let args = args.into_iter().map(String::from).collect::<Vec<_>>();
        assert!(
            ver_rs(&pkg, &args).is_err(),
            "Expected error for input args: {args:?}",
        );
    }
}

#[test]
#[allow(clippy::too_many_lines)]
fn test_ver_test_ok() {
    // (version1, op, version2, expected output)
    let test_cases = [
        (Some("6.0"), "-gt", "5.0", true),
        (Some("5.0"), "-gt", "5", true),
        (Some("1.0-r1"), "-gt", "1.0-r0", true),
        (
            Some("999999999999999999"),
            "-gt",
            "999999999999999998",
            true,
        ),
        (Some("1.0.0"), "-gt", "1.0", true),
        (Some("1.0.0"), "-gt", "1.0b", true),
        (Some("1b"), "-gt", "1", true),
        (Some("1b_p1"), "-gt", "1_p1", true),
        (Some("1.1b"), "-gt", "1.1", true),
        (Some("12.2.5"), "-gt", "12.2b", true),
        (Some("4.0"), "-lt", "5.0", true),
        (Some("5"), "-lt", "5.0", true),
        (Some("1.0_pre2"), "-lt", "1.0_p2", true),
        (Some("1.0_alpha2"), "-lt", "1.0_p2", true),
        (Some("1.0_alpha1"), "-lt", "1.0_beta1", true),
        (Some("1.0_beta3"), "-lt", "1.0_rc3", true),
        (
            Some("1.001000000000000001"),
            "-lt",
            "1.001000000000000002",
            true,
        ),
        (Some("1.00100000000"), "-lt", "1.001000000000000001", true),
        (
            Some("999999999999999998"),
            "-lt",
            "999999999999999999",
            true,
        ),
        (Some("1.01"), "-lt", "1.1", true),
        (Some("1.0-r0"), "-lt", "1.0-r1", true),
        (Some("1.0"), "-lt", "1.0-r1", true),
        (Some("1.0"), "-lt", "1.0.0", true),
        (Some("1.0b"), "-lt", "1.0.0", true),
        (Some("1_p1"), "-lt", "1b_p1", true),
        (Some("1"), "-lt", "1b", true),
        (Some("1.1"), "-lt", "1.1b", true),
        (Some("12.2b"), "-lt", "12.2.5", true),
        (Some("4.0"), "-eq", "4.0", true),
        (Some("1.0"), "-eq", "1.0", true),
        (Some("1.0-r0"), "-eq", "1.0", true),
        (Some("1.0"), "-eq", "1.0-r0", true),
        (Some("1.0-r0"), "-eq", "1.0-r0", true),
        (Some("1.0-r1"), "-eq", "1.0-r1", true),
        (Some("1"), "-eq", "2", false),
        (Some("1.0_alpha"), "-eq", "1.0_pre", false),
        (Some("1.0_beta"), "-eq", "1.0_alpha", false),
        (Some("1"), "-eq", "0.0", false),
        (Some("1.0-r0"), "-eq", "1.0-r1", false),
        (Some("1.0-r1"), "-eq", "1.0-r0", false),
        (Some("1.0"), "-eq", "1.0-r1", false),
        (Some("1.0-r1"), "-eq", "1.0", false),
        (Some("1.0"), "-eq", "1.0.0", false),
        (Some("1_p1"), "-eq", "1b_p1", false),
        (Some("1b"), "-eq", "1", false),
        (Some("1.1b"), "-eq", "1.1", false),
        (Some("12.2b"), "-eq", "12.2", false),
        (Some("1.0_alpha"), "-gt", "1_alpha", true),
        (Some("1.0_alpha"), "-gt", "1", true),
        (Some("1.0_alpha"), "-lt", "1.0", true),
        (Some("1.2.0.0_alpha7-r4"), "-gt", "1.2_alpha7-r4", true),
        (Some("0001"), "-eq", "1", true),
        (Some("01"), "-eq", "001", true),
        (Some("0001.1"), "-eq", "1.1", true),
        (Some("01.01"), "-eq", "1.01", true),
        (Some("1.010"), "-eq", "1.01", true),
        (Some("1.00"), "-eq", "1.0", true),
        (Some("1.0100"), "-eq", "1.010", true),
        (Some("1-r00"), "-eq", "1-r0", true),
        (Some("0_rc99"), "-lt", "0", true),
        (Some("011"), "-eq", "11", true),
        (Some("019"), "-eq", "19", true),
        (Some("1.2"), "-eq", "001.2", true),
        (Some("1.2"), "-gt", "1.02", true),
        (Some("1.2a"), "-lt", "1.2b", true),
        (Some("1.2_pre1"), "-gt", "1.2_pre1_beta2", true),
        (Some("1.2_pre1"), "-lt", "1.2_pre1_p2", true),
        (Some("1.00"), "-lt", "1.0.0", true),
        (Some("1.010"), "-eq", "1.01", true),
        (Some("1.01"), "-lt", "1.1", true),
        (Some("1.2_pre08-r09"), "-eq", "1.2_pre8-r9", true),
        (Some("0"), "-lt", "576460752303423488", true),
        (Some("0"), "-lt", "9223372036854775808", true),
        (None, "-eq", "1.0", true),
    ];

    let cpv = make_cpv("sys-apps", "coreutils", PackageVersion::new("1.0", None, None).unwrap());
    for (version1, op, version2, expected) in test_cases {
        let response = ParentMessage::from_bool(expected);
        assert_eq!(
            ver_test(&cpv, version1, op, version2).unwrap_or_else(|_| panic!(
                "Failed for input version1: {version1:?}, op: {op}, version2: {version2}"
            )),
            response,
            "Failed for input version1: {version1:?}, op: {op}, version2: {version2}"
        );
    }
}

#[test]
fn test_ver_test_err() {
    let cpv = make_cpv("sys-apps", "coreutils", PackageVersion::new("1.0", None, None).unwrap());
    let test_cases = [
        // Invalid argument order
        (Some("-lt"), "1", "2"),
        // Bad operators
        (Some("1"), "<", "2"),
        (Some("1"), "lt", "2"),
        (Some("1"), "-foo", "2"),
        // Malformed versions
        (Some(""), "-ne", "1"),
        (Some("1."), "-ne", "1"),
        (Some("1ab"), "-ne", "1"),
        (Some("b"), "-ne", "1"),
        (Some("1-r1_pre"), "-ne", "1"),
        (Some("1-pre1"), "-ne", "1"),
        (Some("1_foo"), "-ne", "1"),
        (Some("1_pre1.1"), "-ne", "1"),
        (Some("1-r1.0"), "-ne", "1"),
        (Some("cvs.9999"), "-ne", "9999"),
    ];
    for (version1, op, version2) in test_cases {
        assert!(
            ver_test(&cpv, version1, op, version2).is_err(),
            "Expected error for input version1: {version1:?}, op: {op}, version2: {version2}"
        );
    }
}

#[test]
fn test_ver_split() {
    let test_cases = [
        ("1.2.3.", vec![("", "1"), (".", "2"), (".", "3"), (".", "")]),
        ("2.0.1", vec![("", "2"), (".", "0"), (".", "1")]),
        (
            "1.3b_alpha4",
            vec![("", "1"), (".", "3"), ("", "b"), ("_", "alpha"), ("", "4")],
        ),
    ];
    for (input, expected) in test_cases {
        let expected_tuples: Vec<(String, String)> = expected
            .into_iter()
            .map(|(s1, s2)| (s1.to_owned(), s2.to_owned()))
            .collect();
        assert_eq!(ver_split(input), expected_tuples);
    }
}

#[test]
fn test_parse_range_ok() {
    let test_cases = [
        ("1-3", 5, (1, 3)),
        ("2-", 4, (2, 4)),
        ("2", 4, (2, 2)),
        ("1-7", 5, (1, 5)), // clamped to max
        ("5", 4, (5, 5)),   // a single number is not clamped
        ("5-", 4, (5, 4)),  // start is not clamped
    ];
    for (input, max, expected) in test_cases {
        assert_eq!(parse_range(input, max).unwrap(), expected);
    }
}

#[test]
fn test_parse_range_err() {
    let test_cases = ["-3", "5-3", "foo", "2-bar"];
    for input in test_cases {
        assert!(
            parse_range(input, 3).is_err(),
            "Expected error for input: {input}",
        );
    }
}

#[test]
fn test_ver_cut_uses_package_version() {
    let cpv = make_cpv("app-editors", "vim", PackageVersion::new("4.5.6", None, None).unwrap());
    assert_eq!(ver_cut(&cpv, "2", None).unwrap(), ParentMessage::Success(Some("5".to_owned())));
    assert_eq!(ver_cut(&cpv, "2", Some("7.8")).unwrap(), ParentMessage::Success(Some("8".to_owned())));
}

#[test]
fn test_ver_test_ne_ge_le() {
    let cpv = make_cpv("sys-apps", "coreutils", PackageVersion::new("1.0", None, None).unwrap());
    assert_eq!(ver_test(&cpv, Some("1.0"), "-ne", "1.1").unwrap(), ParentMessage::from_bool(true));
    assert_eq!(ver_test(&cpv, Some("1.0"), "-ge", "1.0").unwrap(), ParentMessage::from_bool(true));
    assert_eq!(ver_test(&cpv, Some("1.0"), "-le", "0.9").unwrap(), ParentMessage::from_bool(false));
    assert_eq!(ver_test(&cpv, None, "-lt", "2").unwrap(), ParentMessage::from_bool(true));
}

#[test]
fn test_ver_rs_keeps_letters_and_digits() {
    let cpv = make_cpv("app-editors", "vim", PackageVersion::new("1.2.3b", Some("_alpha4"), None).unwrap());
    let args = vec!["1-".to_owned(), "-".to_owned()];
    let reply = ver_rs(&cpv, &args).unwrap();
    assert_eq!(reply, ParentMessage::Success(Some("1-2-3-b-alpha-4".to_owned())));
    let args = vec!["2".to_owned(), "".to_owned(), "1.2.3".to_owned()];
    assert_eq!(ver_rs(&cpv, &args).unwrap(), ParentMessage::Success(Some("1.23".to_owned())));
}

#[test]
fn test_ver_test_operator_laws() {
    let cpv = make_cpv("app-editors", "vim", PackageVersion::try_from("1.0").unwrap());
    for (a, b) in [("1.2", "1.10"), ("1.0_rc1", "1.0"), ("2.0-r1", "2.0"), ("3", "3.0")] {
        let t = |x: &str, op: &str, y: &str| ver_test(&cpv, Some(x), op, y).unwrap() == ParentMessage::from_bool(true);
        assert_eq!(t(a, "-gt", b), t(b, "-lt", a));
        assert_eq!(t(a, "-lt", b), t(b, "-gt", a));
        assert_eq!(t(a, "-ne", b), !t(a, "-eq", b));
        assert_eq!(t(a, "-ge", b), t(a, "-gt", b) || t(a, "-eq", b));
        assert_eq!(t(a, "-le", b), t(a, "-lt", b) || t(a, "-eq", b));
        let count = [t(a, "-lt", b), t(a, "-eq", b), t(a, "-gt", b)].iter().filter(|x| **x).count();
        assert_eq!(count, 1);
    }
}
