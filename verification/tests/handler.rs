use germ_core::eapi::Eapi;
use germ_core::ebuild::handler::env::EbuildEnv;
use germ_core::ebuild::handler::error::{FuncCallError, PhaseExecutionError};
use germ_core::ebuild::handler::functions::{die, resolve_eclass};
use germ_core::ebuild::handler::prot::func::{FuncCall, FuncType};
use germ_core::ebuild::handler::prot::ParentMessage;
use germ_core::ebuild::handler::{EbuildPhase, EbuildPhaseHandler, MessageOutcome};
use germ_core::ebuild::Ebuild;
use germ_core::makenv::MakeEnv;
use germ_core::package::cpv::CPV;
use germ_core::package::names::{CatName, PkgName};
use germ_core::package::version::PackageVersion;
use germ_core::repository::{Eclass, RepoName, Repository};

fn make_repo() -> Repository {
    Repository::new(
        RepoName::new("repo").unwrap(),
        "/var/db/repos/repo".to_owned(),
        vec![Eclass::new(
            "toolchain-funcs".to_owned(),
            "/var/db/repos/repo/eclass/toolchain-funcs.eclass".to_owned(),
        )],
        vec!["/var/db/repos/repo/eclass".to_owned()],
    )
}

fn make_cpv() -> CPV {
    CPV::new(
        CatName::new("app-editors").unwrap(),
        PkgName::new("vim").unwrap(),
        PackageVersion::try_from("1.2.3b_alpha4").unwrap(),
    )
}

fn with_handler(eapi: Eapi, test: impl FnOnce(&EbuildPhaseHandler)) {
    let repo = make_repo();
    let cpv = make_cpv();
    let ebuild = Ebuild {
        eapi,
        cpv: &cpv,
        repo: &repo,
        path: String::new(),
    };
    let handler = EbuildPhaseHandler::new(&ebuild, EbuildPhase::Depend, &MakeEnv::new()).unwrap();
    test(&handler);
}

#[test]
fn test_exec_ebuild_fn_ok() {
    // (func call, expected response)
    let test_data = [
        (
            FuncCall::from_raw("die", &["-n", "This is a non-fatal error"]).unwrap(),
            ParentMessage::Failure(None),
        ),
        (
            FuncCall::from_raw("die", &["This is a fatal error"]).unwrap(),
            ParentMessage::Die("This is a fatal error".into()),
        ),
        (
            FuncCall::from_raw("has", &["foo", "foo", "bar", "baz"]).unwrap(),
            ParentMessage::Success(None),
        ),
        (
            FuncCall::from_raw("ver_rs", &["1-2", "-", "1.2.3.4"]).unwrap(),
            ParentMessage::Success(Some("1-2-3.4".into())),
        ),
        (
            FuncCall::from_raw("ver_test", &["6.0", "-gt", "5.0"]).unwrap(),
            ParentMessage::Success(None),
        ),
    ];

    with_handler(Eapi::Eight, |handler| {
        for (func, response) in test_data {
            assert_eq!(handler.handle_request(func).unwrap(), response);
        }
    });
}

#[test]
fn test_func_invalid_args() {
    with_handler(Eapi::Eight, |handler| {
        let args = vec!["invalid".to_owned(), "-".to_owned()];
        let error = handler
            .handle_request(FuncCall {
                func: FuncType::VerRs,
                args: args.clone(),
            })
            .unwrap_err();

        assert!(matches!(
            error,
            PhaseExecutionError::FuncCall(FuncCallError::InvalidArgs {
                func: FuncType::VerRs,
                args: error_args,
                ..
            }) if error_args == args
        ));
    });
}

#[test]
fn test_func_unsupported() {
    with_handler(Eapi::Eight, |handler| {
        let error = handler
            .handle_request(FuncCall {
                func: FuncType::HasV,
                args: vec!["value".to_owned()],
            })
            .unwrap_err();

        assert!(matches!(
            error,
            PhaseExecutionError::FuncCall(FuncCallError::Unsupported {
                func: FuncType::HasV,
                eapi: Eapi::Eight,
            })
        ));
    });
}

#[test]
fn test_filter_var() {
    assert!(!EbuildEnv::filter_var("GZIP"));
    assert!(!EbuildEnv::filter_var("DEPEND"));
    assert!(!EbuildEnv::filter_var("USER"));
    assert!(!EbuildEnv::filter_var("BASH_FUNC____in_portage_iuse%%"));
    assert!(EbuildEnv::filter_var("LC_ALL"));
}

#[test]
fn test_resolve_eclass_found_and_missing() {
    let repo = make_repo();
    assert_eq!(
        resolve_eclass("toolchain-funcs", &repo).unwrap(),
        ParentMessage::Success(Some("/var/db/repos/repo/eclass/toolchain-funcs.eclass".to_owned()))
    );
    assert!(matches!(
        resolve_eclass("nope", &repo),
        Err(PhaseExecutionError::FuncCall(FuncCallError::EclassNotFound { name, .. })) if name == "nope"
    ));
}

#[test]
fn test_die_joins_arguments() {
    let args = vec!["a".to_owned(), "b c".to_owned()];
    assert_eq!(die(&args, true), ParentMessage::Die("a b c".to_owned()));
    assert_eq!(die(&args, false), ParentMessage::Failure(None));
}

#[test]
fn test_handle_message_call_and_data() {
    with_handler(Eapi::Eight, |handler| {
        match handler.handle_message(b"FN\0has\0x\0y\0x").unwrap() {
            MessageOutcome::Reply { bytes, die } => {
                assert_eq!(bytes, b"OK".to_vec());
                assert_eq!(die, None);
            }
            MessageOutcome::Data(_) => panic!("expected a reply"),
        }
        match handler.handle_message(b"DATA\0SLOT=0").unwrap() {
            MessageOutcome::Data(d) => assert_eq!(d, "SLOT=0"),
            MessageOutcome::Reply { .. } => panic!("expected data"),
        }
        match handler.handle_message(b"FN\0die\0boom").unwrap() {
            MessageOutcome::Reply { bytes, die } => {
                assert_eq!(bytes, b"DIE".to_vec());
                assert_eq!(die, Some("boom".to_owned()));
            }
            MessageOutcome::Data(_) => panic!("expected a reply"),
        }
    });
}

#[test]
fn test_env_contains_package_variables() {
    with_handler(Eapi::Eight, |handler| {
        assert_eq!(handler.env.get("PN"), Some("vim"));
        assert_eq!(handler.env.get("CATEGORY"), Some("app-editors"));
        assert_eq!(handler.env.get("PVR"), Some("1.2.3b_alpha4"));
        assert_eq!(handler.env.get("EBUILD_PHASE"), Some("depend"));
    });
}

#[test]
fn test_ebuild_env_sets_each_variable_once() {
    let repo = make_repo();
    let cpv = make_cpv();
    let ebuild = Ebuild { eapi: Eapi::Eight, cpv: &cpv, repo: &repo, path: "/x/vim-1.2.3b_alpha4.ebuild".to_owned() };
    let make = MakeEnv::from_content("PN=\"other\"\nLC_ALL=\"C\"\nLC_ALL=\"POSIX\"\nENV_UNSET=\"EBUILD_DEBUG\"").unwrap();
    let env = EbuildEnv::with_repo_paths(&ebuild, &EbuildPhase::Depend, &make, "'/a b'".to_owned());
    let names: Vec<&String> = env.vars().iter().map(|(n, _)| n).collect();
    for (i, n) in names.iter().enumerate() {
        assert!(!names[i + 1..].contains(n), "{n} is set twice");
    }
    assert_eq!(env.get("PORTAGE_ECLASS_LOCATIONS"), Some("'/a b'"));
    assert_eq!(env.get("PN"), Some("vim"));
    assert_eq!(env.get("LC_ALL"), Some("POSIX"));
    assert_eq!(env.get("EBUILD_DEBUG"), None);
    assert_eq!(env.get("EBUILD_PHASE"), Some("depend"));
}
