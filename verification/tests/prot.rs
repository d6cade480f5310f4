use germ_core::ebuild::handler::prot::func::{FuncCall, FuncType};
use germ_core::ebuild::handler::prot::{ChildMessage, ParentMessage, ProtocolError};

#[test]
fn test_child_message_from_bytes_ok() {
    // (raw data, expected message)
    let test_data = [
        (
            "FN\x00ver_rs\x001-\x00' '",
            ChildMessage::Call(FuncCall {
                func: FuncType::VerRs,
                args: vec!["1-".to_owned(), "' '".to_owned()],
            }),
        ),
        (
            "FN\x00ver_test\x006.0\x00-gt\x005.0",
            ChildMessage::Call(FuncCall {
                func: FuncType::VerTest,
                args: vec!["6.0".to_owned(), "-gt".to_owned(), "5.0".to_owned()],
            }),
        ),
        (
            "DATA\x00LICENSE=PSF-2",
            ChildMessage::Data("LICENSE=PSF-2".to_owned()),
        ),
        (
            "DATA\x00IUSE=static-libs tcpd usbip",
            ChildMessage::Data("IUSE=static-libs tcpd usbip".to_owned()),
        ),
    ];

    for (data, expected_msg) in test_data {
        let msg = ChildMessage::from_bytes(data.as_bytes()).unwrap();
        assert_eq!(msg, expected_msg);
    }
}

#[test]
fn test_child_message_from_bytes_invalid_request() {
    assert!(matches!(
        ChildMessage::from_bytes(b"FOO\0bar\0baz"),
        Err(ProtocolError::InvalidRequest(request)) if request == "FOO\0bar\0baz"
    ));
}

#[test]
fn test_child_message_from_bytes_invalid_utf8() {
    assert!(matches!(
        ChildMessage::from_bytes(&[0xff]),
        Err(ProtocolError::InvalidUtf8(_))
    ));
}

#[test]
fn test_child_message_from_bytes_missing_function() {
    assert!(matches!(
        ChildMessage::from_bytes(b"FN\0"),
        Err(ProtocolError::MissingFunction)
    ));
}

#[test]
fn test_child_message_from_bytes_unknown_function() {
    assert!(matches!(
        ChildMessage::from_bytes(b"FN\0unknown"),
        Err(ProtocolError::UnknownFunction { func }) if func == "unknown"
    ));
}

#[test]
fn test_parent_message_into_bytes() {
    // (message, expected bytes)
    let test_data = [
        (ParentMessage::Success(None), "OK".as_bytes()),
        (
            ParentMessage::Success(Some("1.2.3".to_owned())),
            "OK 1.2.3".as_bytes(),
        ),
        (ParentMessage::Failure(None), "ERR".as_bytes()),
        (
            ParentMessage::Failure(Some("fatal error".to_owned())),
            "ERR fatal error".as_bytes(),
        ),
        (ParentMessage::Die("fatal error".into()), "DIE".as_bytes()),
    ];

    for (msg, expected_bytes) in test_data {
        let bytes = msg.into_bytes();
        assert_eq!(bytes, expected_bytes);
    }
}

#[test]
fn test_func_call_from_raw() {
    // (func, args), (expected func, expected args)
    let test_data = [
        (
            ("__resolve_eclass", vec!["toolchain-funcs"]),
            (FuncType::ResolveEclass, vec!["toolchain-funcs"]),
        ),
        (
            ("debug-print", vec!["*** Multiple Inheritance (Level: 2)"]),
            (
                FuncType::DebugPrint,
                vec!["*** Multiple Inheritance (Level: 2)"],
            ),
        ),
    ];

    for ((func, args), (expected_func, expected_args)) in test_data {
        let call = FuncCall::from_raw(func, &args).unwrap();
        assert_eq!(call.func, expected_func);
        assert_eq!(call.args, expected_args);
    }
}

#[test]
fn test_func_call_display() {
    let call = FuncCall {
        func: FuncType::Has,
        args: vec!["foo".to_owned(), "bar".to_owned()],
    };
    assert_eq!(call.to_string(), "has foo bar");
}

#[test]
fn test_func_call_from_raw_unknown() {
    assert!(matches!(
        FuncCall::from_raw("nope", &[]),
        Err(ProtocolError::UnknownFunction { func }) if func == "nope"
    ));
}

#[test]
fn test_parent_message_text_and_status() {
    assert_eq!(ParentMessage::Success(Some("x".to_owned())).to_string(), "OK x");
    assert_eq!(ParentMessage::from_bool(true), ParentMessage::Success(None));
    assert_eq!(ParentMessage::from_bool(false), ParentMessage::Failure(None));
}

#[test]
fn test_child_message_display() {
    let msg = ChildMessage::from_bytes(b"FN\0has\0a\0b").unwrap();
    assert_eq!(msg.to_string(), "has a b");
    let data = ChildMessage::from_bytes(b"DATA\0K=V").unwrap();
    assert_eq!(data.to_string(), "K=V");
}
