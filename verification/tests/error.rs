use io_core::io::{Error, ErrorData, ErrorKind, SimpleMessage};
use io_core::sys::io::{decode_error_kind, error_string};

#[test]
fn test_debug_error() {
    let code = 6;
    let msg = error_string(code);
    let kind = decode_error_kind(code);
    let err = Error::new(ErrorKind::InvalidInput, Error::from_raw_os_error(code));
    let expected = format!(
        "Custom {{ kind: InvalidInput, error: Os {{ code: {:?}, kind: {:?}, message: {:?} }} }}",
        code, kind, msg
    );
    assert_eq!(format!("{err:?}"), expected);
}

#[test]
fn test_const() {
    let e: Error = Error::const_error(ErrorKind::NotFound, "hello");

    assert_eq!(e.kind(), ErrorKind::NotFound);
    assert_eq!(e.to_string(), "hello");
    assert!(format!("{e:?}").contains("\"hello\""));
    assert!(format!("{e:?}").contains("NotFound"));
}

#[test]
fn test_os_packing() {
    for code in -20..20 {
        let e = Error::from_raw_os_error(code);
        assert_eq!(e.raw_os_error(), Some(code));
        assert!(matches!(e.data(), ErrorData::Os(c) if c == code));
    }
}

#[test]
fn test_errorkind_packing() {
    assert_eq!(Error::from(ErrorKind::NotFound).kind(), ErrorKind::NotFound);
    assert_eq!(
        Error::from(ErrorKind::PermissionDenied).kind(),
        ErrorKind::PermissionDenied
    );
    assert_eq!(Error::from(ErrorKind::Uncategorized).kind(), ErrorKind::Uncategorized);
    // Check that the innards look like what we want.
    assert!(matches!(
        Error::from(ErrorKind::OutOfMemory).data(),
        ErrorData::Simple(ErrorKind::OutOfMemory)
    ));
}

#[test]
fn test_simple_message_packing() {
    let not_static = Error::const_error(ErrorKind::Uncategorized, "not a constant!");
    let e = &not_static;
    assert_eq!(e.kind(), ErrorKind::Uncategorized);
    assert!(format!("{e:?}").contains("not a constant!"));
    assert!(matches!(
        e.data(),
        ErrorData::SimpleMessage(SimpleMessage { kind: ErrorKind::Uncategorized, message: "not a constant!" })
    ));

    let constant = Error::const_error(ErrorKind::NotFound, "definitely a constant!");
    let e = &constant;
    assert_eq!(e.kind(), ErrorKind::NotFound);
    assert!(format!("{e:?}").contains("definitely a constant!"));
    assert!(matches!(
        e.data(),
        ErrorData::SimpleMessage(SimpleMessage { kind: ErrorKind::NotFound, message: "definitely a constant!" })
    ));

    let fixed = Error::const_error(ErrorKind::BrokenPipe, "a constant, sort of!");
    let e = &fixed;
    assert_eq!(e.kind(), ErrorKind::BrokenPipe);
    assert!(format!("{e:?}").contains("a constant, sort of!"));
    assert!(matches!(
        e.data(),
        ErrorData::SimpleMessage(SimpleMessage { kind: ErrorKind::BrokenPipe, message: "a constant, sort of!" })
    ));
}
