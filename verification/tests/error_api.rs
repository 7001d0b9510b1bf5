use io_core::io::{Error, ErrorData, ErrorKind, SimpleMessage};

#[test]
fn os_error_renders_code() {
    let e = Error::from_raw_os_error(6);
    assert_eq!(e.kind(), ErrorKind::Uncategorized);
    assert_eq!(e.to_string(), "operation successful (os error 6)");
    let e = Error::from_raw_os_error(-20);
    assert_eq!(e.to_string(), "operation successful (os error -20)");
    let e = Error::from_raw_os_error(i32::MIN);
    assert_eq!(e.to_string(), "operation successful (os error -2147483648)");
    let e = Error::from_raw_os_error(1234567);
    assert_eq!(e.to_string(), "operation successful (os error 1234567)");
    assert_eq!(Error::from_raw_os_error(0).to_string(), "operation successful (os error 0)");
}

#[test]
fn kind_error_renders_description() {
    assert_eq!(Error::from(ErrorKind::NotFound).to_string(), "entity not found");
    assert_eq!(Error::from(ErrorKind::Other).to_string(), "other error");
    assert_eq!(ErrorKind::WriteZero.as_str(), "write zero");
    assert_eq!(ErrorKind::Interrupted.as_str(), "operation interrupted");
}

#[test]
fn custom_error_wraps_inner_error() {
    let inner = Error::const_error(ErrorKind::NotFound, "missing piece");
    let e = Error::new(ErrorKind::InvalidData, inner);
    assert_eq!(e.kind(), ErrorKind::InvalidData);
    assert_eq!(e.to_string(), "missing piece");
    assert_eq!(e.raw_os_error(), None);
    assert_eq!(e.get_ref().map(|i| i.kind()), Some(ErrorKind::NotFound));
    assert!(matches!(e.data(), ErrorData::Custom(ErrorKind::InvalidData, _)));
    let inner = e.into_inner();
    assert_eq!(inner.map(|i| i.to_string()), Some("missing piece".to_string()));
}

#[test]
fn other_error_has_kind_other() {
    let e = Error::other(Error::from_raw_os_error(3));
    assert_eq!(e.kind(), ErrorKind::Other);
    assert_eq!(e.get_ref().and_then(|i| i.raw_os_error()), Some(3));
}

#[test]
fn non_custom_errors_wrap_nothing() {
    assert!(Error::from(ErrorKind::NotFound).get_ref().is_none());
    assert!(Error::from_raw_os_error(1).into_inner().is_none());
}

#[test]
fn interrupted_detection() {
    assert!(Error::from(ErrorKind::Interrupted).is_interrupted());
    assert!(Error::const_error(ErrorKind::Interrupted, "again").is_interrupted());
    assert!(Error::new(ErrorKind::Interrupted, Error::from(ErrorKind::Other)).is_interrupted());
    assert!(!Error::from(ErrorKind::Other).is_interrupted());
    assert!(!Error::from_raw_os_error(4).is_interrupted());
}

#[test]
fn static_message_error() {
    let msg = SimpleMessage { kind: ErrorKind::Other, message: "simple message error test" };
    let e = Error::from_static_message(&msg);
    assert_eq!(e.kind(), ErrorKind::Other);
    assert_eq!(e.to_string(), "simple message error test");
    assert_eq!(e.raw_os_error(), None);
}

#[test]
fn kind_decoded_applies_only_to_os_errors() {
    let os = Error::from_raw_os_error(4);
    assert_eq!(os.kind_decoded(ErrorKind::Interrupted), ErrorKind::Interrupted);
    assert!(os.is_interrupted_decoded(true));
    let simple = Error::from(ErrorKind::NotFound);
    assert_eq!(simple.kind_decoded(ErrorKind::Interrupted), ErrorKind::NotFound);
    assert!(!simple.is_interrupted_decoded(true));
}
