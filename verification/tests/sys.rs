use io_core::io::{Error, ErrorKind};
use io_core::sys::io::{decode_error_kind, errno, error_str, error_string, is_interrupted};
use io_core::sys::pipe::pipe;

#[test]
fn platform_without_os_reports_nothing() {
    assert_eq!(errno(), 0);
    assert!(!is_interrupted(4));
    assert_eq!(decode_error_kind(2), ErrorKind::Uncategorized);
    assert_eq!(error_string(2), "operation successful");
    assert_eq!(error_str(-1), "operation successful");
}

#[test]
fn pipe_is_unsupported() {
    match pipe() {
        Ok(_) => panic!("a pipe was created"),
        Err(e) => {
            assert_eq!(e.kind(), ErrorKind::Unsupported);
            assert_eq!(e.to_string(), "operation not supported on this platform");
            assert_eq!(e.raw_os_error(), None);
        }
    }
}

#[test]
fn unsupported_platform_error() {
    let e = Error::unsupported_platform();
    assert_eq!(e.kind(), ErrorKind::Unsupported);
    assert_eq!(e.to_string(), "operation not supported on this platform");
}
