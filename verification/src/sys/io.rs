//! Error decoding for platforms without an operating system to ask.

use vstd::prelude::*;

use crate::io::ErrorKind;

verus! {

/// The type of raw error codes reported by the operating system.
pub type RawOsError = i32;

/// The kind that the platform decodes from an error code: no code is categorized.
pub open spec fn os_kind(code: RawOsError) -> ErrorKind {
    ErrorKind::Uncategorized
}

/// The message that the platform decodes from an error code.
pub open spec fn os_message(code: RawOsError) -> Seq<char> {
    "operation successful"@
}

/// Returns the last error code reported by the platform: always 0.
pub fn errno() -> (r: i32)
    ensures
        r == 0,
{
    0
}

/// Returns whether an error code reports an interrupted operation: never.
pub fn is_interrupted(_code: i32) -> (r: bool)
    ensures
        !r,
{
    false
}

/// Returns the kind of an error code: always `Uncategorized`.
pub fn decode_error_kind(code: i32) -> (r: ErrorKind)
    ensures
        r == os_kind(code),
        r == ErrorKind::Uncategorized,
{
    ErrorKind::Uncategorized
}

/// Returns the message of an error code as an owned string.
pub fn error_string(errno: i32) -> (r: String)
    ensures
        r@ == os_message(errno),
{
    String::from_str("operation successful")
}

/// Returns the message of an error code.
pub fn error_str(errno: i32) -> (r: &'static str)
    ensures
        r@ == os_message(errno),
{
    "operation successful"
}

} // verus!
