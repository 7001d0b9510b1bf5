use vstd::prelude::*;

use crate::sys::io::{decode_error_kind, error_string, is_interrupted, os_kind, os_message, RawOsError};

verus! {

/// A list specifying general categories of I/O error.
#[derive(Clone, Copy, Debug, PartialEq, Eq, Structural, Hash)]
pub enum ErrorKind {
    /// An entity was not found, often a file.
    NotFound,
    /// The operation lacked the necessary privileges to complete.
    PermissionDenied,
    /// The connection was refused by the remote server.
    ConnectionRefused,
    /// The connection was reset by the remote server.
    ConnectionReset,
    /// The remote host is not reachable.
    HostUnreachable,
    /// The network containing the remote host is not reachable.
    NetworkUnreachable,
    /// The connection was aborted by the remote server.
    ConnectionAborted,
    /// The network operation failed because it was not connected yet.
    NotConnected,
    /// A socket address could not be bound because the address is already in use elsewhere.
    AddrInUse,
    /// A nonexistent interface was requested or the requested address was not local.
    AddrNotAvailable,
    /// The system's networking is down.
    NetworkDown,
    /// The operation failed because a pipe was closed.
    BrokenPipe,
    /// An entity already exists, often a file.
    AlreadyExists,
    /// The operation needs to block to complete, but the blocking operation was requested to
    /// not occur.
    WouldBlock,
    /// A filesystem object is, unexpectedly, not a directory.
    NotADirectory,
    /// The filesystem object is, unexpectedly, a directory.
    IsADirectory,
    /// A non-empty directory was specified where an empty directory was expected.
    DirectoryNotEmpty,
    /// The filesystem or storage medium is read-only, but a write operation was attempted.
    ReadOnlyFilesystem,
    /// Loop in the filesystem or IO subsystem; often, too many levels of symbolic links.
    FilesystemLoop,
    /// Stale network file handle.
    StaleNetworkFileHandle,
    /// A parameter was incorrect.
    InvalidInput,
    /// Data not valid for the operation were encountered.
    InvalidData,
    /// The I/O operation's timeout expired, causing it to be canceled.
    TimedOut,
    /// An error returned when an operation could not be completed because a call to `write`
    /// returned `Ok(0)`.
    WriteZero,
    /// The underlying storage is full.
    StorageFull,
    /// Seek on unseekable file.
    NotSeekable,
    /// Filesystem quota or some other kind of quota was exceeded.
    QuotaExceeded,
    /// File larger than allowed or supported.
    FileTooLarge,
    /// Resource is busy.
    ResourceBusy,
    /// Executable file is busy.
    ExecutableFileBusy,
    /// Deadlock (avoided).
    Deadlock,
    /// Cross-device or cross-filesystem (hard) link or rename.
    CrossesDevices,
    /// Too many (hard) links to the same filesystem object.
    TooManyLinks,
    /// A filename was invalid.
    InvalidFilename,
    /// Program argument list too long.
    ArgumentListTooLong,
    /// This operation was interrupted.
    Interrupted,
    /// This operation is unsupported on this platform.
    Unsupported,
    /// An error returned when an operation could not be completed because an "end of file"
    /// was reached prematurely.
    UnexpectedEof,
    /// An operation could not be completed, because it failed to allocate enough memory.
    OutOfMemory,
    /// The operation was partially successful and needs to be checked later on due to not
    /// blocking.
    InProgress,
    /// A custom error that does not fall under any other I/O error kind.
    Other,
    /// Any I/O error from the standard library that's not part of this list.
    Uncategorized,
}

/// The description of an error kind, as `ErrorKind::as_str` returns it.
pub open spec fn kind_text(kind: ErrorKind) -> Seq<char> {
    match kind {
        ErrorKind::NotFound => "entity not found"@,
        ErrorKind::PermissionDenied => "permission denied"@,
        ErrorKind::ConnectionRefused => "connection refused"@,
        ErrorKind::ConnectionReset => "connection reset"@,
        ErrorKind::HostUnreachable => "host unreachable"@,
        ErrorKind::NetworkUnreachable => "network unreachable"@,
        ErrorKind::ConnectionAborted => "connection aborted"@,
        ErrorKind::NotConnected => "not connected"@,
        ErrorKind::AddrInUse => "address in use"@,
        ErrorKind::AddrNotAvailable => "address not available"@,
        ErrorKind::NetworkDown => "network down"@,
        ErrorKind::BrokenPipe => "broken pipe"@,
        ErrorKind::AlreadyExists => "entity already exists"@,
        ErrorKind::WouldBlock => "operation would block"@,
        ErrorKind::NotADirectory => "not a directory"@,
        ErrorKind::IsADirectory => "is a directory"@,
        ErrorKind::DirectoryNotEmpty => "directory not empty"@,
        ErrorKind::ReadOnlyFilesystem => "read-only filesystem or storage medium"@,
        ErrorKind::FilesystemLoop => "filesystem loop or indirection limit (e.g. symlink loop)"@,
        ErrorKind::StaleNetworkFileHandle => "stale network file handle"@,
        ErrorKind::InvalidInput => "invalid input parameter"@,
        ErrorKind::InvalidData => "invalid data"@,
        ErrorKind::TimedOut => "timed out"@,
        ErrorKind::WriteZero => "write zero"@,
        ErrorKind::StorageFull => "no storage space"@,
        ErrorKind::NotSeekable => "seek on unseekable file"@,
        ErrorKind::QuotaExceeded => "quota exceeded"@,
        ErrorKind::FileTooLarge => "file too large"@,
        ErrorKind::ResourceBusy => "resource busy"@,
        ErrorKind::ExecutableFileBusy => "executable file busy"@,
        ErrorKind::Deadlock => "deadlock"@,
        ErrorKind::CrossesDevices => "cross-device link or rename"@,
        ErrorKind::TooManyLinks => "too many links"@,
        ErrorKind::InvalidFilename => "invalid filename"@,
        ErrorKind::ArgumentListTooLong => "argument list too long"@,
        ErrorKind::Interrupted => "operation interrupted"@,
        ErrorKind::Unsupported => "unsupported"@,
        ErrorKind::UnexpectedEof => "unexpected end of file"@,
        ErrorKind::OutOfMemory => "out of memory"@,
        ErrorKind::InProgress => "in progress"@,
        ErrorKind::Other => "other error"@,
        ErrorKind::Uncategorized => "uncategorized error"@,
    }
}

/// Three characteristics of a text: its length, its first character and its third
/// character from the end.
pub open spec fn text_fingerprint(s: Seq<char>) -> (nat, char, char) {
    (s.len(), s[0], s[s.len() - 3])
}

/// The error kind whose description has the fingerprint `fp`, if one does.
pub open spec fn kind_of_fingerprint(fp: (nat, char, char)) -> Option<ErrorKind> {
    if fp == (16nat, 'e', 'u') {
        Some(ErrorKind::NotFound)
    } else if fp == (17nat, 'p', 'i') {
        Some(ErrorKind::PermissionDenied)
    } else if fp == (18nat, 'c', 's') {
        Some(ErrorKind::ConnectionRefused)
    } else if fp == (16nat, 'c', 's') {
        Some(ErrorKind::ConnectionReset)
    } else if fp == (16nat, 'h', 'b') {
        Some(ErrorKind::HostUnreachable)
    } else if fp == (19nat, 'n', 'b') {
        Some(ErrorKind::NetworkUnreachable)
    } else if fp == (18nat, 'c', 't') {
        Some(ErrorKind::ConnectionAborted)
    } else if fp == (13nat, 'n', 't') {
        Some(ErrorKind::NotConnected)
    } else if fp == (14nat, 'a', 'u') {
        Some(ErrorKind::AddrInUse)
    } else if fp == (21nat, 'a', 'b') {
        Some(ErrorKind::AddrNotAvailable)
    } else if fp == (12nat, 'n', 'o') {
        Some(ErrorKind::NetworkDown)
    } else if fp == (11nat, 'b', 'i') {
        Some(ErrorKind::BrokenPipe)
    } else if fp == (21nat, 'e', 's') {
        Some(ErrorKind::AlreadyExists)
    } else if fp == (21nat, 'o', 'o') {
        Some(ErrorKind::WouldBlock)
    } else if fp == (15nat, 'n', 'o') {
        Some(ErrorKind::NotADirectory)
    } else if fp == (14nat, 'i', 'o') {
        Some(ErrorKind::IsADirectory)
    } else if fp == (19nat, 'd', 'p') {
        Some(ErrorKind::DirectoryNotEmpty)
    } else if fp == (38nat, 'r', 'i') {
        Some(ErrorKind::ReadOnlyFilesystem)
    } else if fp == (56nat, 'f', 'o') {
        Some(ErrorKind::FilesystemLoop)
    } else if fp == (25nat, 's', 'd') {
        Some(ErrorKind::StaleNetworkFileHandle)
    } else if fp == (23nat, 'i', 't') {
        Some(ErrorKind::InvalidInput)
    } else if fp == (12nat, 'i', 'a') {
        Some(ErrorKind::InvalidData)
    } else if fp == (9nat, 't', 'o') {
        Some(ErrorKind::TimedOut)
    } else if fp == (10nat, 'w', 'e') {
        Some(ErrorKind::WriteZero)
    } else if fp == (16nat, 'n', 'a') {
        Some(ErrorKind::StorageFull)
    } else if fp == (23nat, 's', 'i') {
        Some(ErrorKind::NotSeekable)
    } else if fp == (14nat, 'q', 'd') {
        Some(ErrorKind::QuotaExceeded)
    } else if fp == (14nat, 'f', 'r') {
        Some(ErrorKind::FileTooLarge)
    } else if fp == (13nat, 'r', 'u') {
        Some(ErrorKind::ResourceBusy)
    } else if fp == (20nat, 'e', 'u') {
        Some(ErrorKind::ExecutableFileBusy)
    } else if fp == (8nat, 'd', 'o') {
        Some(ErrorKind::Deadlock)
    } else if fp == (27nat, 'c', 'a') {
        Some(ErrorKind::CrossesDevices)
    } else if fp == (14nat, 't', 'n') {
        Some(ErrorKind::TooManyLinks)
    } else if fp == (16nat, 'i', 'a') {
        Some(ErrorKind::InvalidFilename)
    } else if fp == (22nat, 'a', 'o') {
        Some(ErrorKind::ArgumentListTooLong)
    } else if fp == (21nat, 'o', 't') {
        Some(ErrorKind::Interrupted)
    } else if fp == (11nat, 'u', 't') {
        Some(ErrorKind::Unsupported)
    } else if fp == (22nat, 'u', 'i') {
        Some(ErrorKind::UnexpectedEof)
    } else if fp == (13nat, 'o', 'o') {
        Some(ErrorKind::OutOfMemory)
    } else if fp == (11nat, 'i', 'e') {
        Some(ErrorKind::InProgress)
    } else if fp == (11nat, 'o', 'r') {
        Some(ErrorKind::Other)
    } else if fp == (19nat, 'u', 'r') {
        Some(ErrorKind::Uncategorized)
    } else {
        None
    }
}

/// The description of each kind has a fingerprint that leads back to that kind.
proof fn lemma_kind_fingerprint(kind: ErrorKind)
    ensures
        kind_of_fingerprint(text_fingerprint(kind_text(kind))) == Some(kind),
{
    match kind {
        ErrorKind::NotFound => {
            reveal_strlit("entity not found");
        },
        ErrorKind::PermissionDenied => {
            reveal_strlit("permission denied");
        },
        ErrorKind::ConnectionRefused => {
            reveal_strlit("connection refused");
        },
        ErrorKind::ConnectionReset => {
            reveal_strlit("connection reset");
        },
        ErrorKind::HostUnreachable => {
            reveal_strlit("host unreachable");
        },
        ErrorKind::NetworkUnreachable => {
            reveal_strlit("network unreachable");
        },
        ErrorKind::ConnectionAborted => {
            reveal_strlit("connection aborted");
        },
        ErrorKind::NotConnected => {
            reveal_strlit("not connected");
        },
        ErrorKind::AddrInUse => {
            reveal_strlit("address in use");
        },
        ErrorKind::AddrNotAvailable => {
            reveal_strlit("address not available");
        },
        ErrorKind::NetworkDown => {
            reveal_strlit("network down");
        },
        ErrorKind::BrokenPipe => {
            reveal_strlit("broken pipe");
        },
        ErrorKind::AlreadyExists => {
            reveal_strlit("entity already exists");
        },
        ErrorKind::WouldBlock => {
            reveal_strlit("operation would block");
        },
        ErrorKind::NotADirectory => {
            reveal_strlit("not a directory");
        },
        ErrorKind::IsADirectory => {
            reveal_strlit("is a directory");
        },
        ErrorKind::DirectoryNotEmpty => {
            reveal_strlit("directory not empty");
        },
        ErrorKind::ReadOnlyFilesystem => {
            reveal_strlit("read-only filesystem or storage medium");
        },
        ErrorKind::FilesystemLoop => {
            reveal_strlit("filesystem loop or indirection limit (e.g. symlink loop)");
        },
        ErrorKind::StaleNetworkFileHandle => {
            reveal_strlit("stale network file handle");
        },
        ErrorKind::InvalidInput => {
            reveal_strlit("invalid input parameter");
        },
        ErrorKind::InvalidData => {
            reveal_strlit("invalid data");
        },
        ErrorKind::TimedOut => {
            reveal_strlit("timed out");
        },
        ErrorKind::WriteZero => {
            reveal_strlit("write zero");
        },
        ErrorKind::StorageFull => {
            reveal_strlit("no storage space");
        },
        ErrorKind::NotSeekable => {
            reveal_strlit("seek on unseekable file");
        },
        ErrorKind::QuotaExceeded => {
            reveal_strlit("quota exceeded");
        },
        ErrorKind::FileTooLarge => {
            reveal_strlit("file too large");
        },
        ErrorKind::ResourceBusy => {
            reveal_strlit("resource busy");
        },
        ErrorKind::ExecutableFileBusy => {
            reveal_strlit("executable file busy");
        },
        ErrorKind::Deadlock => {
            reveal_strlit("deadlock");
        },
        ErrorKind::CrossesDevices => {
            reveal_strlit("cross-device link or rename");
        },
        ErrorKind::TooManyLinks => {
            reveal_strlit("too many links");
        },
        ErrorKind::InvalidFilename => {
            reveal_strlit("invalid filename");
        },
        ErrorKind::ArgumentListTooLong => {
            reveal_strlit("argument list too long");
        },
        ErrorKind::Interrupted => {
            reveal_strlit("operation interrupted");
        },
        ErrorKind::Unsupported => {
            reveal_strlit("unsupported");
        },
        ErrorKind::UnexpectedEof => {
            reveal_strlit("unexpected end of file");
        },
        ErrorKind::OutOfMemory => {
            reveal_strlit("out of memory");
        },
        ErrorKind::InProgress => {
            reveal_strlit("in progress");
        },
        ErrorKind::Other => {
            reveal_strlit("other error");
        },
        ErrorKind::Uncategorized => {
            reveal_strlit("uncategorized error");
        },
    }
}

/// Different error kinds have different descriptions: the description of an error tells its
/// kind.
pub proof fn law_kind_text_distinct(a: ErrorKind, b: ErrorKind)
    ensures
        kind_text(a) == kind_text(b) ==> a == b,
{
    lemma_kind_fingerprint(a);
    lemma_kind_fingerprint(b);
}

impl ErrorKind {
    /// Returns a short description of the error kind.
    pub fn as_str(&self) -> (r: &'static str)
        ensures
            r@ == kind_text(*self),
    {
        match self {
            ErrorKind::NotFound => "entity not found",
            ErrorKind::PermissionDenied => "permission denied",
            ErrorKind::ConnectionRefused => "connection refused",
            ErrorKind::ConnectionReset => "connection reset",
            ErrorKind::HostUnreachable => "host unreachable",
            ErrorKind::NetworkUnreachable => "network unreachable",
            ErrorKind::ConnectionAborted => "connection aborted",
            ErrorKind::NotConnected => "not connected",
            ErrorKind::AddrInUse => "address in use",
            ErrorKind::AddrNotAvailable => "address not available",
            ErrorKind::NetworkDown => "network down",
            ErrorKind::BrokenPipe => "broken pipe",
            ErrorKind::AlreadyExists => "entity already exists",
            ErrorKind::WouldBlock => "operation would block",
            ErrorKind::NotADirectory => "not a directory",
            ErrorKind::IsADirectory => "is a directory",
            ErrorKind::DirectoryNotEmpty => "directory not empty",
            ErrorKind::ReadOnlyFilesystem => "read-only filesystem or storage medium",
            ErrorKind::FilesystemLoop => "filesystem loop or indirection limit (e.g. symlink loop)",
            ErrorKind::StaleNetworkFileHandle => "stale network file handle",
            ErrorKind::InvalidInput => "invalid input parameter",
            ErrorKind::InvalidData => "invalid data",
            ErrorKind::TimedOut => "timed out",
            ErrorKind::WriteZero => "write zero",
            ErrorKind::StorageFull => "no storage space",
            ErrorKind::NotSeekable => "seek on unseekable file",
            ErrorKind::QuotaExceeded => "quota exceeded",
            ErrorKind::FileTooLarge => "file too large",
            ErrorKind::ResourceBusy => "resource busy",
            ErrorKind::ExecutableFileBusy => "executable file busy",
            ErrorKind::Deadlock => "deadlock",
            ErrorKind::CrossesDevices => "cross-device link or rename",
            ErrorKind::TooManyLinks => "too many links",
            ErrorKind::InvalidFilename => "invalid filename",
            ErrorKind::ArgumentListTooLong => "argument list too long",
            ErrorKind::Interrupted => "operation interrupted",
            ErrorKind::Unsupported => "unsupported",
            ErrorKind::UnexpectedEof => "unexpected end of file",
            ErrorKind::OutOfMemory => "out of memory",
            ErrorKind::InProgress => "in progress",
            ErrorKind::Other => "other error",
            ErrorKind::Uncategorized => "uncategorized error",
        }
    }
}

/// An error kind together with a fixed message.
#[derive(Clone, Copy, Debug)]
pub struct SimpleMessage {
    /// The category of the error.
    pub kind: ErrorKind,
    /// The message describing the error.
    pub message: &'static str,
}

/// The error type for I/O operations.
///
/// Each variant is one way an error is represented: an operating system error code, a bare
/// error kind, a kind with a fixed message, or a kind wrapping another error.
#[derive(Debug)]
pub enum Error {
    /// An error code reported by the operating system, with the kind and message that the
    /// platform decodes for it.
    Os {
        /// The raw error code.
        code: RawOsError,
        /// The kind decoded from the code when the error was created.
        kind: ErrorKind,
        /// The message decoded from the code when the error was created.
        message: String,
    },
    /// An error that carries only its kind.
    Kind(ErrorKind),
    /// An error kind with a fixed message.
    SimpleMessage(SimpleMessage),
    /// An error kind wrapping another error as its payload.
    Custom {
        /// The category of the error.
        kind: ErrorKind,
        /// The wrapped error.
        error: Box<Error>,
    },
}

/// A borrowed view of how an [`Error`] is represented.
#[derive(Debug)]
pub enum ErrorData<'a> {
    /// An operating system error code.
    Os(RawOsError),
    /// A bare error kind.
    Simple(ErrorKind),
    /// An error kind with a fixed message.
    SimpleMessage(SimpleMessage),
    /// An error kind with a wrapped error.
    Custom(ErrorKind, &'a Error),
}

/// The kind of an error.
pub open spec fn error_kind(e: Error) -> ErrorKind {
    match e {
        Error::Os { code, .. } => os_kind(code),
        Error::Kind(kind) => kind,
        Error::SimpleMessage(m) => m.kind,
        Error::Custom { kind, .. } => kind,
    }
}

/// The operating system error code an error was created from, if any.
pub open spec fn os_code(e: Error) -> Option<RawOsError> {
    match e {
        Error::Os { code, .. } => Some(code),
        _ => None,
    }
}

/// Whether an error reports an interrupted operation.
pub open spec fn error_is_interrupted(e: Error) -> bool {
    match e {
        Error::Os { code, .. } => os_is_interrupted(code),
        _ => error_kind(e) == ErrorKind::Interrupted,
    }
}

/// Whether an operating system error code reports an interrupted operation.
pub open spec fn os_is_interrupted(code: RawOsError) -> bool {
    false
}

/// The digit characters of a natural number in base ten.
pub open spec fn decimal_digits(n: nat) -> Seq<char>
    decreases n,
{
    if n < 10 {
        seq![digit_char(n)]
    } else {
        decimal_digits(n / 10) + seq![digit_char(n % 10)]
    }
}

/// The character of a decimal digit.
pub open spec fn digit_char(d: nat) -> char {
    if d < 10 {
        (('0' as u32) + d) as char
    } else {
        '?'
    }
}

/// The number that a string of decimal digit characters denotes.
pub open spec fn digits_value(s: Seq<char>) -> int
    decreases s.len(),
{
    if s.len() == 0 {
        0
    } else {
        digits_value(s.drop_last()) * 10 + (s.last() as int - '0' as int)
    }
}

/// `c` is one of the characters `0` to `9`.
pub open spec fn is_digit(c: char) -> bool {
    '0' as int <= c as int <= '9' as int
}

/// The decimal digits of `n` are digit characters that denote `n`, with no leading zero
/// unless `n` is zero itself.
pub proof fn law_decimal_digits(n: nat)
    ensures
        decimal_digits(n).len() > 0,
        forall|i: int| 0 <= i < decimal_digits(n).len() ==> is_digit(#[trigger] decimal_digits(n)[i]),
        digits_value(decimal_digits(n)) == n,
        n >= 10 ==> decimal_digits(n)[0] != '0',
    decreases n,
{
    if n < 10 {
        assert(decimal_digits(n).drop_last() =~= Seq::<char>::empty());
        assert(digit_char(n) as int == '0' as int + n);
        let d = decimal_digits(n);
        assert(d.last() == digit_char(n));
        assert(digits_value(d) == digits_value(d.drop_last()) * 10 + (d.last() as int - '0' as int));
    } else {
        law_decimal_digits(n / 10);
        let d = decimal_digits(n);
        assert(d.drop_last() =~= decimal_digits(n / 10));
        assert(d.last() == digit_char(n % 10));
        assert(n == (n / 10) * 10 + n % 10);
        assert(digit_char(n % 10) as int == '0' as int + n % 10);
        assert(digits_value(d) == digits_value(d.drop_last()) * 10 + (d.last() as int - '0' as int));
        assert(digits_value(d.drop_last()) == n / 10);
        assert forall|i: int| 0 <= i < d.len() implies is_digit(#[trigger] d[i]) by {
            if i < d.len() - 1 {
                assert(d[i] == decimal_digits(n / 10)[i]);
            }
        }
        if n / 10 >= 10 {
            assert(d[0] == decimal_digits(n / 10)[0]);
        } else {
            assert(d[0] == digit_char(n / 10));
        }
    }
}

/// The decimal rendering of an integer, with a leading minus sign when it is negative.
pub open spec fn decimal(i: int) -> Seq<char> {
    if i < 0 {
        seq!['-'] + decimal_digits((-i) as nat)
    } else {
        decimal_digits(i as nat)
    }
}

/// The message of an error, as `Error::to_string` renders it.
pub open spec fn error_text(e: Error) -> Seq<char>
    decreases e,
{
    match e {
        Error::Os { code, .. } => os_message(code) + " (os error "@ + decimal(code as int) + ")"@,
        Error::Kind(kind) => kind_text(kind),
        Error::SimpleMessage(m) => m.message@,
        Error::Custom { error, .. } => error_text(*error),
    }
}

fn digit_str(d: u32) -> (r: &'static str)
    requires
        d < 10,
    ensures
        r@ == seq![digit_char(d as nat)],
{
    proof {
        reveal_strlit("0");
        reveal_strlit("1");
        reveal_strlit("2");
        reveal_strlit("3");
        reveal_strlit("4");
        reveal_strlit("5");
        reveal_strlit("6");
        reveal_strlit("7");
        reveal_strlit("8");
        reveal_strlit("9");
    }
    match d {
        0 => "0",
        1 => "1",
        2 => "2",
        3 => "3",
        4 => "4",
        5 => "5",
        6 => "6",
        7 => "7",
        8 => "8",
        _ => "9",
    }
}

fn push_decimal_digits(s: &mut String, n: u32)
    ensures
        final(s)@ == old(s)@ + decimal_digits(n as nat),
    decreases n,
{
    if n >= 10 {
        push_decimal_digits(s, n / 10);
    }
    s.append(digit_str(n % 10));
}

/// Appends the decimal digits of `n` to `s`.
pub(crate) fn push_usize(s: &mut String, n: usize)
    ensures
        final(s)@ == old(s)@ + decimal_digits(n as nat),
    decreases n,
{
    if n >= 10 {
        push_usize(s, n / 10);
    }
    s.append(digit_str((n % 10) as u32));
}

/// The text of a boolean, as `Debug` renders it.
pub open spec fn bool_text(b: bool) -> Seq<char> {
    if b {
        "true"@
    } else {
        "false"@
    }
}

/// Appends the text of `b` to `s`.
pub(crate) fn push_bool(s: &mut String, b: bool)
    ensures
        final(s)@ == old(s)@ + bool_text(b),
{
    if b {
        s.append("true");
    } else {
        s.append("false");
    }
}

fn push_decimal(s: &mut String, i: i32)
    ensures
        final(s)@ == old(s)@ + decimal(i as int),
{
    if i < 0 {
        proof {
            reveal_strlit("-");
        }
        s.append("-");
        let magnitude: u32 = if i == i32::MIN { 2147483648u32 } else { (-i) as u32 };
        push_decimal_digits(s, magnitude);
        assert(s@ =~= old(s)@ + decimal(i as int));
    } else {
        push_decimal_digits(s, i as u32);
    }
}

impl Error {
    /// An error made of a kind and a fixed message.
    pub open spec fn const_error_spec(kind: ErrorKind, message: &'static str) -> Error {
        Error::SimpleMessage(SimpleMessage { kind, message })
    }

    /// Creates a new error from a kind and another error as its payload.
    pub fn new(kind: ErrorKind, error: Error) -> (r: Error)
        ensures
            r == (Error::Custom { kind, error: Box::new(error) }),
    {
        Error::Custom { kind, error: Box::new(error) }
    }

    /// Creates a new error of kind `Other` wrapping another error.
    pub fn other(error: Error) -> (r: Error)
        ensures
            r == (Error::Custom { kind: ErrorKind::Other, error: Box::new(error) }),
    {
        Error::new(ErrorKind::Other, error)
    }

    /// Creates an error from a kind and a fixed message.
    pub fn const_error(kind: ErrorKind, message: &'static str) -> (r: Error)
        ensures
            r == Error::SimpleMessage(SimpleMessage { kind, message }),
    {
        Error::SimpleMessage(SimpleMessage { kind, message })
    }

    /// Creates an error from a kind with a fixed message.
    pub fn from_static_message(msg: &SimpleMessage) -> (r: Error)
        ensures
            r == Error::SimpleMessage(*msg),
    {
        Error::SimpleMessage(*msg)
    }

    /// The error reported when an operation is not supported on the current platform.
    pub fn unsupported_platform() -> (r: Error)
        ensures
            r == Error::SimpleMessage(
                SimpleMessage {
                    kind: ErrorKind::Unsupported,
                    message: "operation not supported on this platform",
                },
            ),
    {
        Error::const_error(ErrorKind::Unsupported, "operation not supported on this platform")
    }

    /// Creates an error from an operating system error code.
    pub fn from_raw_os_error(code: RawOsError) -> (r: Error)
        ensures
            r matches Error::Os { code: c, kind, message } && c == code && kind == os_kind(code)
                && message@ == os_message(code),
    {
        Error::Os { code, kind: decode_error_kind(code), message: error_string(code) }
    }

    /// Returns the operating system error code this error was created from, if any.
    pub fn raw_os_error(&self) -> (r: Option<RawOsError>)
        ensures
            r == os_code(*self),
    {
        match self {
            Error::Os { code, .. } => Some(*code),
            _ => None,
        }
    }

    /// Returns the kind of this error.
    pub fn kind(&self) -> (r: ErrorKind)
        ensures
            r == error_kind(*self),
    {
        match self {
            Error::Os { code, .. } => decode_error_kind(*code),
            Error::Kind(kind) => *kind,
            Error::SimpleMessage(m) => m.kind,
            Error::Custom { kind, .. } => *kind,
        }
    }

    /// Returns the kind of this error, taking `decoded` as the kind that the platform decodes
    /// from its operating system error code, when it was created from one.
    pub fn kind_decoded(&self, decoded: ErrorKind) -> (r: ErrorKind)
        ensures
            os_code(*self) is Some ==> r == decoded,
            os_code(*self) is None ==> r == error_kind(*self),
    {
        match self {
            Error::Os { .. } => decoded,
            _ => self.kind(),
        }
    }

    /// Returns `true` if this error reports an interrupted operation, taking `os_interrupted`
    /// as what the platform decodes from its operating system error code, when it was created
    /// from one.
    pub fn is_interrupted_decoded(&self, os_interrupted: bool) -> (r: bool)
        ensures
            os_code(*self) is Some ==> r == os_interrupted,
            os_code(*self) is None ==> r == error_is_interrupted(*self),
    {
        match self {
            Error::Os { .. } => os_interrupted,
            _ => self.is_interrupted(),
        }
    }

    /// Returns `true` if this error reports an interrupted operation.
    pub fn is_interrupted(&self) -> (r: bool)
        ensures
            r == error_is_interrupted(*self),
    {
        match self {
            Error::Os { code, .. } => is_interrupted(*code),
            Error::Kind(kind) => *kind == ErrorKind::Interrupted,
            Error::SimpleMessage(m) => m.kind == ErrorKind::Interrupted,
            Error::Custom { kind, .. } => *kind == ErrorKind::Interrupted,
        }
    }

    /// Returns a reference to the wrapped error, if this error wraps one.
    pub fn get_ref(&self) -> (r: Option<&Error>)
        ensures
            r == (match *self {
                Error::Custom { error, .. } => Some(&*error),
                _ => None,
            }),
    {
        match self {
            Error::Custom { error, .. } => Some(&**error),
            _ => None,
        }
    }

    /// Consumes this error, returning the wrapped error, if it wraps one.
    pub fn into_inner(self) -> (r: Option<Error>)
        ensures
            r == (match self {
                Error::Custom { error, .. } => Some(*error),
                _ => None,
            }),
    {
        match self {
            Error::Custom { error, .. } => Some(*error),
            _ => None,
        }
    }

    /// Returns a view of how this error is represented.
    pub fn data(&self) -> (r: ErrorData<'_>)
        ensures
            r == (match *self {
                Error::Os { code, .. } => ErrorData::Os(code),
                Error::Kind(kind) => ErrorData::Simple(kind),
                Error::SimpleMessage(m) => ErrorData::SimpleMessage(m),
                Error::Custom { kind, error } => ErrorData::Custom(kind, &*error),
            }),
    {
        match self {
            Error::Os { code, .. } => ErrorData::Os(*code),
            Error::Kind(kind) => ErrorData::Simple(*kind),
            Error::SimpleMessage(m) => ErrorData::SimpleMessage(*m),
            Error::Custom { kind, error } => ErrorData::Custom(*kind, &**error),
        }
    }

    /// Renders the message of this error.
    ///
    /// An operating system error renders as its decoded message followed by
    /// ` (os error <code>)`; a bare kind renders as the kind's description; a fixed message
    /// renders as itself; a wrapping error renders as the error it wraps.
    pub fn to_string(&self) -> (r: String)
        ensures
            r@ == error_text(*self),
        decreases *self,
    {
        match self {
            Error::Os { code, .. } => {
                let mut s = error_string(*code);
                s.append(" (os error ");
                push_decimal(&mut s, *code);
                s.append(")");
                s
            },
            Error::Kind(kind) => String::from_str(kind.as_str()),
            Error::SimpleMessage(m) => String::from_str(m.message),
            Error::Custom { error, .. } => error.to_string(),
        }
    }
}

/// An error created from an operating system code reports that code back, and its kind is
/// the one the platform decodes for the code.
pub proof fn law_os_error_round_trip(code: RawOsError, e: Error)
    requires
        e matches Error::Os { code: c, .. } && c == code,
    ensures
        os_code(e) == Some(code),
        error_kind(e) == os_kind(code),
{
}

/// An error built from a kind (alone, with a fixed message, or wrapping another error)
/// reports that kind; one built from a fixed message renders as that message, and one wrapping
/// another error renders as the wrapped error.
pub proof fn law_constructed_kind(kind: ErrorKind, message: &'static str, inner: Error)
    ensures
        error_kind(Error::Kind(kind)) == kind,
        error_kind(Error::const_error_spec(kind, message)) == kind,
        error_text(Error::const_error_spec(kind, message)) == message@,
        error_kind(Error::Custom { kind, error: Box::new(inner) }) == kind,
        error_text(Error::Custom { kind, error: Box::new(inner) }) == error_text(inner),
        os_code(Error::Kind(kind)) is None,
        os_code(Error::Custom { kind, error: Box::new(inner) }) is None,
{
}

impl From<ErrorKind> for Error {
    /// Converts an error kind into an error that carries only that kind.
    fn from(kind: ErrorKind) -> (r: Error) {
        Error::Kind(kind)
    }
}

impl vstd::std_specs::convert::FromSpecImpl<ErrorKind> for Error {
    open spec fn obeys_from_spec() -> bool {
        true
    }

    open spec fn from_spec(kind: ErrorKind) -> Error {
        Error::Kind(kind)
    }
}

} // verus!
