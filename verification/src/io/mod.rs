//! I/O types: borrowed buffers and their cursors, and the error type.

pub mod array_buffered;
pub mod borrowed_buf;
pub mod error;
pub mod write;

pub use self::borrowed_buf::{BorrowedBuf, BorrowedCursor, TrackingBorrowedBuf, TrackingBorrowedCursor};
pub use self::error::{Error, ErrorData, ErrorKind, SimpleMessage};
pub use self::write::Write;
pub use self::array_buffered::{ArrayBufWriter, ArrayLineWriter, IntoInnerError};
