//! The pipe fallback for platforms without pipes: creating one always fails, and the pipe
//! type has no values.

use vstd::prelude::*;

use crate::io::{BorrowedCursor, Error, ErrorKind, SimpleMessage};

verus! {

/// An anonymous pipe. On this platform no pipe can exist, so this type has no values and
/// none of its methods can be called.
#[derive(Debug)]
pub struct Pipe(core::convert::Infallible);

/// Creates a pipe: unsupported on this platform, so this always fails.
pub fn pipe() -> (r: Result<(Pipe, Pipe), Error>)
    ensures
        r matches Err(e) && e == Error::SimpleMessage(
            SimpleMessage {
                kind: ErrorKind::Unsupported,
                message: "operation not supported on this platform",
            },
        ),
{
    Err(Error::unsupported_platform())
}

/// Turns a reference to `core::convert::Infallible`, which has no values, into a value of any
/// type. No such reference exists, so this is never called; nothing is claimed of it.
#[verifier::external_body]
fn absurd<T>(never: &core::convert::Infallible) -> T {
    match *never {}
}

impl Pipe {
    /// Duplicates the pipe.
    pub fn try_clone(&self) -> Result<Pipe, Error> {
        absurd(&self.0)
    }

    /// Reads from the pipe into `buf`.
    pub fn read(&self, _buf: &mut [u8]) -> Result<usize, Error> {
        absurd(&self.0)
    }

    /// Reads from the pipe into the unfilled part of a cursor.
    pub fn read_buf(&self, _buf: BorrowedCursor<'_, '_, u8>) -> Result<(), Error> {
        absurd(&self.0)
    }

    /// Reads from the pipe into several buffers.
    pub fn read_vectored(&self, _bufs: &mut [&mut [u8]]) -> Result<usize, Error> {
        absurd(&self.0)
    }

    /// Returns whether vectored reads are supported.
    pub fn is_read_vectored(&self) -> bool {
        absurd(&self.0)
    }

    /// Reads everything left in the pipe, appending it to `buf`.
    pub fn read_to_end(&self, _buf: &mut Vec<u8>) -> Result<usize, Error> {
        absurd(&self.0)
    }

    /// Writes `buf` to the pipe.
    pub fn write(&self, _buf: &[u8]) -> Result<usize, Error> {
        absurd(&self.0)
    }

    /// Writes several buffers to the pipe.
    pub fn write_vectored(&self, _bufs: &[&[u8]]) -> Result<usize, Error> {
        absurd(&self.0)
    }

    /// Returns whether vectored writes are supported.
    pub fn is_write_vectored(&self) -> bool {
        absurd(&self.0)
    }

    /// Turns a pipe into a value of any type: no pipe exists, so this is never reached.
    pub fn diverge<T>(&self) -> T {
        absurd(&self.0)
    }
}

} // verus!
