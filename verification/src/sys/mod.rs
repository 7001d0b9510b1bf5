//! Platform support: error decoding for platforms without an operating system, the pipe
//! fallback, and conversion traits between platform types and their inner representations.

pub mod io;
pub mod pipe;

use vstd::prelude::*;

verus! {

/// A trait for viewing the representation of a platform type.
pub trait AsInner<Inner: ?Sized> {
    /// Returns a reference to the inner representation.
    fn as_inner(&self) -> &Inner;
}

/// A trait for mutably viewing the representation of a platform type.
pub trait AsInnerMut<Inner: ?Sized> {
    /// Returns a mutable reference to the inner representation.
    fn as_inner_mut(&mut self) -> &mut Inner;
}

/// A trait for extracting the representation of a platform type.
pub trait IntoInner<Inner>: Sized {
    /// Consumes the value, returning its inner representation.
    fn into_inner(self) -> Inner;
}

/// A trait for creating a platform type from its representation.
pub trait FromInner<Inner>: Sized {
    /// Creates the value from its inner representation.
    fn from_inner(inner: Inner) -> Self;
}

} // verus!
