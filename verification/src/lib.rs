//! Core I/O building blocks: incrementally filled borrowed buffers, the I/O error type,
//! buffered writers backed by a fixed capacity, and the platform fallbacks they rely on.

pub mod io;
pub mod sys;
