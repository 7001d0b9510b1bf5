//! Buffered writers whose buffer is a fixed-size array.

pub mod bufwriter;
pub mod linewriter;

pub use self::bufwriter::{ArrayBufWriter, IntoInnerError};
pub use self::linewriter::ArrayLineWriter;
