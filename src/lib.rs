//! Text and byte buffers built with a single allocation of exactly the right
//! size: a recipe is run once to measure and once to write.

pub mod appendable;
pub mod builder;
pub mod decimal;
pub mod endian;
pub mod utf8_len;

pub use appendable::{BytesAppendable, EndianBytesAppendable, StringAppendable};
pub use builder::{BytesBuilder, StringBuilder};
