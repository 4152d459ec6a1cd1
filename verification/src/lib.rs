//! A decoder for the QOI ("Quite OK Image") lossless image format.
//!
//! Two engines share one opcode semantics: [`Decoder`] turns a complete byte
//! buffer into a header and a pixel vector, and [`stream::StreamDecoder`] is
//! fed one byte at a time and reports what each byte completed.
pub mod dec;
pub mod equiv;
pub mod error;
pub mod header;
pub mod ops;
pub mod pixel;
pub mod stream;

pub use dec::Decoder;
pub use error::Error;
pub use header::{Channels, Colorspace, Header};
pub use pixel::Pixel;
