//! Decoder for the indexed-colour "PIC" raster format: a fixed header, a
//! span table of run records, a pixel payload of palette indices and an
//! embedded palette, resolved into an RGBA raster.

mod bytes;
pub mod raster;
pub mod palette;
pub mod header;
pub mod decode;
pub mod error;

pub use bytes::{le_u16, le_u32, read_u16_le, read_u32_le};
pub use error::DecodeError;
pub use raster::{Color, Raster};
pub use palette::{Palette, resolve_color};
pub use header::{Header, Span};
pub use decode::decode_pic;
