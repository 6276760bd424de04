//! Reader for a fixed-layout, big-endian memory image: eight modules of
//! sixteen sectors of three syllables of 256 sixteen-bit words, followed by
//! three 32-bit registers.
pub mod cursor;
pub mod image;
pub mod layout;

pub use cursor::{read_u16, read_u32, ByteCursor};
pub use image::{MemoryImage, Module, Sector, Syllable, Word};
