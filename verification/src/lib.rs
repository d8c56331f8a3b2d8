//! Sprites of a WAD archive as indexed PNG streams.
//!
//! A WAD archive is a header, a run of lumps, and a directory that names
//! each lump and says where it lies. This crate works on an archive held
//! in memory as bytes. It reads the directory, loads the palette, decodes
//! the picture lumps of the sprites and the face graphics into buffers of
//! palette indices, scales them by five across and six down where asked,
//! and encodes each as a PNG stream. It opens no file and writes none.
//!
//! Every function states what it returns over the bytes it was given:
//! which inputs are refused, with which fault, and what the result is on
//! every other input.
//!
//! - [`cursor`]: little-endian reads over a byte slice
//! - [`name`]: lump names
//! - [`directory`]: the header and the directory
//! - [`select`]: finding lumps, and the lumps that a run converts
//! - [`palette`]: the colour table
//! - [`usage`]: the palette indices that pictures use
//! - [`image`]: decoded pictures
//! - [`picture`]: the picture format and its decoder
//! - [`upsample`]: scaling to square pixels
//! - [`emit`]: PNG streams
//! - [`convert`]: one lump, and a whole archive
//! - [`error`]: the faults

pub mod error;
pub mod cursor;
pub mod name;
pub mod directory;
pub mod select;
pub mod palette;
pub mod usage;
pub mod image;
pub mod picture;
pub mod upsample;
pub mod emit;
pub mod convert;
