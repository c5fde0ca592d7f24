//! A baseline JPEG decoder whose stages are stated and proved with Verus.
pub mod bit_reader;
pub mod error;
pub mod huffman;
pub mod entropy;
pub mod segments;
pub mod mcu;
pub mod frame;
pub mod color;
pub mod raster;
pub mod idct;
pub mod upsample;
pub mod framer;
pub mod decoder;
pub mod bmp;
