//! The ways in which decoding a JPEG stream fails.
use vstd::prelude::*;

verus! {

/// Why a stream could not be decoded. Every error ends the decoding of the frame.
#[derive(Debug, Clone, Copy, PartialEq, Eq, Structural)]
pub enum JpegError {
    /// Missing SOI or EOI, a marker where it is not allowed, a length that disagrees
    /// with the payload, or a truncated stream.
    FramingError,
    /// A coding process, precision or component layout that a baseline decoder does not handle.
    UnsupportedFeature,
    /// A Huffman or quantization table that is malformed or that nothing defined.
    TableError,
    /// Entropy-coded data that ends early or cannot be decoded.
    BitstreamError,
    /// The restart marker expected at a restart boundary is not there.
    RestartError,
}

} // verus!
