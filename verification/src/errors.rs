use vstd::prelude::*;

verus! {

/// The failure modes of the track-log pipeline.
///
/// `TooManyPoints` carries the offending point count and the ceiling it
/// exceeded; the `String` payloads carry a human-readable detail message.
#[derive(Debug)]
pub enum GpxError {
    /// The input text is longer than the byte-size ceiling.
    InputTooLarge,
    /// The document parser rejected the input.
    ParseError(String),
    /// The document holds more points than the point-count ceiling.
    TooManyPoints(usize, usize),
    /// The reduced structure could not be serialized.
    SerializationError(String),
    /// The compressor reported a write or finalize failure.
    CompressionError(String),
    /// The compressed stream is malformed, or decodes to invalid text.
    DecompressionError(String),
    /// The pre-flight validation gate rejected the input.
    InvalidFormat,
}

} // verus!
