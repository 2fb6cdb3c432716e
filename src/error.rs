use vstd::prelude::*;

verus! {

/// The ways decoding can fail.
#[derive(Clone, Copy, Debug, PartialEq, Eq, Structural)]
pub enum Error {
    /// The input ended before a complete value was read.
    UnexpectedEof,
    /// The input is malformed.
    InvalidData,
    /// A reference sequence is needed to decode, and none was given.
    MissingReferenceSequence,
    /// The caller asked for something that does not exist.
    InvalidInput,
    /// The data is compressed with a method this library does not decode.
    UnsupportedCompressionMethod,
}

} // verus!
