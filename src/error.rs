//! Errors reported by the codec.

use vstd::prelude::*;

verus! {

/// Why an encode or decode call failed.
#[derive(Debug, Clone, Copy, PartialEq, Eq, Structural)]
pub enum CodecError {
    /// A payload's length exceeds the configured maximum, or cannot be written
    /// in the length field.
    FrameTooLarge,
    /// The value could not be serialized. rmpv writes every value into a
    /// byte vector, so encoding never returns this.
    Serialization,
    /// The payload of a complete frame is not a valid MessagePack value.
    Decode,
}

} // verus!
