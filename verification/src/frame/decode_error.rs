//! The ways in which an inbound frame can be refused.

use vstd::prelude::*;

verus! {

/// Errors returned by [`FrameDecoder::feed`](crate::frame::FrameDecoder::feed).
#[derive(Debug, PartialEq, Eq, Structural, Clone, Copy)]
pub enum DecodeError {
    /// Flags byte had reserved bits (3-7) set.
    ReservedFlagBits,
    /// Decoded body length exceeds the decoder's fixed capacity `CAP`.
    BodyTooLarge,
    /// Frame ended mid-header (reserved for future use).
    Truncated,
}

} // verus!
