use vstd::prelude::*;

verus! {

/// Why a byte sequence failed to decode as a record or a frame.
#[derive(Clone, Copy, PartialEq, Eq, Structural, Debug)]
pub enum CodecError {
    /// The bytes end before the shape they announce is complete
    /// (a missing header byte, or a payload shorter than its length prefix).
    Truncated,
    /// The nanosecond part of a timestamp is not below one billion.
    CorruptTimestamp,
    /// The first byte of a frame is neither the batch tag nor the sentinel tag.
    UnknownTag,
    /// Well-formed content followed by bytes that belong to nothing.
    TrailingBytes,
}

/// Every failure the protocol can report to a caller.
#[derive(Clone, Copy, PartialEq, Eq, Structural, Debug)]
pub enum Error {
    /// The platform could not allocate or connect the underlying resource.
    Resource,
    /// A malformed bootstrap message, frame, or record.
    Protocol,
    /// Delivery failed on an established link.
    Transport,
    /// A send or close was attempted on a link that is already closed.
    Closed,
}

} // verus!
