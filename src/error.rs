use vstd::prelude::*;

verus! {

/// The field or structure whose decoding failed.
#[derive(Debug, Clone, Copy, PartialEq, Eq, Structural)]
pub enum Field {
    FlvHeader,
    Signature,
    TypeFlags,
    DataOffset,
    FirstPreTagSize,
    Tag,
    TagType,
    PreTagSize,
    DataSize,
    Timestamp,
    StreamId,
    TagBody,
    FrameType,
    CodecId,
    AvcPacketType,
    CompositionTime,
    SoundFormat,
    SoundRate,
    SoundSize,
    SoundType,
    Amf0Type,
    Amf0Number,
    Amf0Boolean,
    Amf0StringLength,
    Amf0StringBody,
    Amf0ObjectEnd,
    Amf0Reference,
    Amf0ArrayCount,
    Amf0ArrayName,
    Amf0Date,
    ScriptName,
}

/// What went wrong with the field.
#[derive(Debug, Clone, Copy, PartialEq, Eq, Structural)]
pub enum ErrorKind {
    /// Fewer bytes remain than the field needs.
    Truncated,
    /// A reserved field is not zero, or a marker does not hold its fixed value.
    Malformed,
    /// A code that is known by name but not decoded, or not known at all.
    Unsupported(u8),
    /// A combination of fields that the format forbids.
    Invariant,
    /// The trailing size marker after tag number `index` (counting from 1)
    /// holds `marker` where the tag's own encoded length is `expected`.
    LengthMismatch { index: usize, marker: usize, expected: usize },
}

/// A decoding error: the failing field and the kind of failure.
#[derive(Debug, Clone, Copy, PartialEq, Eq, Structural)]
pub struct FlvError {
    pub field: Field,
    pub kind: ErrorKind,
}

/// Builds the error reported for `field`.
pub fn my_error(field: Field, kind: ErrorKind) -> (e: FlvError)
    ensures
        e == (FlvError { field, kind }),
{
    FlvError { field, kind }
}

/// Spec-level counterpart of [`my_error`].
pub open spec fn err(field: Field, kind: ErrorKind) -> FlvError {
    FlvError { field, kind }
}

} // verus!
