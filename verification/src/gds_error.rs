//! Error type shared by the codec, the model and the parser.

use vstd::prelude::*;

verus! {

/// What went wrong.  Every failure the library reports falls under exactly
/// one of these kinds.
#[derive(Clone, Copy, Debug, PartialEq, Eq, Structural)]
pub enum GdsErrorKind {
    /// A record length runs past the end of the buffer.
    TruncatedBuffer,
    /// A record claims a length of zero.
    ZeroLengthRecord,
    /// A record tag the codec does not handle.
    UnsupportedRecord,
    /// A payload whose length or shape does not fit its tag.
    MalformedRecord,
    /// An eight-byte real that cannot be encoded or decoded.
    InvalidFloat,
    /// A string payload holding a byte outside the ASCII range.
    NonAscii,
    /// A cell name, property value or layer/datatype range violation.
    NameConstraint,
    /// A PROPVALUE record with no preceding PROPATTR.
    OrphanProperty,
    /// Two distinct cells with one name in one library.
    DuplicateCellName,
    /// A reference whose target cell is not in the library.
    UnresolvedReference,
    /// An edge that would make the cell reference graph cyclic.
    CycleDetected,
    /// Writer-side arithmetic that leaves the 32-bit coordinate range.
    CoordinateOverflow,
}

/// An error raised while encoding or decoding GDSII data, carrying a
/// human-readable message and, where meaningful, the byte offset of the
/// record it originates from.
#[derive(Debug)]
pub struct GDSIIError {
    pub kind: GdsErrorKind,
    pub msg: String,
    pub offset: Option<usize>,
}

impl GDSIIError {
    /// General constructor for malformed input.
    pub fn new(err: &str) -> (r: GDSIIError)
        ensures
            r.kind == GdsErrorKind::MalformedRecord,
            r.msg@ == err@,
            r.offset is None,
    {
        GDSIIError { kind: GdsErrorKind::MalformedRecord, msg: err.to_owned(), offset: None }
    }

    /// Constructor that picks the error kind.
    pub fn of_kind(kind: GdsErrorKind, err: &str) -> (r: GDSIIError)
        ensures
            r.kind == kind,
            r.msg@ == err@,
            r.offset is None,
    {
        GDSIIError { kind, msg: err.to_owned(), offset: None }
    }

    /// Constructor that also records the byte offset the failure was seen at.
    pub fn at_offset(kind: GdsErrorKind, err: &str, offset: usize) -> (r: GDSIIError)
        ensures
            r.kind == kind,
            r.msg@ == err@,
            r.offset == Some(offset),
    {
        GDSIIError { kind, msg: err.to_owned(), offset: Some(offset) }
    }

    /// The human-readable message.
    pub fn message(&self) -> (r: String)
        ensures
            r@ == self.msg@,
    {
        self.msg.clone()
    }
}

/// Build a general error from a message alone.
pub fn gds_err(err: &str) -> (r: GDSIIError)
    ensures
        r.kind == GdsErrorKind::MalformedRecord,
        r.msg@ == err@,
        r.offset is None,
{
    GDSIIError::new(err)
}

} // verus!
