use vstd::prelude::*;

verus! {

/// The kind of structural fault found in a binary store.
#[derive(Clone, Copy, Debug, PartialEq, Eq, Structural)]
pub enum IntegrityErrorKind {
    /// The buffer ends before a table or field that it declares.
    DataMissing,
    /// The format/version tag is not the one this reader supports.
    UnsupportedVersion,
    /// A lookup table is not sorted by hash, holds a duplicate hash, or points
    /// past the end of its catalog.
    LookupTable,
    /// A segment has an empty or reversed interval, an unknown interpolation
    /// kind, or a coefficient payload outside the buffer.
    InvalidSegment,
    /// A record lists no segment, or segments outside the segment table.
    InvalidRecord,
}

/// Errors of opening a store and of querying it.
#[derive(Clone, Copy, Debug, PartialEq, Eq, Structural)]
pub enum AniseError {
    /// The buffer is malformed: fatal to opening.
    IntegrityError(IntegrityErrorKind),
    /// No lookup table entry has the requested hash.
    ItemNotFound,
    /// The root was not reached within the maximum tree depth.
    MaxTreeDepth,
    /// The epoch lies outside every segment of the record.
    OutOfCoverage,
    /// A keyword names no known planetary-constant parameter.
    ParameterNotSpecified,
}

} // verus!
