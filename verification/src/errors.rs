//! The failures a patch run can end in.
//!
//! Nothing is retried: every error aborts the whole run, and either every
//! edit applies or no output is produced at all.

use vstd::prelude::*;

verus! {

/// A malformed input document: a required key is missing, a value has the
/// wrong kind, or an action or direction token is unknown.
#[derive(Debug, Clone, Copy, PartialEq, Eq, Structural)]
pub enum DocumentError {
    /// The payload handed in was not a table.
    NotTable,
    /// A source table did not hold exactly one entry.
    SourceNotSingleEntry,
    /// A source table held an array under a key other than `bytes`.
    ArrayNotBytes,
    /// An element of a `bytes` array was not an integer.
    ByteNotInteger,
    /// An element of a `bytes` array fell outside `0..=255`.
    ByteOutOfRange,
    /// A source table's single key was none of the known source kinds.
    UnknownSourceKind,
    /// A source table's single value was neither a string nor an array.
    BadSourceValue,
    /// An edit table had no `do` key.
    MissingAction,
    /// An edit table's `do` value was not a string.
    ActionNotString,
    /// An edit table's `do` string was neither `insert` nor `remove`.
    UnknownAction,
    /// An edit table had no `way` key.
    MissingWay,
    /// An edit table's `way` value was not a string.
    WayNotString,
    /// An edit table's `way` string was neither `pre` nor `post`.
    UnknownWay,
    /// An edit table had no `spot` key.
    MissingSpot,
    /// An edit table's `spot` value was not an integer.
    SpotNotInteger,
    /// An edit table's `spot` was negative or too large for an offset.
    SpotOutOfRange,
    /// An insert edit had no `source` key.
    MissingSource,
    /// A remove edit had no `count` key.
    MissingCount,
    /// A remove edit's `count` value was not an integer.
    CountNotInteger,
    /// A remove edit's `count` was negative or too large for a length.
    CountOutOfRange,
    /// A document table had no `source` key.
    MissingBase,
    /// A document's `patch` value was not an array.
    PatchListNotArray,
}

/// A source that cannot be turned into bytes here: its resolution would
/// need an outside fetch or read that this library does not perform.
#[derive(Debug, Clone, Copy, PartialEq, Eq, Structural)]
pub enum ResolutionError {
    /// The source variant is not resolvable without outside input.
    Unsupported,
}

/// A failure while applying the edit list to the resolved base.
#[derive(Debug, Clone, Copy, PartialEq, Eq, Structural)]
pub enum PatchError {
    /// The edit's `spot` is held by no group of the offset map, or a
    /// removal would run past the end of the buffer.
    OutOfBounds { edit: usize, spot: usize },
    /// A `pre` removal asked for more positions than stand before `spot`.
    Underflow { edit: usize, spot: usize, count: usize },
}

/// Any failure of a whole patch run, from resolution through application.
#[derive(Debug, Clone, Copy, PartialEq, Eq, Structural)]
pub enum AssuoError {
    /// A source could not be resolved to bytes.
    Resolution(ResolutionError),
    /// An edit could not be applied.
    Patch(PatchError),
}

} // verus!
