//! Typed interpreter errors. Every failure carries the data a script author
//! needs: the offending key together with the available keys, the requested
//! range against the actual length, and so on. Internal invariant violations
//! (the `Oops` class) carry a stable numeric code and signal a compiler or
//! runtime bug; they are never user-recoverable.

use vstd::prelude::*;

verus! {

/// Spec-level model of an [`Error`], with strings as character sequences.
#[verifier::ext_equal]
pub enum ErrV {
    NeedsObject,
    NeedsArray,
    NeedsString,
    NeedsInt,
    BadKey { key: Seq<char>, options: Seq<Seq<char>> },
    BadArrayIndex { idx: i64, len: int },
    ArrayOutOfBound { start: int, end: int, len: int },
    DecreasingRange { start: int, end: int },
    InvalidBinary,
    InvalidBitshift,
    GuardNotBool,
    NoClauseHit,
    AssignToConst,
    InvalidAssignTarget,
    CannotAssignArray,
    PatchKeyExists { key: Seq<char> },
    PatchKeyMissing { key: Seq<char> },
    MergeTypeConflict { key: Seq<char> },
    Oops { code: u64 },
}

/// A typed interpreter error; always surfaced to the script's caller.
#[derive(Debug, PartialEq)]
pub enum Error {
    /// An object was required.
    NeedsObject,
    /// An array was required.
    NeedsArray,
    /// A string key was required.
    NeedsString,
    /// An integer index was required.
    NeedsInt,
    /// The key is not present; `options` lists the keys that are.
    BadKey { key: String, options: Vec<String> },
    /// A negative integer cannot index an array.
    BadArrayIndex { idx: i64, len: usize },
    /// The requested index or range does not fit the array.
    ArrayOutOfBound { start: usize, end: usize, len: usize },
    /// A range whose end lies before its start.
    DecreasingRange { start: usize, end: usize },
    /// No rule gives the binary operator a result on these operands.
    InvalidBinary,
    /// A shift amount outside the width of the integer.
    InvalidBitshift,
    /// A match guard evaluated to a non-boolean value.
    GuardNotBool,
    /// No clause of a match matched and there is no default.
    NoClauseHit,
    /// Assignment to a constant or reserved path.
    AssignToConst,
    /// Assignment to a path that can never be assigned (metadata root).
    InvalidAssignTarget,
    /// Assignment through an index or range segment that does not resolve.
    CannotAssignArray,
    /// `insert`, `copy` or `move` found the destination key present.
    PatchKeyExists { key: String },
    /// `update` found the key absent.
    PatchKeyMissing { key: String },
    /// `merge` found a non-object value under the key.
    MergeTypeConflict { key: String },
    /// Internal invariant violation, with a stable code; always fatal.
    Oops { code: u64 },
}

/// Models of a list of strings.
pub open spec fn strs_of(s: Seq<String>) -> Seq<Seq<char>> {
    s.map_values(|x: String| x@)
}

impl View for Error {
    type V = ErrV;

    open spec fn view(&self) -> ErrV {
        match self {
            Error::NeedsObject => ErrV::NeedsObject,
            Error::NeedsArray => ErrV::NeedsArray,
            Error::NeedsString => ErrV::NeedsString,
            Error::NeedsInt => ErrV::NeedsInt,
            Error::BadKey { key, options } => ErrV::BadKey {
                key: key@,
                options: strs_of(options@),
            },
            Error::BadArrayIndex { idx, len } => ErrV::BadArrayIndex {
                idx: *idx,
                len: *len as int,
            },
            Error::ArrayOutOfBound { start, end, len } => ErrV::ArrayOutOfBound {
                start: *start as int,
                end: *end as int,
                len: *len as int,
            },
            Error::DecreasingRange { start, end } => ErrV::DecreasingRange {
                start: *start as int,
                end: *end as int,
            },
            Error::InvalidBinary => ErrV::InvalidBinary,
            Error::InvalidBitshift => ErrV::InvalidBitshift,
            Error::GuardNotBool => ErrV::GuardNotBool,
            Error::NoClauseHit => ErrV::NoClauseHit,
            Error::AssignToConst => ErrV::AssignToConst,
            Error::InvalidAssignTarget => ErrV::InvalidAssignTarget,
            Error::CannotAssignArray => ErrV::CannotAssignArray,
            Error::PatchKeyExists { key } => ErrV::PatchKeyExists { key: key@ },
            Error::PatchKeyMissing { key } => ErrV::PatchKeyMissing { key: key@ },
            Error::MergeTypeConflict { key } => ErrV::MergeTypeConflict { key: key@ },
            Error::Oops { code } => ErrV::Oops { code: *code },
        }
    }
}

/// `r` (a run-time result) is modelled by `s` (a spec-level result).
pub open spec fn rmodels<T: View, E: View>(r: Result<T, E>, s: Result<T::V, E::V>) -> bool {
    match r {
        Ok(v) => s is Ok && v@ == s->Ok_0,
        Err(e) => s is Err && e@ == s->Err_0,
    }
}

} // verus!
