//! The ways in which reading a corpus fails.

use vstd::prelude::*;

verus! {

/// Why a corpus was rejected.
#[derive(Clone, Copy, Debug, PartialEq, Eq, Structural)]
pub enum IngestError {
    /// The input does not have the shape of a corpus.
    MalformedRecord,
    /// A message names a speaker that is in no role's list of names.
    UnknownRoleAlias,
}

} // verus!
