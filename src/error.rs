use vstd::prelude::*;

verus! {

/// Why a write transaction was aborted.
#[derive(PartialEq, Eq, Structural, Clone, Copy, Debug)]
pub enum ErrorKind {
    /// A precondition for derivation is missing (an account or group without one name).
    InvalidEntryState,
    /// The schema rejected a candidate.
    SchemaViolation,
    /// The storage layer refused to persist the batch.
    StorageFailure,
    /// An attribute of a sealed entry was to be changed.
    SealedEntryMutation,
}

/// A finding of the consistency verifier.
#[derive(PartialEq, Eq, Structural, Clone, Copy, Debug)]
pub enum ConsistencyError {
    /// The entry with this storage id holds no, several or a wrong spn.
    InvalidSpn(u64),
    /// The snapshot could not be read.
    QueryServerSearchFailure,
}

} // verus!
