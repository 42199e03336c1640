use vstd::prelude::*;

pub mod commands;
pub mod hashing;
pub mod laws;
pub mod metadata;
pub mod state;
pub mod tree;

verus! {

/// The deep view of a byte vector is its view.
pub broadcast proof fn lemma_bytes_deep_view(v: Vec<u8>)
    ensures
        #[trigger] v.deep_view() == v@,
{
    assert(v.deep_view() =~= v@);
}

/// The distinguished error conditions of the engine: lookups that a
/// well-formed repository never fails, reported as values rather than
/// as aborts.
#[derive(Clone, Copy, Debug, PartialEq, Eq, Structural)]
pub enum VcsError {
    /// A branch that the operation relies on has no ledger.
    BranchNotFound,
    /// A commit id is absent from the catalog or has no stored snapshot.
    CommitNotFound,
    /// A snapshot with the computed content hash is already stored.
    CommitExists,
    /// A compared entry exists in neither of the two snapshots.
    FileNotFound,
}

} // verus!
