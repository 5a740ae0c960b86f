//! Candidates, their states, and the pruning records kept for them.
use vstd::prelude::*;
use crate::delay::PruningDelay;

verus! {

/// The hash that identifies a parachain candidate.
#[derive(Clone, Copy, Debug, PartialEq, Eq, Hash)]
pub struct CandidateHash(pub [u8; 32]);

impl CandidateHash {
    /// Whether two hashes are the same.
    pub fn same(&self, other: &CandidateHash) -> (r: bool)
        ensures
            r == (*self == *other),
    {
        let mut i: usize = 0;
        while i < 32
            invariant
                i <= 32,
                forall|k: int| 0 <= k < i ==> self.0[k] == other.0[k],
            decreases 32 - i,
        {
            if self.0[i] != other.0[i] {
                return false;
            }
            i = i + 1;
        }
        proof {
            broadcast use vstd::array::group_array_axioms;

            assert(self.0 =~= other.0);
        }
        true
    }
}

/// Where a candidate stands in its lifetime.
#[derive(Clone, Copy, Debug, PartialEq, Eq, Structural)]
pub enum CandidateState {
    /// Its data has been stored.
    Stored,
    /// A relay-chain block has included it.
    Included,
    /// A block that includes it has been finalized.
    Finalized,
}

/// A record that sits in a pruning queue: it belongs to a candidate at a block
/// height, has a lifetime state and a deadline, and has an identity under
/// which the queue holds at most one record.
pub trait PruningRecord: Sized + Copy {
    /// The candidate the record belongs to.
    spec fn hash_of(&self) -> CandidateHash;

    /// The block number of the candidate.
    spec fn block_of(&self) -> u32;

    /// The lifetime state.
    spec fn state_of(&self) -> CandidateState;

    /// The pruning deadline.
    spec fn deadline_of(&self) -> PruningDelay;

    /// Whether two records stand for the same stored artifact.
    spec fn same_identity(&self, other: Self) -> bool;

    /// The record moved to `state` with deadline `prune_at`.
    spec fn moved(&self, state: CandidateState, prune_at: PruningDelay) -> Self;

    /// Identity is an equivalence, and moving a record keeps its identity,
    /// candidate and block and sets its state and deadline.
    proof fn lemma_record_laws(a: Self, b: Self, c: Self, state: CandidateState, prune_at: PruningDelay)
        ensures
            a.same_identity(a),
            a.same_identity(b) == b.same_identity(a),
            a.same_identity(b) && b.same_identity(c) ==> a.same_identity(c),
            a.moved(state, prune_at).same_identity(b) == a.same_identity(b),
            a.moved(state, prune_at).hash_of() == a.hash_of(),
            a.moved(state, prune_at).block_of() == a.block_of(),
            a.moved(state, prune_at).state_of() == state,
            a.moved(state, prune_at).deadline_of() == prune_at,
            a.same_identity(b) ==> a.hash_of() == b.hash_of(),
            a.moved(state, prune_at).moved(state, prune_at) == a.moved(state, prune_at),
    ;

    /// The candidate the record belongs to.
    fn candidate(&self) -> (r: CandidateHash)
        ensures
            r == self.hash_of(),
    ;

    /// The block number of the candidate.
    fn block(&self) -> (r: u32)
        ensures
            r == self.block_of(),
    ;

    /// The lifetime state.
    fn state(&self) -> (r: CandidateState)
        ensures
            r == self.state_of(),
    ;

    /// The pruning deadline.
    fn deadline(&self) -> (r: PruningDelay)
        ensures
            r == self.deadline_of(),
    ;

    /// Whether two records stand for the same stored artifact.
    fn identity_eq(&self, other: &Self) -> (r: bool)
        ensures
            r == self.same_identity(*other),
    ;

    /// The record moved to `state` with deadline `prune_at`.
    fn move_to(&self, state: CandidateState, prune_at: PruningDelay) -> (r: Self)
        ensures
            r == self.moved(state, prune_at),
    ;
}

/// The pruning record of a candidate's full available data. Its identity is
/// the candidate hash.
#[derive(Clone, Copy, Debug, PartialEq, Eq)]
pub struct PoVPruningRecord {
    pub candidate_hash: CandidateHash,
    pub block_number: u32,
    pub candidate_state: CandidateState,
    pub prune_at: PruningDelay,
}

/// The pruning record of one erasure chunk. Its identity is the candidate hash
/// together with the chunk index.
#[derive(Clone, Copy, Debug, PartialEq, Eq)]
pub struct ChunkPruningRecord {
    pub candidate_hash: CandidateHash,
    pub block_number: u32,
    pub candidate_state: CandidateState,
    pub chunk_index: u32,
    pub prune_at: PruningDelay,
}

impl PruningRecord for PoVPruningRecord {
    open spec fn hash_of(&self) -> CandidateHash {
        self.candidate_hash
    }

    open spec fn block_of(&self) -> u32 {
        self.block_number
    }

    open spec fn state_of(&self) -> CandidateState {
        self.candidate_state
    }

    open spec fn deadline_of(&self) -> PruningDelay {
        self.prune_at
    }

    open spec fn same_identity(&self, other: Self) -> bool {
        self.candidate_hash == other.candidate_hash
    }

    open spec fn moved(&self, state: CandidateState, prune_at: PruningDelay) -> Self {
        PoVPruningRecord { candidate_state: state, prune_at, ..*self }
    }

    proof fn lemma_record_laws(a: Self, b: Self, c: Self, state: CandidateState, prune_at: PruningDelay) {
    }

    fn candidate(&self) -> (r: CandidateHash) {
        self.candidate_hash
    }

    fn block(&self) -> (r: u32) {
        self.block_number
    }

    fn state(&self) -> (r: CandidateState) {
        self.candidate_state
    }

    fn deadline(&self) -> (r: PruningDelay) {
        self.prune_at
    }

    fn identity_eq(&self, other: &Self) -> (r: bool) {
        self.candidate_hash.same(&other.candidate_hash)
    }

    fn move_to(&self, state: CandidateState, prune_at: PruningDelay) -> (r: Self) {
        PoVPruningRecord { candidate_state: state, prune_at, ..*self }
    }
}

impl PruningRecord for ChunkPruningRecord {
    open spec fn hash_of(&self) -> CandidateHash {
        self.candidate_hash
    }

    open spec fn block_of(&self) -> u32 {
        self.block_number
    }

    open spec fn state_of(&self) -> CandidateState {
        self.candidate_state
    }

    open spec fn deadline_of(&self) -> PruningDelay {
        self.prune_at
    }

    open spec fn same_identity(&self, other: Self) -> bool {
        self.candidate_hash == other.candidate_hash && self.chunk_index == other.chunk_index
    }

    open spec fn moved(&self, state: CandidateState, prune_at: PruningDelay) -> Self {
        ChunkPruningRecord { candidate_state: state, prune_at, ..*self }
    }

    proof fn lemma_record_laws(a: Self, b: Self, c: Self, state: CandidateState, prune_at: PruningDelay) {
    }

    fn candidate(&self) -> (r: CandidateHash) {
        self.candidate_hash
    }

    fn block(&self) -> (r: u32) {
        self.block_number
    }

    fn state(&self) -> (r: CandidateState) {
        self.candidate_state
    }

    fn deadline(&self) -> (r: PruningDelay) {
        self.prune_at
    }

    fn identity_eq(&self, other: &Self) -> (r: bool) {
        self.candidate_hash.same(&other.candidate_hash) && self.chunk_index == other.chunk_index
    }

    fn move_to(&self, state: CandidateState, prune_at: PruningDelay) -> (r: Self) {
        ChunkPruningRecord { candidate_state: state, prune_at, ..*self }
    }
}

} // verus!
