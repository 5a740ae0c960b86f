//! Laws of the store's operations: what storing and querying, activation,
//! finalization and chunk regeneration guarantee across calls.
use vstd::prelude::*;
use crate::column::ChunkKey;
use crate::delay::PruningDelay;
use crate::queue;
use crate::record::{CandidateHash, CandidateState, PruningRecord};
use crate::store::{
    activated, at_or_below, chunks_written, finalized, included_in, AvailableData, ErasureChunk,
    StoredAvailableData,
};

verus! {

/// Storing available data under a candidate and then querying the candidate
/// gives back exactly the data stored.
pub proof fn lemma_store_then_query(
    m: Map<CandidateHash, StoredAvailableData>,
    h: CandidateHash,
    data: AvailableData,
    n_validators: u32,
)
    ensures
        m.insert(h, StoredAvailableData { data, n_validators }).contains_key(h),
        m.insert(h, StoredAvailableData { data, n_validators })[h].data == data,
{
}

/// Storing a chunk and then querying it gives back exactly the chunk stored.
pub proof fn lemma_store_chunk_then_query(m: Map<ChunkKey, ErasureChunk>, h: CandidateHash, c: ErasureChunk)
    ensures
        m.insert(ChunkKey { candidate_hash: h, index: c.index }, c).contains_key(
            ChunkKey { candidate_hash: h, index: c.index },
        ),
        m.insert(ChunkKey { candidate_hash: h, index: c.index }, c)[ChunkKey { candidate_hash: h, index: c.index }]
            == c,
{
}

/// Receiving the same set of included candidates twice leaves the queue as
/// the first time did.
pub proof fn lemma_activation_idempotent<R: PruningRecord>(q: Seq<R>, included: Seq<CandidateHash>)
    ensures
        activated(activated(q, included), included) == activated(q, included),
{
    assert forall|k: int| 0 <= k < q.len() && included_in::<R>(included)(#[trigger] q[k]) implies included_in::<R>(
        included,
    )(q[k].moved(CandidateState::Included, PruningDelay::Indefinite)) by {
        R::lemma_record_laws(q[k], q[k], q[k], CandidateState::Included, PruningDelay::Indefinite);
    }
    queue::lemma_transition_idempotent(q, included_in(included), CandidateState::Included, PruningDelay::Indefinite);
}

/// Receiving two activations whose included candidates form the same set
/// leaves the queue as the first one did.
pub proof fn lemma_activation_idempotent_for_set<R: PruningRecord>(
    q: Seq<R>,
    first: Seq<CandidateHash>,
    second: Seq<CandidateHash>,
)
    requires
        forall|h: CandidateHash| first.contains(h) == second.contains(h),
    ensures
        activated(activated(q, first), second) == activated(q, first),
{
    assert(included_in::<R>(first) =~= included_in::<R>(second));
    lemma_activation_idempotent(q, first);
}

/// Receiving the finalization of the same block twice, at the same moment,
/// leaves the queue as the first time did.
pub proof fn lemma_finalization_idempotent<R: PruningRecord>(q: Seq<R>, n: u32, d: PruningDelay)
    ensures
        finalized(finalized(q, n, d), n, d) == finalized(q, n, d),
{
    assert forall|k: int| 0 <= k < q.len() && at_or_below::<R>(n)(#[trigger] q[k]) implies at_or_below::<R>(n)(
        q[k].moved(CandidateState::Finalized, d),
    ) by {
        R::lemma_record_laws(q[k], q[k], q[k], CandidateState::Finalized, d);
    }
    queue::lemma_transition_idempotent(q, at_or_below(n), CandidateState::Finalized, d);
}

/// The place of a state in a candidate's lifetime: stored, then included,
/// then finalized.
pub open spec fn rank(s: CandidateState) -> int {
    match s {
        CandidateState::Stored => 0,
        CandidateState::Included => 1,
        CandidateState::Finalized => 2,
    }
}

/// Activation never steps a record backwards: every record after it is
/// either a record from before, unchanged, or a record of an included
/// candidate that was not yet finalized, now `Included`.
pub proof fn lemma_activation_targets<R: PruningRecord>(q: Seq<R>, included: Seq<CandidateHash>, i: int)
    requires
        0 <= i < activated(q, included).len(),
    ensures
        ({
            let t = activated(q, included)[i];
            q.contains(t) || exists|k: int|
                0 <= k < q.len() && t.same_identity(#[trigger] q[k]) && q[k].state_of() != CandidateState::Finalized
                    && rank(q[k].state_of()) <= rank(t.state_of()) && t.state_of() == CandidateState::Included
                    && included.contains(t.hash_of())
        }),
{
    queue::lemma_transition_targets(q, included_in(included), CandidateState::Included, PruningDelay::Indefinite, i);
    let t = activated(q, included)[i];
    if !q.contains(t) {
        let k = choose|k: int|
            0 <= k < q.len() && included_in::<R>(included)(q[k]) && t == (#[trigger] q[k]).moved(
                CandidateState::Included,
                PruningDelay::Indefinite,
            );
        R::lemma_record_laws(q[k], q[k], q[k], CandidateState::Included, PruningDelay::Indefinite);
        assert(t.same_identity(q[k]));
    }
}

/// Finalization never steps a record backwards: every record after it is
/// either a record from before, unchanged, or a record at or below the
/// finalized height, now `Finalized`.
pub proof fn lemma_finalization_targets<R: PruningRecord>(q: Seq<R>, n: u32, d: PruningDelay, i: int)
    requires
        0 <= i < finalized(q, n, d).len(),
    ensures
        ({
            let t = finalized(q, n, d)[i];
            q.contains(t) || exists|k: int|
                0 <= k < q.len() && t.same_identity(#[trigger] q[k]) && rank(q[k].state_of()) <= rank(t.state_of())
                    && t.state_of() == CandidateState::Finalized && t.block_of() <= n
        }),
{
    queue::lemma_transition_targets(q, at_or_below(n), CandidateState::Finalized, d, i);
    let t = finalized(q, n, d)[i];
    if !q.contains(t) {
        let k = choose|k: int|
            0 <= k < q.len() && at_or_below::<R>(n)(q[k]) && t == (#[trigger] q[k]).moved(
                CandidateState::Finalized,
                d,
            );
        R::lemma_record_laws(q[k], q[k], q[k], CandidateState::Finalized, d);
        assert(t.same_identity(q[k]));
    }
}

/// Writing chunks leaves a key that none of them has as it was.
proof fn lemma_chunks_written_other(m: Map<ChunkKey, ErasureChunk>, h: CandidateHash, cs: Seq<ErasureChunk>, k: ChunkKey)
    requires
        forall|i: int| 0 <= i < cs.len() ==> (ChunkKey { candidate_hash: h, index: (#[trigger] cs[i]).index }) != k,
    ensures
        chunks_written(m, h, cs).contains_key(k) == m.contains_key(k),
        chunks_written(m, h, cs)[k] == m[k],
    decreases cs.len(),
{
    if cs.len() > 0 {
        let m2 = m.insert(ChunkKey { candidate_hash: h, index: cs[0].index }, cs[0]);
        assert forall|i: int| 0 <= i < cs.drop_first().len() implies (ChunkKey {
            candidate_hash: h,
            index: (#[trigger] cs.drop_first()[i]).index,
        }) != k by {
            assert(cs.drop_first()[i] == cs[i + 1]);
        }
        lemma_chunks_written_other(m2, h, cs.drop_first(), k);
    }
}

/// Writing chunks with distinct indices leaves each chunk under its index.
proof fn lemma_chunks_written_value(m: Map<ChunkKey, ErasureChunk>, h: CandidateHash, cs: Seq<ErasureChunk>, j: int)
    requires
        forall|a: int, b: int| 0 <= a < b < cs.len() ==> (#[trigger] cs[a]).index != (#[trigger] cs[b]).index,
        0 <= j < cs.len(),
    ensures
        chunks_written(m, h, cs).contains_key(ChunkKey { candidate_hash: h, index: cs[j].index }),
        chunks_written(m, h, cs)[ChunkKey { candidate_hash: h, index: cs[j].index }] == cs[j],
    decreases cs.len(),
{
    let m2 = m.insert(ChunkKey { candidate_hash: h, index: cs[0].index }, cs[0]);
    let rest = cs.drop_first();
    if j == 0 {
        assert forall|i: int| 0 <= i < rest.len() implies (ChunkKey {
            candidate_hash: h,
            index: (#[trigger] rest[i]).index,
        }) != (ChunkKey { candidate_hash: h, index: cs[0].index }) by {
            assert(rest[i] == cs[i + 1]);
        }
        lemma_chunks_written_other(m2, h, rest, ChunkKey { candidate_hash: h, index: cs[0].index });
    } else {
        assert forall|a: int, b: int| 0 <= a < b < rest.len() implies (#[trigger] rest[a]).index != (
        #[trigger] rest[b]).index by {
            assert(rest[a] == cs[a + 1] && rest[b] == cs[b + 1]);
        }
        assert(rest[j - 1] == cs[j]);
        lemma_chunks_written_value(m2, h, rest, j - 1);
    }
}

/// After the chunks of a candidate were regenerated, chunk `i` being the one
/// with index `i`, the chunk stored under index `j` is exactly `cs[j]`.
pub proof fn lemma_regenerated_chunk_value(m: Map<ChunkKey, ErasureChunk>, h: CandidateHash, cs: Seq<ErasureChunk>, j: u32)
    requires
        forall|i: int| 0 <= i < cs.len() ==> (#[trigger] cs[i]).index == i,
        j < cs.len(),
    ensures
        chunks_written(m, h, cs).contains_key(ChunkKey { candidate_hash: h, index: j }),
        chunks_written(m, h, cs)[ChunkKey { candidate_hash: h, index: j }] == cs[j as int],
{
    assert(cs[j as int].index == j);
    lemma_chunks_written_value(m, h, cs, j as int);
}

} // verus!
