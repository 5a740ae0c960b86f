//! Byte keys of the artifact column: the candidate hash, then for a chunk its
//! index in little-endian order, then a zero byte.
use vstd::prelude::*;
use crate::record::CandidateHash;

verus! {

/// The four little-endian bytes of `n`.
pub open spec fn le_bytes(n: u32) -> Seq<u8> {
    seq![
        (n % 256) as u8,
        ((n / 256) % 256) as u8,
        ((n / 65536) % 256) as u8,
        (n / 16777216) as u8,
    ]
}

/// The key of a candidate's full available data.
pub open spec fn data_key(h: CandidateHash) -> Seq<u8> {
    h.0@.push(0u8)
}

/// The key of a candidate's chunk at an index.
pub open spec fn chunk_key(h: CandidateHash, index: u32) -> Seq<u8> {
    (h.0@ + le_bytes(index)).push(0u8)
}

/// The bytes of a candidate hash.
fn hash_bytes(h: &CandidateHash) -> (r: Vec<u8>)
    ensures
        r@ == h.0@,
{
    let mut out: Vec<u8> = Vec::new();
    let mut i: usize = 0;
    while i < 32
        invariant
            i <= 32,
            out@ == h.0@.take(i as int),
        decreases 32 - i,
    {
        out.push(h.0[i]);
        i = i + 1;
        assert(out@ =~= h.0@.take(i as int));
    }
    assert(h.0@.take(32) =~= h.0@);
    out
}

/// The key of a candidate's full available data.
pub fn available_data_key(candidate_hash: &CandidateHash) -> (r: Vec<u8>)
    ensures
        r@ == data_key(*candidate_hash),
{
    let mut out = hash_bytes(candidate_hash);
    out.push(0u8);
    out
}

/// The key of a candidate's chunk at an index.
pub fn erasure_chunk_key(candidate_hash: &CandidateHash, index: u32) -> (r: Vec<u8>)
    ensures
        r@ == chunk_key(*candidate_hash, index),
{
    let mut out = hash_bytes(candidate_hash);
    out.push((index % 256) as u8);
    out.push(((index / 256) % 256) as u8);
    out.push(((index / 65536) % 256) as u8);
    out.push((index / 16777216) as u8);
    out.push(0u8);
    proof {
        assert(out@ =~= chunk_key(*candidate_hash, index));
    }
    out
}

/// A data key and a chunk key never coincide, and distinct identities give
/// distinct keys.
pub proof fn lemma_keys_distinct(h1: CandidateHash, h2: CandidateHash, i1: u32, i2: u32)
    ensures
        data_key(h1) != chunk_key(h2, i2),
        data_key(h1) == data_key(h2) ==> h1 == h2,
        chunk_key(h1, i1) == chunk_key(h2, i2) ==> h1 == h2 && i1 == i2,
{
    assert(data_key(h1).len() == 33);
    assert(chunk_key(h2, i2).len() == 37);
    broadcast use vstd::array::group_array_axioms;

    if data_key(h1) == data_key(h2) {
        assert forall|k: int| 0 <= k < 32 implies h1.0[k] == h2.0[k] by {
            assert(data_key(h1)[k] == data_key(h2)[k]);
        }
        assert(h1.0 =~= h2.0);
    }
    if chunk_key(h1, i1) == chunk_key(h2, i2) {
        assert forall|k: int| 0 <= k < 32 implies h1.0[k] == h2.0[k] by {
            assert(chunk_key(h1, i1)[k] == chunk_key(h2, i2)[k]);
        }
        assert(h1.0 =~= h2.0);
        assert(le_bytes(i1) =~= chunk_key(h1, i1).subrange(32, 36));
        assert(le_bytes(i2) =~= chunk_key(h2, i2).subrange(32, 36));
        assert(le_bytes(i1)[0] == le_bytes(i2)[0]);
        assert(le_bytes(i1)[1] == le_bytes(i2)[1]);
        assert(le_bytes(i1)[2] == le_bytes(i2)[2]);
        assert(le_bytes(i1)[3] == le_bytes(i2)[3]);
        assert(i1 == i2) by (nonlinear_arith)
            requires
                (i1 % 256) as u8 == (i2 % 256) as u8,
                ((i1 / 256) % 256) as u8 == ((i2 / 256) % 256) as u8,
                ((i1 / 65536) % 256) as u8 == ((i2 / 65536) % 256) as u8,
                (i1 / 16777216) as u8 == (i2 / 16777216) as u8,
        ;
    }
}

} // verus!
