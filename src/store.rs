//! The availability store: full available data and erasure chunks, the two
//! pruning queues, and the cached next wakeups.
use vstd::prelude::*;
use crate::column::{self, column_map, ChunkKey};
use crate::delay::{deadline_after, wait_until, NextChunkPruning, NextPoVPruning, PruningDelay};
use crate::error::Error;
use crate::queue::{self, due_at, kept_at, transitioned, upserted, well_formed};
use crate::record::{CandidateHash, CandidateState, ChunkPruningRecord, PoVPruningRecord, PruningRecord};

verus! {

/// How long a stored block stays available: one hour, in milliseconds.
pub const KEEP_STORED_BLOCK_FOR: u64 = 3_600_000;

/// How long a finalized block stays available: one day, in milliseconds.
pub const KEEP_FINALIZED_BLOCK_FOR: u64 = 86_400_000;

/// How long a chunk of a finalized block stays available: one day and one
/// hour, in milliseconds.
pub const KEEP_FINALIZED_CHUNK_FOR: u64 = 90_000_000;

/// The number of columns of the key-value store: artifact bytes and pruning
/// metadata.
pub const NUM_COLUMNS: usize = 2;

/// The data needed to validate a candidate. Only its block number is read
/// here; the rest is kept as it came.
#[derive(Clone, Debug, PartialEq, Eq)]
pub struct AvailableData {
    pub block_number: u32,
    pub data: Vec<u8>,
}

/// Available data as the store keeps it, with the number of validators that
/// its chunks are made for.
#[derive(Clone, Debug, PartialEq, Eq)]
pub struct StoredAvailableData {
    pub data: AvailableData,
    pub n_validators: u32,
}

/// One erasure-coded piece of available data, with its Merkle proof.
#[derive(Clone, Debug, PartialEq, Eq)]
pub struct ErasureChunk {
    pub chunk: Vec<u8>,
    pub proof: Vec<Vec<u8>>,
    pub index: u32,
}

/// How long records are kept in each state, in milliseconds.
#[derive(Clone, Copy, Debug, PartialEq, Eq, Structural)]
pub struct PruningConfig {
    /// How long a stored block stays available.
    pub keep_stored_block_for: u64,
    /// How long a finalized block stays available.
    pub keep_finalized_block_for: u64,
    /// How long a chunk of a finalized block stays available.
    pub keep_finalized_chunk_for: u64,
}

impl PruningConfig {
    /// The retention used in production.
    pub fn default() -> (r: PruningConfig)
        ensures
            r.keep_stored_block_for == KEEP_STORED_BLOCK_FOR,
            r.keep_finalized_block_for == KEEP_FINALIZED_BLOCK_FOR,
            r.keep_finalized_chunk_for == KEEP_FINALIZED_CHUNK_FOR,
    {
        PruningConfig {
            keep_stored_block_for: KEEP_STORED_BLOCK_FOR,
            keep_finalized_block_for: KEEP_FINALIZED_BLOCK_FOR,
            keep_finalized_chunk_for: KEEP_FINALIZED_CHUNK_FOR,
        }
    }
}

/// Where the store keeps its database, and how much memory it may cache.
#[derive(Clone, Debug, PartialEq, Eq)]
pub struct Config {
    /// Total cache size in megabytes; `None` leaves the default.
    pub cache_size: Option<usize>,
    /// Path to the database.
    pub path: String,
}

impl Config {
    /// The cache budget of each column: the total shared evenly.
    pub fn column_memory_budget(&self) -> (r: Option<usize>)
        ensures
            r == (match self.cache_size {
                Some(c) => Some((c / NUM_COLUMNS) as usize),
                None => None,
            }),
    {
        match self.cache_size {
            Some(c) => Some(c / NUM_COLUMNS),
            None => None,
        }
    }
}

/// The wakeup that a queue asks for: the deadline of its head, when that is a
/// point in time.
pub open spec fn head_wakeup<R: PruningRecord>(q: Seq<R>) -> Option<u64> {
    if q.len() > 0 {
        match q[0].deadline_of() {
            PruningDelay::In(t) => Some(t),
            PruningDelay::Indefinite => None,
        }
    } else {
        None
    }
}

/// The wakeup that a queue asks for.
fn head_of<R: PruningRecord>(q: &Vec<R>) -> (r: Option<u64>)
    ensures
        r == head_wakeup(q@),
{
    if q.len() > 0 {
        q[0].deadline().as_duration()
    } else {
        None
    }
}

/// The record is of a candidate among `included` and not yet finalized:
/// inclusion never takes a finalized record back.
pub open spec fn included_in<R: PruningRecord>(included: Seq<CandidateHash>) -> spec_fn(R) -> bool {
    |x: R| included.contains(x.hash_of()) && x.state_of() != CandidateState::Finalized
}

/// The record is of a block at height `n` or below.
pub open spec fn at_or_below<R: PruningRecord>(n: u32) -> spec_fn(R) -> bool {
    |x: R| x.block_of() <= n
}

/// The queue after the candidates of `included` were included.
pub open spec fn activated<R: PruningRecord>(q: Seq<R>, included: Seq<CandidateHash>) -> Seq<R> {
    transitioned(q, included_in(included), CandidateState::Included, PruningDelay::Indefinite)
}

/// The queue after the block at height `n` was finalized, with `d` as the new
/// deadline of every record at that height or below.
pub open spec fn finalized<R: PruningRecord>(q: Seq<R>, n: u32, d: PruningDelay) -> Seq<R> {
    transitioned(q, at_or_below(n), CandidateState::Finalized, d)
}

/// The key under which a chunk pruning record's chunk is stored.
pub open spec fn chunk_key_of(r: ChunkPruningRecord) -> ChunkKey {
    ChunkKey { candidate_hash: r.candidate_hash, index: r.chunk_index }
}

/// Some record of the queue is of candidate `h`.
pub open spec fn has_pov_record(q: Seq<PoVPruningRecord>, h: CandidateHash) -> bool {
    exists|i: int| 0 <= i < q.len() && (#[trigger] q[i]).candidate_hash == h
}

/// Some record of the queue is of the chunk with key `k`.
pub open spec fn has_chunk_record(q: Seq<ChunkPruningRecord>, k: ChunkKey) -> bool {
    exists|i: int| 0 <= i < q.len() && chunk_key_of(#[trigger] q[i]) == k
}

/// An own chunk, if given, has an index below the number of validators.
pub open spec fn chunk_fits(own_chunk: Option<ErasureChunk>, n_validators: u32) -> bool {
    match own_chunk {
        Some(c) => c.index < n_validators,
        None => true,
    }
}

/// The pruning record of a freshly stored chunk.
pub open spec fn new_chunk_record(h: CandidateHash, block_number: u32, index: u32, d: PruningDelay) -> ChunkPruningRecord {
    ChunkPruningRecord {
        candidate_hash: h,
        block_number,
        candidate_state: CandidateState::Stored,
        chunk_index: index,
        prune_at: d,
    }
}

/// The pruning record of freshly stored available data.
pub open spec fn new_pov_record(h: CandidateHash, block_number: u32, d: PruningDelay) -> PoVPruningRecord {
    PoVPruningRecord { candidate_hash: h, block_number, candidate_state: CandidateState::Stored, prune_at: d }
}

/// Whether `r` is among `keys`.
fn hash_listed(keys: &Vec<CandidateHash>, r: &CandidateHash) -> (b: bool)
    ensures
        b == keys@.contains(*r),
{
    let mut i: usize = 0;
    while i < keys.len()
        invariant
            i <= keys.len(),
            forall|j: int| 0 <= j < i ==> keys@[j] != *r,
        decreases keys.len() - i,
    {
        if keys[i].same(r) {
            return true;
        }
        i = i + 1;
    }
    false
}

/// The availability store.
pub struct AvailabilityStoreSubsystem {
    pruning_config: PruningConfig,
    data: Vec<(CandidateHash, StoredAvailableData)>,
    chunks: Vec<(ChunkKey, ErasureChunk)>,
    pov_pruning: Vec<PoVPruningRecord>,
    chunk_pruning: Vec<ChunkPruningRecord>,
    next_pov_pruning: Option<NextPoVPruning>,
    next_chunk_pruning: Option<NextChunkPruning>,
}

impl AvailabilityStoreSubsystem {
    /// The retention in force.
    pub closed spec fn config(&self) -> PruningConfig {
        self.pruning_config
    }

    /// The available data held, by candidate.
    pub closed spec fn available(&self) -> Map<CandidateHash, StoredAvailableData> {
        column_map(self.data@)
    }

    /// The erasure chunks held, by candidate and index.
    pub closed spec fn stored_chunks(&self) -> Map<ChunkKey, ErasureChunk> {
        column_map(self.chunks@)
    }

    /// The pruning queue of available data.
    pub closed spec fn pov_queue(&self) -> Seq<PoVPruningRecord> {
        self.pov_pruning@
    }

    /// The pruning queue of erasure chunks.
    pub closed spec fn chunk_queue(&self) -> Seq<ChunkPruningRecord> {
        self.chunk_pruning@
    }

    /// The cached time of the next pruning of available data.
    pub closed spec fn next_pov(&self) -> Option<u64> {
        match self.next_pov_pruning {
            Some(n) => Some(n.0),
            None => None,
        }
    }

    /// The cached time of the next pruning of erasure chunks.
    pub closed spec fn next_chunk(&self) -> Option<u64> {
        match self.next_chunk_pruning {
            Some(n) => Some(n.0),
            None => None,
        }
    }

    /// Every stored artifact has a pruning record of its identity.
    pub open spec fn backed(&self) -> bool {
        &&& forall|h: CandidateHash| #[trigger] self.available().contains_key(h) ==> has_pov_record(self.pov_queue(), h)
        &&& forall|k: ChunkKey| #[trigger] self.stored_chunks().contains_key(k) ==> has_chunk_record(self.chunk_queue(), k)
    }

    /// Both queues are sorted by deadline with one record per identity, each
    /// cached wakeup is the deadline at the head of its queue, and every
    /// stored artifact has a pruning record.
    pub open spec fn wf(&self) -> bool {
        &&& well_formed(self.pov_queue())
        &&& well_formed(self.chunk_queue())
        &&& self.next_pov() == head_wakeup(self.pov_queue())
        &&& self.next_chunk() == head_wakeup(self.chunk_queue())
        &&& self.backed()
    }

    /// An empty store with the given retention.
    pub fn new_in_memory(pruning_config: PruningConfig) -> (r: Self)
        ensures
            r.wf(),
            r.config() == pruning_config,
            r.available() == Map::<CandidateHash, StoredAvailableData>::empty(),
            r.stored_chunks() == Map::<ChunkKey, ErasureChunk>::empty(),
            r.pov_queue() == Seq::<PoVPruningRecord>::empty(),
            r.chunk_queue() == Seq::<ChunkPruningRecord>::empty(),
    {
        let r = AvailabilityStoreSubsystem {
            pruning_config,
            data: Vec::new(),
            chunks: Vec::new(),
            pov_pruning: Vec::new(),
            chunk_pruning: Vec::new(),
            next_pov_pruning: None,
            next_chunk_pruning: None,
        };
        assert(r.pov_queue() =~= Seq::<PoVPruningRecord>::empty());
        assert(r.chunk_queue() =~= Seq::<ChunkPruningRecord>::empty());
        r
    }

    /// Replaces the available-data queue and refreshes its cached wakeup.
    fn put_pov_pruning(&mut self, q: Vec<PoVPruningRecord>)
        requires
            well_formed(q@),
        ensures
            final(self).pov_queue() == q@,
            final(self).next_pov() == head_wakeup(q@),
            final(self).available() == old(self).available(),
            final(self).stored_chunks() == old(self).stored_chunks(),
            final(self).chunk_queue() == old(self).chunk_queue(),
            final(self).next_chunk() == old(self).next_chunk(),
            final(self).config() == old(self).config(),
    {
        self.next_pov_pruning = match head_of(&q) {
            Some(t) => Some(NextPoVPruning(t)),
            None => None,
        };
        self.pov_pruning = q;
    }

    /// Replaces the chunk queue and refreshes its cached wakeup.
    fn put_chunk_pruning(&mut self, q: Vec<ChunkPruningRecord>)
        requires
            well_formed(q@),
        ensures
            final(self).chunk_queue() == q@,
            final(self).next_chunk() == head_wakeup(q@),
            final(self).available() == old(self).available(),
            final(self).stored_chunks() == old(self).stored_chunks(),
            final(self).pov_queue() == old(self).pov_queue(),
            final(self).next_pov() == old(self).next_pov(),
            final(self).config() == old(self).config(),
    {
        self.next_chunk_pruning = match head_of(&q) {
            Some(t) => Some(NextChunkPruning(t)),
            None => None,
        };
        self.chunk_pruning = q;
    }

    /// Writes a chunk and its pruning record, with the deadline already
    /// worked out.
    fn write_chunk(&mut self, candidate_hash: &CandidateHash, chunk: ErasureChunk, block_number: u32, prune_at: PruningDelay)
        requires
            old(self).wf(),
        ensures
            final(self).wf(),
            final(self).stored_chunks() == old(self).stored_chunks().insert(
                ChunkKey { candidate_hash: *candidate_hash, index: chunk.index },
                chunk,
            ),
            final(self).chunk_queue() == upserted(
                old(self).chunk_queue(),
                new_chunk_record(*candidate_hash, block_number, chunk.index, prune_at),
            ),
            final(self).available() == old(self).available(),
            final(self).pov_queue() == old(self).pov_queue(),
            final(self).config() == old(self).config(),
    {
        let record = ChunkPruningRecord {
            candidate_hash: *candidate_hash,
            block_number,
            candidate_state: CandidateState::Stored,
            chunk_index: chunk.index,
            prune_at,
        };
        let q = queue::upsert(&self.chunk_pruning, record);
        proof {
            queue::lemma_upserted_well_formed(self.chunk_pruning@, record);
        }
        let key = ChunkKey { candidate_hash: *candidate_hash, index: chunk.index };
        let ghost q0 = self.chunk_pruning@;
        let ghost m0 = self.stored_chunks();
        column::put(&mut self.chunks, key, chunk);
        self.put_chunk_pruning(q);
        proof {
            assert forall|h: CandidateHash| #[trigger] self.available().contains_key(h) implies has_pov_record(
                self.pov_queue(),
                h,
            ) by {
                assert(old(self).available().contains_key(h));
            }
            assert forall|k: ChunkKey| #[trigger] self.stored_chunks().contains_key(k) implies has_chunk_record(
                self.chunk_queue(),
                k,
            ) by {
                if k == key {
                    queue::lemma_upserted_contains(q0, record, record);
                    let i = choose|i: int| 0 <= i < q@.len() && q@[i] == record;
                    assert(chunk_key_of(q@[i]) == k);
                } else {
                    assert(m0.contains_key(k));
                    let i = choose|i: int| 0 <= i < q0.len() && chunk_key_of(#[trigger] q0[i]) == k;
                    queue::lemma_upserted_contains(q0, record, q0[i]);
                    let j = choose|j: int| 0 <= j < q@.len() && q@[j] == q0[i];
                    assert(chunk_key_of(q@[j]) == k);
                }
            }
        }
    }

    /// Stores an erasure chunk of a candidate at `block_number`, due for
    /// pruning `keep_stored_block_for` after `now`. When that deadline does
    /// not fit, nothing is written.
    pub fn store_chunk(
        &mut self,
        candidate_hash: &CandidateHash,
        chunk: ErasureChunk,
        block_number: u32,
        now: u64,
    ) -> (r: Result<(), Error>)
        requires
            old(self).wf(),
        ensures
            final(self).wf(),
            deadline_after(now, old(self).config().keep_stored_block_for) is Err ==> r == Err::<(), Error>(Error::Time) && *final(self) == *old(self),
            deadline_after(now, old(self).config().keep_stored_block_for) is Ok ==> {
                let d = deadline_after(now, old(self).config().keep_stored_block_for)->Ok_0;
                &&& r is Ok
                &&& final(self).stored_chunks() == old(self).stored_chunks().insert(
                    ChunkKey { candidate_hash: *candidate_hash, index: chunk.index },
                    chunk,
                )
                &&& final(self).chunk_queue() == upserted(
                    old(self).chunk_queue(),
                    new_chunk_record(*candidate_hash, block_number, chunk.index, d),
                )
                &&& final(self).available() == old(self).available()
                &&& final(self).pov_queue() == old(self).pov_queue()
                &&& final(self).config() == old(self).config()
            },
    {
        let prune_at = match PruningDelay::after(now, self.pruning_config.keep_stored_block_for) {
            Ok(d) => d,
            Err(e) => return Err(e),
        };
        self.write_chunk(candidate_hash, chunk, block_number, prune_at);
        Ok(())
    }

    /// Stores a chunk received for a candidate built on a relay parent whose
    /// block number the chain reported (an unknown parent counts as block
    /// zero): the candidate's block is the next one. `Error::ChainApi` and no
    /// change when that number does not fit.
    pub fn store_received_chunk(
        &mut self,
        candidate_hash: &CandidateHash,
        relay_parent_number: Option<u32>,
        chunk: ErasureChunk,
        now: u64,
    ) -> (r: Result<(), Error>)
        requires
            old(self).wf(),
        ensures
            final(self).wf(),
            ({
                let p = match relay_parent_number {
                    Some(n) => n,
                    None => 0,
                };
                let d = deadline_after(now, old(self).config().keep_stored_block_for);
                &&& p + 1 > u32::MAX ==> r == Err::<(), Error>(Error::ChainApi) && *final(self) == *old(self)
                &&& p + 1 <= u32::MAX && d is Err ==> r == Err::<(), Error>(Error::Time) && *final(self) == *old(self)
                &&& p + 1 <= u32::MAX && d is Ok ==> {
                    &&& r is Ok
                    &&& final(self).stored_chunks() == old(self).stored_chunks().insert(
                        (ChunkKey { candidate_hash: *candidate_hash, index: chunk.index }),
                        chunk,
                    )
                    &&& final(self).chunk_queue() == upserted(
                        old(self).chunk_queue(),
                        new_chunk_record(*candidate_hash, (p + 1) as u32, chunk.index, d->Ok_0),
                    )
                    &&& final(self).available() == old(self).available()
                    &&& final(self).pov_queue() == old(self).pov_queue()
                    &&& final(self).config() == old(self).config()
                }
            }),
    {
        match child_block_number(relay_parent_number) {
            Some(n) => self.store_chunk(candidate_hash, chunk, n, now),
            None => Err(Error::ChainApi),
        }
    }

    /// Stores the available data of a candidate, due for pruning
    /// `keep_stored_block_for` after `now`, together with this validator's
    /// own chunk of it when there is one. Either everything is written or
    /// nothing: nothing when the own chunk's index is not below
    /// `n_validators` (`Error::Erasure`) or the deadline does not fit
    /// (`Error::Time`).
    pub fn store_available_data(
        &mut self,
        candidate_hash: &CandidateHash,
        own_chunk: Option<ErasureChunk>,
        n_validators: u32,
        available_data: AvailableData,
        now: u64,
    ) -> (r: Result<(), Error>)
        requires
            old(self).wf(),
        ensures
            final(self).wf(),
            !chunk_fits(own_chunk, n_validators) ==> r == Err::<(), Error>(Error::Erasure) && *final(self) == *old(self),
            chunk_fits(own_chunk, n_validators) && deadline_after(now, old(self).config().keep_stored_block_for) is Err
                ==> r == Err::<(), Error>(Error::Time) && *final(self) == *old(self),
            chunk_fits(own_chunk, n_validators) && deadline_after(now, old(self).config().keep_stored_block_for) is Ok ==> {
                let d = deadline_after(now, old(self).config().keep_stored_block_for)->Ok_0;
                let n = available_data.block_number;
                &&& r is Ok
                &&& final(self).available() == old(self).available().insert(
                    *candidate_hash,
                    StoredAvailableData { data: available_data, n_validators },
                )
                &&& final(self).pov_queue() == upserted(old(self).pov_queue(), new_pov_record(*candidate_hash, n, d))
                &&& match own_chunk {
                    Some(c) => {
                        &&& final(self).stored_chunks() == old(self).stored_chunks().insert(
                            ChunkKey { candidate_hash: *candidate_hash, index: c.index },
                            c,
                        )
                        &&& final(self).chunk_queue() == upserted(
                            old(self).chunk_queue(),
                            new_chunk_record(*candidate_hash, n, c.index, d),
                        )
                    },
                    None => {
                        &&& final(self).stored_chunks() == old(self).stored_chunks()
                        &&& final(self).chunk_queue() == old(self).chunk_queue()
                    },
                }
                &&& final(self).config() == old(self).config()
            },
    {
        match &own_chunk {
            Some(c) => {
                if c.index >= n_validators {
                    return Err(Error::Erasure);
                }
            },
            None => {},
        }
        let prune_at = match PruningDelay::after(now, self.pruning_config.keep_stored_block_for) {
            Ok(d) => d,
            Err(e) => return Err(e),
        };
        let block_number = available_data.block_number;
        match own_chunk {
            Some(c) => self.write_chunk(candidate_hash, c, block_number, prune_at),
            None => {},
        }
        let record = PoVPruningRecord {
            candidate_hash: *candidate_hash,
            block_number,
            candidate_state: CandidateState::Stored,
            prune_at,
        };
        let q = queue::upsert(&self.pov_pruning, record);
        proof {
            queue::lemma_upserted_well_formed(self.pov_pruning@, record);
        }
        let ghost q0 = self.pov_pruning@;
        let ghost m0 = self.available();
        let ghost mid = *self;
        column::put(&mut self.data, *candidate_hash, StoredAvailableData { data: available_data, n_validators });
        self.put_pov_pruning(q);
        proof {
            assert forall|k: ChunkKey| #[trigger] self.stored_chunks().contains_key(k) implies has_chunk_record(
                self.chunk_queue(),
                k,
            ) by {
                assert(mid.stored_chunks().contains_key(k));
            }
            assert forall|h: CandidateHash| #[trigger] self.available().contains_key(h) implies has_pov_record(
                self.pov_queue(),
                h,
            ) by {
                if h == *candidate_hash {
                    queue::lemma_upserted_contains(q0, record, record);
                    let i = choose|i: int| 0 <= i < q@.len() && q@[i] == record;
                    assert(q@[i].candidate_hash == h);
                } else {
                    assert(m0.contains_key(h));
                    let i = choose|i: int| 0 <= i < q0.len() && (#[trigger] q0[i]).candidate_hash == h;
                    queue::lemma_upserted_contains(q0, record, q0[i]);
                    let j = choose|j: int| 0 <= j < q@.len() && q@[j] == q0[i];
                    assert(q@[j].candidate_hash == h);
                }
            }
        }
        Ok(())
    }

    /// The stored available data of a candidate.
    pub fn query_available_data(&self, candidate_hash: &CandidateHash) -> (r: Option<&AvailableData>)
        ensures
            match r {
                Some(d) => self.available().contains_key(*candidate_hash) && self.available()[*candidate_hash].data == *d,
                None => !self.available().contains_key(*candidate_hash),
            },
    {
        match column::get(&self.data, candidate_hash) {
            Some(s) => Some(&s.data),
            None => None,
        }
    }

    /// The stored available data of a candidate, with its number of
    /// validators.
    pub fn available_data(&self, candidate_hash: &CandidateHash) -> (r: Option<&StoredAvailableData>)
        ensures
            match r {
                Some(d) => self.available().contains_key(*candidate_hash) && self.available()[*candidate_hash] == *d,
                None => !self.available().contains_key(*candidate_hash),
            },
    {
        column::get(&self.data, candidate_hash)
    }

    /// Whether available data of the candidate is stored.
    pub fn query_data_availability(&self, candidate_hash: &CandidateHash) -> (r: bool)
        ensures
            r == self.available().contains_key(*candidate_hash),
    {
        column::get(&self.data, candidate_hash).is_some()
    }

    /// The stored chunk of a candidate at an index.
    pub fn query_chunk(&self, candidate_hash: &CandidateHash, index: u32) -> (r: Option<&ErasureChunk>)
        ensures
            ({
                let k = ChunkKey { candidate_hash: *candidate_hash, index };
                match r {
                    Some(c) => self.stored_chunks().contains_key(k) && self.stored_chunks()[k] == *c,
                    None => !self.stored_chunks().contains_key(k),
                }
            }),
    {
        let key = ChunkKey { candidate_hash: *candidate_hash, index };
        column::get(&self.chunks, &key)
    }

    /// Whether a request for this chunk has to regenerate the chunks from the
    /// available data: the chunk is missing and the data is there.
    pub fn needs_regeneration(&self, candidate_hash: &CandidateHash, index: u32) -> (r: bool)
        ensures
            r == (!self.stored_chunks().contains_key(ChunkKey { candidate_hash: *candidate_hash, index })
                && self.available().contains_key(*candidate_hash)),
    {
        self.query_chunk(candidate_hash, index).is_none() && self.query_data_availability(candidate_hash)
    }

    /// The cached time of the next pruning of available data.
    pub fn next_pov_pruning(&self) -> (r: Option<NextPoVPruning>)
        ensures
            r == (match self.next_pov() {
                Some(t) => Some(NextPoVPruning(t)),
                None => None,
            }),
    {
        self.next_pov_pruning
    }

    /// The cached time of the next pruning of erasure chunks.
    pub fn next_chunk_pruning(&self) -> (r: Option<NextChunkPruning>)
        ensures
            r == (match self.next_chunk() {
                Some(t) => Some(NextChunkPruning(t)),
                None => None,
            }),
    {
        self.next_chunk_pruning
    }

    /// The pruning queue of available data.
    pub fn pov_pruning(&self) -> (r: &Vec<PoVPruningRecord>)
        ensures
            r@ == self.pov_queue(),
    {
        &self.pov_pruning
    }

    /// The pruning queue of erasure chunks.
    pub fn chunk_pruning(&self) -> (r: &Vec<ChunkPruningRecord>)
        ensures
            r@ == self.chunk_queue(),
    {
        &self.chunk_pruning
    }

    /// How long after `now` the pruning of available data should run, or
    /// `None` when nothing is scheduled.
    pub fn maybe_prune_povs(&self, now: u64) -> (r: Option<u64>)
        ensures
            r == (match self.next_pov() {
                Some(t) => Some(wait_until(t, now)),
                None => None,
            }),
    {
        match self.next_pov_pruning {
            Some(n) => Some(n.fire_in(now)),
            None => None,
        }
    }

    /// How long after `now` the pruning of erasure chunks should run, or
    /// `None` when nothing is scheduled.
    pub fn maybe_prune_chunks(&self, now: u64) -> (r: Option<u64>)
        ensures
            r == (match self.next_chunk() {
                Some(t) => Some(wait_until(t, now)),
                None => None,
            }),
    {
        match self.next_chunk_pruning {
            Some(n) => Some(n.fire_in(now)),
            None => None,
        }
    }

    /// Applies the inclusion of the candidates of `included`: each of their
    /// records that is not yet finalized becomes `Included` with no
    /// deadline, and both queues are put back in order of deadline.
    pub fn process_block_activated(&mut self, included: &Vec<CandidateHash>)
        requires
            old(self).wf(),
        ensures
            final(self).wf(),
            final(self).pov_queue() == activated(old(self).pov_queue(), included@),
            final(self).chunk_queue() == activated(old(self).chunk_queue(), included@),
            final(self).available() == old(self).available(),
            final(self).stored_chunks() == old(self).stored_chunks(),
            final(self).config() == old(self).config(),
    {
        let pov = transition_included(&self.pov_pruning, included);
        let chunk = transition_included(&self.chunk_pruning, included);
        proof {
            queue::lemma_transitioned_well_formed(
                self.pov_pruning@,
                included_in(included@),
                CandidateState::Included,
                PruningDelay::Indefinite,
            );
            queue::lemma_transitioned_well_formed(
                self.chunk_pruning@,
                included_in(included@),
                CandidateState::Included,
                PruningDelay::Indefinite,
            );
        }
        let ghost p0 = self.pov_pruning@;
        let ghost c0 = self.chunk_pruning@;
        self.put_pov_pruning(pov);
        self.put_chunk_pruning(chunk);
        proof {
            self.lemma_backed_after_transition(
                p0,
                c0,
                included_in(included@),
                included_in(included@),
                CandidateState::Included,
                PruningDelay::Indefinite,
                PruningDelay::Indefinite,
            );
        }
    }

    /// Applies the finalization of the block at height `block_number`: every
    /// record at that height or below becomes `Finalized`, due for pruning
    /// `keep_finalized_block_for` (available data) or
    /// `keep_finalized_chunk_for` (chunks) after `now`. When a deadline does
    /// not fit, nothing changes.
    pub fn process_block_finalized(&mut self, block_number: u32, now: u64) -> (r: Result<(), Error>)
        requires
            old(self).wf(),
        ensures
            final(self).wf(),
            ({
                let dp = deadline_after(now, old(self).config().keep_finalized_block_for);
                let dc = deadline_after(now, old(self).config().keep_finalized_chunk_for);
                &&& (dp is Err || dc is Err) ==> r == Err::<(), Error>(Error::Time) && *final(self) == *old(self)
                &&& (dp is Ok && dc is Ok) ==> {
                    &&& r is Ok
                    &&& final(self).pov_queue() == finalized(old(self).pov_queue(), block_number, dp->Ok_0)
                    &&& final(self).chunk_queue() == finalized(old(self).chunk_queue(), block_number, dc->Ok_0)
                    &&& final(self).available() == old(self).available()
                    &&& final(self).stored_chunks() == old(self).stored_chunks()
                    &&& final(self).config() == old(self).config()
                }
            }),
    {
        let dp = match PruningDelay::after(now, self.pruning_config.keep_finalized_block_for) {
            Ok(d) => d,
            Err(e) => return Err(e),
        };
        let dc = match PruningDelay::after(now, self.pruning_config.keep_finalized_chunk_for) {
            Ok(d) => d,
            Err(e) => return Err(e),
        };
        let pov = transition_finalized(&self.pov_pruning, block_number, dp);
        let chunk = transition_finalized(&self.chunk_pruning, block_number, dc);
        proof {
            queue::lemma_transitioned_well_formed(
                self.pov_pruning@,
                at_or_below(block_number),
                CandidateState::Finalized,
                dp,
            );
            queue::lemma_transitioned_well_formed(
                self.chunk_pruning@,
                at_or_below(block_number),
                CandidateState::Finalized,
                dc,
            );
        }
        let ghost p0 = self.pov_pruning@;
        let ghost c0 = self.chunk_pruning@;
        self.put_pov_pruning(pov);
        self.put_chunk_pruning(chunk);
        proof {
            self.lemma_backed_after_transition(
                p0,
                c0,
                at_or_below(block_number),
                at_or_below(block_number),
                CandidateState::Finalized,
                dp,
                dc,
            );
        }
        Ok(())
    }

    /// After both queues went through a transition, with the stored
    /// artifacts as before, every artifact still has a pruning record.
    proof fn lemma_backed_after_transition(
        &self,
        p0: Seq<PoVPruningRecord>,
        c0: Seq<ChunkPruningRecord>,
        pp: spec_fn(PoVPruningRecord) -> bool,
        pc: spec_fn(ChunkPruningRecord) -> bool,
        state: CandidateState,
        dp: PruningDelay,
        dc: PruningDelay,
    )
        requires
            forall|h: CandidateHash| #[trigger] self.available().contains_key(h) ==> has_pov_record(p0, h),
            forall|k: ChunkKey| #[trigger] self.stored_chunks().contains_key(k) ==> has_chunk_record(c0, k),
            self.pov_queue() == transitioned(p0, pp, state, dp),
            self.chunk_queue() == transitioned(c0, pc, state, dc),
        ensures
            self.backed(),
    {
        assert forall|h: CandidateHash| #[trigger] self.available().contains_key(h) implies has_pov_record(
            self.pov_queue(),
            h,
        ) by {
            let i = choose|i: int| 0 <= i < p0.len() && (#[trigger] p0[i]).candidate_hash == h;
            queue::lemma_transitioned_contains(p0, pp, state, dp, p0[i]);
            let y = choose|y: PoVPruningRecord| #[trigger] transitioned(p0, pp, state, dp).contains(y) && y.same_identity(p0[i]);
            let j = choose|j: int| 0 <= j < self.pov_queue().len() && self.pov_queue()[j] == y;
            assert(self.pov_queue()[j].candidate_hash == h);
        }
        assert forall|k: ChunkKey| #[trigger] self.stored_chunks().contains_key(k) implies has_chunk_record(
            self.chunk_queue(),
            k,
        ) by {
            let i = choose|i: int| 0 <= i < c0.len() && chunk_key_of(#[trigger] c0[i]) == k;
            queue::lemma_transitioned_contains(c0, pc, state, dc, c0[i]);
            let y = choose|y: ChunkPruningRecord| #[trigger] transitioned(c0, pc, state, dc).contains(y) && y.same_identity(c0[i]);
            let j = choose|j: int| 0 <= j < self.chunk_queue().len() && self.chunk_queue()[j] == y;
            assert(chunk_key_of(self.chunk_queue()[j]) == k);
        }
    }

    /// Prunes the available data whose deadline is `now` or earlier: their
    /// records leave the queue and their data is deleted.
    pub fn prune_povs(&mut self, now: u64)
        requires
            old(self).wf(),
        ensures
            final(self).wf(),
            final(self).pov_queue() == kept_at(old(self).pov_queue(), now),
            final(self).available() == old(self).available().remove_keys(
                pov_keys(due_at(old(self).pov_queue(), now)).to_set(),
            ),
            final(self).stored_chunks() == old(self).stored_chunks(),
            final(self).chunk_queue() == old(self).chunk_queue(),
            final(self).config() == old(self).config(),
    {
        let (due, kept) = queue::split_due(&self.pov_pruning, &PruningDelay::In(now));
        let mut keys: Vec<CandidateHash> = Vec::new();
        let mut i: usize = 0;
        while i < due.len()
            invariant
                i <= due.len(),
                keys@ == pov_keys(due@.take(i as int)),
            decreases due.len() - i,
        {
            keys.push(due[i].candidate_hash);
            i = i + 1;
            assert(keys@ =~= pov_keys(due@.take(i as int)));
        }
        assert(due@.take(due.len() as int) =~= due@);
        proof {
            queue::lemma_kept_well_formed(self.pov_pruning@, now);
        }
        let ghost q0 = self.pov_pruning@;
        let ghost m0 = self.available();
        column::remove_keys(&mut self.data, &keys);
        self.put_pov_pruning(kept);
        proof {
            assert forall|k: ChunkKey| #[trigger] self.stored_chunks().contains_key(k) implies has_chunk_record(
                self.chunk_queue(),
                k,
            ) by {
                assert(old(self).stored_chunks().contains_key(k));
            }
            assert forall|h: CandidateHash| #[trigger] self.available().contains_key(h) implies has_pov_record(
                self.pov_queue(),
                h,
            ) by {
                assert(m0.contains_key(h));
                let i = choose|i: int| 0 <= i < q0.len() && (#[trigger] q0[i]).candidate_hash == h;
                if q0[i].prune_at.spec_le(PruningDelay::In(now)) {
                    Seq::lemma_filter_contains(q0, queue::due_by(PruningDelay::In(now)), i);
                    let j = choose|j: int| 0 <= j < due@.len() && due@[j] == q0[i];
                    assert(pov_keys(due@)[j] == h);
                    assert(keys@.to_set().contains(h));
                } else {
                    Seq::lemma_filter_contains(q0, queue::not_due_by(PruningDelay::In(now)), i);
                    let j = choose|j: int| 0 <= j < kept@.len() && kept@[j] == q0[i];
                    assert(self.pov_queue()[j].candidate_hash == h);
                }
            }
        }
    }

    /// Prunes the erasure chunks whose deadline is `now` or earlier: their
    /// records leave the queue and the chunks are deleted.
    pub fn prune_chunks(&mut self, now: u64)
        requires
            old(self).wf(),
        ensures
            final(self).wf(),
            final(self).chunk_queue() == kept_at(old(self).chunk_queue(), now),
            final(self).stored_chunks() == old(self).stored_chunks().remove_keys(
                chunk_keys(due_at(old(self).chunk_queue(), now)).to_set(),
            ),
            final(self).available() == old(self).available(),
            final(self).pov_queue() == old(self).pov_queue(),
            final(self).config() == old(self).config(),
    {
        let (due, kept) = queue::split_due(&self.chunk_pruning, &PruningDelay::In(now));
        let mut keys: Vec<ChunkKey> = Vec::new();
        let mut i: usize = 0;
        while i < due.len()
            invariant
                i <= due.len(),
                keys@ == chunk_keys(due@.take(i as int)),
            decreases due.len() - i,
        {
            keys.push(ChunkKey { candidate_hash: due[i].candidate_hash, index: due[i].chunk_index });
            i = i + 1;
            assert(keys@ =~= chunk_keys(due@.take(i as int)));
        }
        assert(due@.take(due.len() as int) =~= due@);
        proof {
            queue::lemma_kept_well_formed(self.chunk_pruning@, now);
        }
        let ghost q0 = self.chunk_pruning@;
        let ghost m0 = self.stored_chunks();
        column::remove_keys(&mut self.chunks, &keys);
        self.put_chunk_pruning(kept);
        proof {
            assert forall|h: CandidateHash| #[trigger] self.available().contains_key(h) implies has_pov_record(
                self.pov_queue(),
                h,
            ) by {
                assert(old(self).available().contains_key(h));
            }
            assert forall|k: ChunkKey| #[trigger] self.stored_chunks().contains_key(k) implies has_chunk_record(
                self.chunk_queue(),
                k,
            ) by {
                assert(m0.contains_key(k));
                let i = choose|i: int| 0 <= i < q0.len() && chunk_key_of(#[trigger] q0[i]) == k;
                if q0[i].prune_at.spec_le(PruningDelay::In(now)) {
                    Seq::lemma_filter_contains(q0, queue::due_by(PruningDelay::In(now)), i);
                    let j = choose|j: int| 0 <= j < due@.len() && due@[j] == q0[i];
                    assert(chunk_keys(due@)[j] == k);
                    assert(keys@.to_set().contains(k));
                } else {
                    Seq::lemma_filter_contains(q0, queue::not_due_by(PruningDelay::In(now)), i);
                    let j = choose|j: int| 0 <= j < kept@.len() && kept@[j] == q0[i];
                    assert(chunk_key_of(self.chunk_queue()[j]) == k);
                }
            }
        }
    }

    /// Stores every chunk regenerated from the candidate's available data,
    /// each due for pruning `keep_stored_block_for` after `now`, at the
    /// block number of that data. Returns `Ok(false)` and changes nothing
    /// when no available data of the candidate is stored; when the deadline
    /// does not fit, nothing changes either.
    pub fn regenerate_chunks(
        &mut self,
        candidate_hash: &CandidateHash,
        chunks: Vec<ErasureChunk>,
        now: u64,
    ) -> (r: Result<bool, Error>)
        requires
            old(self).wf(),
        ensures
            final(self).wf(),
            !old(self).available().contains_key(*candidate_hash) ==> r == Ok::<bool, Error>(false) && *final(self) == *old(self),
            old(self).available().contains_key(*candidate_hash) ==> {
                let d = deadline_after(now, old(self).config().keep_stored_block_for);
                let n = old(self).available()[*candidate_hash].data.block_number;
                &&& d is Err ==> r == Err::<bool, Error>(Error::Time) && *final(self) == *old(self)
                &&& d is Ok ==> {
                    &&& r == Ok::<bool, Error>(true)
                    &&& final(self).stored_chunks() == chunks_written(old(self).stored_chunks(), *candidate_hash, chunks@)
                    &&& final(self).chunk_queue() == records_written(old(self).chunk_queue(), *candidate_hash, n, d->Ok_0, chunks@)
                    &&& final(self).available() == old(self).available()
                    &&& final(self).pov_queue() == old(self).pov_queue()
                    &&& final(self).config() == old(self).config()
                }
            },
    {
        let block_number = match column::get(&self.data, candidate_hash) {
            Some(s) => s.data.block_number,
            None => return Ok(false),
        };
        let prune_at = match PruningDelay::after(now, self.pruning_config.keep_stored_block_for) {
            Ok(d) => d,
            Err(e) => return Err(e),
        };
        let ghost m0 = self.stored_chunks();
        let ghost q0 = self.chunk_queue();
        let mut rest = chunks;
        while rest.len() > 0
            invariant
                self.wf(),
                chunks_written(self.stored_chunks(), *candidate_hash, rest@) == chunks_written(m0, *candidate_hash, chunks@),
                records_written(self.chunk_queue(), *candidate_hash, block_number, prune_at, rest@)
                    == records_written(q0, *candidate_hash, block_number, prune_at, chunks@),
                self.available() == old(self).available(),
                self.pov_queue() == old(self).pov_queue(),
                self.config() == old(self).config(),
            decreases rest.len(),
        {
            let ghost before = rest@;
            let c = rest.remove(0);
            assert(rest@ =~= before.drop_first());
            self.write_chunk(candidate_hash, c, block_number, prune_at);
        }
        Ok(true)
    }
}


/// The keys of the available data that pruning records stand for.
pub open spec fn pov_keys(s: Seq<PoVPruningRecord>) -> Seq<CandidateHash> {
    s.map_values(|r: PoVPruningRecord| r.candidate_hash)
}

/// The keys of the chunks that pruning records stand for.
pub open spec fn chunk_keys(s: Seq<ChunkPruningRecord>) -> Seq<ChunkKey> {
    s.map_values(|r: ChunkPruningRecord| chunk_key_of(r))
}

/// The chunk column after the chunks `cs` of candidate `h` were written in
/// order.
pub open spec fn chunks_written(m: Map<ChunkKey, ErasureChunk>, h: CandidateHash, cs: Seq<ErasureChunk>) -> Map<
    ChunkKey,
    ErasureChunk,
>
    decreases cs.len(),
{
    if cs.len() == 0 {
        m
    } else {
        chunks_written(m.insert(ChunkKey { candidate_hash: h, index: cs[0].index }, cs[0]), h, cs.drop_first())
    }
}

/// The chunk queue after the records of the chunks `cs` of candidate `h`,
/// at block `n` with deadline `d`, were put in in order.
pub open spec fn records_written(
    q: Seq<ChunkPruningRecord>,
    h: CandidateHash,
    n: u32,
    d: PruningDelay,
    cs: Seq<ErasureChunk>,
) -> Seq<ChunkPruningRecord>
    decreases cs.len(),
{
    if cs.len() == 0 {
        q
    } else {
        records_written(upserted(q, new_chunk_record(h, n, cs[0].index, d)), h, n, d, cs.drop_first())
    }
}

/// Moves the records of the candidates of `included` to `Included`.
fn transition_included<R: PruningRecord>(q: &Vec<R>, included: &Vec<CandidateHash>) -> (r: Vec<R>)
    ensures
        r@ == activated(q@, included@),
{
    let mut flags: Vec<bool> = Vec::new();
    let mut i: usize = 0;
    while i < q.len()
        invariant
            i <= q.len(),
            flags.len() == i,
            forall|k: int| 0 <= k < i ==> flags[k] == included_in::<R>(included@)(q[k]),
        decreases q.len() - i,
    {
        let not_final = match q[i].state() {
            CandidateState::Finalized => false,
            _ => true,
        };
        flags.push(hash_listed(included, &q[i].candidate()) && not_final);
        i = i + 1;
    }
    queue::transition(q, &flags, Ghost(included_in(included@)), CandidateState::Included, PruningDelay::Indefinite)
}

/// Moves the records at height `n` or below to `Finalized` with deadline `d`.
fn transition_finalized<R: PruningRecord>(q: &Vec<R>, n: u32, d: PruningDelay) -> (r: Vec<R>)
    ensures
        r@ == finalized(q@, n, d),
{
    let mut flags: Vec<bool> = Vec::new();
    let mut i: usize = 0;
    while i < q.len()
        invariant
            i <= q.len(),
            flags.len() == i,
            forall|k: int| 0 <= k < i ==> flags[k] == at_or_below::<R>(n)(q[k]),
        decreases q.len() - i,
    {
        flags.push(q[i].block() <= n);
        i = i + 1;
    }
    queue::transition(q, &flags, Ghost(at_or_below(n)), CandidateState::Finalized, d)
}

/// What a block reports about a candidate.
#[derive(Clone, Copy, Debug, PartialEq, Eq)]
pub enum CandidateEvent {
    /// The candidate was backed.
    CandidateBacked(CandidateHash),
    /// The candidate was included.
    CandidateIncluded(CandidateHash),
    /// The candidate timed out.
    CandidateTimedOut(CandidateHash),
}

/// The candidates that `events` report as included, in order.
pub open spec fn included_hashes(events: Seq<CandidateEvent>) -> Seq<CandidateHash>
    decreases events.len(),
{
    if events.len() == 0 {
        Seq::empty()
    } else {
        let rest = included_hashes(events.drop_last());
        match events.last() {
            CandidateEvent::CandidateIncluded(h) => rest.push(h),
            _ => rest,
        }
    }
}

/// The candidates that `events` report as included.
pub fn included_candidates(events: &Vec<CandidateEvent>) -> (r: Vec<CandidateHash>)
    ensures
        r@ == included_hashes(events@),
{
    let mut out: Vec<CandidateHash> = Vec::new();
    let mut i: usize = 0;
    while i < events.len()
        invariant
            i <= events.len(),
            out@ == included_hashes(events@.take(i as int)),
        decreases events.len() - i,
    {
        assert(events@.take(i + 1).drop_last() =~= events@.take(i as int));
        match events[i] {
            CandidateEvent::CandidateIncluded(h) => out.push(h),
            _ => {},
        }
        i = i + 1;
    }
    assert(events@.take(events.len() as int) =~= events@);
    out
}

/// The block number of a candidate built on a relay parent whose number the
/// chain reported (an unknown parent counts as block zero), or `None` when it
/// does not fit.
pub fn child_block_number(parent: Option<u32>) -> (r: Option<u32>)
    ensures
        ({
            let p = match parent {
                Some(n) => n,
                None => 0,
            };
            r == if p + 1 <= u32::MAX { Some((p + 1) as u32) } else { None::<u32> }
        }),
{
    let p = match parent {
        Some(n) => n,
        None => 0,
    };
    p.checked_add(1)
}


/// This validator's own chunk out of all the chunks of a candidate: the one
/// at `index`, or `Error::Erasure` when there are not that many chunks.
pub fn own_chunk(chunks: Vec<ErasureChunk>, index: u32) -> (r: Result<ErasureChunk, Error>)
    ensures
        index < chunks@.len() ==> r == Ok::<ErasureChunk, Error>(chunks@[index as int]),
        index >= chunks@.len() ==> r == Err::<ErasureChunk, Error>(Error::Erasure),
{
    let mut chunks = chunks;
    if (index as usize) < chunks.len() {
        Ok(chunks.remove(index as usize))
    } else {
        Err(Error::Erasure)
    }
}

} // verus!
