use av_store::delay::{NextChunkPruning, NextPoVPruning, PruningDelay};
use av_store::error::Error;
use av_store::record::{CandidateHash, CandidateState};
use av_store::store::{
    child_block_number, included_candidates, own_chunk, AvailabilityStoreSubsystem, AvailableData, CandidateEvent, Config,
    ErasureChunk, PruningConfig, KEEP_FINALIZED_BLOCK_FOR, KEEP_FINALIZED_CHUNK_FOR, KEEP_STORED_BLOCK_FOR,
};

const SEC: u64 = 1_000;

fn hash(n: u8) -> CandidateHash {
    CandidateHash([n; 32])
}

fn data(block_number: u32, bytes: Vec<u8>) -> AvailableData {
    AvailableData { block_number, data: bytes }
}

fn chunk(index: u32) -> ErasureChunk {
    ErasureChunk { chunk: vec![index as u8, 7, 7], proof: vec![vec![index as u8]], index }
}

fn config(stored: u64, finalized_block: u64, finalized_chunk: u64) -> PruningConfig {
    PruningConfig {
        keep_stored_block_for: stored,
        keep_finalized_block_for: finalized_block,
        keep_finalized_chunk_for: finalized_chunk,
    }
}

fn included(hashes: &[CandidateHash]) -> Vec<CandidateHash> {
    let events: Vec<CandidateEvent> = hashes.iter().map(|h| CandidateEvent::CandidateIncluded(*h)).collect();
    included_candidates(&events)
}

#[test]
fn store_then_prune_after_expiry() {
    let mut s = AvailabilityStoreSubsystem::new_in_memory(config(10 * SEC, 24 * 3600 * SEC, 25 * 3600 * SEC));
    let c1 = hash(1);
    assert_eq!(s.store_available_data(&c1, None, 4, data(5, vec![1, 2, 3]), 0), Ok(()));
    assert_eq!(s.maybe_prune_povs(9 * SEC), Some(SEC));
    s.prune_povs(9 * SEC);
    assert!(s.query_available_data(&c1).is_some());
    assert_eq!(s.maybe_prune_povs(11 * SEC), Some(0));
    s.prune_povs(11 * SEC);
    assert!(s.query_available_data(&c1).is_none());
    assert!(s.pov_pruning().is_empty());
    assert_eq!(s.next_pov_pruning(), None);
    assert_eq!(s.maybe_prune_povs(12 * SEC), None);
}

#[test]
fn inclusion_freezes_deadline() {
    let mut s = AvailabilityStoreSubsystem::new_in_memory(PruningConfig::default());
    let c1 = hash(1);
    s.store_available_data(&c1, None, 4, data(5, vec![9]), 0).unwrap();
    s.process_block_activated(&included(&[c1]));
    assert_eq!(s.pov_pruning()[0].prune_at, PruningDelay::Indefinite);
    assert_eq!(s.pov_pruning()[0].candidate_state, CandidateState::Included);
    assert_eq!(s.next_pov_pruning(), None);
    s.prune_povs(3600 * SEC + SEC);
    assert!(s.query_available_data(&c1).is_some());
}

#[test]
fn finalization_rearms_deadline() {
    let mut s = AvailabilityStoreSubsystem::new_in_memory(config(KEEP_STORED_BLOCK_FOR, 5 * SEC, 6 * SEC));
    let c1 = hash(1);
    s.store_available_data(&c1, None, 4, data(5, vec![9]), 0).unwrap();
    s.process_block_activated(&included(&[c1]));
    assert_eq!(s.process_block_finalized(5, 2 * SEC), Ok(()));
    assert_eq!(s.pov_pruning()[0].prune_at, PruningDelay::In(7 * SEC));
    assert_eq!(s.pov_pruning()[0].candidate_state, CandidateState::Finalized);
    assert_eq!(s.next_pov_pruning(), Some(NextPoVPruning(7 * SEC)));
    assert!(s.query_available_data(&c1).is_some());
    s.prune_povs(8 * SEC);
    assert!(s.query_available_data(&c1).is_none());
}

#[test]
fn finalization_leaves_later_blocks() {
    let mut s = AvailabilityStoreSubsystem::new_in_memory(PruningConfig::default());
    s.store_available_data(&hash(1), None, 4, data(10, vec![1]), 0).unwrap();
    s.process_block_finalized(9, SEC).unwrap();
    assert_eq!(s.pov_pruning()[0].candidate_state, CandidateState::Stored);
    assert_eq!(s.pov_pruning()[0].prune_at, PruningDelay::In(KEEP_STORED_BLOCK_FOR));
}

#[test]
fn chunk_regenerated_on_miss() {
    let mut s = AvailabilityStoreSubsystem::new_in_memory(PruningConfig::default());
    let c1 = hash(1);
    s.store_available_data(&c1, None, 4, data(5, vec![1, 2]), 0).unwrap();
    assert!(s.query_chunk(&c1, 2).is_none());
    assert!(s.needs_regeneration(&c1, 2));
    let chunks: Vec<ErasureChunk> = (0..4).map(chunk).collect();
    assert_eq!(s.regenerate_chunks(&c1, chunks, SEC), Ok(true));
    assert_eq!(s.query_chunk(&c1, 2), Some(&chunk(2)));
    for j in [0u32, 1, 3] {
        assert!(!s.needs_regeneration(&c1, j));
        assert_eq!(s.query_chunk(&c1, j), Some(&chunk(j)));
    }
    assert_eq!(s.chunk_pruning().len(), 4);
    assert!(s.chunk_pruning().iter().all(|r| r.candidate_hash == c1 && r.block_number == 5));
    assert!(s.query_chunk(&c1, 4).is_none());
}

#[test]
fn regeneration_without_data_does_nothing() {
    let mut s = AvailabilityStoreSubsystem::new_in_memory(PruningConfig::default());
    assert!(!s.needs_regeneration(&hash(3), 0));
    assert_eq!(s.regenerate_chunks(&hash(3), vec![chunk(0)], 0), Ok(false));
    assert!(s.query_chunk(&hash(3), 0).is_none());
    assert!(s.chunk_pruning().is_empty());
}

#[test]
fn ordering_under_mixed_operations() {
    let mut s = AvailabilityStoreSubsystem::new_in_memory(PruningConfig::default());
    let (c1, c2) = (hash(1), hash(2));
    s.store_available_data(&c1, None, 4, data(5, vec![1]), 0).unwrap();
    s.store_available_data(&c2, None, 4, data(6, vec![2]), SEC).unwrap();
    let order: Vec<CandidateHash> = s.pov_pruning().iter().map(|r| r.candidate_hash).collect();
    assert_eq!(order, vec![c1, c2]);
    assert_eq!(s.next_pov_pruning(), Some(NextPoVPruning(KEEP_STORED_BLOCK_FOR)));
    s.process_block_activated(&included(&[c2]));
    let order: Vec<CandidateHash> = s.pov_pruning().iter().map(|r| r.candidate_hash).collect();
    assert_eq!(order, vec![c1, c2]);
    assert_eq!(s.pov_pruning()[1].prune_at, PruningDelay::Indefinite);
    s.process_block_finalized(6, 3 * SEC).unwrap();
    let order: Vec<CandidateHash> = s.pov_pruning().iter().map(|r| r.candidate_hash).collect();
    assert_eq!(order, vec![c1, c2]);
    for r in s.pov_pruning() {
        assert_eq!(r.candidate_state, CandidateState::Finalized);
        assert_eq!(r.prune_at, PruningDelay::In(3 * SEC + KEEP_FINALIZED_BLOCK_FOR));
    }
}

#[test]
fn inclusion_moves_record_behind_deadlines() {
    let mut s = AvailabilityStoreSubsystem::new_in_memory(PruningConfig::default());
    let (c1, c2) = (hash(1), hash(2));
    s.store_available_data(&c1, None, 4, data(5, vec![1]), 0).unwrap();
    s.store_available_data(&c2, None, 4, data(6, vec![2]), SEC).unwrap();
    s.process_block_activated(&included(&[c1]));
    let order: Vec<CandidateHash> = s.pov_pruning().iter().map(|r| r.candidate_hash).collect();
    assert_eq!(order, vec![c2, c1]);
    assert_eq!(s.next_pov_pruning(), Some(NextPoVPruning(SEC + KEEP_STORED_BLOCK_FOR)));
}

#[test]
fn failed_write_leaves_nothing() {
    let mut s = AvailabilityStoreSubsystem::new_in_memory(PruningConfig::default());
    let c1 = hash(1);
    let r = s.store_available_data(&c1, Some(chunk(0)), 4, data(5, vec![1]), u64::MAX);
    assert_eq!(r, Err(Error::Time));
    assert!(s.query_available_data(&c1).is_none());
    assert!(s.query_chunk(&c1, 0).is_none());
    assert!(s.pov_pruning().is_empty());
    assert!(s.chunk_pruning().is_empty());
    assert_eq!(s.store_chunk(&c1, chunk(1), 5, u64::MAX - 1), Err(Error::Time));
    assert!(s.query_chunk(&c1, 1).is_none());
    s.store_available_data(&c1, None, 4, data(5, vec![1]), 0).unwrap();
    assert_eq!(s.process_block_finalized(5, u64::MAX), Err(Error::Time));
    assert_eq!(s.pov_pruning()[0].candidate_state, CandidateState::Stored);
}

#[test]
fn store_then_query_returns_stored_bytes() {
    let mut s = AvailabilityStoreSubsystem::new_in_memory(PruningConfig::default());
    let c1 = hash(1);
    let bytes = vec![0u8, 255, 17, 42];
    s.store_available_data(&c1, Some(chunk(3)), 7, data(11, bytes.clone()), 0).unwrap();
    let got = s.query_available_data(&c1).unwrap();
    assert_eq!(got.data, bytes);
    assert_eq!(got.block_number, 11);
    assert_eq!(s.available_data(&c1).unwrap().n_validators, 7);
    assert!(s.query_data_availability(&c1));
    assert!(!s.query_data_availability(&hash(2)));
    assert_eq!(s.query_chunk(&c1, 3), Some(&chunk(3)));
    assert_eq!(s.chunk_pruning().len(), 1);
    assert_eq!(s.chunk_pruning()[0].chunk_index, 3);
    assert_eq!(s.next_chunk_pruning(), Some(NextChunkPruning(KEEP_STORED_BLOCK_FOR)));
}

#[test]
fn storing_again_replaces_record() {
    let mut s = AvailabilityStoreSubsystem::new_in_memory(PruningConfig::default());
    let c1 = hash(1);
    s.store_available_data(&c1, None, 4, data(5, vec![1]), 0).unwrap();
    s.store_available_data(&hash(2), None, 4, data(5, vec![2]), SEC).unwrap();
    s.store_available_data(&c1, None, 4, data(5, vec![3]), 2 * SEC).unwrap();
    assert_eq!(s.pov_pruning().len(), 2);
    let order: Vec<CandidateHash> = s.pov_pruning().iter().map(|r| r.candidate_hash).collect();
    assert_eq!(order, vec![hash(2), c1]);
    assert_eq!(s.query_available_data(&c1).unwrap().data, vec![3]);
    s.store_chunk(&c1, chunk(0), 5, 0).unwrap();
    s.store_chunk(&c1, chunk(0), 5, SEC).unwrap();
    s.store_chunk(&c1, chunk(1), 5, SEC).unwrap();
    assert_eq!(s.chunk_pruning().len(), 2);
}

#[test]
fn activation_twice_gives_same_queues() {
    let mut s = AvailabilityStoreSubsystem::new_in_memory(PruningConfig::default());
    s.store_available_data(&hash(1), Some(chunk(0)), 4, data(5, vec![1]), 0).unwrap();
    s.store_available_data(&hash(2), Some(chunk(1)), 4, data(6, vec![2]), SEC).unwrap();
    s.store_available_data(&hash(3), None, 4, data(6, vec![3]), 2 * SEC).unwrap();
    let inc = included(&[hash(1), hash(3)]);
    s.process_block_activated(&inc);
    let pov = s.pov_pruning().clone();
    let chunks = s.chunk_pruning().clone();
    s.process_block_activated(&inc);
    assert_eq!(s.pov_pruning(), &pov);
    assert_eq!(s.chunk_pruning(), &chunks);
}

#[test]
fn finalization_twice_gives_same_queues() {
    let mut s = AvailabilityStoreSubsystem::new_in_memory(PruningConfig::default());
    s.store_available_data(&hash(1), Some(chunk(0)), 4, data(5, vec![1]), 0).unwrap();
    s.store_available_data(&hash(2), Some(chunk(1)), 4, data(8, vec![2]), SEC).unwrap();
    s.process_block_finalized(6, 5 * SEC).unwrap();
    let pov = s.pov_pruning().clone();
    let chunks = s.chunk_pruning().clone();
    s.process_block_finalized(6, 5 * SEC).unwrap();
    assert_eq!(s.pov_pruning(), &pov);
    assert_eq!(s.chunk_pruning(), &chunks);
    assert_eq!(s.chunk_pruning()[1].prune_at, PruningDelay::In(5 * SEC + KEEP_FINALIZED_CHUNK_FOR));
}

#[test]
fn chunk_pruning_deletes_chunks() {
    let mut s = AvailabilityStoreSubsystem::new_in_memory(config(10 * SEC, 20 * SEC, 30 * SEC));
    let c1 = hash(1);
    s.store_chunk(&c1, chunk(0), 3, 0).unwrap();
    s.store_chunk(&c1, chunk(1), 3, 5 * SEC).unwrap();
    assert_eq!(s.maybe_prune_chunks(4 * SEC), Some(6 * SEC));
    s.prune_chunks(12 * SEC);
    assert!(s.query_chunk(&c1, 0).is_none());
    assert!(s.query_chunk(&c1, 1).is_some());
    assert_eq!(s.next_chunk_pruning(), Some(NextChunkPruning(15 * SEC)));
    s.prune_chunks(15 * SEC);
    assert!(s.query_chunk(&c1, 1).is_none());
    assert_eq!(s.next_chunk_pruning(), None);
}

#[test]
fn deadlines_order() {
    assert!(PruningDelay::In(3).le(&PruningDelay::In(3)));
    assert!(PruningDelay::In(3).le(&PruningDelay::In(4)));
    assert!(!PruningDelay::In(5).le(&PruningDelay::In(4)));
    assert!(PruningDelay::In(u64::MAX).le(&PruningDelay::Indefinite));
    assert!(!PruningDelay::Indefinite.le(&PruningDelay::In(0)));
    assert!(PruningDelay::Indefinite.le(&PruningDelay::Indefinite));
    assert_eq!(PruningDelay::after(10, 5), Ok(PruningDelay::In(15)));
    assert_eq!(PruningDelay::after(u64::MAX, 1), Err(Error::Time));
    assert_eq!(PruningDelay::from(7), PruningDelay::In(7));
    assert_eq!(PruningDelay::In(7).as_duration(), Some(7));
    assert_eq!(PruningDelay::Indefinite.as_duration(), None);
    assert!(matches!(PruningDelay::now(), Ok(PruningDelay::In(_))));
    assert!(matches!(PruningDelay::into_the_future(SEC), Ok(PruningDelay::In(t)) if t >= SEC));
}

#[test]
fn wakeup_delays() {
    assert_eq!(NextPoVPruning(10).fire_in(4), 6);
    assert_eq!(NextPoVPruning(10).fire_in(14), 0);
    assert_eq!(NextChunkPruning(10).fire_in(10), 0);
    assert_eq!(NextChunkPruning(u64::MAX).fire_in(0), u64::MAX);
    assert!(NextPoVPruning(0).should_fire_in() == Ok(0));
    assert!(NextChunkPruning(0).should_fire_in() == Ok(0));
}

#[test]
fn events_and_block_numbers() {
    let events = vec![
        CandidateEvent::CandidateBacked(hash(1)),
        CandidateEvent::CandidateIncluded(hash(2)),
        CandidateEvent::CandidateTimedOut(hash(3)),
        CandidateEvent::CandidateIncluded(hash(4)),
    ];
    assert_eq!(included_candidates(&events), vec![hash(2), hash(4)]);
    assert_eq!(child_block_number(Some(41)), Some(42));
    assert_eq!(child_block_number(None), Some(1));
    assert_eq!(child_block_number(Some(u32::MAX)), None);
}

#[test]
fn configuration_values() {
    let d = PruningConfig::default();
    assert_eq!(d.keep_stored_block_for, 3_600_000);
    assert_eq!(d.keep_finalized_block_for, 86_400_000);
    assert_eq!(d.keep_finalized_chunk_for, 90_000_000);
    let c = Config { cache_size: Some(129), path: String::from("db") };
    assert_eq!(c.column_memory_budget(), Some(64));
    let c = Config { cache_size: None, path: String::from("db") };
    assert_eq!(c.column_memory_budget(), None);
}

#[test]
fn error_severity() {
    assert!(Error::RuntimeApi.is_low_signal());
    assert!(Error::Oneshot.is_low_signal());
    assert!(!Error::Io.is_low_signal());
    assert!(!Error::CustomDatabase.is_low_signal());
    assert!(!Error::Time.is_low_signal());
}

#[test]
fn own_chunk_is_picked_by_index() {
    let chunks: Vec<ErasureChunk> = (0..4).map(chunk).collect();
    assert_eq!(own_chunk(chunks.clone(), 2), Ok(chunk(2)));
    assert_eq!(own_chunk(chunks, 4), Err(Error::Erasure));
}

#[test]
fn received_chunk_belongs_to_next_block() {
    let mut s = AvailabilityStoreSubsystem::new_in_memory(PruningConfig::default());
    let c1 = hash(1);
    assert_eq!(s.store_received_chunk(&c1, Some(9), chunk(0), 0), Ok(()));
    assert_eq!(s.chunk_pruning()[0].block_number, 10);
    assert_eq!(s.store_received_chunk(&c1, None, chunk(1), 0), Ok(()));
    assert_eq!(s.chunk_pruning()[1].block_number, 1);
    assert_eq!(s.store_received_chunk(&c1, Some(u32::MAX), chunk(2), 0), Err(Error::ChainApi));
    assert!(s.query_chunk(&c1, 2).is_none());
    assert_eq!(s.chunk_pruning().len(), 2);
}

fn deadline_le(a: PruningDelay, b: PruningDelay) -> bool {
    a.le(&b)
}

fn assert_invariants(s: &AvailabilityStoreSubsystem) {
    let pov = s.pov_pruning();
    for w in pov.windows(2) {
        assert!(deadline_le(w[0].prune_at, w[1].prune_at));
    }
    for (i, a) in pov.iter().enumerate() {
        for b in pov.iter().skip(i + 1) {
            assert_ne!(a.candidate_hash, b.candidate_hash);
        }
    }
    let chunks = s.chunk_pruning();
    for w in chunks.windows(2) {
        assert!(deadline_le(w[0].prune_at, w[1].prune_at));
    }
    for (i, a) in chunks.iter().enumerate() {
        for b in chunks.iter().skip(i + 1) {
            assert!(a.candidate_hash != b.candidate_hash || a.chunk_index != b.chunk_index);
        }
    }
    let head_pov = pov.first().and_then(|r| r.prune_at.as_duration()).map(NextPoVPruning);
    assert_eq!(s.next_pov_pruning(), head_pov);
    let head_chunk = chunks.first().and_then(|r| r.prune_at.as_duration()).map(NextChunkPruning);
    assert_eq!(s.next_chunk_pruning(), head_chunk);
    for r in pov {
        assert!(s.query_data_availability(&r.candidate_hash));
    }
}

#[test]
fn queues_stay_sorted_and_unique() {
    let mut s = AvailabilityStoreSubsystem::new_in_memory(config(10 * SEC, 20 * SEC, 30 * SEC));
    for n in 0..6u8 {
        s.store_available_data(&hash(n), Some(chunk(n as u32 % 3)), 3, data(n as u32, vec![n]), (6 - n as u64) * SEC)
            .unwrap();
        assert_invariants(&s);
    }
    s.store_available_data(&hash(2), Some(chunk(2)), 3, data(2, vec![2]), 20 * SEC).unwrap();
    assert_invariants(&s);
    s.process_block_activated(&included(&[hash(1), hash(4)]));
    assert_invariants(&s);
    s.process_block_finalized(2, 9 * SEC).unwrap();
    assert_invariants(&s);
    s.prune_povs(16 * SEC);
    s.prune_chunks(16 * SEC);
    assert_invariants(&s);
    assert!(s.query_available_data(&hash(3)).is_none());
    assert!(s.query_available_data(&hash(1)).is_some());
    s.process_block_finalized(10, 40 * SEC).unwrap();
    assert_invariants(&s);
    s.prune_povs(60 * SEC);
    s.prune_chunks(80 * SEC);
    assert_invariants(&s);
    assert!(s.pov_pruning().is_empty());
    assert!(s.chunk_pruning().is_empty());
    assert_eq!(s.next_pov_pruning(), None);
}

#[test]
fn activation_does_not_reopen_finalized() {
    let mut s = AvailabilityStoreSubsystem::new_in_memory(PruningConfig::default());
    let c1 = hash(1);
    s.store_available_data(&c1, Some(chunk(0)), 4, data(5, vec![1]), 0).unwrap();
    s.process_block_finalized(5, SEC).unwrap();
    s.process_block_activated(&included(&[c1]));
    assert_eq!(s.pov_pruning()[0].candidate_state, CandidateState::Finalized);
    assert_eq!(s.pov_pruning()[0].prune_at, PruningDelay::In(SEC + KEEP_FINALIZED_BLOCK_FOR));
    assert_eq!(s.chunk_pruning()[0].candidate_state, CandidateState::Finalized);
    assert_eq!(s.next_pov_pruning(), Some(NextPoVPruning(SEC + KEEP_FINALIZED_BLOCK_FOR)));
}

#[test]
fn activation_by_same_set_is_idempotent() {
    let mut s = AvailabilityStoreSubsystem::new_in_memory(PruningConfig::default());
    for n in 1..4u8 {
        s.store_available_data(&hash(n), None, 4, data(5, vec![n]), n as u64 * SEC).unwrap();
    }
    s.process_block_activated(&included(&[hash(1), hash(3)]));
    let pov = s.pov_pruning().clone();
    s.process_block_activated(&included(&[hash(3), hash(1), hash(3)]));
    assert_eq!(s.pov_pruning(), &pov);
}

#[test]
fn own_chunk_index_must_fit() {
    let mut s = AvailabilityStoreSubsystem::new_in_memory(PruningConfig::default());
    let c1 = hash(1);
    assert_eq!(s.store_available_data(&c1, Some(chunk(4)), 4, data(5, vec![1]), 0), Err(Error::Erasure));
    assert!(s.query_available_data(&c1).is_none());
    assert!(s.query_chunk(&c1, 4).is_none());
    assert!(s.pov_pruning().is_empty());
    assert!(s.chunk_pruning().is_empty());
    assert_eq!(s.store_available_data(&c1, Some(chunk(3)), 4, data(5, vec![1]), 0), Ok(()));
}

#[test]
fn milliseconds_fit_or_fail() {
    assert_eq!(av_store::delay::millis_in_u64(1234), Ok(1234));
    assert_eq!(av_store::delay::millis_in_u64(u64::MAX as u128), Ok(u64::MAX));
    assert_eq!(av_store::delay::millis_in_u64(u64::MAX as u128 + 1), Err(Error::Time));
    assert!(av_store::delay::now_millis().unwrap() > 1_600_000_000_000);
}
