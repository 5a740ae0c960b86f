use av_store::codec::{available_data_key, erasure_chunk_key};
use av_store::record::CandidateHash;

#[test]
fn data_key_is_hash_then_zero() {
    let mut expected = vec![9u8; 32];
    expected.push(0);
    assert_eq!(available_data_key(&CandidateHash([9; 32])), expected);
}

#[test]
fn chunk_key_is_hash_index_then_zero() {
    let mut expected = vec![9u8; 32];
    expected.extend_from_slice(&[4, 3, 2, 1, 0]);
    assert_eq!(erasure_chunk_key(&CandidateHash([9; 32]), 0x0102_0304), expected);
    assert_ne!(erasure_chunk_key(&CandidateHash([9; 32]), 0), erasure_chunk_key(&CandidateHash([9; 32]), 1));
    assert_ne!(available_data_key(&CandidateHash([9; 32])).len(), erasure_chunk_key(&CandidateHash([9; 32]), 0).len());
}
