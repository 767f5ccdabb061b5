use kurtosis_core::chunk::{
    assemble_chunks, chunk_round_trip, split_into_chunks, DataChunk, TransferError, MAX_CHUNK_SIZE,
};
use kurtosis_core::hashing::sha256;
use kurtosis_core::ident::LookupError;
use kurtosis_core::store::{ArtifactStore, UploadError};
use sha2::Digest;

fn payload_of_len(n: usize) -> Vec<u8> {
    let mut v = Vec::with_capacity(n);
    for i in 0..n {
        v.push((i % 251) as u8);
    }
    v
}

fn round_trip_len(n: usize) {
    let payload = payload_of_len(n);
    let name = b"artifact".to_vec();
    let back = chunk_round_trip(&payload, &name);
    assert_eq!(back, payload);
    let chunks = split_into_chunks(&payload, &name);
    let assembled = assemble_chunks(&chunks).expect("fresh split must reassemble");
    assert_eq!(assembled, payload);
}

#[test]
fn round_trip_empty() {
    round_trip_len(0);
}

#[test]
fn round_trip_one_byte() {
    round_trip_len(1);
}

#[test]
fn round_trip_chunk_size_minus_one() {
    round_trip_len(MAX_CHUNK_SIZE - 1);
}

#[test]
fn round_trip_chunk_size() {
    round_trip_len(MAX_CHUNK_SIZE);
}

#[test]
fn round_trip_chunk_size_plus_one() {
    round_trip_len(MAX_CHUNK_SIZE + 1);
}

#[test]
fn split_chains_with_real_sha256() {
    // The hash chain must be the actual SHA-256 of the previous chunk's
    // bytes, recomputed here with the hash implementation directly.
    let payload = payload_of_len(2 * MAX_CHUNK_SIZE + 17);
    let chunks = split_into_chunks(&payload, &b"blob".to_vec());
    assert_eq!(chunks.len(), 3);
    assert!(chunks[0].previous_chunk_hash.is_empty());
    for i in 1..chunks.len() {
        let expected = sha2::Sha256::digest(&chunks[i - 1].data).to_vec();
        assert_eq!(chunks[i].previous_chunk_hash, expected);
    }
    assert_eq!(chunks[0].metadata_name.as_deref(), Some(b"blob".as_slice()));
    assert!(chunks[1].metadata_name.is_none());
}

#[test]
fn wrapper_is_not_identity() {
    // A hash wrapper that handed its argument back unchanged would break
    // reassembly: declaring the raw previous bytes as the "hash" must fail.
    let payload = payload_of_len(MAX_CHUNK_SIZE + 5);
    let mut chunks = split_into_chunks(&payload, &b"blob".to_vec());
    let raw_prev = chunks[0].data.clone();
    chunks[1].previous_chunk_hash = raw_prev;
    assert_eq!(
        assemble_chunks(&chunks),
        Err(TransferError::IntegrityError)
    );
}

#[test]
fn tampered_data_fails_integrity() {
    let payload = payload_of_len(MAX_CHUNK_SIZE + 100);
    let mut chunks = split_into_chunks(&payload, &b"blob".to_vec());
    chunks[0].data[10] ^= 0xff;
    assert_eq!(
        assemble_chunks(&chunks),
        Err(TransferError::IntegrityError)
    );
}

#[test]
fn reordered_chunks_fail_integrity() {
    let payload = payload_of_len(2 * MAX_CHUNK_SIZE + 100);
    let chunks = split_into_chunks(&payload, &b"blob".to_vec());
    let mut reordered: Vec<DataChunk> = Vec::new();
    let mut it = chunks.into_iter();
    let c0 = it.next().unwrap();
    let c1 = it.next().unwrap();
    let c2 = it.next().unwrap();
    reordered.push(c0);
    reordered.push(c2);
    reordered.push(c1);
    assert_eq!(
        assemble_chunks(&reordered),
        Err(TransferError::IntegrityError)
    );
}

#[test]
fn nonempty_first_hash_fails_integrity() {
    let mut chunks = split_into_chunks(&payload_of_len(10), &b"blob".to_vec());
    chunks[0].previous_chunk_hash = vec![1, 2, 3];
    assert_eq!(
        assemble_chunks(&chunks),
        Err(TransferError::IntegrityError)
    );
}

#[test]
fn empty_stream_is_incomplete() {
    let chunks: Vec<DataChunk> = Vec::new();
    assert_eq!(
        assemble_chunks(&chunks),
        Err(TransferError::IncompleteTransferError)
    );
}

#[test]
fn oversized_chunk_rejected() {
    let chunks = vec![DataChunk {
        data: payload_of_len(MAX_CHUNK_SIZE + 1),
        previous_chunk_hash: Vec::new(),
        metadata_name: Some(b"big".to_vec()),
    }];
    assert_eq!(
        assemble_chunks(&chunks),
        Err(TransferError::ChunkTooLargeError)
    );
}

#[test]
fn upload_commits_nothing_on_integrity_failure() {
    let mut store = ArtifactStore::new();
    let payload = payload_of_len(MAX_CHUNK_SIZE + 50);
    let mut chunks = split_into_chunks(&payload, &b"tampered".to_vec());
    chunks[1].previous_chunk_hash[0] ^= 1;
    let r = store.upload_artifact(&chunks, true);
    assert_eq!(r, Err(UploadError::IntegrityError));
    assert!(store.list_artifacts().is_empty());
}

#[test]
fn upload_requires_clean_close() {
    let mut store = ArtifactStore::new();
    let chunks = split_into_chunks(&payload_of_len(8), &b"cut".to_vec());
    let r = store.upload_artifact(&chunks, false);
    assert_eq!(r, Err(UploadError::IncompleteTransferError));
    assert!(store.list_artifacts().is_empty());
}

#[test]
fn upload_requires_metadata() {
    let mut store = ArtifactStore::new();
    let mut chunks = split_into_chunks(&payload_of_len(8), &b"anon".to_vec());
    chunks[0].metadata_name = None;
    let r = store.upload_artifact(&chunks, true);
    assert_eq!(r, Err(UploadError::MissingMetadataError));
    assert!(store.list_artifacts().is_empty());
}

#[test]
fn upload_rejects_duplicate_name() {
    let mut store = ArtifactStore::new();
    let chunks = split_into_chunks(&payload_of_len(8), &b"twice".to_vec());
    store.upload_artifact(&chunks, true).expect("first upload");
    let chunks2 = split_into_chunks(&payload_of_len(9), &b"twice".to_vec());
    let r = store.upload_artifact(&chunks2, true);
    assert_eq!(r, Err(UploadError::NameAlreadyInUseError));
    assert_eq!(store.list_artifacts().len(), 1);
}

#[test]
fn upload_download_round_trip() {
    let mut store = ArtifactStore::new();
    let payload = payload_of_len(MAX_CHUNK_SIZE + 123);
    let chunks = split_into_chunks(&payload, &b"bytes".to_vec());
    let (uuid, name) = store.upload_artifact(&chunks, true).expect("upload");
    assert_eq!(name, b"bytes".to_vec());
    let down = store.download_artifact(&uuid).expect("download by uuid");
    let back = assemble_chunks(&down).expect("reassemble");
    assert_eq!(back, payload);
    // Download by name works too.
    let down2 = store.download_artifact(&b"bytes".to_vec()).expect("download by name");
    assert_eq!(assemble_chunks(&down2).expect("reassemble"), payload);
}

#[test]
fn download_unknown_artifact_not_found() {
    let store = ArtifactStore::new();
    assert!(matches!(
        store.download_artifact(&b"nothing".to_vec()),
        Err(LookupError::NotFoundError)
    ));
}

#[test]
fn sha256_matches_reference_digest() {
    let data = b"hello world".to_vec();
    let ours = sha256(&data);
    let theirs = sha2::Sha256::digest(&data).to_vec();
    assert_eq!(ours, theirs);
    assert_eq!(ours.len(), 32);
}

#[test]
fn store_level_round_trip_law() {
    let mut store = ArtifactStore::new();
    for n in [0usize, 1, MAX_CHUNK_SIZE, MAX_CHUNK_SIZE + 1] {
        let payload = payload_of_len(n);
        let name = format!("blob-{}", n).into_bytes();
        let back = kurtosis_core::store::upload_download_round_trip(&mut store, &payload, name);
        assert_eq!(back, payload);
    }
}
