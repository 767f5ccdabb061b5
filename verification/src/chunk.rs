//! Chunked transfer protocol with hash-chain integrity checking.
//!
//! A payload moves over a bounded-message-size channel as a sequence of
//! chunks. Chunk `i` (for `i > 0`) carries the SHA-256 digest of chunk
//! `i-1`'s raw bytes in `previous_chunk_hash`; the first chunk carries an
//! empty hash. The destination name travels as metadata on the first chunk
//! only. There is no explicit last-chunk marker: the end of the sequence is
//! signalled by the transport closing the stream.
use vstd::prelude::*;
use crate::hashing::{sha256, sha256_of};
use crate::bytes::bytes_eq;

verus! {

/// Maximum number of payload bytes in a single chunk, fixed well below the
/// transport's message-size ceiling of a few MiB.
pub const MAX_CHUNK_SIZE: usize = 1048576;

/// One bounded-size fragment of a larger byte payload.
pub struct DataChunk {
    /// Payload bytes of this fragment.
    pub data: Vec<u8>,
    /// SHA-256 digest of the previous chunk's data; empty on the first chunk.
    pub previous_chunk_hash: Vec<u8>,
    /// Destination artifact name; carried by the first chunk only.
    pub metadata_name: Option<Vec<u8>>,
}

/// Mathematical image of a chunk.
pub struct ChunkModel {
    pub data: Seq<u8>,
    pub previous_chunk_hash: Seq<u8>,
    pub metadata_name: Option<Seq<u8>>,
}

impl View for DataChunk {
    type V = ChunkModel;

    open spec fn view(&self) -> ChunkModel {
        ChunkModel {
            data: self.data@,
            previous_chunk_hash: self.previous_chunk_hash@,
            metadata_name: match self.metadata_name {
                Some(n) => Some(n@),
                None => None,
            },
        }
    }
}

/// The models of a sequence of chunks.
pub open spec fn chunk_models(s: Seq<DataChunk>) -> Seq<ChunkModel> {
    s.map_values(|c: DataChunk| c@)
}

/// The payload carried by a chunk sequence: the concatenation of the data
/// fields in order.
pub open spec fn payload_of(s: Seq<ChunkModel>) -> Seq<u8>
    decreases s.len(),
{
    if s.len() == 0 {
        Seq::empty()
    } else {
        payload_of(s.drop_last()) + s.last().data
    }
}

/// Chunk `i` breaks the hash chain: a first chunk with a nonempty declared
/// hash, or a later chunk whose declared hash differs from the SHA-256
/// digest of its predecessor's true bytes.
pub open spec fn chain_break_at(s: Seq<ChunkModel>, i: int) -> bool {
    0 <= i < s.len() && if i == 0 {
        s[0].previous_chunk_hash.len() != 0
    } else {
        s[i].previous_chunk_hash != sha256_of(s[i - 1].data)
    }
}

/// Chunk `i` exceeds the chunk size bound.
pub open spec fn oversize_at(s: Seq<ChunkModel>, i: int) -> bool {
    0 <= i < s.len() && s[i].data.len() > MAX_CHUNK_SIZE
}

/// Every chunk's declared hash matches its predecessor's true bytes.
pub open spec fn chain_ok(s: Seq<ChunkModel>) -> bool {
    forall|i: int| !chain_break_at(s, i)
}

/// No chunk exceeds the size bound.
pub open spec fn sizes_ok(s: Seq<ChunkModel>) -> bool {
    forall|i: int| !oversize_at(s, i)
}

/// The receiver fails with an integrity error: some chunk breaks the hash
/// chain, and no earlier chunk is oversized or chain-breaking (the receiver
/// checks each arriving chunk's chain link before its size).
pub open spec fn integrity_failure(s: Seq<ChunkModel>) -> bool {
    exists|i: int|
        chain_break_at(s, i) && (forall|j: int|
            0 <= j < i ==> !chain_break_at(s, j) && !oversize_at(s, j))
}

/// The receiver fails on an oversized chunk: some chunk is oversized without
/// breaking the chain, and no earlier chunk fails either check.
pub open spec fn oversize_failure(s: Seq<ChunkModel>) -> bool {
    exists|i: int|
        oversize_at(s, i) && !chain_break_at(s, i) && (forall|j: int|
            0 <= j < i ==> !chain_break_at(s, j) && !oversize_at(s, j))
}

/// A failure of the transfer layer.
#[derive(Clone, Copy, PartialEq, Eq, Structural, Debug)]
pub enum TransferError {
    /// A chunk's declared hash did not match the recomputed digest of the
    /// previously received chunk: the stream was corrupted or reordered.
    IntegrityError,
    /// The stream ended before a complete payload was received.
    IncompleteTransferError,
    /// A single chunk exceeded the maximum chunk size.
    ChunkTooLargeError,
}

/// Appending a chunk appends its data to the payload.
pub proof fn lemma_payload_push(s: Seq<ChunkModel>, v: ChunkModel)
    ensures
        payload_of(s.push(v)) == payload_of(s) + v.data,
{
    assert(s.push(v).drop_last() =~= s);
    assert(s.push(v).last() == v);
}

/// Taking one more chunk appends its data to the payload of the prefix.
pub proof fn lemma_payload_take(s: Seq<ChunkModel>, i: int)
    requires
        0 <= i < s.len(),
    ensures
        payload_of(s.take(i + 1)) == payload_of(s.take(i)) + s[i].data,
{
    assert(s.take(i + 1).drop_last() =~= s.take(i));
    assert(s.take(i + 1).last() == s[i]);
}

/// Split a payload into a valid chunk sequence: sizes bounded, hash chain
/// intact, the destination name on the first chunk only, and the
/// concatenation of the chunk data equal to the payload. The empty payload
/// yields a single empty chunk so that the metadata still travels.
pub fn split_into_chunks(payload: &Vec<u8>, name: &Vec<u8>) -> (r: Vec<DataChunk>)
    ensures
        r@.len() > 0,
        chain_ok(chunk_models(r@)),
        sizes_ok(chunk_models(r@)),
        payload_of(chunk_models(r@)) == payload@,
        r@[0]@.metadata_name == Some(name@),
        forall|i: int| 1 <= i < r@.len() ==> r@[i]@.metadata_name is None,
{
    let mut chunks: Vec<DataChunk> = Vec::new();
    let mut pos: usize = 0;
    loop
        invariant
            pos <= payload.len(),
            chain_ok(chunk_models(chunks@)),
            sizes_ok(chunk_models(chunks@)),
            payload_of(chunk_models(chunks@)) == payload@.take(pos as int),
            chunks@.len() == 0 ==> pos == 0,
            chunks@.len() > 0 ==> chunks@[0]@.metadata_name == Some(name@),
            forall|i: int| 1 <= i < chunks@.len() ==> chunks@[i]@.metadata_name is None,
        ensures
            pos == payload.len(),
            chunks@.len() > 0,
        decreases payload.len() + 1 - pos + (if chunks.len() == 0 { 1int } else { 0int }),
    {
        if pos == payload.len() && chunks.len() > 0 {
            break;
        }
        let remaining = payload.len() - pos;
        let take_now = if remaining > MAX_CHUNK_SIZE {
            MAX_CHUNK_SIZE
        } else {
            remaining
        };
        let mut data: Vec<u8> = Vec::new();
        let mut k: usize = 0;
        while k < take_now
            invariant
                k <= take_now,
                pos + take_now <= payload.len(),
                data@.len() == k,
                forall|j: int| 0 <= j < k ==> data@[j] == payload@[pos + j],
            decreases take_now - k,
        {
            data.push(payload[pos + k]);
            k = k + 1;
        }
        let previous_chunk_hash: Vec<u8> = if chunks.len() == 0 {
            Vec::new()
        } else {
            sha256(&chunks[chunks.len() - 1].data)
        };
        let metadata_name: Option<Vec<u8>> = if chunks.len() == 0 {
            Some(name.clone())
        } else {
            None
        };
        let chunk = DataChunk { data, previous_chunk_hash, metadata_name };
        proof {
            let old_models = chunk_models(chunks@);
            let m = chunk@;
            let s = old_models.push(m);
            assert(chunk_models(chunks@.push(chunk)) =~= s);
            lemma_payload_push(old_models, m);
            assert(m.data =~= payload@.subrange(pos as int, pos + take_now as int));
            assert(payload_of(old_models) + m.data =~= payload@.take(pos + take_now as int));
            assert forall|i: int| !chain_break_at(s, i) by {
                if 0 <= i < s.len() {
                    if i < old_models.len() {
                        assert(s[i] == old_models[i]);
                        if i > 0 {
                            assert(s[i - 1] == old_models[i - 1]);
                        }
                        assert(!chain_break_at(old_models, i));
                    } else {
                        if old_models.len() > 0 {
                            assert(s[i - 1] == old_models[i - 1]);
                            assert(old_models[i - 1] == chunks@[i - 1]@);
                        }
                    }
                }
            }
            assert forall|i: int| !oversize_at(s, i) by {
                if 0 <= i < s.len() && i < old_models.len() {
                    assert(s[i] == old_models[i]);
                    assert(!oversize_at(old_models, i));
                }
            }
        }
        chunks.push(chunk);
        pos = pos + take_now;
    }
    proof {
        assert(payload@.take(payload@.len() as int) =~= payload@);
    }
    chunks
}

/// Reassemble a received chunk sequence, verifying the hash chain.
///
/// Succeeds exactly on nonempty sequences whose chunks all satisfy the size
/// bound and the hash chain, returning the concatenated payload. An empty
/// sequence means the stream closed before any data arrived. Otherwise the
/// first offending chunk decides the error, its chain link checked before
/// its size.
pub fn assemble_chunks(chunks: &Vec<DataChunk>) -> (r: Result<Vec<u8>, TransferError>)
    ensures
        r is Ok <==> chunks@.len() > 0 && chain_ok(chunk_models(chunks@)) && sizes_ok(
            chunk_models(chunks@),
        ),
        r matches Ok(b) ==> b@ == payload_of(chunk_models(chunks@)),
        r == Err::<Vec<u8>, TransferError>(TransferError::IncompleteTransferError) <==> chunks@.len()
            == 0,
        r == Err::<Vec<u8>, TransferError>(TransferError::IntegrityError) <==> integrity_failure(
            chunk_models(chunks@),
        ),
        r == Err::<Vec<u8>, TransferError>(TransferError::ChunkTooLargeError) <==> oversize_failure(
            chunk_models(chunks@),
        ),
{
    let ghost models = chunk_models(chunks@);
    if chunks.len() == 0 {
        proof {
            assert(!integrity_failure(models)) by {
                assert(forall|i: int| !chain_break_at(models, i));
            }
            assert(!oversize_failure(models)) by {
                assert(forall|i: int| !oversize_at(models, i));
            }
        }
        return Err(TransferError::IncompleteTransferError);
    }
    let mut buf: Vec<u8> = Vec::new();
    let mut i: usize = 0;
    while i < chunks.len()
        invariant
            i <= chunks@.len(),
            chunks@.len() > 0,
            models == chunk_models(chunks@),
            forall|j: int| 0 <= j < i ==> !chain_break_at(models, j) && !oversize_at(models, j),
            buf@ == payload_of(models.take(i as int)),
        decreases chunks@.len() - i,
    {
        proof {
            assert(models[i as int] == chunks@[i as int]@);
        }
        let link_ok: bool = if i == 0 {
            chunks[0].previous_chunk_hash.len() == 0
        } else {
            let expected = sha256(&chunks[i - 1].data);
            bytes_eq(&chunks[i].previous_chunk_hash, &expected)
        };
        if !link_ok {
            proof {
                assert(chain_break_at(models, i as int));
                assert(integrity_failure(models));
                assert(!oversize_failure(models)) by {
                    assert forall|k: int|
                        !(oversize_at(models, k) && !chain_break_at(models, k) && (forall|j: int|
                            0 <= j < k ==> !chain_break_at(models, j) && !oversize_at(
                                models,
                                j,
                            ))) by {
                        if oversize_at(models, k) && !chain_break_at(models, k) {
                            if k > i {
                                assert(chain_break_at(models, i as int));
                            }
                        }
                    }
                }
            }
            return Err(TransferError::IntegrityError);
        }
        if chunks[i].data.len() > MAX_CHUNK_SIZE {
            proof {
                assert(oversize_at(models, i as int));
                assert(!chain_break_at(models, i as int));
                assert(oversize_failure(models));
                assert(!integrity_failure(models)) by {
                    assert forall|k: int|
                        !(chain_break_at(models, k) && (forall|j: int|
                            0 <= j < k ==> !chain_break_at(models, j) && !oversize_at(
                                models,
                                j,
                            ))) by {
                        if chain_break_at(models, k) {
                            if k > i {
                                assert(oversize_at(models, i as int));
                            }
                        }
                    }
                }
            }
            return Err(TransferError::ChunkTooLargeError);
        }
        let mut k: usize = 0;
        let chunk_len = chunks[i].data.len();
        while k < chunk_len
            invariant
                k <= chunk_len,
                i < chunks@.len(),
                chunk_len == chunks@[i as int]@.data.len(),
                models == chunk_models(chunks@),
                buf@ == payload_of(models.take(i as int)) + chunks@[i as int]@.data.take(k as int),
            decreases chunk_len - k,
        {
            buf.push(chunks[i].data[k]);
            proof {
                assert(chunks@[i as int]@.data.take(k + 1) =~= chunks@[i as int]@.data.take(
                    k as int,
                ).push(chunks@[i as int]@.data[k as int]));
                assert(buf@ == payload_of(models.take(i as int)) + chunks@[i as int]@.data.take(
                    k + 1,
                ));
            }
            k = k + 1;
        }
        proof {
            lemma_payload_take(models, i as int);
            assert(chunks@[i as int]@.data.take(chunk_len as int) =~= chunks@[i as int]@.data);
            assert(buf@ == payload_of(models.take(i + 1)));
        }
        i = i + 1;
    }
    proof {
        assert(models.take(models.len() as int) =~= models);
        assert(chain_ok(models));
        assert(sizes_ok(models));
        assert(!integrity_failure(models));
        assert(!oversize_failure(models));
    }
    Ok(buf)
}

/// Round trip: a payload split into chunks and reassembled comes back byte
/// for byte identical, for any payload from empty up to any number of
/// chunks. Reassembly cannot fail on a freshly split payload, because the
/// splitter establishes exactly the chain and size conditions the receiver
/// checks.
pub fn chunk_round_trip(payload: &Vec<u8>, name: &Vec<u8>) -> (r: Vec<u8>)
    ensures
        r@ == payload@,
{
    let chunks = split_into_chunks(payload, name);
    match assemble_chunks(&chunks) {
        Ok(b) => b,
        Err(_) => vstd::pervasive::unreached(),
    }
}

} // verus!
