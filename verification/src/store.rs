//! Content store for files artifacts.
//!
//! An artifact is an immutable byte blob with a durable UUID and a unique
//! human-readable name. Uploads arrive as a hash-chained chunk stream and are
//! committed all-or-nothing: a failed transfer leaves the store untouched.
//! Downloads re-chunk the stored bytes with a chunk size chosen by the
//! store, independent of how the artifact arrived.
use vstd::prelude::*;
use crate::bytes::bytes_eq;
use crate::chunk::{
    assemble_chunks, chain_ok, chunk_models, integrity_failure, oversize_failure, payload_of,
    sizes_ok, split_into_chunks, DataChunk, TransferError,
};
use crate::ident::{
    ambiguous_prefix, name_match_at, no_match, resolve, resolves_to, uuid_match_at, HasIdentity,
    LookupError,
};
use crate::uuid::{lemma_uuid_injective, mint_uuid, uuid_of_id};

verus! {

/// One stored files artifact.
pub struct ArtifactRecord {
    /// Counter value the UUID was minted from.
    pub id: u64,
    /// Durable identifier.
    pub uuid: Vec<u8>,
    /// Human-readable alias, unique in the store.
    pub name: Vec<u8>,
    /// The artifact bytes; immutable once committed.
    pub content: Vec<u8>,
}

impl HasIdentity for ArtifactRecord {
    open spec fn uuid_model(&self) -> Seq<u8> {
        self.uuid@
    }

    open spec fn name_model(&self) -> Seq<u8> {
        self.name@
    }

    open spec fn is_live(&self) -> bool {
        true
    }

    fn uuid_ref(&self) -> &Vec<u8> {
        &self.uuid
    }

    fn name_ref(&self) -> &Vec<u8> {
        &self.name
    }

    fn live(&self) -> bool {
        true
    }
}

/// A failure to commit an uploaded artifact.
#[derive(Clone, Copy, PartialEq, Eq, Structural, Debug)]
pub enum UploadError {
    /// A chunk's declared hash did not match its predecessor's bytes.
    IntegrityError,
    /// The stream closed before a complete payload arrived.
    IncompleteTransferError,
    /// A single chunk exceeded the maximum chunk size.
    ChunkTooLargeError,
    /// The first chunk carried no destination name.
    MissingMetadataError,
    /// An artifact with the requested name already exists.
    NameAlreadyInUseError,
}

/// Content-addressed blob storage keyed by UUID and name.
pub struct ArtifactStore {
    pub records: Vec<ArtifactRecord>,
    pub next_id: u64,
}

impl ArtifactStore {
    /// Well-formedness: ids are below the mint counter and pairwise
    /// distinct, every UUID is the one minted from its id, and names are
    /// unique.
    pub open spec fn wf(&self) -> bool {
        &&& forall|i: int|
            0 <= i < self.records@.len() ==> (#[trigger] self.records@[i]).id < self.next_id
        &&& forall|i: int, j: int|
            0 <= i < j < self.records@.len() ==> self.records@[i].id != self.records@[j].id
        &&& forall|i: int|
            0 <= i < self.records@.len() ==> (#[trigger] self.records@[i]).uuid@ == uuid_of_id(
                self.records@[i].id,
            )
        &&& forall|i: int, j: int|
            0 <= i < j < self.records@.len() ==> self.records@[i].name@ != self.records@[j].name@
    }

    /// Some stored artifact already bears this name.
    pub open spec fn name_in_use(&self, name: Seq<u8>) -> bool {
        exists|i: int| 0 <= i < self.records@.len() && self.records@[i].name@ == name
    }

    pub fn new() -> (s: Self)
        ensures
            s.wf(),
            s.records@.len() == 0,
            s.next_id == 0,
    {
        ArtifactStore { records: Vec::new(), next_id: 0 }
    }

    fn has_name(&self, name: &Vec<u8>) -> (r: bool)
        ensures
            r == self.name_in_use(name@),
    {
        let mut i: usize = 0;
        while i < self.records.len()
            invariant
                i <= self.records@.len(),
                forall|j: int| 0 <= j < i ==> self.records@[j].name@ != name@,
            decreases self.records@.len() - i,
        {
            if bytes_eq(&self.records[i].name, name) {
                return true;
            }
            i = i + 1;
        }
        false
    }

    /// Commit a fully assembled artifact under `name`, minting a fresh UUID.
    pub fn put_artifact(&mut self, name: Vec<u8>, content: Vec<u8>) -> (r: Result<
        Vec<u8>,
        UploadError,
    >)
        requires
            old(self).wf(),
            old(self).next_id < u64::MAX,
        ensures
            final(self).wf(),
            r is Ok <==> !old(self).name_in_use(name@),
            r matches Ok(u) ==> {
                &&& u@ == uuid_of_id(old(self).next_id)
                &&& final(self).next_id == old(self).next_id + 1
                &&& final(self).records@.len() == old(self).records@.len() + 1
                &&& final(self).records@.last().uuid@ == u@
                &&& final(self).records@.last().name@ == name@
                &&& final(self).records@.last().content@ == content@
                &&& final(self).records@.drop_last() == old(self).records@
            },
            r is Err ==> *final(self) == *old(self) && r == Err::<Vec<u8>, UploadError>(
                UploadError::NameAlreadyInUseError,
            ),
    {
        if self.has_name(&name) {
            return Err(UploadError::NameAlreadyInUseError);
        }
        let id = self.next_id;
        let uuid = mint_uuid(id);
        let rec = ArtifactRecord { id, uuid: uuid.clone(), name, content };
        self.records.push(rec);
        self.next_id = id + 1;
        proof {
            assert(final(self).records@.drop_last() =~= old(self).records@);
        }
        Ok(uuid)
    }

    /// Accept an uploaded chunk stream and commit it as a new artifact.
    ///
    /// `closed_cleanly` reports whether the transport closed the stream
    /// normally; an aborted stream is an incomplete transfer. On any failure
    /// nothing is committed and the store is unchanged.
    pub fn upload_artifact(&mut self, chunks: &Vec<DataChunk>, closed_cleanly: bool) -> (r: Result<
        (Vec<u8>, Vec<u8>),
        UploadError,
    >)
        requires
            old(self).wf(),
            old(self).next_id < u64::MAX,
        ensures
            final(self).wf(),
            r is Err ==> *final(self) == *old(self),
            r == Err::<(Vec<u8>, Vec<u8>), UploadError>(UploadError::IncompleteTransferError)
                <==> !closed_cleanly || chunks@.len() == 0,
            r == Err::<(Vec<u8>, Vec<u8>), UploadError>(UploadError::IntegrityError) <==> closed_cleanly
                && integrity_failure(chunk_models(chunks@)),
            r == Err::<(Vec<u8>, Vec<u8>), UploadError>(UploadError::ChunkTooLargeError)
                <==> closed_cleanly && oversize_failure(chunk_models(chunks@)),
            r == Err::<(Vec<u8>, Vec<u8>), UploadError>(UploadError::MissingMetadataError)
                <==> closed_cleanly && chunks@.len() > 0 && chain_ok(chunk_models(chunks@))
                && sizes_ok(chunk_models(chunks@)) && chunks@[0]@.metadata_name is None,
            r == Err::<(Vec<u8>, Vec<u8>), UploadError>(UploadError::NameAlreadyInUseError)
                <==> closed_cleanly && chunks@.len() > 0 && chain_ok(chunk_models(chunks@))
                && sizes_ok(chunk_models(chunks@)) && (chunks@[0]@.metadata_name matches Some(n)
                && old(self).name_in_use(n)),
            r matches Ok((u, n)) ==> {
                &&& closed_cleanly
                &&& chunks@.len() > 0
                &&& chain_ok(chunk_models(chunks@))
                &&& sizes_ok(chunk_models(chunks@))
                &&& chunks@[0]@.metadata_name == Some(n@)
                &&& !old(self).name_in_use(n@)
                &&& u@ == uuid_of_id(old(self).next_id)
                &&& final(self).next_id == old(self).next_id + 1
                &&& final(self).records@.len() == old(self).records@.len() + 1
                &&& final(self).records@.last().uuid@ == u@
                &&& final(self).records@.last().name@ == n@
                &&& final(self).records@.last().content@ == payload_of(chunk_models(chunks@))
                &&& final(self).records@.drop_last() == old(self).records@
            },
    {
        if !closed_cleanly {
            return Err(UploadError::IncompleteTransferError);
        }
        let content = match assemble_chunks(chunks) {
            Ok(b) => b,
            Err(TransferError::IncompleteTransferError) => {
                return Err(UploadError::IncompleteTransferError);
            },
            Err(TransferError::IntegrityError) => {
                return Err(UploadError::IntegrityError);
            },
            Err(TransferError::ChunkTooLargeError) => {
                return Err(UploadError::ChunkTooLargeError);
            },
        };
        let name: Vec<u8> = match &chunks[0].metadata_name {
            Some(n) => n.clone(),
            None => {
                return Err(UploadError::MissingMetadataError);
            },
        };
        match self.put_artifact(name.clone(), content) {
            Ok(u) => Ok((u, name)),
            Err(_) => Err(UploadError::NameAlreadyInUseError),
        }
    }

    /// Look an artifact up by UUID, name, or UUID prefix.
    pub fn get_artifact(&self, identifier: &Vec<u8>) -> (r: Result<&ArtifactRecord, LookupError>)
        ensures
            r matches Ok(a) ==> exists|i: int|
                resolves_to(self.records@, identifier@, i) && *a == self.records@[i],
            r == Err::<&ArtifactRecord, LookupError>(LookupError::NotFoundError) <==> no_match(
                self.records@,
                identifier@,
            ),
            r == Err::<&ArtifactRecord, LookupError>(LookupError::AmbiguousIdentifierError)
                <==> (forall|i: int| !uuid_match_at(self.records@, identifier@, i)) && (forall|
                i: int,
            | !name_match_at(self.records@, identifier@, i)) && ambiguous_prefix(
                self.records@,
                identifier@,
            ),
    {
        match resolve(&self.records, identifier) {
            Ok(i) => Ok(&self.records[i]),
            Err(e) => Err(e),
        }
    }

    /// Stream an artifact back out as a fresh chunk sequence.
    pub fn download_artifact(&self, identifier: &Vec<u8>) -> (r: Result<Vec<DataChunk>, LookupError>)
        ensures
            r matches Ok(chunks) ==> exists|i: int|
                {
                    &&& resolves_to(self.records@, identifier@, i)
                    &&& payload_of(chunk_models(chunks@)) == self.records@[i].content@
                    &&& chunks@.len() > 0
                    &&& chain_ok(chunk_models(chunks@))
                    &&& sizes_ok(chunk_models(chunks@))
                    &&& chunks@[0]@.metadata_name == Some(self.records@[i].name@)
                },
            r == Err::<Vec<DataChunk>, LookupError>(LookupError::NotFoundError) <==> no_match(
                self.records@,
                identifier@,
            ),
            r == Err::<Vec<DataChunk>, LookupError>(LookupError::AmbiguousIdentifierError)
                <==> (forall|i: int| !uuid_match_at(self.records@, identifier@, i)) && (forall|
                i: int,
            | !name_match_at(self.records@, identifier@, i)) && ambiguous_prefix(
                self.records@,
                identifier@,
            ),
    {
        match resolve(&self.records, identifier) {
            Ok(i) => {
                let rec = &self.records[i];
                let chunks = split_into_chunks(&rec.content, &rec.name);
                Ok(chunks)
            },
            Err(e) => Err(e),
        }
    }

    /// All (name, uuid) pairs currently stored, in commit order.
    pub fn list_artifacts(&self) -> (r: Vec<(Vec<u8>, Vec<u8>)>)
        ensures
            r@.len() == self.records@.len(),
            forall|i: int|
                0 <= i < r@.len() ==> r@[i].0@ == self.records@[i].name@ && r@[i].1@
                    == self.records@[i].uuid@,
    {
        let mut r: Vec<(Vec<u8>, Vec<u8>)> = Vec::new();
        let mut i: usize = 0;
        while i < self.records.len()
            invariant
                i <= self.records@.len(),
                r@.len() == i,
                forall|j: int|
                    0 <= j < i ==> r@[j].0@ == self.records@[j].name@ && r@[j].1@
                        == self.records@[j].uuid@,
            decreases self.records@.len() - i,
        {
            r.push((self.records[i].name.clone(), self.records[i].uuid.clone()));
            i = i + 1;
        }
        r
    }
}

/// Round trip: uploading artifact bytes under a fresh name and downloading
/// them again by the returned UUID yields bytes identical to the original,
/// for any payload. None of the intermediate steps can fail: the splitter
/// establishes what the receiver checks, the fresh UUID resolves uniquely,
/// and a stored artifact streams back as a valid chunk sequence.
pub fn upload_download_round_trip(store: &mut ArtifactStore, payload: &Vec<u8>, name: Vec<u8>) -> (r:
    Vec<u8>)
    requires
        old(store).wf(),
        old(store).next_id < u64::MAX,
        !old(store).name_in_use(name@),
    ensures
        r@ == payload@,
{
    let ghost name_view = name@;
    let chunks = split_into_chunks(payload, &name);
    let up = store.upload_artifact(&chunks, true);
    proof {
        let models = chunk_models(chunks@);
        if up is Err {
            let e = up->Err_0;
            if e is IntegrityError {
                assert(integrity_failure(models));
                let i = choose|i: int|
                    crate::chunk::chain_break_at(models, i) && (forall|j: int|
                        0 <= j < i ==> !crate::chunk::chain_break_at(models, j)
                            && !crate::chunk::oversize_at(models, j));
                assert(!crate::chunk::chain_break_at(models, i));
            } else if e is ChunkTooLargeError {
                assert(oversize_failure(models));
                let i = choose|i: int|
                    crate::chunk::oversize_at(models, i) && !crate::chunk::chain_break_at(models, i)
                        && (forall|j: int|
                        0 <= j < i ==> !crate::chunk::chain_break_at(models, j)
                            && !crate::chunk::oversize_at(models, j));
                assert(!crate::chunk::oversize_at(models, i));
            } else if e is MissingMetadataError {
                assert(chunks@[0]@.metadata_name is None);
                assert(chunks@[0]@.metadata_name == Some(name_view));
            } else if e is IncompleteTransferError {
                assert(chunks@.len() == 0);
            } else {
                assert(e is NameAlreadyInUseError);
                assert(chunks@[0]@.metadata_name matches Some(n2) && old(store).name_in_use(n2));
                assert(old(store).name_in_use(name_view));
            }
            assert(false);
        }
    }
    let (uuid, _stored_name) = match up {
        Ok(p) => p,
        Err(_) => vstd::pervasive::unreached(),
    };
    proof {
        let recs = store.records@;
        let last = recs.len() - 1;
        assert(recs[last].uuid@ == uuid@);
        assert(uuid_match_at(recs, uuid@, last));
        // The fresh UUID matches no earlier record: UUIDs are minted from
        // pairwise distinct counters.
        assert forall|j: int| 0 <= j < last implies !uuid_match_at(recs, uuid@, j) by {
            assert(recs[j] == recs.drop_last()[j]);
            assert(recs[j] == old(store).records@[j]);
            assert(recs[j].uuid@ == uuid_of_id(recs[j].id));
            assert(recs[j].id < old(store).next_id);
            if recs[j].uuid@ == uuid@ {
                lemma_uuid_injective(recs[j].id, old(store).next_id);
            }
        }
    }
    let down_result = store.download_artifact(&uuid);
    proof {
        let recs = store.records@;
        let last = recs.len() - 1;
        if down_result is Err {
            let e = down_result->Err_0;
            if e is NotFoundError {
                assert(no_match(recs, uuid@));
                assert(!uuid_match_at(recs, uuid@, last));
            } else {
                assert(e is AmbiguousIdentifierError);
                assert(forall|i: int| !uuid_match_at(recs, uuid@, i));
            }
            assert(false);
        }
    }
    let down = match down_result {
        Ok(c) => c,
        Err(_) => vstd::pervasive::unreached(),
    };
    proof {
        let recs = store.records@;
        let last = recs.len() - 1;
        let i = choose|i: int|
            resolves_to(recs, uuid@, i) && payload_of(chunk_models(down@)) == recs[i].content@
                && down@.len() > 0 && chain_ok(chunk_models(down@)) && sizes_ok(chunk_models(down@))
                && down@[0]@.metadata_name == Some(recs[i].name@);
        assert(uuid_match_at(recs, uuid@, i));
        assert(i == last);
        assert(recs[last].content@ == payload_of(chunk_models(chunks@)));
        assert(payload_of(chunk_models(down@)) == payload@);
    }
    match assemble_chunks(&down) {
        Ok(b) => b,
        Err(_) => vstd::pervasive::unreached(),
    }
}

} // verus!
