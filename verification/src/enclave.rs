//! Enclave registry: lifecycle of isolated execution environments and their
//! control-plane API containers.
//!
//! Stopping an enclave moves its containers toward `Stopped` without
//! destroying its identity; destroying severs the live association but keeps
//! the identity record for history. The registry maintains the invariant
//! that an API container is only reported running while the enclave holds
//! containers.
use vstd::prelude::*;
use crate::bytes::{bytes_eq, is_prefix_of};
use crate::text::str_matches;
use crate::engine::{run_starlark_script, EnclaveState, RunOptions, RunOutcome};
use crate::ident::{
    ambiguous_prefix, name_match_at, no_match, resolve, resolves_to, uuid_match_at, HasIdentity,
    LookupError,
};
use crate::uuid::{
    lemma_uuid_injective, mint_uuid, shorten_uuid, uuid_of_id, HasShortened, UUID_LEN,
};

verus! {

/// State of all containers of an enclave.
#[derive(Clone, Copy, PartialEq, Eq, Structural, Debug)]
pub enum EnclaveContainersStatus {
    Empty,
    Running,
    Stopped,
}

/// State of the enclave's API container.
#[derive(Clone, Copy, PartialEq, Eq, Structural, Debug)]
pub enum EnclaveApiContainerStatus {
    Nonexistent,
    Running,
    Stopped,
}

/// Mode an enclave runs in.
#[derive(Clone, Copy, PartialEq, Eq, Structural, Debug)]
pub enum EnclaveMode {
    Test,
    Production,
}

/// The stable wire-format name of a containers status.
pub open spec fn containers_status_name(p: EnclaveContainersStatus) -> Seq<char> {
    match p {
        EnclaveContainersStatus::Empty => "EnclaveContainersStatus_EMPTY"@,
        EnclaveContainersStatus::Running => "EnclaveContainersStatus_RUNNING"@,
        EnclaveContainersStatus::Stopped => "EnclaveContainersStatus_STOPPED"@,
    }
}

impl EnclaveContainersStatus {
    /// String value of the enum field names used in the wire format.
    pub fn as_str_name(&self) -> (r: &'static str)
        ensures
            r@ == containers_status_name(*self),
    {
        match self {
            EnclaveContainersStatus::Empty => "EnclaveContainersStatus_EMPTY",
            EnclaveContainersStatus::Running => "EnclaveContainersStatus_RUNNING",
            EnclaveContainersStatus::Stopped => "EnclaveContainersStatus_STOPPED",
        }
    }

    /// The enum value of a wire-format field name, if any.
    pub fn from_str_name(value: &str) -> (r: Option<Self>)
        ensures
            r == (if value@ == containers_status_name(EnclaveContainersStatus::Empty) {
                Some(EnclaveContainersStatus::Empty)
            } else if value@ == containers_status_name(EnclaveContainersStatus::Running) {
                Some(EnclaveContainersStatus::Running)
            } else if value@ == containers_status_name(EnclaveContainersStatus::Stopped) {
                Some(EnclaveContainersStatus::Stopped)
            } else {
                None::<EnclaveContainersStatus>
            }),
    {
        if str_matches(value, "EnclaveContainersStatus_EMPTY") {
            Some(EnclaveContainersStatus::Empty)
        } else if str_matches(value, "EnclaveContainersStatus_RUNNING") {
            Some(EnclaveContainersStatus::Running)
        } else if str_matches(value, "EnclaveContainersStatus_STOPPED") {
            Some(EnclaveContainersStatus::Stopped)
        } else {
            None
        }
    }
}

/// The stable wire-format name of an API container status.
pub open spec fn api_container_status_name(p: EnclaveApiContainerStatus) -> Seq<char> {
    match p {
        EnclaveApiContainerStatus::Nonexistent => "EnclaveAPIContainerStatus_NONEXISTENT"@,
        EnclaveApiContainerStatus::Running => "EnclaveAPIContainerStatus_RUNNING"@,
        EnclaveApiContainerStatus::Stopped => "EnclaveAPIContainerStatus_STOPPED"@,
    }
}

impl EnclaveApiContainerStatus {
    /// String value of the enum field names used in the wire format.
    pub fn as_str_name(&self) -> (r: &'static str)
        ensures
            r@ == api_container_status_name(*self),
    {
        match self {
            EnclaveApiContainerStatus::Nonexistent => "EnclaveAPIContainerStatus_NONEXISTENT",
            EnclaveApiContainerStatus::Running => "EnclaveAPIContainerStatus_RUNNING",
            EnclaveApiContainerStatus::Stopped => "EnclaveAPIContainerStatus_STOPPED",
        }
    }

    /// The enum value of a wire-format field name, if any.
    pub fn from_str_name(value: &str) -> (r: Option<Self>)
        ensures
            r == (if value@ == api_container_status_name(EnclaveApiContainerStatus::Nonexistent) {
                Some(EnclaveApiContainerStatus::Nonexistent)
            } else if value@ == api_container_status_name(EnclaveApiContainerStatus::Running) {
                Some(EnclaveApiContainerStatus::Running)
            } else if value@ == api_container_status_name(EnclaveApiContainerStatus::Stopped) {
                Some(EnclaveApiContainerStatus::Stopped)
            } else {
                None::<EnclaveApiContainerStatus>
            }),
    {
        if str_matches(value, "EnclaveAPIContainerStatus_NONEXISTENT") {
            Some(EnclaveApiContainerStatus::Nonexistent)
        } else if str_matches(value, "EnclaveAPIContainerStatus_RUNNING") {
            Some(EnclaveApiContainerStatus::Running)
        } else if str_matches(value, "EnclaveAPIContainerStatus_STOPPED") {
            Some(EnclaveApiContainerStatus::Stopped)
        } else {
            None
        }
    }
}

/// The stable wire-format name of an enclave mode.
pub open spec fn enclave_mode_name(p: EnclaveMode) -> Seq<char> {
    match p {
        EnclaveMode::Test => "TEST"@,
        EnclaveMode::Production => "PRODUCTION"@,
    }
}

impl EnclaveMode {
    /// String value of the enum field names used in the wire format.
    pub fn as_str_name(&self) -> (r: &'static str)
        ensures
            r@ == enclave_mode_name(*self),
    {
        match self {
            EnclaveMode::Test => "TEST",
            EnclaveMode::Production => "PRODUCTION",
        }
    }

    /// The enum value of a wire-format field name, if any.
    pub fn from_str_name(value: &str) -> (r: Option<Self>)
        ensures
            r == (if value@ == enclave_mode_name(EnclaveMode::Test) {
                Some(EnclaveMode::Test)
            } else if value@ == enclave_mode_name(EnclaveMode::Production) {
                Some(EnclaveMode::Production)
            } else {
                None::<EnclaveMode>
            }),
    {
        if str_matches(value, "TEST") {
            Some(EnclaveMode::Test)
        } else if str_matches(value, "PRODUCTION") {
            Some(EnclaveMode::Production)
        } else {
            None
        }
    }
}

/// One enclave identity record, owning the state its runs operate against.
pub struct EnclaveRecord {
    /// Counter value the UUID was minted from.
    pub id: u64,
    pub uuid: Vec<u8>,
    pub shortened_uuid: Vec<u8>,
    pub name: Vec<u8>,
    pub containers_status: EnclaveContainersStatus,
    pub api_container_status: EnclaveApiContainerStatus,
    pub mode: EnclaveMode,
    pub creation_time: u64,
    /// Whether the record is the live resource or only history.
    pub live: bool,
    /// The per-enclave run state: services, artifacts, packages, cache.
    pub state: EnclaveState,
}

impl HasIdentity for EnclaveRecord {
    open spec fn uuid_model(&self) -> Seq<u8> {
        self.uuid@
    }

    open spec fn name_model(&self) -> Seq<u8> {
        self.name@
    }

    open spec fn is_live(&self) -> bool {
        self.live
    }

    fn uuid_ref(&self) -> &Vec<u8> {
        &self.uuid
    }

    fn name_ref(&self) -> &Vec<u8> {
        &self.name
    }

    fn live(&self) -> bool {
        self.live
    }
}

impl HasShortened for EnclaveRecord {
    open spec fn shortened_model(&self) -> Seq<u8> {
        self.shortened_uuid@
    }

    fn shortened_ref(&self) -> &Vec<u8> {
        &self.shortened_uuid
    }
}

/// Per-record invariant: an API container runs only in an enclave that
/// holds containers.
pub open spec fn record_status_ok(r: EnclaveRecord) -> bool {
    r.api_container_status is Running ==> !(r.containers_status is Empty)
}

/// A live record in `recs` bears the name `n`.
pub open spec fn live_enclave_name_in(recs: Seq<EnclaveRecord>, n: Seq<u8>) -> bool {
    exists|i: int| 0 <= i < recs.len() && (#[trigger] recs[i]).live && recs[i].name@ == n
}

/// A failure to create an enclave.
#[derive(Clone, Copy, PartialEq, Eq, Structural, Debug)]
pub enum EnclaveError {
    /// A live enclave already bears the requested name.
    NameAlreadyInUseError,
}

/// Registry of all enclaves the engine manages.
pub struct EnclaveRegistry {
    pub records: Vec<EnclaveRecord>,
    pub next_id: u64,
}

impl EnclaveRegistry {
    /// Well-formedness: identity bookkeeping as minted, live names unique,
    /// every record's status invariant and inner state well-formed.
    pub open spec fn wf(&self) -> bool {
        &&& forall|i: int|
            0 <= i < self.records@.len() ==> (#[trigger] self.records@[i]).id < self.next_id
        &&& forall|i: int, j: int|
            0 <= i < j < self.records@.len() ==> self.records@[i].id != self.records@[j].id
        &&& forall|i: int|
            0 <= i < self.records@.len() ==> (#[trigger] self.records@[i]).uuid@ == uuid_of_id(
                self.records@[i].id,
            )
        &&& forall|i: int|
            0 <= i < self.records@.len() ==> is_prefix_of(
                (#[trigger] self.records@[i]).shortened_uuid@,
                self.records@[i].uuid@,
            )
        &&& forall|i: int, j: int|
            0 <= i < j < self.records@.len() ==> self.records@[i].shortened_uuid@
                != self.records@[j].shortened_uuid@
        &&& forall|i: int, j: int|
            0 <= i < j < self.records@.len() && self.records@[i].live && self.records@[j].live
                ==> self.records@[i].name@ != self.records@[j].name@
        &&& forall|i: int|
            0 <= i < self.records@.len() ==> record_status_ok(#[trigger] self.records@[i])
        &&& forall|i: int| 0 <= i < self.records@.len() ==> (#[trigger] self.records@[i]).state.wf()
    }

    pub fn new() -> (s: Self)
        ensures
            s.wf(),
            s.records@.len() == 0,
            s.next_id == 0,
    {
        EnclaveRegistry { records: Vec::new(), next_id: 0 }
    }

    fn has_live_name(&self, name: &Vec<u8>) -> (r: bool)
        ensures
            r == live_enclave_name_in(self.records@, name@),
    {
        let mut i: usize = 0;
        while i < self.records.len()
            invariant
                i <= self.records@.len(),
                forall|j: int|
                    0 <= j < i ==> !((#[trigger] self.records@[j]).live && self.records@[j].name@
                        == name@),
            decreases self.records@.len() - i,
        {
            if self.records[i].live && bytes_eq(&self.records[i].name, name) {
                return true;
            }
            i = i + 1;
        }
        false
    }

    /// Create a live enclave under `name`, minting a fresh UUID and a
    /// unique shortened UUID, with a running API container and empty run
    /// state. Fails exactly when a live enclave already bears the name.
    pub fn create_enclave(&mut self, name: Vec<u8>, mode: EnclaveMode, creation_time: u64) -> (r:
        Result<usize, EnclaveError>)
        requires
            old(self).wf(),
            old(self).next_id < u64::MAX,
        ensures
            final(self).wf(),
            r is Ok <==> !live_enclave_name_in(old(self).records@, name@),
            r is Err ==> *final(self) == *old(self) && r == Err::<usize, EnclaveError>(
                EnclaveError::NameAlreadyInUseError,
            ),
            r matches Ok(idx) ==> {
                &&& idx == old(self).records@.len()
                &&& final(self).records@.len() == old(self).records@.len() + 1
                &&& final(self).records@.drop_last() == old(self).records@
                &&& final(self).records@.last().name@ == name@
                &&& final(self).records@.last().live
                &&& final(self).records@.last().mode == mode
                &&& final(self).records@.last().creation_time == creation_time
                &&& final(self).records@.last().containers_status
                    == EnclaveContainersStatus::Running
                &&& final(self).records@.last().api_container_status
                    == EnclaveApiContainerStatus::Running
                &&& final(self).records@.last().uuid@ == uuid_of_id(old(self).next_id)
                &&& final(self).next_id == old(self).next_id + 1
            },
    {
        if self.has_live_name(&name) {
            return Err(EnclaveError::NameAlreadyInUseError);
        }
        let id = self.next_id;
        let uuid = mint_uuid(id);
        proof {
            assert forall|i: int|
                0 <= i < self.records@.len() implies (
                #[trigger] self.records@[i]).shortened_uuid@ != uuid@ by {
                if self.records@[i].shortened_uuid@ == uuid@ {
                    assert(self.records@[i].uuid@.len() == UUID_LEN);
                    assert(self.records@[i].uuid@.subrange(0, UUID_LEN as int)
                        =~= self.records@[i].uuid@);
                    assert(self.records@[i].shortened_uuid@ == self.records@[i].uuid@);
                    lemma_uuid_injective(self.records@[i].id, id);
                }
            }
        }
        let shortened_uuid = shorten_uuid(&self.records, &uuid);
        let rec = EnclaveRecord {
            id,
            uuid,
            shortened_uuid,
            name,
            containers_status: EnclaveContainersStatus::Running,
            api_container_status: EnclaveApiContainerStatus::Running,
            mode,
            creation_time,
            live: true,
            state: EnclaveState::new(),
        };
        let idx = self.records.len();
        self.records.push(rec);
        self.next_id = id + 1;
        proof {
            assert(final(self).records@.drop_last() =~= old(self).records@);
        }
        Ok(idx)
    }

    /// Stop a live enclave: its containers move toward `Stopped` (an
    /// enclave without containers stays `Empty`), its API container stops,
    /// and its identity and state stay untouched.
    pub fn stop_enclave(&mut self, identifier: &Vec<u8>) -> (r: Result<(), LookupError>)
        requires
            old(self).wf(),
        ensures
            final(self).wf(),
            final(self).records@.len() == old(self).records@.len(),
            r is Err ==> *final(self) == *old(self),
            r == Err::<(), LookupError>(LookupError::NotFoundError) <==> no_match(
                old(self).records@,
                identifier@,
            ),
            r == Err::<(), LookupError>(LookupError::AmbiguousIdentifierError) <==> (forall|i: int|
                !uuid_match_at(old(self).records@, identifier@, i)) && (forall|i: int|
                !name_match_at(old(self).records@, identifier@, i)) && ambiguous_prefix(
                old(self).records@,
                identifier@,
            ),
            r is Ok ==> exists|i: int|
                {
                    &&& resolves_to(old(self).records@, identifier@, i)
                    &&& final(self).records@[i].containers_status == (
                    if old(self).records@[i].containers_status is Empty {
                        EnclaveContainersStatus::Empty
                    } else {
                        EnclaveContainersStatus::Stopped
                    })
                    &&& final(self).records@[i].api_container_status == (
                    if old(self).records@[i].api_container_status is Nonexistent {
                        EnclaveApiContainerStatus::Nonexistent
                    } else {
                        EnclaveApiContainerStatus::Stopped
                    })
                    &&& final(self).records@[i].live == old(self).records@[i].live
                    &&& final(self).records@[i].uuid == old(self).records@[i].uuid
                    &&& final(self).records@[i].name == old(self).records@[i].name
                    &&& final(self).records@[i].shortened_uuid == old(
                        self,
                    ).records@[i].shortened_uuid
                    &&& final(self).records@[i].id == old(self).records@[i].id
                    &&& final(self).records@[i].mode == old(self).records@[i].mode
                    &&& final(self).records@[i].creation_time == old(
                        self,
                    ).records@[i].creation_time
                    &&& final(self).records@[i].state == old(self).records@[i].state
                    &&& forall|j: int|
                        0 <= j < old(self).records@.len() && j != i ==> final(self).records@[j]
                            == old(self).records@[j]
                },
    {
        let idx = match resolve(&self.records, identifier) {
            Ok(i) => i,
            Err(e) => {
                return Err(e);
            },
        };
        let mut rec = self.records.remove(idx);
        rec.containers_status = match rec.containers_status {
            EnclaveContainersStatus::Empty => EnclaveContainersStatus::Empty,
            _ => EnclaveContainersStatus::Stopped,
        };
        rec.api_container_status = match rec.api_container_status {
            EnclaveApiContainerStatus::Nonexistent => EnclaveApiContainerStatus::Nonexistent,
            _ => EnclaveApiContainerStatus::Stopped,
        };
        self.records.insert(idx, rec);
        Ok(())
    }

    /// Destroy a live enclave: the live association is severed and its
    /// containers stopped, but the identity record stays for history.
    pub fn destroy_enclave(&mut self, identifier: &Vec<u8>) -> (r: Result<Vec<u8>, LookupError>)
        requires
            old(self).wf(),
        ensures
            final(self).wf(),
            final(self).records@.len() == old(self).records@.len(),
            r is Err ==> *final(self) == *old(self),
            r == Err::<Vec<u8>, LookupError>(LookupError::NotFoundError) <==> no_match(
                old(self).records@,
                identifier@,
            ),
            r == Err::<Vec<u8>, LookupError>(LookupError::AmbiguousIdentifierError) <==> (forall|
                i: int,
            | !uuid_match_at(old(self).records@, identifier@, i)) && (forall|i: int|
                !name_match_at(old(self).records@, identifier@, i)) && ambiguous_prefix(
                old(self).records@,
                identifier@,
            ),
            r matches Ok(u) ==> exists|i: int|
                {
                    &&& resolves_to(old(self).records@, identifier@, i)
                    &&& u@ == old(self).records@[i].uuid@
                    &&& !final(self).records@[i].live
                    &&& final(self).records@[i].uuid == old(self).records@[i].uuid
                    &&& final(self).records@[i].name == old(self).records@[i].name
                    &&& final(self).records@[i].shortened_uuid == old(
                        self,
                    ).records@[i].shortened_uuid
                    &&& final(self).records@[i].id == old(self).records@[i].id
                    &&& final(self).records@[i].mode == old(self).records@[i].mode
                    &&& final(self).records@[i].creation_time == old(
                        self,
                    ).records@[i].creation_time
                    &&& forall|j: int|
                        0 <= j < old(self).records@.len() && j != i ==> final(self).records@[j]
                            == old(self).records@[j]
                },
    {
        let idx = match resolve(&self.records, identifier) {
            Ok(i) => i,
            Err(e) => {
                return Err(e);
            },
        };
        let mut rec = self.records.remove(idx);
        let u = rec.uuid.clone();
        rec.live = false;
        rec.containers_status = EnclaveContainersStatus::Stopped;
        rec.api_container_status = EnclaveApiContainerStatus::Stopped;
        self.records.insert(idx, rec);
        Ok(u)
    }

    /// Whether `clean` removes this record: every stopped live enclave, or
    /// every live enclave when `clean_all` is set.
    pub open spec fn cleaned(r: EnclaveRecord, clean_all: bool) -> bool {
        r.live && (clean_all || r.containers_status is Stopped)
    }

    /// The (name, uuid) report `clean` owes: one entry per cleaned record,
    /// in registry order.
    pub open spec fn clean_report(recs: Seq<EnclaveRecord>, clean_all: bool) -> Seq<
        (Seq<u8>, Seq<u8>),
    >
        decreases recs.len(),
    {
        if recs.len() == 0 {
            Seq::empty()
        } else {
            Self::clean_report(recs.drop_last(), clean_all) + if Self::cleaned(
                recs.last(),
                clean_all,
            ) {
                seq![(recs.last().name@, recs.last().uuid@)]
            } else {
                Seq::empty()
            }
        }
    }


    /// Sever the live association of the record at `i`, stopping its
    /// containers and keeping its identity.
    fn retire_at(&mut self, i: usize)
        requires
            old(self).wf(),
            i < old(self).records@.len(),
        ensures
            final(self).wf(),
            final(self).records@.len() == old(self).records@.len(),
            final(self).next_id == old(self).next_id,
            !final(self).records@[i as int].live,
            final(self).records@[i as int].containers_status == EnclaveContainersStatus::Stopped,
            final(self).records@[i as int].api_container_status
                == EnclaveApiContainerStatus::Stopped,
            final(self).records@[i as int].uuid == old(self).records@[i as int].uuid,
            final(self).records@[i as int].name == old(self).records@[i as int].name,
            final(self).records@[i as int].shortened_uuid == old(
                self,
            ).records@[i as int].shortened_uuid,
            final(self).records@[i as int].id == old(self).records@[i as int].id,
            forall|j: int|
                0 <= j < old(self).records@.len() && j != i ==> final(self).records@[j] == old(
                    self,
                ).records@[j],
    {
        let mut rec = self.records.remove(i);
        rec.live = false;
        rec.containers_status = EnclaveContainersStatus::Stopped;
        rec.api_container_status = EnclaveApiContainerStatus::Stopped;
        self.records.insert(i, rec);
    }

    /// Destroy every stopped live enclave, or every live enclave when
    /// `should_clean_all` is set, returning the (name, uuid) of each
    /// destroyed enclave in registry order.
    pub fn clean(&mut self, should_clean_all: bool) -> (r: Vec<(Vec<u8>, Vec<u8>)>)
        requires
            old(self).wf(),
        ensures
            final(self).wf(),
            final(self).records@.len() == old(self).records@.len(),
            r@.map_values(|p: (Vec<u8>, Vec<u8>)| (p.0@, p.1@)) == Self::clean_report(
                old(self).records@,
                should_clean_all,
            ),
            forall|i: int|
                0 <= i < old(self).records@.len() && Self::cleaned(
                    #[trigger] old(self).records@[i],
                    should_clean_all,
                ) ==> !final(self).records@[i].live && final(self).records@[i].uuid == old(
                    self,
                ).records@[i].uuid && final(self).records@[i].name == old(self).records@[i].name
                    && final(self).records@[i].shortened_uuid == old(
                    self,
                ).records@[i].shortened_uuid,
            forall|i: int|
                0 <= i < old(self).records@.len() && !Self::cleaned(
                    #[trigger] old(self).records@[i],
                    should_clean_all,
                ) ==> final(self).records@[i] == old(self).records@[i],
            forall|i: int|
                0 <= i < old(self).records@.len() && Self::cleaned(
                    #[trigger] old(self).records@[i],
                    should_clean_all,
                ) ==> exists|k: int|
                    0 <= k < r@.len() && (#[trigger] r@[k]).0@ == old(self).records@[i].name@
                        && r@[k].1@ == old(self).records@[i].uuid@,
    {
        let ghost old_recs = old(self).records@;
        let n = self.records.len();
        // Collect the doomed records.
        let mut idxs: Vec<usize> = Vec::new();
        let mut r: Vec<(Vec<u8>, Vec<u8>)> = Vec::new();
        let mut i: usize = 0;
        while i < n
            invariant
                i <= n,
                n == old_recs.len(),
                self.records@ == old_recs,
                self.next_id == old(self).next_id,
                self.records@.len() == n,
                idxs@.len() == r@.len(),
                r@.map_values(|p: (Vec<u8>, Vec<u8>)| (p.0@, p.1@)) == Self::clean_report(
                    old_recs.take(i as int),
                    should_clean_all,
                ),
                forall|k: int|
                    0 <= k < idxs@.len() ==> (#[trigger] idxs@[k]) < i && Self::cleaned(
                        old_recs[idxs@[k] as int],
                        should_clean_all,
                    ) && r@[k].0@ == old_recs[idxs@[k] as int].name@ && r@[k].1@
                        == old_recs[idxs@[k] as int].uuid@,
                forall|j: int|
                    0 <= j < i && Self::cleaned(#[trigger] old_recs[j], should_clean_all)
                        ==> exists|k: int| 0 <= k < idxs@.len() && idxs@[k] == j,
            decreases n - i,
        {
            let stopped: bool = match self.records[i].containers_status {
                EnclaveContainersStatus::Stopped => true,
                _ => false,
            };
            let doomed = self.records[i].live && (should_clean_all || stopped);
            proof {
                assert(self.records@[i as int] == old_recs[i as int]);
                assert(doomed == Self::cleaned(old_recs[i as int], should_clean_all));
            }
            let ghost pre = idxs@;
            let ghost pre_r = r@;
            if doomed {
                idxs.push(i);
                r.push((self.records[i].name.clone(), self.records[i].uuid.clone()));
            }
            proof {
                assert(old_recs.take(i + 1).drop_last() =~= old_recs.take(i as int));
                assert(old_recs.take(i + 1).last() == old_recs[i as int]);
                if doomed {
                    assert(r@.map_values(|p: (Vec<u8>, Vec<u8>)| (p.0@, p.1@)) =~= pre_r.map_values(
                        |p: (Vec<u8>, Vec<u8>)| (p.0@, p.1@),
                    ).push((old_recs[i as int].name@, old_recs[i as int].uuid@)));
                    assert(Self::clean_report(old_recs.take(i + 1), should_clean_all)
                        =~= Self::clean_report(old_recs.take(i as int), should_clean_all).push(
                        (old_recs[i as int].name@, old_recs[i as int].uuid@),
                    ));
                } else {
                    assert(Self::clean_report(old_recs.take(i + 1), should_clean_all)
                        =~= Self::clean_report(old_recs.take(i as int), should_clean_all));
                }
                assert forall|j: int|
                    0 <= j < i + 1 && Self::cleaned(
                        #[trigger] old_recs[j],
                        should_clean_all,
                    ) implies exists|k: int| 0 <= k < idxs@.len() && idxs@[k] == j by {
                    if j == i {
                        assert(self.records@[i as int] == old_recs[i as int]);
                        assert(doomed);
                        assert(idxs@.len() == pre.len() + 1);
                        assert(idxs@[idxs@.len() - 1] == i);
                    } else {
                        let k = choose|k: int| 0 <= k < pre.len() && pre[k] == j;
                        assert(idxs@[k] == j);
                    }
                }
            }
            i = i + 1;
        }
        // Retire them.
        let m = idxs.len();
        let mut p: usize = 0;
        while p < m
            invariant
                p <= m,
                m == idxs@.len(),
                n == old_recs.len(),
                self.records@.len() == n,
                self.wf(),
                forall|k: int| 0 <= k < m ==> (#[trigger] idxs@[k]) < n,
                forall|k: int|
                    0 <= k < p ==> !self.records@[(#[trigger] idxs@[k]) as int].live
                        && self.records@[idxs@[k] as int].uuid == old_recs[idxs@[k] as int].uuid
                        && self.records@[idxs@[k] as int].name == old_recs[idxs@[k] as int].name
                        && self.records@[idxs@[k] as int].shortened_uuid == old_recs[idxs@[
                        k
                    ] as int].shortened_uuid,
                forall|j: int|
                    0 <= j < n && !(exists|k: int| 0 <= k < p && idxs@[k] == j)
                        ==> self.records@[j] == old_recs[j],
            decreases m - p,
        {
            let idx = idxs[p];
            let ghost pre_recs = self.records@;
            self.retire_at(idx);
            proof {
                assert forall|k: int|
                    0 <= k < p + 1 implies !self.records@[(#[trigger] idxs@[k]) as int].live
                        && self.records@[idxs@[k] as int].uuid == old_recs[idxs@[k] as int].uuid
                        && self.records@[idxs@[k] as int].name == old_recs[idxs@[k] as int].name
                        && self.records@[idxs@[k] as int].shortened_uuid == old_recs[idxs@[
                        k
                    ] as int].shortened_uuid by {
                    if k < p {
                        if idxs@[k] != idx {
                            assert(self.records@[idxs@[k] as int] == pre_recs[idxs@[k] as int]);
                        }
                    } else {
                        assert(pre_recs[idx as int].uuid == old_recs[idx as int].uuid);
                        assert(pre_recs[idx as int].name == old_recs[idx as int].name);
                        assert(pre_recs[idx as int].shortened_uuid == old_recs[idx as int].shortened_uuid);
                    }
                }
                assert forall|j: int|
                    0 <= j < n && !(exists|k: int|
                        0 <= k < p + 1 && idxs@[k] == j) implies self.records@[j]
                    == old_recs[j] by {
                    assert(j != idx);
                    assert(self.records@[j] == pre_recs[j]);
                }
            }
            p = p + 1;
        }
        proof {
            assert forall|i2: int|
                0 <= i2 < old_recs.len() && Self::cleaned(
                    #[trigger] old_recs[i2],
                    should_clean_all,
                ) implies !self.records@[i2].live && self.records@[i2].uuid == old_recs[i2].uuid
                && self.records@[i2].name == old_recs[i2].name && self.records@[i2].shortened_uuid
                == old_recs[i2].shortened_uuid by {
                let k = choose|k: int| 0 <= k < idxs@.len() && idxs@[k] == i2;
            }
            assert forall|i2: int|
                0 <= i2 < old_recs.len() && !Self::cleaned(
                    #[trigger] old_recs[i2],
                    should_clean_all,
                ) implies self.records@[i2] == old_recs[i2] by {
                if exists|k: int| 0 <= k < m && idxs@[k] == i2 {
                    let k = choose|k: int| 0 <= k < m && idxs@[k] == i2;
                    assert(Self::cleaned(old_recs[i2], should_clean_all));
                }
            }
            assert(old_recs.take(n as int) =~= old_recs);
        }
        r
    }

    /// Indexes of all live enclaves, in creation order.
    pub fn live_indexes(&self) -> (r: Vec<usize>)
        ensures
            forall|k: int|
                0 <= k < r@.len() ==> (#[trigger] r@[k]) < self.records@.len()
                    && self.records@[r@[k] as int].live,
            forall|i: int|
                0 <= i < self.records@.len() && (#[trigger] self.records@[i]).live ==> exists|
                    k: int,
                | 0 <= k < r@.len() && r@[k] == i,
    {
        let mut r: Vec<usize> = Vec::new();
        let mut i: usize = 0;
        while i < self.records.len()
            invariant
                i <= self.records@.len(),
                forall|k: int|
                    0 <= k < r@.len() ==> (#[trigger] r@[k]) < i && self.records@[r@[k] as int].live,
                forall|j: int|
                    0 <= j < i && (#[trigger] self.records@[j]).live ==> exists|k: int|
                        0 <= k < r@.len() && r@[k] == j,
            decreases self.records@.len() - i,
        {
            let ghost pre = r@;
            if self.records[i].live {
                r.push(i);
            }
            proof {
                assert forall|j: int|
                    0 <= j < i + 1 && (#[trigger] self.records@[j]).live implies exists|k: int|
                    0 <= k < r@.len() && r@[k] == j by {
                    if j == i {
                        assert(r@[r@.len() - 1] == i);
                    } else {
                        let k = choose|k: int| 0 <= k < pre.len() && pre[k] == j;
                        assert(r@[k] == j);
                    }
                }
            }
            i = i + 1;
        }
        r
    }

    /// All identity records, live and historical: (uuid, name, shortened
    /// uuid) per record, in creation order.
    pub fn all_identifiers(&self) -> (r: Vec<(Vec<u8>, Vec<u8>, Vec<u8>)>)
        ensures
            r@.len() == self.records@.len(),
            forall|i: int|
                0 <= i < r@.len() ==> (#[trigger] r@[i]).0@ == self.records@[i].uuid@ && r@[i].1@
                    == self.records@[i].name@ && r@[i].2@ == self.records@[i].shortened_uuid@,
    {
        let mut r: Vec<(Vec<u8>, Vec<u8>, Vec<u8>)> = Vec::new();
        let mut i: usize = 0;
        while i < self.records.len()
            invariant
                i <= self.records@.len(),
                r@.len() == i,
                forall|j: int|
                    0 <= j < i ==> (#[trigger] r@[j]).0@ == self.records@[j].uuid@ && r@[j].1@
                        == self.records@[j].name@ && r@[j].2@ == self.records@[j].shortened_uuid@,
            decreases self.records@.len() - i,
        {
            let rec = &self.records[i];
            r.push((rec.uuid.clone(), rec.name.clone(), rec.shortened_uuid.clone()));
            i = i + 1;
        }
        r
    }

    /// Run a script against the state of one live enclave, resolved by
    /// UUID, name, or UUID prefix. The run operates on that enclave's own
    /// services, artifacts, and instruction cache; every other enclave is
    /// untouched.
    pub fn run_script_in_enclave(
        &mut self,
        identifier: &Vec<u8>,
        script: &Vec<u8>,
        serialized_params: Vec<u8>,
        main_function_name: Vec<u8>,
        opts: &RunOptions,
    ) -> (r: Result<RunOutcome, LookupError>)
        requires
            old(self).wf(),
            opts.parallelism >= 1,
            forall|i: int|
                0 <= i < old(self).records@.len() ==> (
                #[trigger] old(self).records@[i]).state.services.next_id + script@.len() + 1
                    < u64::MAX,
        ensures
            final(self).wf(),
            final(self).records@.len() == old(self).records@.len(),
            r is Err ==> *final(self) == *old(self),
            r == Err::<RunOutcome, LookupError>(LookupError::NotFoundError) <==> no_match(
                old(self).records@,
                identifier@,
            ),
            r == Err::<RunOutcome, LookupError>(LookupError::AmbiguousIdentifierError) <==> (forall|
                i: int,
            | !uuid_match_at(old(self).records@, identifier@, i)) && (forall|i: int|
                !name_match_at(old(self).records@, identifier@, i)) && ambiguous_prefix(
                old(self).records@,
                identifier@,
            ),
            r matches Ok(out) ==> exists|i: int|
                {
                    &&& resolves_to(old(self).records@, identifier@, i)
                    &&& out.log.wf()
                    &&& out.log.finished
                    &&& (out.success ==> crate::script::plan_valid(crate::script::kinds_of(
                        out.plan@,
                    )))
                    &&& crate::engine::deps_respected(
                        out.log.events@,
                        crate::script::kinds_of(out.plan@),
                    )
                    &&& crate::engine::instr_once(out.log.events@)
                    &&& final(self).records@[i].uuid == old(self).records@[i].uuid
                    &&& final(self).records@[i].name == old(self).records@[i].name
                    &&& final(self).records@[i].live == old(self).records@[i].live
                    &&& forall|j: int|
                        0 <= j < old(self).records@.len() && j != i ==> final(self).records@[j]
                            == old(self).records@[j]
                },
    {
        let idx = match resolve(&self.records, identifier) {
            Ok(i) => i,
            Err(e) => {
                return Err(e);
            },
        };
        let mut rec = self.records.remove(idx);
        let out = run_starlark_script(
            &mut rec.state,
            script,
            serialized_params,
            main_function_name,
            opts,
        );
        self.records.insert(idx, rec);
        Ok(out)
    }

    /// Resolve an enclave identifier to its record index.
    pub fn find_enclave(&self, identifier: &Vec<u8>) -> (r: Result<usize, LookupError>)
        ensures
            r matches Ok(i) ==> resolves_to(self.records@, identifier@, i as int),
            r == Err::<usize, LookupError>(LookupError::NotFoundError) <==> no_match(
                self.records@,
                identifier@,
            ),
            r == Err::<usize, LookupError>(LookupError::AmbiguousIdentifierError) <==> (forall|
                i: int,
            | !uuid_match_at(self.records@, identifier@, i)) && (forall|i: int|
                !name_match_at(self.records@, identifier@, i)) && ambiguous_prefix(
                self.records@,
                identifier@,
            ),
            r is Ok <==> !no_match(self.records@, identifier@) && !((forall|i: int|
                !uuid_match_at(self.records@, identifier@, i)) && (forall|i: int|
                !name_match_at(self.records@, identifier@, i)) && ambiguous_prefix(
                self.records@,
                identifier@,
            )),
    {
        match resolve(&self.records, identifier) {
            Ok(i) => Ok(i),
            Err(e) => Err(e),
        }
    }
}

} // verus!
