//! Service registry: authoritative bookkeeping of service identity, status,
//! and network placement inside one enclave.
//!
//! Identifiers must be unique among live services, but identity records are
//! never hard-deleted: removing a service only severs the live association,
//! so historical identifiers stay retrievable.
use vstd::prelude::*;
use crate::bytes::{bytes_eq, is_prefix_of};
use crate::text::str_matches;
use crate::ident::{
    ambiguous_prefix, name_match_at, no_match, resolve, resolves_to, uuid_match_at, HasIdentity,
    LookupError,
};
use crate::uuid::{
    lemma_uuid_injective, mint_uuid, shorten_uuid, uuid_of_id, HasShortened, UUID_LEN,
};

verus! {

/// Transport protocol a port listens on.
#[derive(Clone, Copy, PartialEq, Eq, Structural, Debug)]
pub enum TransportProtocol {
    Tcp,
    Sctp,
    Udp,
}

/// Status of a service.
#[derive(Clone, Copy, PartialEq, Eq, Structural, Debug)]
pub enum ServiceStatus {
    Stopped,
    Running,
    Unknown,
}

/// The stable wire-format name of a transport protocol.
pub open spec fn transport_protocol_name(p: TransportProtocol) -> Seq<char> {
    match p {
        TransportProtocol::Tcp => "TCP"@,
        TransportProtocol::Sctp => "SCTP"@,
        TransportProtocol::Udp => "UDP"@,
    }
}

impl TransportProtocol {
    /// String value of the enum field names used in the wire format.
    pub fn as_str_name(&self) -> (r: &'static str)
        ensures
            r@ == transport_protocol_name(*self),
    {
        match self {
            TransportProtocol::Tcp => "TCP",
            TransportProtocol::Sctp => "SCTP",
            TransportProtocol::Udp => "UDP",
        }
    }

    /// The enum value of a wire-format field name, if any.
    pub fn from_str_name(value: &str) -> (r: Option<Self>)
        ensures
            r == (if value@ == transport_protocol_name(TransportProtocol::Tcp) {
                Some(TransportProtocol::Tcp)
            } else if value@ == transport_protocol_name(TransportProtocol::Sctp) {
                Some(TransportProtocol::Sctp)
            } else if value@ == transport_protocol_name(TransportProtocol::Udp) {
                Some(TransportProtocol::Udp)
            } else {
                None::<TransportProtocol>
            }),
    {
        if str_matches(value, "TCP") {
            Some(TransportProtocol::Tcp)
        } else if str_matches(value, "SCTP") {
            Some(TransportProtocol::Sctp)
        } else if str_matches(value, "UDP") {
            Some(TransportProtocol::Udp)
        } else {
            None
        }
    }
}

/// The stable wire-format name of a service status.
pub open spec fn service_status_name(p: ServiceStatus) -> Seq<char> {
    match p {
        ServiceStatus::Stopped => "STOPPED"@,
        ServiceStatus::Running => "RUNNING"@,
        ServiceStatus::Unknown => "UNKNOWN"@,
    }
}

impl ServiceStatus {
    /// String value of the enum field names used in the wire format.
    pub fn as_str_name(&self) -> (r: &'static str)
        ensures
            r@ == service_status_name(*self),
    {
        match self {
            ServiceStatus::Stopped => "STOPPED",
            ServiceStatus::Running => "RUNNING",
            ServiceStatus::Unknown => "UNKNOWN",
        }
    }

    /// The enum value of a wire-format field name, if any.
    pub fn from_str_name(value: &str) -> (r: Option<Self>)
        ensures
            r == (if value@ == service_status_name(ServiceStatus::Stopped) {
                Some(ServiceStatus::Stopped)
            } else if value@ == service_status_name(ServiceStatus::Running) {
                Some(ServiceStatus::Running)
            } else if value@ == service_status_name(ServiceStatus::Unknown) {
                Some(ServiceStatus::Unknown)
            } else {
                None::<ServiceStatus>
            }),
    {
        if str_matches(value, "STOPPED") {
            Some(ServiceStatus::Stopped)
        } else if str_matches(value, "RUNNING") {
            Some(ServiceStatus::Running)
        } else if str_matches(value, "UNKNOWN") {
            Some(ServiceStatus::Unknown)
        } else {
            None
        }
    }
}

/// One network port of a service.
pub struct Port {
    pub number: u32,
    pub transport_protocol: TransportProtocol,
    pub maybe_application_protocol: Option<Vec<u8>>,
    pub maybe_wait_timeout: Option<Vec<u8>>,
}

/// Requested configuration of a service.
pub struct ServiceConfig {
    /// Container image to run.
    pub image: Vec<u8>,
    /// Named private ports.
    pub private_ports: Vec<(Vec<u8>, Port)>,
    pub entrypoint_args: Vec<Vec<u8>>,
    pub cmd_args: Vec<Vec<u8>>,
    pub env_vars: Vec<(Vec<u8>, Vec<u8>)>,
}

/// One service identity record.
pub struct ServiceRecord {
    /// Counter value the UUID was minted from.
    pub id: u64,
    pub uuid: Vec<u8>,
    pub shortened_uuid: Vec<u8>,
    pub name: Vec<u8>,
    pub status: ServiceStatus,
    pub config: ServiceConfig,
    /// Whether the record is the live resource or only history.
    pub live: bool,
}

impl HasIdentity for ServiceRecord {
    open spec fn uuid_model(&self) -> Seq<u8> {
        self.uuid@
    }

    open spec fn name_model(&self) -> Seq<u8> {
        self.name@
    }

    open spec fn is_live(&self) -> bool {
        self.live
    }

    fn uuid_ref(&self) -> &Vec<u8> {
        &self.uuid
    }

    fn name_ref(&self) -> &Vec<u8> {
        &self.name
    }

    fn live(&self) -> bool {
        self.live
    }
}

impl HasShortened for ServiceRecord {
    open spec fn shortened_model(&self) -> Seq<u8> {
        self.shortened_uuid@
    }

    fn shortened_ref(&self) -> &Vec<u8> {
        &self.shortened_uuid
    }
}

/// A live record in `recs` bears the name `n`.
pub open spec fn live_name_in(recs: Seq<ServiceRecord>, n: Seq<u8>) -> bool {
    exists|i: int| 0 <= i < recs.len() && (#[trigger] recs[i]).live && recs[i].name@ == n
}

/// A live record in `recs` bears the name `n` and runs the image `img`.
pub open spec fn live_image_in(recs: Seq<ServiceRecord>, n: Seq<u8>, img: Seq<u8>) -> bool {
    exists|i: int|
        0 <= i < recs.len() && (#[trigger] recs[i]).live && recs[i].name@ == n
            && recs[i].config.image@ == img
}

/// Appending one record changes liveness only for its own name.
pub proof fn lemma_live_names_push(pre: Seq<ServiceRecord>, post: Seq<ServiceRecord>, name: Seq<u8>)
    requires
        post.len() == pre.len() + 1,
        post.drop_last() == pre,
        post.last().name@ == name,
    ensures
        forall|n2: Seq<u8>|
            n2 != name ==> (#[trigger] live_name_in(post, n2) <==> live_name_in(pre, n2)),
        forall|n2: Seq<u8>, img2: Seq<u8>|
            n2 != name ==> (#[trigger] live_image_in(post, n2, img2) <==> live_image_in(
                pre,
                n2,
                img2,
            )),
{
    assert forall|n2: Seq<u8>|
        n2 != name implies (#[trigger] live_name_in(post, n2) <==> live_name_in(pre, n2)) by {
        if live_name_in(post, n2) {
            let i = choose|i: int|
                0 <= i < post.len() && (#[trigger] post[i]).live && post[i].name@ == n2;
            assert(i < pre.len());
            assert(post[i] == pre[i]);
        }
        if live_name_in(pre, n2) {
            let i = choose|i: int|
                0 <= i < pre.len() && (#[trigger] pre[i]).live && pre[i].name@ == n2;
            assert(post[i] == pre[i]);
        }
    }
    assert forall|n2: Seq<u8>, img2: Seq<u8>|
        n2 != name implies (#[trigger] live_image_in(post, n2, img2) <==> live_image_in(
        pre,
        n2,
        img2,
    )) by {
        if live_image_in(post, n2, img2) {
            let i = choose|i: int|
                0 <= i < post.len() && (#[trigger] post[i]).live && post[i].name@ == n2
                    && post[i].config.image@ == img2;
            assert(i < pre.len());
            assert(post[i] == pre[i]);
        }
        if live_image_in(pre, n2, img2) {
            let i = choose|i: int|
                0 <= i < pre.len() && (#[trigger] pre[i]).live && pre[i].name@ == n2
                    && pre[i].config.image@ == img2;
            assert(post[i] == pre[i]);
        }
    }
}

/// Rewriting one record changes liveness only for the names it bore.
pub proof fn lemma_live_names_update(
    pre: Seq<ServiceRecord>,
    post: Seq<ServiceRecord>,
    i: int,
    name: Seq<u8>,
)
    requires
        post.len() == pre.len(),
        0 <= i < pre.len(),
        forall|j: int| 0 <= j < pre.len() && j != i ==> post[j] == pre[j],
        pre[i].name@ == name,
        post[i].name@ == name,
    ensures
        forall|n2: Seq<u8>|
            n2 != name ==> (#[trigger] live_name_in(post, n2) <==> live_name_in(pre, n2)),
        forall|n2: Seq<u8>, img2: Seq<u8>|
            n2 != name ==> (#[trigger] live_image_in(post, n2, img2) <==> live_image_in(
                pre,
                n2,
                img2,
            )),
{
    assert forall|n2: Seq<u8>|
        n2 != name implies (#[trigger] live_name_in(post, n2) <==> live_name_in(pre, n2)) by {
        if live_name_in(post, n2) {
            let j = choose|j: int|
                0 <= j < post.len() && (#[trigger] post[j]).live && post[j].name@ == n2;
            assert(j != i);
            assert(post[j] == pre[j]);
        }
        if live_name_in(pre, n2) {
            let j = choose|j: int|
                0 <= j < pre.len() && (#[trigger] pre[j]).live && pre[j].name@ == n2;
            assert(j != i);
            assert(post[j] == pre[j]);
        }
    }
    assert forall|n2: Seq<u8>, img2: Seq<u8>|
        n2 != name implies (#[trigger] live_image_in(post, n2, img2) <==> live_image_in(
        pre,
        n2,
        img2,
    )) by {
        if live_image_in(post, n2, img2) {
            let j = choose|j: int|
                0 <= j < post.len() && (#[trigger] post[j]).live && post[j].name@ == n2
                    && post[j].config.image@ == img2;
            assert(j != i);
            assert(post[j] == pre[j]);
        }
        if live_image_in(pre, n2, img2) {
            let j = choose|j: int|
                0 <= j < pre.len() && (#[trigger] pre[j]).live && pre[j].name@ == n2
                    && pre[j].config.image@ == img2;
            assert(j != i);
            assert(post[j] == pre[j]);
        }
    }
}

/// A failure to register a service.
#[derive(Clone, Copy, PartialEq, Eq, Structural, Debug)]
pub enum ServiceError {
    /// A live service already bears the requested name.
    NameAlreadyInUseError,
}

/// Registry of the services of one enclave.
pub struct ServiceRegistry {
    pub records: Vec<ServiceRecord>,
    pub next_id: u64,
}

impl ServiceRegistry {
    /// Well-formedness: ids are below the mint counter and pairwise
    /// distinct, UUIDs are the ones minted from the ids, shortened UUIDs are
    /// prefixes of their UUIDs and pairwise distinct, and live names are
    /// unique.
    pub open spec fn wf(&self) -> bool {
        &&& forall|i: int|
            0 <= i < self.records@.len() ==> (#[trigger] self.records@[i]).id < self.next_id
        &&& forall|i: int, j: int|
            0 <= i < j < self.records@.len() ==> self.records@[i].id != self.records@[j].id
        &&& forall|i: int|
            0 <= i < self.records@.len() ==> (#[trigger] self.records@[i]).uuid@ == uuid_of_id(
                self.records@[i].id,
            )
        &&& forall|i: int|
            0 <= i < self.records@.len() ==> is_prefix_of(
                (#[trigger] self.records@[i]).shortened_uuid@,
                self.records@[i].uuid@,
            )
        &&& forall|i: int, j: int|
            0 <= i < j < self.records@.len() ==> self.records@[i].shortened_uuid@
                != self.records@[j].shortened_uuid@
        &&& forall|i: int, j: int|
            0 <= i < j < self.records@.len() && self.records@[i].live && self.records@[j].live
                ==> self.records@[i].name@ != self.records@[j].name@
    }

    pub fn new() -> (s: Self)
        ensures
            s.wf(),
            s.records@.len() == 0,
            s.next_id == 0,
    {
        ServiceRegistry { records: Vec::new(), next_id: 0 }
    }

    fn has_live_name(&self, name: &Vec<u8>) -> (r: bool)
        ensures
            r == live_name_in(self.records@, name@),
    {
        let mut i: usize = 0;
        while i < self.records.len()
            invariant
                i <= self.records@.len(),
                forall|j: int|
                    0 <= j < i ==> !((#[trigger] self.records@[j]).live && self.records@[j].name@
                        == name@),
            decreases self.records@.len() - i,
        {
            if self.records[i].live && bytes_eq(&self.records[i].name, name) {
                return true;
            }
            i = i + 1;
        }
        false
    }

    /// Register a new live service under `name`, minting a fresh UUID and a
    /// shortened UUID that is unique among all held records. Fails exactly
    /// when a live service already bears the name.
    pub fn add_service(&mut self, name: Vec<u8>, config: ServiceConfig) -> (r: Result<
        usize,
        ServiceError,
    >)
        requires
            old(self).wf(),
            old(self).next_id < u64::MAX,
        ensures
            final(self).wf(),
            final(self).next_id <= old(self).next_id + 1,
            r is Ok <==> !live_name_in(old(self).records@, name@),
            r is Err ==> *final(self) == *old(self) && r == Err::<usize, ServiceError>(
                ServiceError::NameAlreadyInUseError,
            ),
            r matches Ok(idx) ==> {
                &&& idx == old(self).records@.len()
                &&& final(self).records@.len() == old(self).records@.len() + 1
                &&& final(self).records@.drop_last() == old(self).records@
                &&& final(self).records@.last().name@ == name@
                &&& final(self).records@.last().config == config
                &&& final(self).records@.last().live
                &&& final(self).records@.last().status == ServiceStatus::Running
                &&& final(self).records@.last().uuid@ == uuid_of_id(old(self).next_id)
                &&& final(self).next_id == old(self).next_id + 1
            },
    {
        if self.has_live_name(&name) {
            return Err(ServiceError::NameAlreadyInUseError);
        }
        let id = self.next_id;
        let uuid = mint_uuid(id);
        proof {
            assert forall|i: int|
                0 <= i < self.records@.len() implies (
                #[trigger] self.records@[i]).shortened_uuid@ != uuid@ by {
                if self.records@[i].shortened_uuid@ == uuid@ {
                    assert(self.records@[i].shortened_uuid@.len() == UUID_LEN);
                    assert(self.records@[i].uuid@.len() == UUID_LEN);
                    assert(self.records@[i].uuid@.subrange(0, UUID_LEN as int) =~= self.records@[i].uuid@);
                    assert(self.records@[i].shortened_uuid@ == self.records@[i].uuid@);
                    lemma_uuid_injective(self.records@[i].id, id);
                }
            }
        }
        let shortened_uuid = shorten_uuid(&self.records, &uuid);
        let rec = ServiceRecord {
            id,
            uuid,
            shortened_uuid,
            name,
            status: ServiceStatus::Running,
            config,
            live: true,
        };
        let idx = self.records.len();
        self.records.push(rec);
        self.next_id = id + 1;
        proof {
            assert(final(self).records@.drop_last() =~= old(self).records@);
        }
        Ok(idx)
    }

    /// Register a batch of services, reporting success or failure for each
    /// entry in order. An entry succeeds exactly when its name neither
    /// collides with a live service nor repeats an earlier name in the
    /// batch; failures never prevent the valid entries from starting.
    pub fn add_services(&mut self, configs: Vec<(Vec<u8>, ServiceConfig)>) -> (r: Vec<
        (Vec<u8>, Result<Vec<u8>, ServiceError>),
    >)
        requires
            old(self).wf(),
            old(self).next_id + configs@.len() < u64::MAX,
        ensures
            final(self).wf(),
            r@.len() == configs@.len(),
            forall|k: int| 0 <= k < r@.len() ==> (#[trigger] r@[k]).0@ == configs@[k].0@,
            forall|k: int|
                0 <= k < r@.len() ==> ((#[trigger] r@[k]).1 is Ok <==> !live_name_in(
                    old(self).records@,
                    configs@[k].0@,
                ) && (forall|j: int| 0 <= j < k ==> configs@[j].0@ != configs@[k].0@)),
            forall|k: int|
                0 <= k < r@.len() && (#[trigger] r@[k]).1 is Err ==> r@[k].1 == Err::<
                    Vec<u8>,
                    ServiceError,
                >(ServiceError::NameAlreadyInUseError),
            forall|k: int|
                0 <= k < r@.len() ==> ((#[trigger] r@[k]).1 matches Ok(u) ==> live_name_in(
                    final(self).records@,
                    configs@[k].0@,
                )),
            final(self).records@.len() >= old(self).records@.len(),
            forall|i: int|
                0 <= i < old(self).records@.len() ==> final(self).records@[i] == old(
                    self,
                ).records@[i],
    {
        let ghost old_recs = old(self).records@;
        let ghost all = configs@;
        let mut rest = configs;
        let mut r: Vec<(Vec<u8>, Result<Vec<u8>, ServiceError>)> = Vec::new();
        let mut k: usize = 0;
        let n = rest.len();
        while k < n
            invariant
                self.wf(),
                n == all.len(),
                k <= n,
                rest@ == all.skip(k as int),
                r@.len() == k,
                self.next_id + (n - k) < u64::MAX,
                self.records@.len() >= old_recs.len(),
                forall|i: int| 0 <= i < old_recs.len() ==> self.records@[i] == old_recs[i],
                forall|j: int| 0 <= j < k ==> (#[trigger] r@[j]).0@ == all[j].0@,
                forall|j: int|
                    0 <= j < k ==> ((#[trigger] r@[j]).1 is Ok <==> !live_name_in(
                        old_recs,
                        all[j].0@,
                    ) && (forall|m: int| 0 <= m < j ==> all[m].0@ != all[j].0@)),
                forall|j: int|
                    0 <= j < k && (#[trigger] r@[j]).1 is Err ==> r@[j].1 == Err::<
                        Vec<u8>,
                        ServiceError,
                    >(ServiceError::NameAlreadyInUseError),
                forall|n2: Seq<u8>|
                    #[trigger] live_name_in(self.records@, n2) <==> (live_name_in(old_recs, n2)
                        || exists|j: int| 0 <= j < k && (#[trigger] r@[j]).1 is Ok && all[j].0@
                        == n2),
                forall|m: int| 0 <= m < k ==> live_name_in(self.records@, all[m].0@),
            decreases n - k,
        {
            let ghost pre_r = r@;
            let (name, config) = rest.remove(0);
            proof {
                assert(all.skip(k as int)[0] == all[k as int]);
                assert(rest@ =~= all.skip(k + 1));
            }
            let ghost name_view = name@;
            let ghost pre_recs = self.records@;
            let outcome = match self.add_service(name.clone(), config) {
                Ok(idx) => {
                    let u = self.records[idx].uuid.clone();
                    Ok(u)
                },
                Err(e) => Err(e),
            };
            proof {
                // How the set of live names evolved over this entry.
                if outcome is Ok {
                    assert forall|n2: Seq<u8>| #[trigger]
                        live_name_in(self.records@, n2) <==> (live_name_in(pre_recs, n2) || n2
                            == name_view) by {
                        let recs = self.records@;
                        if live_name_in(recs, n2) {
                            let i = choose|i: int|
                                0 <= i < recs.len() && (#[trigger] recs[i]).live && recs[i].name@
                                    == n2;
                            if i < pre_recs.len() {
                                assert(recs[i] == pre_recs[i]);
                                assert(live_name_in(pre_recs, n2));
                            } else {
                                assert(n2 == name_view);
                            }
                        }
                        if live_name_in(pre_recs, n2) {
                            let i = choose|i: int|
                                0 <= i < pre_recs.len() && (#[trigger] pre_recs[i]).live
                                    && pre_recs[i].name@ == n2;
                            assert(recs[i] == pre_recs[i]);
                            assert(live_name_in(recs, n2));
                        }
                        if n2 == name_view {
                            assert(recs.last().live && recs.last().name@ == n2);
                            assert(live_name_in(recs, n2));
                        }
                    }
                } else {
                    assert(self.records@ == pre_recs);
                }
            }
            r.push((name, outcome));
            k = k + 1;
            proof {
                assert(r@.drop_last() =~= pre_r);
                let j = k - 1;
                assert(r@[j as int].1 == outcome);
                assert(r@[j as int].0@ == name_view);
                assert(all[j as int].0@ == name_view);
                if outcome is Ok {
                    assert(!live_name_in(pre_recs, name_view));
                    assert(!live_name_in(old_recs, name_view));
                    assert forall|m: int| 0 <= m < j implies all[m].0@ != name_view by {
                        if all[m].0@ == name_view {
                            assert(live_name_in(pre_recs, all[m].0@));
                        }
                    }
                } else {
                    assert(live_name_in(pre_recs, name_view));
                    if !live_name_in(old_recs, name_view) {
                        let j2 = choose|j2: int|
                            0 <= j2 < j && (#[trigger] pre_r[j2]).1 is Ok && all[j2].0@
                                == name_view;
                        assert(r@[j2].1 is Ok && all[j2].0@ == name_view);
                    }
                }
                assert forall|j3: int|
                    0 <= j3 < k implies ((#[trigger] r@[j3]).1 is Ok <==> !live_name_in(
                    old_recs,
                    all[j3].0@,
                ) && (forall|m: int| 0 <= m < j3 ==> all[m].0@ != all[j3].0@)) by {
                    if j3 < j {
                        assert(r@[j3] == pre_r[j3]);
                    }
                }
                assert forall|n2: Seq<u8>| #[trigger]
                    live_name_in(self.records@, n2) implies (live_name_in(old_recs, n2) || exists|
                    j4: int,
                | 0 <= j4 < k && (#[trigger] r@[j4]).1 is Ok && all[j4].0@ == n2) by {
                    if outcome is Ok {
                        if n2 == name_view {
                            assert(r@[j as int].1 is Ok && all[j as int].0@ == n2);
                        } else {
                            assert(live_name_in(pre_recs, n2));
                            if !live_name_in(old_recs, n2) {
                                let j5 = choose|j5: int|
                                    0 <= j5 < j && (#[trigger] pre_r[j5]).1 is Ok && all[j5].0@
                                        == n2;
                                assert(r@[j5].1 is Ok && all[j5].0@ == n2);
                            }
                        }
                    } else {
                        if !live_name_in(old_recs, n2) {
                            let j5 = choose|j5: int|
                                0 <= j5 < j && (#[trigger] pre_r[j5]).1 is Ok && all[j5].0@ == n2;
                            assert(r@[j5].1 is Ok && all[j5].0@ == n2);
                        }
                    }
                }
                assert forall|n2: Seq<u8>|
                    (live_name_in(old_recs, n2) || exists|j4: int|
                        0 <= j4 < k && (#[trigger] r@[j4]).1 is Ok && all[j4].0@
                            == n2) implies #[trigger] live_name_in(self.records@, n2) by {
                    if live_name_in(old_recs, n2) {
                        if outcome is Ok {
                            assert(live_name_in(pre_recs, n2));
                        }
                    } else {
                        let j4 = choose|j4: int|
                            0 <= j4 < k && (#[trigger] r@[j4]).1 is Ok && all[j4].0@ == n2;
                        if j4 < j {
                            assert(pre_r[j4].1 is Ok && all[j4].0@ == n2);
                            assert(live_name_in(pre_recs, n2));
                        } else {
                            assert(n2 == name_view);
                        }
                    }
                }
                assert forall|m: int| 0 <= m < k implies live_name_in(self.records@, all[m].0@) by {
                    if m < j {
                        assert(live_name_in(pre_recs, all[m].0@));
                        if outcome is Ok {
                            let i = choose|i: int|
                                0 <= i < pre_recs.len() && (#[trigger] pre_recs[i]).live
                                    && pre_recs[i].name@ == all[m].0@;
                            assert(self.records@[i] == pre_recs[i]);
                        }
                    } else {
                        if outcome is Ok {
                            assert(self.records@.last().live && self.records@.last().name@
                                == name_view);
                        } else {
                            assert(live_name_in(pre_recs, name_view));
                        }
                    }
                }
            }
        }
        r
    }

    /// Index of the live service named `name`, if any.
    pub fn find_live_by_name(&self, name: &Vec<u8>) -> (r: Option<usize>)
        ensures
            r matches Some(i) ==> i < self.records@.len() && self.records@[i as int].live
                && self.records@[i as int].name@ == name@,
            r is None <==> !live_name_in(self.records@, name@),
    {
        let mut i: usize = 0;
        while i < self.records.len()
            invariant
                i <= self.records@.len(),
                forall|j: int|
                    0 <= j < i ==> !((#[trigger] self.records@[j]).live && self.records@[j].name@
                        == name@),
            decreases self.records@.len() - i,
        {
            if self.records[i].live && bytes_eq(&self.records[i].name, name) {
                return Some(i);
            }
            i = i + 1;
        }
        None
    }

    /// Mark the live service named `name` as removed, returning its UUID; a
    /// no-op returning nothing when no live service bears the name.
    pub fn remove_by_name(&mut self, name: &Vec<u8>) -> (r: Option<Vec<u8>>)
        requires
            old(self).wf(),
        ensures
            final(self).wf(),
            final(self).records@.len() == old(self).records@.len(),
            final(self).next_id == old(self).next_id,
            r is None <==> !live_name_in(old(self).records@, name@),
            r is None ==> *final(self) == *old(self),
            !live_name_in(final(self).records@, name@),
            r matches Some(u) ==> exists|i: int|
                {
                    &&& 0 <= i < old(self).records@.len()
                    &&& old(self).records@[i].live
                    &&& old(self).records@[i].name@ == name@
                    &&& u@ == old(self).records@[i].uuid@
                    &&& !final(self).records@[i].live
                    &&& final(self).records@[i].status == ServiceStatus::Stopped
                    &&& final(self).records@[i].uuid == old(self).records@[i].uuid
                    &&& final(self).records@[i].name == old(self).records@[i].name
                    &&& final(self).records@[i].shortened_uuid == old(
                        self,
                    ).records@[i].shortened_uuid
                    &&& final(self).records@[i].id == old(self).records@[i].id
                    &&& forall|j: int|
                        0 <= j < old(self).records@.len() && j != i ==> final(self).records@[j]
                            == old(self).records@[j]
                },
    {
        let idx = match self.find_live_by_name(name) {
            Some(i) => i,
            None => {
                return None;
            },
        };
        let mut rec = self.records.remove(idx);
        let u = rec.uuid.clone();
        rec.live = false;
        rec.status = ServiceStatus::Stopped;
        self.records.insert(idx, rec);
        proof {
            assert forall|j: int|
                !(0 <= j < self.records@.len() && (#[trigger] self.records@[j]).live
                    && self.records@[j].name@ == name@) by {
                if 0 <= j < self.records@.len() && j != idx && self.records@[j].live
                    && self.records@[j].name@ == name@ {
                    assert(old(self).records@[j].live && old(self).records@[j].name@ == name@);
                    assert(old(self).records@[idx as int].live);
                }
            }
        }
        Some(u)
    }

    /// Mark a live service as removed, keeping its identity record for
    /// history. Resolution accepts UUID, name, or UUID prefix.
    pub fn remove_service(&mut self, identifier: &Vec<u8>) -> (r: Result<Vec<u8>, LookupError>)
        requires
            old(self).wf(),
        ensures
            final(self).wf(),
            final(self).records@.len() == old(self).records@.len(),
            final(self).next_id == old(self).next_id,
            r is Err ==> *final(self) == *old(self),
            r == Err::<Vec<u8>, LookupError>(LookupError::NotFoundError) <==> no_match(
                old(self).records@,
                identifier@,
            ),
            r == Err::<Vec<u8>, LookupError>(LookupError::AmbiguousIdentifierError) <==> (forall|
                i: int,
            | !uuid_match_at(old(self).records@, identifier@, i)) && (forall|i: int|
                !name_match_at(old(self).records@, identifier@, i)) && ambiguous_prefix(
                old(self).records@,
                identifier@,
            ),
            r matches Ok(u) ==> exists|i: int|
                {
                    &&& resolves_to(old(self).records@, identifier@, i)
                    &&& u@ == old(self).records@[i].uuid@
                    &&& !final(self).records@[i].live
                    &&& final(self).records@[i].status == ServiceStatus::Stopped
                    &&& final(self).records@[i].uuid == old(self).records@[i].uuid
                    &&& final(self).records@[i].name == old(self).records@[i].name
                    &&& final(self).records@[i].shortened_uuid == old(
                        self,
                    ).records@[i].shortened_uuid
                    &&& final(self).records@[i].id == old(self).records@[i].id
                    &&& forall|j: int|
                        0 <= j < old(self).records@.len() && j != i ==> final(self).records@[j]
                            == old(self).records@[j]
                },
    {
        let idx = match resolve(&self.records, identifier) {
            Ok(i) => i,
            Err(e) => {
                return Err(e);
            },
        };
        let mut rec = self.records.remove(idx);
        let u = rec.uuid.clone();
        rec.live = false;
        rec.status = ServiceStatus::Stopped;
        self.records.insert(idx, rec);
        Ok(u)
    }

    /// Resolve each identifier, reporting per identifier the index of the
    /// matching record or the resolution failure: found for every uniquely
    /// resolvable identifier, not-found or ambiguous exactly as resolution
    /// dictates. An empty identifier list fetches every live service.
    pub fn get_services(&self, identifiers: &Vec<Vec<u8>>) -> (r: Vec<Result<usize, LookupError>>)
        ensures
            identifiers@.len() > 0 ==> r@.len() == identifiers@.len(),
            identifiers@.len() > 0 ==> (forall|k: int|
                0 <= k < r@.len() ==> ((#[trigger] r@[k]) matches Ok(i) ==> resolves_to(
                    self.records@,
                    identifiers@[k]@,
                    i as int,
                ))),
            identifiers@.len() > 0 ==> (forall|k: int|
                0 <= k < r@.len() ==> ((#[trigger] r@[k]) == Err::<usize, LookupError>(
                    LookupError::NotFoundError,
                ) <==> no_match(self.records@, identifiers@[k]@))),
            identifiers@.len() > 0 ==> (forall|k: int|
                0 <= k < r@.len() ==> ((#[trigger] r@[k]) == Err::<usize, LookupError>(
                    LookupError::AmbiguousIdentifierError,
                ) <==> (forall|i: int| !uuid_match_at(self.records@, identifiers@[k]@, i)) && (
                forall|i: int| !name_match_at(self.records@, identifiers@[k]@, i))
                    && ambiguous_prefix(self.records@, identifiers@[k]@))),
            identifiers@.len() > 0 ==> (forall|k: int|
                0 <= k < r@.len() ==> ((#[trigger] r@[k]) is Ok <==> !no_match(
                    self.records@,
                    identifiers@[k]@,
                ) && !((forall|i: int| !uuid_match_at(self.records@, identifiers@[k]@, i)) && (
                forall|i: int| !name_match_at(self.records@, identifiers@[k]@, i))
                    && ambiguous_prefix(self.records@, identifiers@[k]@)))),
            identifiers@.len() == 0 ==> (forall|k: int|
                0 <= k < r@.len() ==> ((#[trigger] r@[k]) matches Ok(i) && i
                    < self.records@.len() && self.records@[i as int].live)),
            identifiers@.len() == 0 ==> (forall|i: int|
                0 <= i < self.records@.len() && (#[trigger] self.records@[i]).live ==> exists|
                    k: int,
                | 0 <= k < r@.len() && ((#[trigger] r@[k]) matches Ok(j) && j == i)),
    {
        if identifiers.len() == 0 {
            let live = self.live_indexes();
            let mut r: Vec<Result<usize, LookupError>> = Vec::new();
            let mut k: usize = 0;
            while k < live.len()
                invariant
                    k <= live@.len(),
                    r@.len() == k,
                    forall|k2: int|
                        0 <= k2 < live@.len() ==> (#[trigger] live@[k2]) < self.records@.len()
                            && self.records@[live@[k2] as int].live,
                    forall|i: int|
                        0 <= i < self.records@.len() && (#[trigger] self.records@[i]).live
                            ==> exists|k2: int| 0 <= k2 < live@.len() && live@[k2] == i,
                    forall|k2: int|
                        0 <= k2 < k ==> (#[trigger] r@[k2]) == Ok::<usize, LookupError>(
                            live@[k2],
                        ),
                decreases live@.len() - k,
            {
                r.push(Ok(live[k]));
                k = k + 1;
            }
            proof {
                assert forall|i: int|
                    0 <= i < self.records@.len() && (
                    #[trigger] self.records@[i]).live implies exists|k2: int|
                    0 <= k2 < r@.len() && ((#[trigger] r@[k2]) matches Ok(j) && j == i) by {
                    let k2 = choose|k2: int| 0 <= k2 < live@.len() && live@[k2] == i;
                    assert(r@[k2] == Ok::<usize, LookupError>(live@[k2]));
                }
            }
            return r;
        }
        let mut r: Vec<Result<usize, LookupError>> = Vec::new();
        let mut k: usize = 0;
        while k < identifiers.len()
            invariant
                k <= identifiers@.len(),
                r@.len() == k,
                forall|j: int|
                    0 <= j < k ==> ((#[trigger] r@[j]) matches Ok(i) ==> resolves_to(
                        self.records@,
                        identifiers@[j]@,
                        i as int,
                    )),
                forall|j: int|
                    0 <= j < k ==> ((#[trigger] r@[j]) == Err::<usize, LookupError>(
                        LookupError::NotFoundError,
                    ) <==> no_match(self.records@, identifiers@[j]@)),
                forall|j: int|
                    0 <= j < k ==> ((#[trigger] r@[j]) == Err::<usize, LookupError>(
                        LookupError::AmbiguousIdentifierError,
                    ) <==> (forall|i: int| !uuid_match_at(self.records@, identifiers@[j]@, i)) && (
                    forall|i: int| !name_match_at(self.records@, identifiers@[j]@, i))
                        && ambiguous_prefix(self.records@, identifiers@[j]@)),
                forall|j: int|
                    0 <= j < k ==> ((#[trigger] r@[j]) is Ok <==> !no_match(
                        self.records@,
                        identifiers@[j]@,
                    ) && !((forall|i: int| !uuid_match_at(self.records@, identifiers@[j]@, i)) && (
                    forall|i: int| !name_match_at(self.records@, identifiers@[j]@, i))
                        && ambiguous_prefix(self.records@, identifiers@[j]@))),
            decreases identifiers@.len() - k,
        {
            r.push(resolve(&self.records, &identifiers[k]));
            k = k + 1;
        }
        r
    }

    /// Indexes of all live services, in registration order.
    pub fn live_indexes(&self) -> (r: Vec<usize>)
        ensures
            forall|k: int|
                0 <= k < r@.len() ==> (#[trigger] r@[k]) < self.records@.len()
                    && self.records@[r@[k] as int].live,
            forall|i: int|
                0 <= i < self.records@.len() && (#[trigger] self.records@[i]).live ==> exists|
                    k: int,
                | 0 <= k < r@.len() && r@[k] == i,
    {
        let mut r: Vec<usize> = Vec::new();
        let mut i: usize = 0;
        while i < self.records.len()
            invariant
                i <= self.records@.len(),
                forall|k: int|
                    0 <= k < r@.len() ==> (#[trigger] r@[k]) < i && self.records@[r@[k] as int].live,
                forall|j: int|
                    0 <= j < i && (#[trigger] self.records@[j]).live ==> exists|k: int|
                        0 <= k < r@.len() && r@[k] == j,
            decreases self.records@.len() - i,
        {
            let ghost pre = r@;
            if self.records[i].live {
                r.push(i);
            }
            proof {
                assert forall|j: int|
                    0 <= j < i + 1 && (#[trigger] self.records@[j]).live implies exists|k: int|
                    0 <= k < r@.len() && r@[k] == j by {
                    if j == i {
                        assert(r@[r@.len() - 1] == i);
                    } else {
                        let k = choose|k: int| 0 <= k < pre.len() && pre[k] == j;
                        assert(r@[k] == j);
                    }
                }
            }
            i = i + 1;
        }
        r
    }

    /// All identity records, live and historical: (uuid, name, shortened
    /// uuid) per record, in registration order.
    pub fn all_identifiers(&self) -> (r: Vec<(Vec<u8>, Vec<u8>, Vec<u8>)>)
        ensures
            r@.len() == self.records@.len(),
            forall|i: int|
                0 <= i < r@.len() ==> (#[trigger] r@[i]).0@ == self.records@[i].uuid@ && r@[i].1@
                    == self.records@[i].name@ && r@[i].2@ == self.records@[i].shortened_uuid@,
    {
        let mut r: Vec<(Vec<u8>, Vec<u8>, Vec<u8>)> = Vec::new();
        let mut i: usize = 0;
        while i < self.records.len()
            invariant
                i <= self.records@.len(),
                r@.len() == i,
                forall|j: int|
                    0 <= j < i ==> (#[trigger] r@[j]).0@ == self.records@[j].uuid@ && r@[j].1@
                        == self.records@[j].name@ && r@[j].2@ == self.records@[j].shortened_uuid@,
            decreases self.records@.len() - i,
        {
            let rec = &self.records[i];
            r.push((rec.uuid.clone(), rec.name.clone(), rec.shortened_uuid.clone()));
            i = i + 1;
        }
        r
    }
}

} // verus!
