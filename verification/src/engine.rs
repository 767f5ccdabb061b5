//! Run execution engine.
//!
//! A run interprets a script into a plan, validates it, and executes it
//! against the enclave's registries, streaming an ordered event record of
//! everything that happened. Execution is scheduled in dependency-respecting
//! waves bounded by the run's parallelism; an idempotent instruction cache
//! lets an unchanged plan prefix be skipped instead of re-executed.
use vstd::prelude::*;
use crate::bytes::decimal_of;
use crate::chunk::DataChunk;
use crate::events::{EventLog, RunEvent, StarlarkError};
use crate::ident::LookupError;
use crate::schedule::{
    lemma_sum_take, lemma_sum_take_le, schedule_waves, scheduled_before, scheduled_somewhere,
    sum_sizes, wave_contains,
};
use crate::ident::{ambiguous_prefix, name_match_at, no_match, resolves_to, uuid_match_at};
use crate::chunk::{chain_ok, chunk_models, integrity_failure, oversize_failure, payload_of,
    sizes_ok};
use crate::script::{
    conflict, depends_on, interpret, is_add_of, is_remove_of, kinds_of, model_of, parse_script,
    plan_models, plan_valid, validate_plan, writes_of, Instruction, InstructionKind, KindModel,
};
use crate::service::{
    lemma_live_names_push, lemma_live_names_update, live_image_in, live_name_in, ServiceConfig,
    ServiceRegistry,
};
use crate::store::{ArtifactStore, UploadError};

verus! {

/// Restart policy of a run.
#[derive(Clone, Copy, PartialEq, Eq, Structural, Debug)]
pub enum RestartPolicy {
    Never,
    Always,
}

/// The stable wire-format name of a restart policy.
pub open spec fn restart_policy_name(p: RestartPolicy) -> Seq<char> {
    match p {
        RestartPolicy::Never => "NEVER"@,
        RestartPolicy::Always => "ALWAYS"@,
    }
}

impl RestartPolicy {
    /// String value of the enum field names used in the wire format.
    pub fn as_str_name(&self) -> (r: &'static str)
        ensures
            r@ == restart_policy_name(*self),
    {
        match self {
            RestartPolicy::Never => "NEVER",
            RestartPolicy::Always => "ALWAYS",
        }
    }

    /// The enum value of a wire-format field name, if any.
    pub fn from_str_name(value: &str) -> (r: Option<Self>)
        ensures
            r == (if value@ == restart_policy_name(RestartPolicy::Never) {
                Some(RestartPolicy::Never)
            } else if value@ == restart_policy_name(RestartPolicy::Always) {
                Some(RestartPolicy::Always)
            } else {
                None::<RestartPolicy>
            }),
    {
        if crate::text::str_matches(value, "NEVER") {
            Some(RestartPolicy::Never)
        } else if crate::text::str_matches(value, "ALWAYS") {
            Some(RestartPolicy::Always)
        } else {
            None
        }
    }
}

/// Bookkeeping about the most recent run of an enclave.
pub struct RunRecord {
    pub package_id: Vec<u8>,
    pub serialized_script: Vec<u8>,
    pub serialized_params: Vec<u8>,
    pub parallelism: usize,
    pub relative_path_to_main_file: Vec<u8>,
    pub main_function_name: Vec<u8>,
    pub no_instruction_caching: bool,
    pub restart_policy: RestartPolicy,
}

/// Options of one run.
pub struct RunOptions {
    /// Interpret and validate only; every instruction is skipped.
    pub dry_run: bool,
    /// How many independent instructions may execute concurrently.
    pub parallelism: usize,
    /// Disables the instruction cache: nothing is skipped.
    pub no_instruction_caching: bool,
}

/// The mutable state one enclave's runs operate against.
pub struct EnclaveState {
    pub services: ServiceRegistry,
    pub artifacts: ArtifactStore,
    pub packages: ArtifactStore,
    /// Instruction kinds of the last successfully executed plan.
    pub plan_cache: Vec<InstructionKind>,
    /// The most recent run, for later inspection.
    pub last_run: Option<RunRecord>,
}

impl EnclaveState {
    pub open spec fn wf(&self) -> bool {
        self.services.wf() && self.artifacts.wf() && self.packages.wf()
    }

    pub fn new() -> (s: Self)
        ensures
            s.wf(),
            s.services.records@.len() == 0,
            s.artifacts.records@.len() == 0,
            s.packages.records@.len() == 0,
            s.plan_cache@.len() == 0,
            s.last_run is None,
            s.services.next_id == 0,
            s.artifacts.next_id == 0,
            s.packages.next_id == 0,
    {
        EnclaveState {
            services: ServiceRegistry::new(),
            artifacts: ArtifactStore::new(),
            packages: ArtifactStore::new(),
            plan_cache: Vec::new(),
            last_run: None,
        }
    }
}

/// What one run produced: the interpreted plan, which instructions the cache
/// or a dry run skipped, and the ordered event stream.
pub struct RunOutcome {
    /// Whether the script parsed into a plan at all.
    pub interpreted: bool,
    pub plan: Vec<Instruction>,
    pub skipped: Vec<bool>,
    /// How many leading instructions matched the instruction cache.
    pub cached_prefix: usize,
    pub success: bool,
    pub log: EventLog,
}

/// The kind models of a cache.
pub open spec fn cache_models(cache: Seq<InstructionKind>) -> Seq<KindModel> {
    cache.map_values(|k: InstructionKind| model_of(k))
}

/// The event announces instruction `i`.
pub open spec fn is_instr_of(e: RunEvent, i: int) -> bool {
    e matches RunEvent::Instruction { index, .. } && index == i
}

/// The event reports the completion of instruction `i`.
pub open spec fn is_result_of(e: RunEvent, i: int) -> bool {
    e matches RunEvent::InstructionResult { index, .. } && index == i
}

/// Some event of the stream announces instruction `i`.
pub open spec fn has_instr(events: Seq<RunEvent>, i: int) -> bool {
    exists|p: int| 0 <= p < events.len() && is_instr_of(#[trigger] events[p], i)
}

/// Some event of the stream reports the completion of instruction `i`.
pub open spec fn has_result(events: Seq<RunEvent>, i: int) -> bool {
    exists|p: int| 0 <= p < events.len() && is_result_of(#[trigger] events[p], i)
}

/// No instruction is announced twice.
pub open spec fn instr_once(events: Seq<RunEvent>) -> bool {
    forall|p1: int, p2: int, b: int|
        #![trigger is_instr_of(events[p1], b), is_instr_of(events[p2], b)]
        0 <= p1 < events.len() && 0 <= p2 < events.len() && is_instr_of(events[p1], b)
            && is_instr_of(events[p2], b) ==> p1 == p2
}

/// The dependency order of the plan is visible in the stream: wherever an
/// instruction is announced, the completion of each of its dependencies
/// stands strictly earlier.
pub open spec fn deps_respected(events: Seq<RunEvent>, kinds: Seq<KindModel>) -> bool {
    forall|p1: int, b: int, a: int|
        #![trigger is_instr_of(events[p1], b), kinds[a]]
        0 <= p1 < events.len() && is_instr_of(events[p1], b) && depends_on(kinds, b, a) ==> exists|
            p2: int,
        | 0 <= p2 < p1 && is_result_of(#[trigger] events[p2], a)
}

/// Every announcement carries the skip flag the run decided for that
/// instruction.
pub open spec fn instr_flag_ok(e: RunEvent, skipped: Seq<bool>) -> bool {
    match e {
        RunEvent::Instruction { index, is_skipped } => 0 <= index < skipped.len() && is_skipped
            == skipped[index as int],
        _ => true,
    }
}

/// All announcements carry the right skip flags.
pub open spec fn flags_consistent(events: Seq<RunEvent>, skipped: Seq<bool>) -> bool {
    forall|p: int| 0 <= p < events.len() ==> instr_flag_ok(#[trigger] events[p], skipped)
}

/// Number of unskipped announcements in the stream: instructions started.
pub open spec fn unskipped_count(events: Seq<RunEvent>) -> int
    decreases events.len(),
{
    if events.len() == 0 {
        0
    } else {
        unskipped_count(events.drop_last()) + (match events.last() {
            RunEvent::Instruction { is_skipped, .. } => if is_skipped {
                0int
            } else {
                1int
            },
            _ => 0int,
        })
    }
}

/// Number of completions in the stream: instructions finished.
pub open spec fn result_count(events: Seq<RunEvent>) -> int
    decreases events.len(),
{
    if events.len() == 0 {
        0
    } else {
        result_count(events.drop_last()) + (match events.last() {
            RunEvent::InstructionResult { .. } => 1int,
            _ => 0int,
        })
    }
}

/// At most `p` instructions are ever in flight: in every prefix of the
/// stream, unskipped announcements exceed completions by at most `p`.
pub open spec fn in_flight_bounded(events: Seq<RunEvent>, p: int) -> bool {
    forall|q: int|
        0 <= q <= events.len() ==> unskipped_count(#[trigger] events.take(q)) - result_count(
            events.take(q),
        ) <= p
}

/// Appending an event keeps every prefix's in-flight count bounded,
/// provided the whole extended stream stays within the bound.
proof fn lemma_in_flight_push(events: Seq<RunEvent>, p: int, e: RunEvent)
    requires
        in_flight_bounded(events, p),
        unskipped_count(events) + (match e {
            RunEvent::Instruction { is_skipped, .. } => if is_skipped {
                0int
            } else {
                1int
            },
            _ => 0int,
        }) - result_count(events) - (match e {
            RunEvent::InstructionResult { .. } => 1int,
            _ => 0int,
        }) <= p,
    ensures
        in_flight_bounded(events.push(e), p),
        unskipped_count(events.push(e)) == unskipped_count(events) + (match e {
            RunEvent::Instruction { is_skipped, .. } => if is_skipped {
                0int
            } else {
                1int
            },
            _ => 0int,
        }),
        result_count(events.push(e)) == result_count(events) + (match e {
            RunEvent::InstructionResult { .. } => 1int,
            _ => 0int,
        }),
{
    let ev2 = events.push(e);
    assert(ev2.drop_last() =~= events);
    assert forall|q: int|
        0 <= q <= ev2.len() implies unskipped_count(#[trigger] ev2.take(q)) - result_count(
        ev2.take(q),
    ) <= p by {
        if q <= events.len() {
            assert(ev2.take(q) =~= events.take(q));
        } else {
            assert(ev2.take(q) =~= ev2);
        }
    }
}

/// Instruction `k` is an AddService of `n` running `img` that no later
/// instruction removes: a successful run must leave `n` live with `img`.
pub open spec fn add_settled(kinds: Seq<KindModel>, k: int, n: Seq<u8>, img: Seq<u8>) -> bool {
    &&& 0 <= k < kinds.len()
    &&& kinds[k] == (KindModel::AddService { service_name: n, image: img })
    &&& forall|m: int| k < m < kinds.len() ==> !is_remove_of(#[trigger] kinds[m], n)
}

/// Instruction `k` is a RemoveService of `n` that no later instruction
/// re-adds: a successful run must leave `n` not live.
pub open spec fn remove_settled(kinds: Seq<KindModel>, k: int, n: Seq<u8>) -> bool {
    &&& 0 <= k < kinds.len()
    &&& kinds[k] == (KindModel::RemoveService { service_name: n })
    &&& forall|m: int| k < m < kinds.len() ==> !is_add_of(#[trigger] kinds[m], n)
}

/// Appending an event preserves the stream's ordering disciplines, provided
/// a new announcement is of a not-yet-announced instruction whose
/// dependencies have all completed.
proof fn lemma_stream_push(
    events: Seq<RunEvent>,
    kinds: Seq<KindModel>,
    skipped: Seq<bool>,
    e: RunEvent,
)
    requires
        deps_respected(events, kinds),
        instr_once(events),
        flags_consistent(events, skipped),
        instr_flag_ok(e, skipped),
        forall|b: int| #[trigger] is_instr_of(e, b) ==> !has_instr(events, b),
        forall|b: int, a: int|
            #![trigger is_instr_of(e, b), kinds[a]]
            is_instr_of(e, b) && depends_on(kinds, b, a) ==> has_result(events, a),
    ensures
        deps_respected(events.push(e), kinds),
        instr_once(events.push(e)),
        flags_consistent(events.push(e), skipped),
        forall|i: int| has_result(events, i) ==> has_result(events.push(e), i),
        forall|i: int| has_instr(events, i) ==> has_instr(events.push(e), i),
        forall|i: int| is_result_of(e, i) ==> has_result(events.push(e), i),
        forall|i: int| is_instr_of(e, i) ==> has_instr(events.push(e), i),
        forall|i: int|
            #[trigger] has_instr(events.push(e), i) ==> has_instr(events, i) || is_instr_of(e, i),
        forall|i: int|
            #[trigger] has_result(events.push(e), i) ==> has_result(events, i) || is_result_of(
                e,
                i,
            ),
{
    let ev2 = events.push(e);
    let le = events.len() as int;
    assert forall|p1: int, b: int, a: int|
        #![trigger is_instr_of(ev2[p1], b), kinds[a]]
        0 <= p1 < ev2.len() && is_instr_of(ev2[p1], b) && depends_on(
        kinds,
        b,
        a,
    ) implies exists|p2: int| 0 <= p2 < p1 && is_result_of(#[trigger] ev2[p2], a) by {
        if p1 < le {
            assert(ev2[p1] == events[p1]);
            assert(is_instr_of(events[p1], b));
            let p2 = choose|p2: int| 0 <= p2 < p1 && is_result_of(#[trigger] events[p2], a);
            assert(ev2[p2] == events[p2]);
            assert(is_result_of(ev2[p2], a));
        } else {
            assert(ev2[p1] == e);
            assert(is_instr_of(e, b));
            assert(has_result(events, a));
            let p2 = choose|p2: int| 0 <= p2 < le && is_result_of(#[trigger] events[p2], a);
            assert(ev2[p2] == events[p2]);
            assert(is_result_of(ev2[p2], a));
        }
    }
    assert(deps_respected(ev2, kinds));
    assert forall|p1: int, p2: int, b: int|
        #![trigger is_instr_of(ev2[p1], b), is_instr_of(ev2[p2], b)]
        0 <= p1 < ev2.len() && 0 <= p2 < ev2.len() && is_instr_of(ev2[p1], b) && is_instr_of(
        ev2[p2],
        b,
    ) implies p1 == p2 by {
        if p1 < le && p2 < le {
            assert(is_instr_of(events[p1], b) && is_instr_of(events[p2], b));
        } else if p1 == le && p2 < le {
            assert(ev2[p1] == e);
            assert(is_instr_of(events[p2], b));
            assert(has_instr(events, b));
        } else if p2 == le && p1 < le {
            assert(ev2[p2] == e);
            assert(is_instr_of(events[p1], b));
            assert(has_instr(events, b));
        }
    }
    assert(instr_once(ev2));
    assert forall|p: int| 0 <= p < ev2.len() implies instr_flag_ok(#[trigger] ev2[p], skipped) by {
        if p < le {
            assert(ev2[p] == events[p]);
            assert(instr_flag_ok(events[p], skipped));
        } else {
            assert(ev2[p] == e);
        }
    }
    assert forall|i: int| has_result(events, i) implies has_result(ev2, i) by {
        let p = choose|p: int| 0 <= p < le && is_result_of(#[trigger] events[p], i);
        assert(is_result_of(ev2[p], i));
    }
    assert forall|i: int| has_instr(events, i) implies has_instr(ev2, i) by {
        let p = choose|p: int| 0 <= p < le && is_instr_of(#[trigger] events[p], i);
        assert(is_instr_of(ev2[p], i));
    }
    assert forall|i: int| is_result_of(e, i) implies has_result(ev2, i) by {
        assert(is_result_of(ev2[le], i));
    }
    assert forall|i: int| is_instr_of(e, i) implies has_instr(ev2, i) by {
        assert(is_instr_of(ev2[le], i));
    }
    assert forall|i: int| #[trigger]
        has_instr(ev2, i) implies has_instr(events, i) || is_instr_of(e, i) by {
        let p = choose|p: int| 0 <= p < ev2.len() && is_instr_of(#[trigger] ev2[p], i);
        if p < le {
            assert(is_instr_of(events[p], i));
        } else {
            assert(ev2[p] == e);
        }
    }
    assert forall|i: int| #[trigger]
        has_result(ev2, i) implies has_result(events, i) || is_result_of(e, i) by {
        let p = choose|p: int| 0 <= p < ev2.len() && is_result_of(#[trigger] ev2[p], i);
        if p < le {
            assert(is_result_of(events[p], i));
        } else {
            assert(ev2[p] == e);
        }
    }
}

/// Every name of `names` is borne by a live record of `recs`.
pub open spec fn all_live(recs: Seq<crate::service::ServiceRecord>, names: Seq<Seq<u8>>) -> bool {
    forall|x: int| 0 <= x < names.len() ==> live_name_in(recs, #[trigger] names[x])
}

/// An instruction occupying the current slot cannot be a dependency of one
/// scheduled strictly before it: the dependency would have to stand in an
/// earlier wave than itself.
proof fn lemma_conflicting_slots(
    waves: Seq<Vec<usize>>,
    kinds: Seq<KindModel>,
    s: int,
    w: int,
    p: int,
    idx: int,
    k2: int,
)
    requires
        forall|w1: int, p1: int, w2: int, p2: int|
            #![trigger (waves[w1])@[p1], (waves[w2])@[p2]]
            0 <= w1 < waves.len() && 0 <= p1 < (waves[w1])@.len() && 0 <= w2 < waves.len() && 0
                <= p2 < (waves[w2])@.len() && (waves[w1])@[p1] == (waves[w2])@[p2] ==> w1 == w2
                && p1 == p2,
        forall|w1: int, p1: int, i: int|
            #![trigger (waves[w1])@[p1], kinds[i]]
            0 <= w1 < waves.len() && 0 <= p1 < (waves[w1])@.len() && depends_on(
                kinds,
                (waves[w1])@[p1] as int,
                i,
            ) && s <= i ==> scheduled_before(waves, w1, i),
        0 <= w < waves.len(),
        0 <= p < (waves[w])@.len(),
        (waves[w])@[p] == idx,
        s <= idx,
        scheduled_before(waves, w, k2) || (exists|q: int| 0 <= q < p && (waves[w])@[q] == k2),
    ensures
        !depends_on(kinds, k2, idx),
{
    if depends_on(kinds, k2, idx) {
        if scheduled_before(waves, w, k2) {
            let w2 = choose|w2: int| 0 <= w2 < w && wave_contains(waves, w2, k2);
            let q2 = choose|q2: int| 0 <= q2 < (waves[w2])@.len() && (waves[w2])@[q2] == k2;
            assert(depends_on(kinds, (waves[w2])@[q2] as int, idx));
            assert(scheduled_before(waves, w2, idx));
            let w3 = choose|w3: int| 0 <= w3 < w2 && wave_contains(waves, w3, idx);
            let q3 = choose|q3: int| 0 <= q3 < (waves[w3])@.len() && (waves[w3])@[q3] == idx;
            assert((waves[w3])@[q3] == (waves[w])@[p]);
            assert(w3 == w);
        } else {
            let q = choose|q: int| 0 <= q < p && (waves[w])@[q] == k2;
            assert(depends_on(kinds, (waves[w])@[q] as int, idx));
            assert(scheduled_before(waves, w, idx));
            let w3 = choose|w3: int| 0 <= w3 < w && wave_contains(waves, w3, idx);
            let q3 = choose|q3: int| 0 <= q3 < (waves[w3])@.len() && (waves[w3])@[q3] == idx;
            assert((waves[w3])@[q3] == (waves[w])@[p]);
            assert(w3 == w);
        }
    }
}

/// Length of the longest common prefix of the cached kinds and the plan.
fn common_prefix(cache: &Vec<InstructionKind>, plan: &Vec<Instruction>) -> (l: usize)
    ensures
        l <= cache@.len() && l <= plan@.len(),
        forall|i: int| 0 <= i < l ==> cache_models(cache@)[i] == kinds_of(plan@)[i],
        l < cache@.len() && l < plan@.len() ==> cache_models(cache@)[l as int] != kinds_of(
            plan@,
        )[l as int],
{
    let mut l: usize = 0;
    while l < cache.len() && l < plan.len()
        invariant
            l <= cache@.len() && l <= plan@.len(),
            forall|i: int| 0 <= i < l ==> cache_models(cache@)[i] == kinds_of(plan@)[i],
        decreases cache@.len() - l,
    {
        proof {
            assert(cache_models(cache@)[l as int] == model_of(cache@[l as int]));
            assert(kinds_of(plan@)[l as int] == model_of(plan@[l as int].kind));
        }
        if !crate::script::kind_eq(&cache[l], &plan[l].kind) {
            return l;
        }
        l = l + 1;
    }
    l
}

fn clone_names(names: &Vec<Vec<u8>>) -> (r: Vec<Vec<u8>>)
    ensures
        r@.map_values(|n: Vec<u8>| n@) == names@.map_values(|n: Vec<u8>| n@),
{
    let mut r: Vec<Vec<u8>> = Vec::new();
    let mut i: usize = 0;
    while i < names.len()
        invariant
            i <= names@.len(),
            r@.len() == i,
            forall|j: int| 0 <= j < i ==> (#[trigger] r@[j])@ == names@[j]@,
        decreases names@.len() - i,
    {
        r.push(names[i].clone());
        i = i + 1;
    }
    proof {
        assert(r@.map_values(|n: Vec<u8>| n@) =~= names@.map_values(|n: Vec<u8>| n@));
    }
    r
}

fn kind_clone(k: &InstructionKind) -> (r: InstructionKind)
    ensures
        model_of(r) == model_of(*k),
{
    match k {
        InstructionKind::AddService { service_name, image } => InstructionKind::AddService {
            service_name: service_name.clone(),
            image: image.clone(),
        },
        InstructionKind::RemoveService { service_name } => InstructionKind::RemoveService {
            service_name: service_name.clone(),
        },
        InstructionKind::Wait { service_names } => InstructionKind::Wait {
            service_names: clone_names(service_names),
        },
    }
}

fn kinds_clone(plan: &Vec<Instruction>) -> (r: Vec<InstructionKind>)
    ensures
        cache_models(r@) == kinds_of(plan@),
{
    let mut r: Vec<InstructionKind> = Vec::new();
    let mut i: usize = 0;
    while i < plan.len()
        invariant
            i <= plan@.len(),
            r@.len() == i,
            forall|j: int| 0 <= j < i ==> model_of(#[trigger] r@[j]) == model_of(plan@[j].kind),
        decreases plan@.len() - i,
    {
        r.push(kind_clone(&plan[i].kind));
        i = i + 1;
    }
    proof {
        assert(cache_models(r@) =~= kinds_of(plan@));
    }
    r
}

/// Perform the real side effect of one instruction against the service
/// registry. Instructions are idempotent by design: adding a service that is
/// already live with the same image, or removing an absent one, succeeds
/// without changing anything, so a cache-disabled re-run converges.
#[verifier::rlimit(50)]
fn exec_instruction(services: &mut ServiceRegistry, kind: &InstructionKind) -> (r: Result<
    Vec<u8>,
    Vec<u8>,
>)
    requires
        old(services).wf(),
        old(services).next_id < u64::MAX,
    ensures
        final(services).wf(),
        final(services).next_id <= old(services).next_id + 1,
        r is Err ==> *final(services) == *old(services),
        model_of(*kind) matches KindModel::AddService { service_name, image } ==> (r is Ok <==> (
        !live_name_in(old(services).records@, service_name) || live_image_in(
            old(services).records@,
            service_name,
            image,
        ))),
        model_of(*kind) matches KindModel::AddService { service_name, image } ==> (r is Ok
            ==> live_image_in(final(services).records@, service_name, image)),
        model_of(*kind) matches KindModel::RemoveService { service_name } ==> r is Ok
            && !live_name_in(final(services).records@, service_name),
        model_of(*kind) matches KindModel::Wait { .. } ==> *final(services) == *old(services),
        model_of(*kind) matches KindModel::Wait { service_names } ==> (r is Ok <==> all_live(
            old(services).records@,
            service_names,
        )),
        forall|n2: Seq<u8>|
            !writes_of(model_of(*kind)).contains(n2) ==> (#[trigger] live_name_in(
                final(services).records@,
                n2,
            ) <==> live_name_in(old(services).records@, n2)),
        forall|n2: Seq<u8>, img2: Seq<u8>|
            !writes_of(model_of(*kind)).contains(n2) ==> (#[trigger] live_image_in(
                final(services).records@,
                n2,
                img2,
            ) <==> live_image_in(old(services).records@, n2, img2)),
{
    match kind {
        InstructionKind::AddService { service_name, image } => {
            match services.find_live_by_name(service_name) {
                Some(i) => {
                    if crate::bytes::bytes_eq(&services.records[i].config.image, image) {
                        proof {
                            assert(live_image_in(services.records@, service_name@, image@));
                        }
                        Ok(services.records[i].uuid.clone())
                    } else {
                        proof {
                            // The found record is the only live one with this
                            // name, so no live record carries the image.
                            assert forall|j: int|
                                !(0 <= j < services.records@.len() && (
                                #[trigger] services.records@[j]).live
                                    && services.records@[j].name@ == service_name@
                                    && services.records@[j].config.image@ == image@) by {
                                if 0 <= j < services.records@.len() && services.records@[j].live
                                    && services.records@[j].name@ == service_name@ && j != i {
                                    assert(services.records@[i as int].live);
                                }
                            }
                        }
                        Err(service_name.clone())
                    }
                },
                None => {
                    let config = ServiceConfig {
                        image: image.clone(),
                        private_ports: Vec::new(),
                        entrypoint_args: Vec::new(),
                        cmd_args: Vec::new(),
                        env_vars: Vec::new(),
                    };
                    match services.add_service(service_name.clone(), config) {
                        Ok(idx) => {
                            proof {
                                assert(services.records@.last().live);
                                assert(live_image_in(
                                    services.records@,
                                    service_name@,
                                    image@,
                                ));
                                lemma_live_names_push(
                                    old(services).records@,
                                    services.records@,
                                    service_name@,
                                );
                                assert forall|n2: Seq<u8>|
                                    !writes_of(model_of(*kind)).contains(n2) implies n2
                                    != service_name@ by {
                                    assert(writes_of(model_of(*kind))[0] == service_name@);
                                }
                            }
                            Ok(services.records[idx].uuid.clone())
                        },
                        Err(_) => vstd::pervasive::unreached(),
                    }
                },
            }
        },
        InstructionKind::RemoveService { service_name } => {
            match services.remove_by_name(service_name) {
                Some(u) => {
                    proof {
                        let i = choose|i: int|
                            {
                                &&& 0 <= i < old(services).records@.len()
                                &&& old(services).records@[i].live
                                &&& old(services).records@[i].name@ == service_name@
                                &&& u@ == old(services).records@[i].uuid@
                                &&& !services.records@[i].live
                                &&& services.records@[i].status == crate::service::ServiceStatus::Stopped
                                &&& services.records@[i].uuid == old(services).records@[i].uuid
                                &&& services.records@[i].name == old(services).records@[i].name
                                &&& services.records@[i].shortened_uuid == old(
                                    services,
                                ).records@[i].shortened_uuid
                                &&& services.records@[i].id == old(services).records@[i].id
                                &&& forall|j: int|
                                    0 <= j < old(services).records@.len() && j != i
                                        ==> services.records@[j] == old(services).records@[j]
                            };
                        lemma_live_names_update(
                            old(services).records@,
                            services.records@,
                            i,
                            service_name@,
                        );
                        assert forall|n2: Seq<u8>|
                            !writes_of(model_of(*kind)).contains(n2) implies n2
                            != service_name@ by {
                            assert(writes_of(model_of(*kind))[0] == service_name@);
                        }
                    }
                    Ok(u)
                },
                None => Ok(Vec::new()),
            }
        },
        InstructionKind::Wait { service_names } => {
            let r0 = wait_all(services, service_names);
            proof {
                let models = service_names@.map_values(|n: Vec<u8>| n@);
                assert(*services == *old(services));
                assert(model_of(*kind) == (KindModel::Wait { service_names: models }));
                if r0 is Ok {
                    assert(all_live(services.records@, models));
                    assert(all_live(old(services).records@, models));
                } else {
                    assert(!all_live(services.records@, models));
                    assert(!all_live(old(services).records@, models));
                }
            }
            match r0 {
                Ok(()) => Ok(Vec::new()),
                Err(n) => Err(n),
            }
        },
    }
}

/// Execute a validated-or-rejected plan against the enclave state,
/// producing the single ordered event stream of the run.
///
/// Interpretation errors are the caller's concern; this function starts
/// from a plan. An invalid plan is rejected before execution with zero side
/// effects. A dry run skips every instruction; otherwise the instruction
/// cache lets the unchanged leading prefix of the plan be skipped, and the
/// remainder executes in dependency-respecting waves bounded by the run's
/// parallelism. The terminal event appears exactly once, last; wherever an
/// instruction is announced, every dependency's completion stands earlier
/// in the stream.
#[verifier::loop_isolation(false)]
#[verifier::rlimit(100)]
pub fn run_plan(state: &mut EnclaveState, plan: Vec<Instruction>, opts: &RunOptions) -> (out:
    RunOutcome)
    requires
        old(state).wf(),
        opts.parallelism >= 1,
        old(state).services.next_id + plan@.len() < u64::MAX,
    ensures
        final(state).wf(),
        final(state).artifacts == old(state).artifacts,
        final(state).packages == old(state).packages,
        final(state).last_run == old(state).last_run,
        out.interpreted,
        out.plan == plan,
        out.log.wf(),
        out.log.finished,
        out.log.events@.last() matches RunEvent::RunFinishedEvent { is_run_successful, .. }
            && is_run_successful == out.success,
        out.skipped@.len() == plan@.len(),
        out.success ==> plan_valid(kinds_of(plan@)),
        !out.success ==> out.log.events@.len() >= 2 && out.log.events@[out.log.events@.len() - 2]
            is Error,
        !plan_valid(kinds_of(plan@)) ==> *final(state) == *old(state) && !out.success
            && out.log.events@.len() == 2 && (out.log.events@[0] matches RunEvent::Error { error }
            && error is ValidationError),
        !plan_valid(kinds_of(plan@)) ==> (forall|b: int| !has_instr(out.log.events@, b)),
        plan_valid(kinds_of(plan@)) && !out.success ==> out.log.events@.len() >= 2 && (
        out.log.events@[out.log.events@.len() - 2] matches RunEvent::Error { error } && error
            is ExecutionError),
        plan_valid(kinds_of(plan@)) && !out.success ==> (exists|b: int|
            0 <= b < plan@.len() && !out.skipped@[b] && #[trigger] has_instr(out.log.events@, b)),
        out.success ==> (forall|k: int|
            0 <= k < plan@.len() ==> #[trigger] has_instr(out.log.events@, k)),
        out.success ==> (forall|k: int, n2: Seq<u8>, img2: Seq<u8>|
            #![trigger add_settled(kinds_of(plan@), k, n2, img2)]
            add_settled(kinds_of(plan@), k, n2, img2) && !out.skipped@[k] ==> live_image_in(
                final(state).services.records@,
                n2,
                img2,
            )),
        out.success ==> (forall|k: int, n2: Seq<u8>|
            #![trigger remove_settled(kinds_of(plan@), k, n2)]
            remove_settled(kinds_of(plan@), k, n2) && !out.skipped@[k] ==> !live_name_in(
                final(state).services.records@,
                n2,
            )),
        plan_valid(kinds_of(plan@)) && (forall|k: int|
            0 <= k < plan@.len() ==> !((#[trigger] kinds_of(plan@)[k]) is Wait)) && (forall|
            k: int,
            n2: Seq<u8>,
        |
            #![trigger is_add_of(kinds_of(plan@)[k], n2)]
            0 <= k < plan@.len() && is_add_of(kinds_of(plan@)[k], n2) ==> !live_name_in(
                old(state).services.records@,
                n2,
            )) ==> out.success,
        plan_valid(kinds_of(plan@)) ==> (forall|n2: Seq<u8>|
            #[trigger] live_name_in(final(state).services.records@, n2) ==> live_name_in(
                old(state).services.records@,
                n2,
            ) || (exists|k: int|
                0 <= k < plan@.len() && !out.skipped@[k] && is_add_of(
                    #[trigger] kinds_of(plan@)[k],
                    n2,
                ) && has_result(out.log.events@, k))),
        plan_valid(kinds_of(plan@)) ==> out.cached_prefix <= old(state).plan_cache@.len()
            && out.cached_prefix <= plan@.len(),
        plan_valid(kinds_of(plan@)) ==> (forall|i: int|
            0 <= i < out.cached_prefix ==> cache_models(old(state).plan_cache@)[i] == kinds_of(
                plan@,
            )[i]),
        plan_valid(kinds_of(plan@)) && out.cached_prefix < old(state).plan_cache@.len()
            && out.cached_prefix < plan@.len() ==> cache_models(
            old(state).plan_cache@,
        )[out.cached_prefix as int] != kinds_of(plan@)[out.cached_prefix as int],
        plan_valid(kinds_of(plan@)) ==> (forall|k: int|
            0 <= k < plan@.len() ==> out.skipped@[k] == (opts.dry_run || (
            !opts.no_instruction_caching && k < out.cached_prefix))),
        !plan_valid(kinds_of(plan@)) ==> (forall|k: int| 0 <= k < plan@.len() ==> !out.skipped@[k]),
        plan_valid(kinds_of(plan@)) && opts.dry_run ==> final(state).services == old(state).services
            && final(state).plan_cache == old(state).plan_cache && out.success,
        plan_valid(kinds_of(plan@)) && !opts.dry_run && !opts.no_instruction_caching
            && out.cached_prefix == plan@.len() ==> final(state).services == old(state).services
            && out.success,
        out.success && !opts.dry_run ==> cache_models(final(state).plan_cache@) == kinds_of(plan@),
        !(out.success && !opts.dry_run) ==> final(state).plan_cache == old(state).plan_cache,
        deps_respected(out.log.events@, kinds_of(plan@)),
        instr_once(out.log.events@),
        flags_consistent(out.log.events@, out.skipped@),
        in_flight_bounded(out.log.events@, opts.parallelism as int),
{
    let ghost kinds = kinds_of(plan@);
    let n = plan.len();
    let mut log = EventLog::new();
    proof {
        assert forall|q: int|
            0 <= q <= log.events@.len() implies unskipped_count(
            #[trigger] log.events@.take(q),
        ) - result_count(log.events@.take(q)) <= opts.parallelism as int by {
            assert(log.events@.take(q) =~= log.events@);
        }
    }
    let mut skipped: Vec<bool> = Vec::new();
    match validate_plan(&plan) {
        Err(f) => {
            let mut k: usize = 0;
            while k < n
                invariant
                    k <= n,
                    skipped@.len() == k,
                    forall|j: int| 0 <= j < k ==> !skipped@[j],
                decreases n - k,
            {
                skipped.push(false);
                k = k + 1;
            }
            let e1 = RunEvent::Error {
                error: StarlarkError::ValidationError { message: decimal_of(f.line) },
            };
            proof {
                lemma_stream_push(log.events@, kinds, skipped@, e1);
                lemma_in_flight_push(log.events@, opts.parallelism as int, e1);
            }
            log.emit(e1);
            proof {
                lemma_stream_push(
                    log.events@,
                    kinds,
                    skipped@,
                    RunEvent::RunFinishedEvent { is_run_successful: false, serialized_output: None },
                );
                lemma_in_flight_push(
                    log.events@,
                    opts.parallelism as int,
                    RunEvent::RunFinishedEvent { is_run_successful: false, serialized_output: None },
                );
            }
            log.finish(false, None);
            proof {
                assert forall|b: int| !has_instr(log.events@, b) by {
                    if has_instr(log.events@, b) {
                        let p = choose|p: int|
                            0 <= p < log.events@.len() && is_instr_of(
                                #[trigger] log.events@[p],
                                b,
                            );
                        assert(log.events@.len() == 2);
                        assert(!is_instr_of(log.events@[0], b));
                        assert(!is_instr_of(log.events@[1], b));
                    }
                }
            }
            proof {
                assert forall|n2: Seq<u8>| #[trigger]
                    live_name_in(state.services.records@, n2) implies live_name_in(
                    old(state).services.records@,
                    n2,
                ) by {
                    assert(state.services.records@ == old(state).services.records@);
                }
            }
            return RunOutcome { interpreted: true, plan, skipped, cached_prefix: 0, success: false, log };
        },
        Ok(()) => {},
    }
    let cpl = common_prefix(&state.plan_cache, &plan);
    let s: usize = if opts.dry_run {
        n
    } else if opts.no_instruction_caching {
        0
    } else {
        cpl
    };
    let mut k: usize = 0;
    while k < n
        invariant
            k <= n,
            skipped@.len() == k,
            forall|j: int| 0 <= j < k ==> skipped@[j] == (j < s),
        decreases n - k,
    {
        skipped.push(k < s);
        k = k + 1;
    }
    let e0 = RunEvent::ProgressInfo { current_step: 0, total_steps: n };
    proof {
        lemma_stream_push(log.events@, kinds, skipped@, e0);
        lemma_in_flight_push(log.events@, opts.parallelism as int, e0);
    }
    log.emit(e0);
    // Announce the cache- or dry-run-skipped prefix, completing each
    // instruction without side effects.
    let mut k: usize = 0;
    while k < s
        invariant
            k <= s,
            log.wf(),
            !log.finished,
            deps_respected(log.events@, kinds),
            instr_once(log.events@),
            flags_consistent(log.events@, skipped@),
            forall|i: int| 0 <= i < k ==> #[trigger] has_result(log.events@, i),
            forall|i: int| 0 <= i < k ==> #[trigger] has_instr(log.events@, i),
            in_flight_bounded(log.events@, opts.parallelism as int),
            unskipped_count(log.events@) - result_count(log.events@) == -(k as int),
            forall|b: int| #[trigger] has_instr(log.events@, b) ==> 0 <= b < k,
            forall|b: int| #[trigger] has_result(log.events@, b) ==> 0 <= b < k,
        decreases s - k,
    {
        let ghost pre = log.events@;
        let e1 = RunEvent::Instruction { index: k, is_skipped: true };
        proof {
            assert forall|b: int, a: int|
                #![trigger is_instr_of(e1, b), kinds[a]]
                is_instr_of(e1, b) && depends_on(kinds, b, a) implies has_result(pre, a) by {
                assert(b == k as int);
                assert(0 <= a < k);
            }
            lemma_stream_push(pre, kinds, skipped@, e1);
            lemma_in_flight_push(pre, opts.parallelism as int, e1);
        }
        log.emit(e1);
        let ghost pre2 = log.events@;
        let e2 = RunEvent::InstructionResult { index: k, serialized_result: Vec::new() };
        proof {
            lemma_stream_push(pre2, kinds, skipped@, e2);
            lemma_in_flight_push(pre2, opts.parallelism as int, e2);
        }
        log.emit(e2);
        k = k + 1;
        proof {
            assert(is_result_of(e2, k - 1));
            assert(has_result(log.events@, k - 1));
            assert forall|i: int| 0 <= i < k implies #[trigger] has_result(log.events@, i) by {
                if i < k - 1 {
                    assert(has_result(pre, i));
                    assert(has_result(pre2, i));
                }
            }
            assert forall|i: int| 0 <= i < k implies #[trigger] has_instr(log.events@, i) by {
                if i < k - 1 {
                    assert(has_instr(pre, i));
                    assert(has_instr(pre2, i));
                } else {
                    assert(is_instr_of(e1, i));
                    assert(has_instr(pre2, i));
                }
            }
        }
    }
    // Execute the remainder in dependency-respecting waves.
    let waves = schedule_waves(&plan, s, opts.parallelism);
    let ghost mut done: int = 0;
    let mut w: usize = 0;
    while w < waves.len()
        invariant
            w <= waves@.len(),
            log.wf(),
            !log.finished,
            deps_respected(log.events@, kinds),
            instr_once(log.events@),
            flags_consistent(log.events@, skipped@),
            forall|b: int|
                #[trigger] has_instr(log.events@, b) ==> 0 <= b < s || scheduled_before(
                    waves@,
                    w as int,
                    b,
                ),
            forall|b: int|
                #[trigger] has_result(log.events@, b) ==> 0 <= b < s || scheduled_before(
                    waves@,
                    w as int,
                    b,
                ),
            forall|b: int| 0 <= b < s ==> #[trigger] has_result(log.events@, b),
            forall|b: int|
                #[trigger] scheduled_before(waves@, w as int, b) ==> has_result(log.events@, b),
            forall|b: int| 0 <= b < s ==> #[trigger] has_instr(log.events@, b),
            forall|b: int|
                #[trigger] scheduled_before(waves@, w as int, b) ==> has_instr(log.events@, b),
            in_flight_bounded(log.events@, opts.parallelism as int),
            unskipped_count(log.events@) - result_count(log.events@) == -(s as int),
            forall|k2: int, n2: Seq<u8>, img2: Seq<u8>|
                #![trigger add_settled(kinds, k2, n2, img2)]
                add_settled(kinds, k2, n2, img2) && s <= k2 && scheduled_before(
                    waves@,
                    w as int,
                    k2,
                ) ==> live_image_in(state.services.records@, n2, img2),
            forall|k2: int, n2: Seq<u8>|
                #![trigger remove_settled(kinds, k2, n2)]
                remove_settled(kinds, k2, n2) && s <= k2 && scheduled_before(waves@, w as int, k2)
                    ==> !live_name_in(state.services.records@, n2),
            forall|n2: Seq<u8>|
                #![trigger live_name_in(state.services.records@, n2)]
                live_name_in(state.services.records@, n2) ==> live_name_in(
                    old(state).services.records@,
                    n2,
                ) || (exists|k2: int|
                    s <= k2 < n && scheduled_before(waves@, w as int, k2) && is_add_of(
                        #[trigger] kinds[k2],
                        n2,
                    )),
            state.services.wf(),
            state.artifacts == old(state).artifacts,
            state.packages == old(state).packages,
            state.plan_cache == old(state).plan_cache,
            state.last_run == old(state).last_run,
            done == sum_sizes(waves@.take(w as int)),
            state.services.next_id <= old(state).services.next_id + done,
            s == n ==> state.services == old(state).services,
        decreases waves@.len() - w,
    {
        let wave_len = waves[w].len();
        // Announce the wave.
        let mut p: usize = 0;
        while p < wave_len
            invariant
                p <= wave_len,
                w < waves@.len(),
                wave_len == waves@[w as int]@.len(),
                log.wf(),
                !log.finished,
                deps_respected(log.events@, kinds),
                instr_once(log.events@),
                flags_consistent(log.events@, skipped@),
                forall|b: int|
                    #[trigger] has_instr(log.events@, b) ==> 0 <= b < s || scheduled_before(
                        waves@,
                        w as int,
                        b,
                    ) || (exists|q: int| 0 <= q < p && (waves@[w as int])@[q] == b),
                forall|b: int|
                    #[trigger] has_result(log.events@, b) ==> 0 <= b < s || scheduled_before(
                        waves@,
                        w as int,
                        b,
                    ),
                forall|b: int| 0 <= b < s ==> #[trigger] has_result(log.events@, b),
                forall|b: int|
                    #[trigger] scheduled_before(waves@, w as int, b) ==> has_result(log.events@, b),
                forall|b: int| 0 <= b < s ==> #[trigger] has_instr(log.events@, b),
                forall|b: int|
                    #[trigger] scheduled_before(waves@, w as int, b) ==> has_instr(log.events@, b),
                in_flight_bounded(log.events@, opts.parallelism as int),
                unskipped_count(log.events@) - result_count(log.events@) == p as int - (s as int),
                forall|q: int|
                    0 <= q < p ==> #[trigger] has_instr(
                        log.events@,
                        (waves@[w as int])@[q] as int,
                    ),
            decreases wave_len - p,
        {
            let idx = waves[w][p];
            let ghost pre = log.events@;
            let e1 = RunEvent::Instruction { index: idx, is_skipped: false };
            proof {
                assert(s <= idx < n);
                assert forall|b: int| #[trigger] is_instr_of(e1, b) implies !has_instr(pre, b) by {
                    assert(b == idx as int);
                    if has_instr(pre, b) {
                        if scheduled_before(waves@, w as int, b) {
                            let w2 = choose|w2: int|
                                0 <= w2 < w && wave_contains(waves@, w2, b);
                            let q2 = choose|q2: int|
                                0 <= q2 < (waves@[w2])@.len() && (waves@[w2])@[q2] == b;
                            assert((waves@[w2])@[q2] == (waves@[w as int])@[p as int]);
                        } else {
                            let q = choose|q: int|
                                0 <= q < p && (waves@[w as int])@[q] == b;
                            assert((waves@[w as int])@[q] == (waves@[w as int])@[p as int]);
                        }
                    }
                }
                assert forall|b: int, a: int|
                    #![trigger is_instr_of(e1, b), kinds[a]]
                    is_instr_of(e1, b) && depends_on(kinds, b, a) implies has_result(pre, a) by {
                    assert(b == idx as int);
                    if a >= s {
                        assert(scheduled_before(waves@, w as int, a));
                    }
                }
                lemma_stream_push(pre, kinds, skipped@, e1);
                assert(1 <= (waves@[w as int])@.len() <= opts.parallelism);
                lemma_in_flight_push(pre, opts.parallelism as int, e1);
            }
            log.emit(e1);
            proof {
                assert forall|b: int| 0 <= b < s implies #[trigger] has_result(
                    log.events@,
                    b,
                ) by {
                    assert(has_result(pre, b));
                }
                assert forall|b: int|
                    #[trigger] scheduled_before(waves@, w as int, b) implies has_result(
                    log.events@,
                    b,
                ) by {
                    assert(has_result(pre, b));
                }
                assert forall|q: int| 0 <= q < p + 1 implies #[trigger] has_instr(
                    log.events@,
                    (waves@[w as int])@[q] as int,
                ) by {
                    if q < p {
                        assert(has_instr(pre, (waves@[w as int])@[q] as int));
                    } else {
                        assert(is_instr_of(e1, idx as int));
                    }
                }
                assert forall|b: int| 0 <= b < s implies #[trigger] has_instr(
                    log.events@,
                    b,
                ) by {
                    assert(has_instr(pre, b));
                }
                assert forall|b: int|
                    #[trigger] scheduled_before(waves@, w as int, b) implies has_instr(
                    log.events@,
                    b,
                ) by {
                    assert(has_instr(pre, b));
                }
            }
            p = p + 1;
        }
        // Execute the wave, publishing each completion.
        let mut p: usize = 0;
        while p < wave_len
            invariant
                p <= wave_len,
                w < waves@.len(),
                wave_len == waves@[w as int]@.len(),
                log.wf(),
                !log.finished,
                deps_respected(log.events@, kinds),
                instr_once(log.events@),
                flags_consistent(log.events@, skipped@),
                forall|b: int|
                    #[trigger] has_instr(log.events@, b) ==> 0 <= b < s || scheduled_before(
                        waves@,
                        w as int,
                        b,
                    ) || wave_contains(waves@, w as int, b),
                forall|b: int|
                    #[trigger] has_result(log.events@, b) ==> 0 <= b < s || scheduled_before(
                        waves@,
                        w as int,
                        b,
                    ) || (exists|q: int| 0 <= q < p && (waves@[w as int])@[q] == b),
                forall|b: int| 0 <= b < s ==> #[trigger] has_result(log.events@, b),
                forall|b: int|
                    #[trigger] scheduled_before(waves@, w as int, b) ==> has_result(log.events@, b),
                forall|q: int|
                    0 <= q < p ==> #[trigger] has_result(
                        log.events@,
                        (waves@[w as int])@[q] as int,
                    ),
                forall|q: int|
                    0 <= q < wave_len ==> #[trigger] has_instr(
                        log.events@,
                        (waves@[w as int])@[q] as int,
                    ),
                forall|b: int| 0 <= b < s ==> #[trigger] has_instr(log.events@, b),
                forall|b: int|
                    #[trigger] scheduled_before(waves@, w as int, b) ==> has_instr(log.events@, b),
                in_flight_bounded(log.events@, opts.parallelism as int),
                unskipped_count(log.events@) - result_count(log.events@) == (wave_len as int) - (
                s as int) - (p as int),
                forall|k2: int, n2: Seq<u8>, img2: Seq<u8>|
                    #![trigger add_settled(kinds, k2, n2, img2)]
                    add_settled(kinds, k2, n2, img2) && s <= k2 && (scheduled_before(
                        waves@,
                        w as int,
                        k2,
                    ) || (exists|q: int| 0 <= q < p && (waves@[w as int])@[q] == k2))
                        ==> live_image_in(state.services.records@, n2, img2),
                forall|k2: int, n2: Seq<u8>|
                    #![trigger remove_settled(kinds, k2, n2)]
                    remove_settled(kinds, k2, n2) && s <= k2 && (scheduled_before(
                        waves@,
                        w as int,
                        k2,
                    ) || (exists|q: int| 0 <= q < p && (waves@[w as int])@[q] == k2))
                        ==> !live_name_in(state.services.records@, n2),
                forall|n2: Seq<u8>|
                    #![trigger live_name_in(state.services.records@, n2)]
                    live_name_in(state.services.records@, n2) ==> live_name_in(
                        old(state).services.records@,
                        n2,
                    ) || (exists|k2: int|
                        s <= k2 < n && (scheduled_before(waves@, w as int, k2) || (exists|q: int|
                            0 <= q < p && (waves@[w as int])@[q] == k2)) && is_add_of(
                            #[trigger] kinds[k2],
                            n2,
                        )),
                state.services.wf(),
                state.artifacts == old(state).artifacts,
                state.packages == old(state).packages,
                state.plan_cache == old(state).plan_cache,
                state.last_run == old(state).last_run,
                done == sum_sizes(waves@.take(w as int)) + p,
                state.services.next_id <= old(state).services.next_id + done,
            decreases wave_len - p,
        {
            let idx = waves[w][p];
            let ghost pre_svcs = state.services.records@;
            let ghost km = kinds[idx as int];
            proof {
                lemma_sum_take(waves@, w as int);
                lemma_sum_take_le(waves@, w + 1);
                assert(done < sum_sizes(waves@));
                assert(state.services.next_id < u64::MAX);
                assert(km == model_of(plan@[idx as int].kind));
            }
            let r = exec_instruction(&mut state.services, &plan[idx].kind);
            proof {
                done = done + 1;
            }
            match r {
                Ok(res) => {
                    let ghost pre = log.events@;
                    let e = RunEvent::InstructionResult { index: idx, serialized_result: res };
                    proof {
                        lemma_stream_push(pre, kinds, skipped@, e);
                        lemma_in_flight_push(pre, opts.parallelism as int, e);
                        assert(is_result_of(e, idx as int));
                    }
                    log.emit(e);
                    proof {
                        assert forall|b: int| 0 <= b < s implies #[trigger] has_result(
                            log.events@,
                            b,
                        ) by {
                            assert(has_result(pre, b));
                        }
                        assert forall|b: int|
                            #[trigger] scheduled_before(waves@, w as int, b) implies has_result(
                            log.events@,
                            b,
                        ) by {
                            assert(has_result(pre, b));
                        }
                        assert forall|q: int| 0 <= q < p + 1 implies #[trigger] has_result(
                            log.events@,
                            (waves@[w as int])@[q] as int,
                        ) by {
                            if q < p {
                                assert(has_result(pre, (waves@[w as int])@[q] as int));
                            } else {
                                assert(has_result(log.events@, idx as int));
                            }
                        }
                        assert forall|q: int| 0 <= q < wave_len implies #[trigger] has_instr(
                            log.events@,
                            (waves@[w as int])@[q] as int,
                        ) by {
                            assert(has_instr(pre, (waves@[w as int])@[q] as int));
                        }
                        assert forall|b: int| 0 <= b < s implies #[trigger] has_instr(
                            log.events@,
                            b,
                        ) by {
                            assert(has_instr(pre, b));
                        }
                        assert forall|b: int|
                            #[trigger] scheduled_before(waves@, w as int, b) implies has_instr(
                            log.events@,
                            b,
                        ) by {
                            assert(has_instr(pre, b));
                        }
                        // The settled effects of every instruction executed
                        // so far survive this step: either this step is the
                        // instruction itself, or it does not write the name.
                        assert forall|k2: int, n2: Seq<u8>, img2: Seq<u8>|
                            add_settled(kinds, k2, n2, img2) && s <= k2 && (scheduled_before(
                                waves@,
                                w as int,
                                k2,
                            ) || (exists|q: int|
                                0 <= q < p + 1 && (waves@[w as int])@[q]
                                    == k2)) implies live_image_in(
                            state.services.records@,
                            n2,
                            img2,
                        ) by {
                            if k2 == idx {
                                assert(live_image_in(state.services.records@, n2, img2));
                            } else {
                                assert(scheduled_before(waves@, w as int, k2) || (exists|q: int|
                                    0 <= q < p && (waves@[w as int])@[q] == k2)) by {
                                    if !scheduled_before(waves@, w as int, k2) {
                                        let q = choose|q: int|
                                            0 <= q < p + 1 && (waves@[w as int])@[q] == k2;
                                        assert(q != p);
                                    }
                                }
                                assert(live_image_in(pre_svcs, n2, img2));
                                assert(!writes_of(km).contains(n2)) by {
                                    if writes_of(km).contains(n2) {
                                        assert(writes_of(km)[0] == n2);
                                        if km matches KindModel::AddService { service_name, .. } {
                                            if idx > k2 {
                                                assert(is_add_of(kinds[k2 as int], n2));
                                                assert(crate::script::invalid_at(
                                                    kinds,
                                                    idx as int,
                                                ));
                                            } else {
                                                assert(writes_of(kinds[k2]).contains(n2));
                                                assert(conflict(km, kinds[k2]));
                                                assert(depends_on(kinds, k2, idx as int));
                                                lemma_conflicting_slots(
                                                    waves@,
                                                    kinds,
                                                    s as int,
                                                    w as int,
                                                    p as int,
                                                    idx as int,
                                                    k2,
                                                );
                                            }
                                        }
                                        if km matches KindModel::RemoveService { service_name } {
                                            if idx > k2 {
                                                assert(is_remove_of(kinds[idx as int], n2));
                                            } else {
                                                assert(writes_of(kinds[k2]).contains(n2));
                                                assert(conflict(km, kinds[k2]));
                                                assert(depends_on(kinds, k2, idx as int));
                                                lemma_conflicting_slots(
                                                    waves@,
                                                    kinds,
                                                    s as int,
                                                    w as int,
                                                    p as int,
                                                    idx as int,
                                                    k2,
                                                );
                                            }
                                        }
                                    }
                                }
                                assert(live_image_in(state.services.records@, n2, img2));
                            }
                        }
                        assert forall|k2: int, n2: Seq<u8>|
                            remove_settled(kinds, k2, n2) && s <= k2 && (scheduled_before(
                                waves@,
                                w as int,
                                k2,
                            ) || (exists|q: int|
                                0 <= q < p + 1 && (waves@[w as int])@[q]
                                    == k2)) implies !live_name_in(
                            state.services.records@,
                            n2,
                        ) by {
                            if k2 == idx {
                                assert(!live_name_in(state.services.records@, n2));
                            } else if km matches KindModel::RemoveService { service_name } && service_name == n2 {
                                assert(!live_name_in(state.services.records@, n2));
                            } else {
                                assert(scheduled_before(waves@, w as int, k2) || (exists|q: int|
                                    0 <= q < p && (waves@[w as int])@[q] == k2)) by {
                                    if !scheduled_before(waves@, w as int, k2) {
                                        let q = choose|q: int|
                                            0 <= q < p + 1 && (waves@[w as int])@[q] == k2;
                                        assert(q != p);
                                    }
                                }
                                assert(!live_name_in(pre_svcs, n2));
                                assert(!writes_of(km).contains(n2)) by {
                                    if writes_of(km).contains(n2) {
                                        assert(writes_of(km)[0] == n2);
                                        if km matches KindModel::AddService { service_name, .. } {
                                            if idx > k2 {
                                                assert(is_add_of(kinds[idx as int], n2));
                                            } else {
                                                assert(writes_of(kinds[k2]).contains(n2));
                                                assert(conflict(km, kinds[k2]));
                                                assert(depends_on(kinds, k2, idx as int));
                                                lemma_conflicting_slots(
                                                    waves@,
                                                    kinds,
                                                    s as int,
                                                    w as int,
                                                    p as int,
                                                    idx as int,
                                                    k2,
                                                );
                                            }
                                        }
                                    }
                                }
                                assert(!live_name_in(state.services.records@, n2));
                            }
                        }
                        // Live names arise only from the initial state or
                        // an executed addition.
                        assert forall|n2: Seq<u8>| #[trigger]
                            live_name_in(state.services.records@, n2) implies live_name_in(
                            old(state).services.records@,
                            n2,
                        ) || (exists|k2: int|
                            s <= k2 < n && (scheduled_before(waves@, w as int, k2) || (exists|
                                q: int,
                            | 0 <= q < p + 1 && (waves@[w as int])@[q] == k2)) && is_add_of(
                                #[trigger] kinds[k2],
                                n2,
                            )) by {
                            if writes_of(km).contains(n2) {
                                assert(writes_of(km)[0] == n2);
                                if km matches KindModel::AddService { service_name, .. } {
                                    assert(s <= idx < n);
                                    assert((waves@[w as int])@[p as int] == idx);
                                    assert(is_add_of(kinds[idx as int], n2));
                                } else {
                                    assert(km matches KindModel::RemoveService { .. });
                                    assert(!live_name_in(state.services.records@, n2));
                                }
                            } else {
                                assert(live_name_in(pre_svcs, n2));
                                if !live_name_in(old(state).services.records@, n2) {
                                    let k2 = choose|k2: int|
                                        s <= k2 < n && (scheduled_before(waves@, w as int, k2) || (
                                        exists|q: int|
                                            0 <= q < p && (waves@[w as int])@[q] == k2))
                                            && is_add_of(#[trigger] kinds[k2], n2);
                                    assert(s <= k2 < n && (scheduled_before(waves@, w as int, k2)
                                        || (exists|q: int|
                                        0 <= q < p + 1 && (waves@[w as int])@[q] == k2))
                                        && is_add_of(kinds[k2], n2));
                                }
                            }
                        }
                    }
                },
                Err(msg) => {
                    let ghost pre = log.events@;
                    let e = RunEvent::Error {
                        error: StarlarkError::ExecutionError { message: msg },
                    };
                    proof {
                        lemma_stream_push(pre, kinds, skipped@, e);
                        assert(1 <= (waves@[w as int])@.len() <= opts.parallelism);
                        lemma_in_flight_push(pre, opts.parallelism as int, e);
                    }
                    log.emit(e);
                    proof {
                        lemma_stream_push(
                            log.events@,
                            kinds,
                            skipped@,
                            RunEvent::RunFinishedEvent {
                                is_run_successful: false,
                                serialized_output: None,
                            },
                        );
                        lemma_in_flight_push(
                            log.events@,
                            opts.parallelism as int,
                            RunEvent::RunFinishedEvent {
                                is_run_successful: false,
                                serialized_output: None,
                            },
                        );
                    }
                    log.finish(false, None);
                    proof {
                        // A plan of waits-free instructions whose additions
                        // are all fresh cannot fail: derive a contradiction
                        // from this failure under that premise.
                        if plan_valid(kinds) && (forall|k3: int|
                            0 <= k3 < plan@.len() ==> !((#[trigger] kinds[k3]) is Wait)) && (forall|
                            k3: int,
                            n3: Seq<u8>,
                        |
                            #![trigger is_add_of(kinds[k3], n3)]
                            0 <= k3 < plan@.len() && is_add_of(kinds[k3], n3) ==> !live_name_in(
                                old(state).services.records@,
                                n3,
                            )) {
                            assert(s <= idx < n);
                            assert(!(km is Wait));
                            assert(!(km is RemoveService));
                            assert(km is AddService);
                            assert(exists|n3: Seq<u8>, img3: Seq<u8>|
                                km == (KindModel::AddService { service_name: n3, image: img3 }));
                            let (n3, img3) = choose|n3: Seq<u8>, img3: Seq<u8>|
                                km == (KindModel::AddService { service_name: n3, image: img3 });
                            assert(is_add_of(kinds[idx as int], n3));
                            assert(!live_name_in(old(state).services.records@, n3));
                            assert(live_name_in(pre_svcs, n3));
                            let k2 = choose|k2: int|
                                s <= k2 < n && (scheduled_before(waves@, w as int, k2) || (exists|
                                    q: int,
                                | 0 <= q < p && (waves@[w as int])@[q] == k2)) && is_add_of(
                                    #[trigger] kinds[k2],
                                    n3,
                                );
                            assert(k2 != idx) by {
                                if k2 == idx {
                                    if scheduled_before(waves@, w as int, k2) {
                                        let w3 = choose|w3: int|
                                            0 <= w3 < w && wave_contains(waves@, w3, k2);
                                        let q3 = choose|q3: int|
                                            0 <= q3 < (waves@[w3])@.len() && (waves@[w3])@[q3]
                                                == k2;
                                        assert((waves@[w3])@[q3] == (waves@[w as int])@[p as int]);
                                        assert(w3 == w);
                                    } else {
                                        let q = choose|q: int|
                                            0 <= q < p && (waves@[w as int])@[q] == k2;
                                        assert((waves@[w as int])@[q] == (
                                        waves@[w as int])@[p as int]);
                                    }
                                }
                            }
                            if k2 < idx {
                                assert(crate::script::invalid_at(kinds, idx as int));
                            } else {
                                assert(crate::script::invalid_at(kinds, k2));
                            }
                            assert(false);
                        }
                        assert(wave_contains(waves@, w as int, idx as int));
                        assert(s < n);
                        // The execution error stands just before the
                        // terminal event.
                        assert(log.events@.len() >= 2);
                        assert(log.events@[log.events@.len() - 2] == e);
                        // The failing instruction was announced unskipped.
                        assert(has_instr(pre, idx as int));
                        assert(has_instr(log.events@, idx as int)) by {
                            let p2 = choose|p2: int|
                                0 <= p2 < pre.len() && is_instr_of(#[trigger] pre[p2], idx as int);
                            assert(is_instr_of(log.events@[p2], idx as int));
                        }
                        assert(!skipped@[idx as int]);
                        // Names live now arose from the initial state or a
                        // completed addition: the failed step changed
                        // nothing, and every executed instruction already
                        // published its completion.
                        assert(state.services.records@ == pre_svcs);
                        assert forall|n2: Seq<u8>| #[trigger]
                            live_name_in(state.services.records@, n2) implies live_name_in(
                            old(state).services.records@,
                            n2,
                        ) || (exists|k2: int|
                            0 <= k2 < plan@.len() && !skipped@[k2] && is_add_of(
                                #[trigger] kinds[k2],
                                n2,
                            ) && has_result(log.events@, k2)) by {
                            if !live_name_in(old(state).services.records@, n2) {
                                let k2 = choose|k2: int|
                                    s <= k2 < n && (scheduled_before(waves@, w as int, k2) || (
                                    exists|q: int|
                                        0 <= q < p && (waves@[w as int])@[q] == k2)) && is_add_of(
                                        #[trigger] kinds[k2],
                                        n2,
                                    );
                                assert(has_result(pre, k2));
                                assert(has_result(log.events@, k2));
                                assert(!skipped@[k2]);
                            }
                        }
                    }
                    return RunOutcome { interpreted: true, plan, skipped, cached_prefix: cpl, success: false, log };
                },
            }
            p = p + 1;
        }
        w = w + 1;
        proof {
            lemma_sum_take(waves@, w - 1);
            assert forall|b: int|
                #[trigger] scheduled_before(waves@, w as int, b) implies has_result(
                log.events@,
                b,
            ) by {
                let w2 = choose|w2: int| 0 <= w2 < w && wave_contains(waves@, w2, b);
                if w2 < w - 1 {
                    assert(scheduled_before(waves@, (w - 1) as int, b));
                } else {
                    let q = choose|q: int|
                        0 <= q < (waves@[w2])@.len() && (waves@[w2])@[q] == b;
                    assert(has_result(log.events@, (waves@[(w - 1) as int])@[q] as int));
                }
            }
            assert forall|b: int|
                #[trigger] has_instr(log.events@, b) implies 0 <= b < s || scheduled_before(
                waves@,
                w as int,
                b,
            ) by {
                if !(0 <= b < s) {
                    if scheduled_before(waves@, (w - 1) as int, b) {
                        let w2 = choose|w2: int| 0 <= w2 < w - 1 && wave_contains(waves@, w2, b);
                        assert(wave_contains(waves@, w2, b));
                    } else {
                        assert(wave_contains(waves@, (w - 1) as int, b));
                    }
                }
            }
            assert forall|b: int|
                #[trigger] has_result(log.events@, b) implies 0 <= b < s || scheduled_before(
                waves@,
                w as int,
                b,
            ) by {
                if !(0 <= b < s) {
                    if scheduled_before(waves@, (w - 1) as int, b) {
                        let w2 = choose|w2: int| 0 <= w2 < w - 1 && wave_contains(waves@, w2, b);
                        assert(wave_contains(waves@, w2, b));
                    } else {
                        assert(wave_contains(waves@, (w - 1) as int, b));
                    }
                }
            }
            assert forall|b: int|
                #[trigger] scheduled_before(waves@, w as int, b) implies has_instr(
                log.events@,
                b,
            ) by {
                let w2 = choose|w2: int| 0 <= w2 < w && wave_contains(waves@, w2, b);
                if w2 < w - 1 {
                    assert(scheduled_before(waves@, (w - 1) as int, b));
                } else {
                    let q = choose|q: int|
                        0 <= q < (waves@[w2])@.len() && (waves@[w2])@[q] == b;
                    assert(has_instr(log.events@, (waves@[(w - 1) as int])@[q] as int));
                }
            }
            assert forall|k2: int, n2: Seq<u8>, img2: Seq<u8>|
                add_settled(kinds, k2, n2, img2) && s <= k2 && scheduled_before(
                    waves@,
                    w as int,
                    k2,
                ) implies live_image_in(state.services.records@, n2, img2) by {
                let w2 = choose|w2: int| 0 <= w2 < w && wave_contains(waves@, w2, k2);
                if w2 < w - 1 {
                    assert(scheduled_before(waves@, (w - 1) as int, k2));
                } else {
                    let q = choose|q: int|
                        0 <= q < (waves@[w2])@.len() && (waves@[w2])@[q] == k2;
                    assert(exists|q2: int|
                        0 <= q2 < wave_len && (#[trigger] (waves@[(w - 1) as int])@[q2]) == k2);
                }
            }
            assert forall|k2: int, n2: Seq<u8>|
                remove_settled(kinds, k2, n2) && s <= k2 && scheduled_before(
                    waves@,
                    w as int,
                    k2,
                ) implies !live_name_in(state.services.records@, n2) by {
                let w2 = choose|w2: int| 0 <= w2 < w && wave_contains(waves@, w2, k2);
                if w2 < w - 1 {
                    assert(scheduled_before(waves@, (w - 1) as int, k2));
                } else {
                    let q = choose|q: int|
                        0 <= q < (waves@[w2])@.len() && (waves@[w2])@[q] == k2;
                    assert(exists|q2: int|
                        0 <= q2 < wave_len && (#[trigger] (waves@[(w - 1) as int])@[q2]) == k2);
                }
            }
            assert forall|n2: Seq<u8>| #[trigger]
                live_name_in(state.services.records@, n2) implies live_name_in(
                old(state).services.records@,
                n2,
            ) || (exists|k2: int|
                s <= k2 < n && scheduled_before(waves@, w as int, k2) && is_add_of(
                    #[trigger] kinds[k2],
                    n2,
                )) by {
                if !live_name_in(old(state).services.records@, n2) {
                    let k2 = choose|k2: int|
                        s <= k2 < n && (scheduled_before(waves@, (w - 1) as int, k2) || (exists|
                            q: int,
                        |
                            0 <= q < wave_len && (#[trigger] (waves@[(w - 1) as int])@[q])
                                == k2)) && is_add_of(#[trigger] kinds[k2], n2);
                    assert(scheduled_before(waves@, w as int, k2)) by {
                        if scheduled_before(waves@, (w - 1) as int, k2) {
                            let w3 = choose|w3: int|
                                0 <= w3 < w - 1 && wave_contains(waves@, w3, k2);
                            assert(wave_contains(waves@, w3, k2));
                        } else {
                            assert(wave_contains(waves@, (w - 1) as int, k2));
                        }
                    }
                }
            }
        }
    }
    if !opts.dry_run {
        state.plan_cache = kinds_clone(&plan);
    }
    let ghost pre_finish = log.events@;
    proof {
        // Every instruction of the plan was announced: the skipped prefix
        // in phase one, the rest by its wave.
        assert forall|k2: int| 0 <= k2 < plan@.len() implies #[trigger] has_instr(
            log.events@,
            k2,
        ) by {
            if k2 >= s {
                assert(scheduled_somewhere(waves@, k2));
                let w2 = choose|w2: int| wave_contains(waves@, w2, k2);
                assert(scheduled_before(waves@, waves@.len() as int, k2));
            }
        }
        assert forall|k2: int, n2: Seq<u8>, img2: Seq<u8>|
            add_settled(kinds, k2, n2, img2) && !skipped@[k2] implies live_image_in(
            state.services.records@,
            n2,
            img2,
        ) by {
            assert(s <= k2);
            assert(scheduled_somewhere(waves@, k2));
            let w2 = choose|w2: int| wave_contains(waves@, w2, k2);
            assert(scheduled_before(waves@, waves@.len() as int, k2));
        }
        assert forall|k2: int, n2: Seq<u8>|
            remove_settled(kinds, k2, n2) && !skipped@[k2] implies !live_name_in(
            state.services.records@,
            n2,
        ) by {
            assert(s <= k2);
            assert(scheduled_somewhere(waves@, k2));
            let w2 = choose|w2: int| wave_contains(waves@, w2, k2);
            assert(scheduled_before(waves@, waves@.len() as int, k2));
        }
        lemma_stream_push(
            log.events@,
            kinds,
            skipped@,
            RunEvent::RunFinishedEvent { is_run_successful: true, serialized_output: None },
        );
        lemma_in_flight_push(
            log.events@,
            opts.parallelism as int,
            RunEvent::RunFinishedEvent { is_run_successful: true, serialized_output: None },
        );
    }
    log.finish(true, None);
    proof {
        assert forall|k2: int| 0 <= k2 < plan@.len() implies #[trigger] has_instr(
            log.events@,
            k2,
        ) by {
            assert(has_instr(pre_finish, k2));
        }
        assert forall|n2: Seq<u8>| #[trigger]
            live_name_in(state.services.records@, n2) implies live_name_in(
            old(state).services.records@,
            n2,
        ) || (exists|k2: int|
            0 <= k2 < plan@.len() && !skipped@[k2] && is_add_of(#[trigger] kinds[k2], n2)
                && has_result(log.events@, k2)) by {
            if !live_name_in(old(state).services.records@, n2) {
                let k2 = choose|k2: int|
                    s <= k2 < n && scheduled_before(waves@, waves@.len() as int, k2) && is_add_of(
                        #[trigger] kinds[k2],
                        n2,
                    );
                assert(has_result(pre_finish, k2));
                assert(has_result(log.events@, k2));
                assert(!skipped@[k2]);
            }
        }
    }
    RunOutcome { interpreted: true, plan, skipped, cached_prefix: cpl, success: true, log }
}

/// Check that every named service is live, reporting the first that is not.
fn wait_all(services: &ServiceRegistry, service_names: &Vec<Vec<u8>>) -> (r: Result<(), Vec<u8>>)
    ensures
        r is Ok <==> all_live(services.records@, service_names@.map_values(|n: Vec<u8>| n@)),
{
    let ghost models = service_names@.map_values(|n: Vec<u8>| n@);
    let mut x: usize = 0;
    while x < service_names.len()
        invariant
            x <= service_names@.len(),
            models == service_names@.map_values(|n: Vec<u8>| n@),
            forall|y: int| 0 <= y < x ==> live_name_in(services.records@, #[trigger] models[y]),
        decreases service_names@.len() - x,
    {
        proof {
            assert(models[x as int] == service_names@[x as int]@);
        }
        match services.find_live_by_name(&service_names[x]) {
            Some(_) => {},
            None => {
                proof {
                    assert(!live_name_in(services.records@, models[x as int]));
                    assert(!all_live(services.records@, models));
                }
                return Err(service_names[x].clone());
            },
        }
        x = x + 1;
    }
    proof {
        assert(all_live(services.records@, models));
    }
    Ok(())
}

/// Law: when the instruction cache holds exactly the kinds of the plan, the
/// cached prefix as characterized by `run_plan` covers the whole plan, so a
/// re-run of an identical script against an unchanged cache skips every
/// instruction, changes nothing, and succeeds.
pub proof fn lemma_full_cache_match(cache: Seq<KindModel>, kinds: Seq<KindModel>, l: int)
    requires
        cache == kinds,
        0 <= l,
        l <= cache.len(),
        l <= kinds.len(),
        l < cache.len() && l < kinds.len() ==> cache[l] != kinds[l],
    ensures
        l == kinds.len(),
{
}

/// Law: re-running an identical script against an unchanged instruction
/// cache skips every instruction. Interpretation is a function of the
/// script bytes, so two runs of the same script carry plans with equal
/// kinds; if the cache holds the kinds of the first run's plan — as it does
/// after the first run succeeded — then the second run's cached prefix, as
/// `run_plan` characterizes it, covers the whole plan, and `run_plan`'s
/// contract then forces every instruction skipped, the registries
/// untouched, and the run successful.
pub proof fn lemma_identical_rerun_fully_cached(
    script: Seq<u8>,
    plan1: Seq<Instruction>,
    plan2: Seq<Instruction>,
    cache: Seq<InstructionKind>,
    l: int,
)
    requires
        parse_script(script) == Ok::<Seq<(int, KindModel)>, int>(plan_models(plan1)),
        parse_script(script) == Ok::<Seq<(int, KindModel)>, int>(plan_models(plan2)),
        cache_models(cache) == kinds_of(plan1),
        0 <= l,
        l <= cache.len(),
        l <= plan2.len(),
        l < cache.len() && l < plan2.len() ==> cache_models(cache)[l] != kinds_of(plan2)[l],
    ensures
        l == plan2.len(),
{
    crate::script::lemma_plan_models_kinds(plan1, plan2);
    lemma_full_cache_match(cache_models(cache), kinds_of(plan2), l);
}

/// Interpret a script and run the resulting plan, recording the run.
fn run_source(
    state: &mut EnclaveState,
    script: &Vec<u8>,
    record: RunRecord,
    opts: &RunOptions,
) -> (out: RunOutcome)
    requires
        old(state).wf(),
        opts.parallelism >= 1,
        old(state).services.next_id + script@.len() + 1 < u64::MAX,
    ensures
        final(state).wf(),
        final(state).artifacts == old(state).artifacts,
        final(state).packages == old(state).packages,
        final(state).last_run == Some(record),
        out.log.wf(),
        out.log.finished,
        out.log.events@.last() matches RunEvent::RunFinishedEvent { is_run_successful, .. }
            && is_run_successful == out.success,
        out.skipped@.len() == out.plan@.len(),
        out.success ==> plan_valid(kinds_of(out.plan@)),
        !out.success ==> out.log.events@.len() >= 2 && out.log.events@[out.log.events@.len() - 2]
            is Error,
        !out.interpreted || !plan_valid(kinds_of(out.plan@)) ==> final(state).services == old(
            state,
        ).services && final(state).plan_cache == old(state).plan_cache,
        opts.dry_run ==> final(state).services == old(state).services && final(state).plan_cache
            == old(state).plan_cache,
        plan_valid(kinds_of(out.plan@)) ==> (forall|k: int|
            0 <= k < out.plan@.len() ==> out.skipped@[k] == (opts.dry_run || (
            !opts.no_instruction_caching && k < out.cached_prefix))),
        plan_valid(kinds_of(out.plan@)) ==> out.cached_prefix <= old(state).plan_cache@.len()
            && out.cached_prefix <= out.plan@.len(),
        plan_valid(kinds_of(out.plan@)) ==> (forall|i: int|
            0 <= i < out.cached_prefix ==> cache_models(old(state).plan_cache@)[i] == kinds_of(
                out.plan@,
            )[i]),
        plan_valid(kinds_of(out.plan@)) && out.cached_prefix < old(state).plan_cache@.len()
            && out.cached_prefix < out.plan@.len() ==> cache_models(
            old(state).plan_cache@,
        )[out.cached_prefix as int] != kinds_of(out.plan@)[out.cached_prefix as int],
        out.interpreted && plan_valid(kinds_of(out.plan@)) && !opts.dry_run
            && !opts.no_instruction_caching && out.cached_prefix == out.plan@.len()
            ==> final(state).services == old(state).services && out.success,
        !out.interpreted ==> !out.success && out.plan@.len() == 0
            && final(state).services == old(state).services
            && final(state).plan_cache == old(state).plan_cache,
        out.success && !opts.dry_run ==> cache_models(final(state).plan_cache@) == kinds_of(
            out.plan@,
        ),
        !(out.success && !opts.dry_run) ==> final(state).plan_cache == old(state).plan_cache,
        out.interpreted <==> parse_script(script@) is Ok,
        out.interpreted ==> parse_script(script@) == Ok::<Seq<(int, KindModel)>, int>(
            plan_models(out.plan@),
        ),
        !out.interpreted ==> out.log.events@.len() == 2 && (out.log.events@[0]
            matches RunEvent::Error { error } && error is InterpretationError),
        out.interpreted && !plan_valid(kinds_of(out.plan@)) ==> out.log.events@.len() == 2 && (
        out.log.events@[0] matches RunEvent::Error { error } && error is ValidationError),
        !out.interpreted || !plan_valid(kinds_of(out.plan@)) ==> (forall|b: int|
            !has_instr(out.log.events@, b)),
        !plan_valid(kinds_of(out.plan@)) ==> (forall|k: int|
            0 <= k < out.plan@.len() ==> !out.skipped@[k]),
        out.interpreted && plan_valid(kinds_of(out.plan@)) && !out.success
            ==> out.log.events@.len() >= 2 && (out.log.events@[out.log.events@.len() - 2]
            matches RunEvent::Error { error } && error is ExecutionError),
        out.interpreted && plan_valid(kinds_of(out.plan@)) && !out.success ==> (exists|b: int|
            0 <= b < out.plan@.len() && !out.skipped@[b] && #[trigger] has_instr(
                out.log.events@,
                b,
            )),
        out.success ==> (forall|k: int|
            0 <= k < out.plan@.len() ==> #[trigger] has_instr(out.log.events@, k)),
        out.success ==> (forall|k: int, n2: Seq<u8>, img2: Seq<u8>|
            #![trigger add_settled(kinds_of(out.plan@), k, n2, img2)]
            add_settled(kinds_of(out.plan@), k, n2, img2) && !out.skipped@[k] ==> live_image_in(
                final(state).services.records@,
                n2,
                img2,
            )),
        out.success ==> (forall|k: int, n2: Seq<u8>|
            #![trigger remove_settled(kinds_of(out.plan@), k, n2)]
            remove_settled(kinds_of(out.plan@), k, n2) && !out.skipped@[k] ==> !live_name_in(
                final(state).services.records@,
                n2,
            )),
        out.interpreted && plan_valid(kinds_of(out.plan@)) && (forall|k: int|
            0 <= k < out.plan@.len() ==> !((#[trigger] kinds_of(out.plan@)[k]) is Wait)) && (forall|
            k: int,
            n2: Seq<u8>,
        |
            #![trigger is_add_of(kinds_of(out.plan@)[k], n2)]
            0 <= k < out.plan@.len() && is_add_of(kinds_of(out.plan@)[k], n2) ==> !live_name_in(
                old(state).services.records@,
                n2,
            )) ==> out.success,
        out.interpreted && plan_valid(kinds_of(out.plan@)) ==> (forall|n2: Seq<u8>|
            #[trigger] live_name_in(final(state).services.records@, n2) ==> live_name_in(
                old(state).services.records@,
                n2,
            ) || (exists|k: int|
                0 <= k < out.plan@.len() && !out.skipped@[k] && is_add_of(
                    #[trigger] kinds_of(out.plan@)[k],
                    n2,
                ) && has_result(out.log.events@, k))),
        deps_respected(out.log.events@, kinds_of(out.plan@)),
        instr_once(out.log.events@),
        flags_consistent(out.log.events@, out.skipped@),
        in_flight_bounded(out.log.events@, opts.parallelism as int),
{
    state.last_run = Some(record);
    match interpret(script) {
        Err(f) => {
            let mut log = EventLog::new();
            let ghost kinds = kinds_of(Seq::<Instruction>::empty());
            proof {
                assert forall|q: int|
                    0 <= q <= log.events@.len() implies unskipped_count(
                    #[trigger] log.events@.take(q),
                ) - result_count(log.events@.take(q)) <= opts.parallelism as int by {
                    assert(log.events@.take(q) =~= log.events@);
                }
            }
            let e1 = RunEvent::Error {
                error: StarlarkError::InterpretationError { message: decimal_of(f.line) },
            };
            proof {
                lemma_stream_push(log.events@, kinds, Seq::<bool>::empty(), e1);
                lemma_in_flight_push(log.events@, opts.parallelism as int, e1);
            }
            log.emit(e1);
            proof {
                lemma_stream_push(
                    log.events@,
                    kinds,
                    Seq::<bool>::empty(),
                    RunEvent::RunFinishedEvent { is_run_successful: false, serialized_output: None },
                );
                lemma_in_flight_push(
                    log.events@,
                    opts.parallelism as int,
                    RunEvent::RunFinishedEvent { is_run_successful: false, serialized_output: None },
                );
            }
            log.finish(false, None);
            let out = RunOutcome {
                interpreted: false,
                plan: Vec::new(),
                skipped: Vec::new(),
                cached_prefix: 0,
                success: false,
                log,
            };
            proof {
                assert(kinds_of(out.plan@) =~= kinds);
                assert forall|b: int| !has_instr(out.log.events@, b) by {
                    if has_instr(out.log.events@, b) {
                        let p = choose|p: int|
                            0 <= p < out.log.events@.len() && is_instr_of(
                                #[trigger] out.log.events@[p],
                                b,
                            );
                        assert(out.log.events@.len() == 2);
                        assert(!is_instr_of(out.log.events@[0], b));
                        assert(!is_instr_of(out.log.events@[1], b));
                    }
                }
                assert(plan_models(out.plan@) =~= Seq::<(int, KindModel)>::empty());
            }
            out
        },
        Ok(plan) => run_plan(state, plan, opts),
    }
}

/// Run a script against the enclave, producing the run's event stream.
pub fn run_starlark_script(
    state: &mut EnclaveState,
    script: &Vec<u8>,
    serialized_params: Vec<u8>,
    main_function_name: Vec<u8>,
    opts: &RunOptions,
) -> (out: RunOutcome)
    requires
        old(state).wf(),
        opts.parallelism >= 1,
        old(state).services.next_id + script@.len() + 1 < u64::MAX,
    ensures
        final(state).wf(),
        final(state).artifacts == old(state).artifacts,
        final(state).packages == old(state).packages,
        final(state).last_run matches Some(rr) && rr.serialized_script@ == script@
            && rr.serialized_params@ == serialized_params@ && rr.parallelism == opts.parallelism
            && rr.main_function_name@ == main_function_name@ && rr.no_instruction_caching
            == opts.no_instruction_caching && rr.restart_policy == RestartPolicy::Never
            && rr.package_id@.len() == 0 && rr.relative_path_to_main_file@.len() == 0,
        out.log.wf(),
        out.log.finished,
        out.log.events@.last() matches RunEvent::RunFinishedEvent { is_run_successful, .. }
            && is_run_successful == out.success,
        out.success ==> plan_valid(kinds_of(out.plan@)),
        !out.success ==> out.log.events@.len() >= 2 && out.log.events@[out.log.events@.len() - 2]
            is Error,
        !out.interpreted || !plan_valid(kinds_of(out.plan@)) ==> final(state).services == old(
            state,
        ).services && final(state).plan_cache == old(state).plan_cache,
        opts.dry_run ==> final(state).services == old(state).services && final(state).plan_cache
            == old(state).plan_cache,
        out.skipped@.len() == out.plan@.len(),
        plan_valid(kinds_of(out.plan@)) ==> (forall|k: int|
            0 <= k < out.plan@.len() ==> out.skipped@[k] == (opts.dry_run || (
            !opts.no_instruction_caching && k < out.cached_prefix))),
        plan_valid(kinds_of(out.plan@)) ==> out.cached_prefix <= old(state).plan_cache@.len()
            && out.cached_prefix <= out.plan@.len(),
        plan_valid(kinds_of(out.plan@)) ==> (forall|i: int|
            0 <= i < out.cached_prefix ==> cache_models(old(state).plan_cache@)[i] == kinds_of(
                out.plan@,
            )[i]),
        plan_valid(kinds_of(out.plan@)) && out.cached_prefix < old(state).plan_cache@.len()
            && out.cached_prefix < out.plan@.len() ==> cache_models(
            old(state).plan_cache@,
        )[out.cached_prefix as int] != kinds_of(out.plan@)[out.cached_prefix as int],
        out.interpreted && plan_valid(kinds_of(out.plan@)) && !opts.dry_run
            && !opts.no_instruction_caching && out.cached_prefix == out.plan@.len()
            ==> final(state).services == old(state).services && out.success,
        !out.interpreted ==> !out.success && out.plan@.len() == 0
            && final(state).services == old(state).services
            && final(state).plan_cache == old(state).plan_cache,
        out.success && !opts.dry_run ==> cache_models(final(state).plan_cache@) == kinds_of(
            out.plan@,
        ),
        !(out.success && !opts.dry_run) ==> final(state).plan_cache == old(state).plan_cache,
        out.interpreted <==> parse_script(script@) is Ok,
        out.interpreted ==> parse_script(script@) == Ok::<Seq<(int, KindModel)>, int>(
            plan_models(out.plan@),
        ),
        !out.interpreted ==> out.log.events@.len() == 2 && (out.log.events@[0]
            matches RunEvent::Error { error } && error is InterpretationError),
        out.interpreted && !plan_valid(kinds_of(out.plan@)) ==> out.log.events@.len() == 2 && (
        out.log.events@[0] matches RunEvent::Error { error } && error is ValidationError),
        !out.interpreted || !plan_valid(kinds_of(out.plan@)) ==> (forall|b: int|
            !has_instr(out.log.events@, b)),
        !plan_valid(kinds_of(out.plan@)) ==> (forall|k: int|
            0 <= k < out.plan@.len() ==> !out.skipped@[k]),
        out.interpreted && plan_valid(kinds_of(out.plan@)) && !out.success
            ==> out.log.events@.len() >= 2 && (out.log.events@[out.log.events@.len() - 2]
            matches RunEvent::Error { error } && error is ExecutionError),
        out.interpreted && plan_valid(kinds_of(out.plan@)) && !out.success ==> (exists|b: int|
            0 <= b < out.plan@.len() && !out.skipped@[b] && #[trigger] has_instr(
                out.log.events@,
                b,
            )),
        out.success ==> (forall|k: int|
            0 <= k < out.plan@.len() ==> #[trigger] has_instr(out.log.events@, k)),
        out.success ==> (forall|k: int, n2: Seq<u8>, img2: Seq<u8>|
            #![trigger add_settled(kinds_of(out.plan@), k, n2, img2)]
            add_settled(kinds_of(out.plan@), k, n2, img2) && !out.skipped@[k] ==> live_image_in(
                final(state).services.records@,
                n2,
                img2,
            )),
        out.success ==> (forall|k: int, n2: Seq<u8>|
            #![trigger remove_settled(kinds_of(out.plan@), k, n2)]
            remove_settled(kinds_of(out.plan@), k, n2) && !out.skipped@[k] ==> !live_name_in(
                final(state).services.records@,
                n2,
            )),
        out.interpreted && plan_valid(kinds_of(out.plan@)) && (forall|k: int|
            0 <= k < out.plan@.len() ==> !((#[trigger] kinds_of(out.plan@)[k]) is Wait)) && (forall|
            k: int,
            n2: Seq<u8>,
        |
            #![trigger is_add_of(kinds_of(out.plan@)[k], n2)]
            0 <= k < out.plan@.len() && is_add_of(kinds_of(out.plan@)[k], n2) ==> !live_name_in(
                old(state).services.records@,
                n2,
            )) ==> out.success,
        out.interpreted && plan_valid(kinds_of(out.plan@)) ==> (forall|n2: Seq<u8>|
            #[trigger] live_name_in(final(state).services.records@, n2) ==> live_name_in(
                old(state).services.records@,
                n2,
            ) || (exists|k: int|
                0 <= k < out.plan@.len() && !out.skipped@[k] && is_add_of(
                    #[trigger] kinds_of(out.plan@)[k],
                    n2,
                ) && has_result(out.log.events@, k))),
        deps_respected(out.log.events@, kinds_of(out.plan@)),
        instr_once(out.log.events@),
        flags_consistent(out.log.events@, out.skipped@),
        in_flight_bounded(out.log.events@, opts.parallelism as int),
{
    let record = RunRecord {
        package_id: Vec::new(),
        serialized_script: script.clone(),
        serialized_params,
        parallelism: opts.parallelism,
        relative_path_to_main_file: Vec::new(),
        main_function_name,
        no_instruction_caching: opts.no_instruction_caching,
        restart_policy: RestartPolicy::Never,
    };
    run_source(state, script, record, opts)
}

/// Run a previously uploaded package, identified by UUID, name, or UUID
/// prefix, against the enclave.
pub fn run_starlark_package(
    state: &mut EnclaveState,
    package_identifier: &Vec<u8>,
    serialized_params: Vec<u8>,
    relative_path_to_main_file: Vec<u8>,
    main_function_name: Vec<u8>,
    opts: &RunOptions,
) -> (r: Result<RunOutcome, LookupError>)
    requires
        old(state).wf(),
        opts.parallelism >= 1,
        forall|i: int|
            0 <= i < old(state).packages.records@.len() ==> old(state).services.next_id + (
            #[trigger] old(state).packages.records@[i]).content@.len() + 1 < u64::MAX,
    ensures
        final(state).wf(),
        final(state).artifacts == old(state).artifacts,
        final(state).packages == old(state).packages,
        r is Err ==> *final(state) == *old(state),
        r == Err::<RunOutcome, LookupError>(LookupError::NotFoundError) <==> no_match(
            old(state).packages.records@,
            package_identifier@,
        ),
        r == Err::<RunOutcome, LookupError>(LookupError::AmbiguousIdentifierError) <==> (forall|
            i: int,
        | !uuid_match_at(old(state).packages.records@, package_identifier@, i)) && (forall|i: int|
            !name_match_at(old(state).packages.records@, package_identifier@, i))
            && ambiguous_prefix(old(state).packages.records@, package_identifier@),
        r is Ok <==> !no_match(old(state).packages.records@, package_identifier@) && !((forall|
            i: int,
        | !uuid_match_at(old(state).packages.records@, package_identifier@, i)) && (forall|i: int|
            !name_match_at(old(state).packages.records@, package_identifier@, i))
            && ambiguous_prefix(old(state).packages.records@, package_identifier@)),
        r matches Ok(out) ==> exists|i: int|
            {
                &&& resolves_to(old(state).packages.records@, package_identifier@, i)
                &&& (out.interpreted <==> parse_script(
                    old(state).packages.records@[i].content@,
                ) is Ok)
                &&& (out.interpreted ==> parse_script(old(state).packages.records@[i].content@)
                    == Ok::<Seq<(int, KindModel)>, int>(plan_models(out.plan@)))
                &&& out.log.wf()
                &&& out.log.finished
                &&& (out.log.events@.last() matches RunEvent::RunFinishedEvent {
                    is_run_successful,
                    ..
                } && is_run_successful == out.success)
                &&& (out.success ==> plan_valid(kinds_of(out.plan@)))
                &&& (!out.interpreted ==> out.log.events@.len() == 2 && (out.log.events@[0]
                    matches RunEvent::Error { error } && error is InterpretationError))
                &&& (out.interpreted && !plan_valid(kinds_of(out.plan@))
                    ==> out.log.events@.len() == 2 && (out.log.events@[0]
                    matches RunEvent::Error { error } && error is ValidationError))
                &&& (!out.interpreted || !plan_valid(kinds_of(out.plan@)) ==> final(state).services
                    == old(state).services && final(state).plan_cache == old(state).plan_cache)
                &&& deps_respected(out.log.events@, kinds_of(out.plan@))
                &&& instr_once(out.log.events@)
                &&& (final(state).last_run matches Some(rr) && rr.package_id@
                    == package_identifier@ && rr.serialized_script@ == old(
                    state,
                ).packages.records@[i].content@)
            },
{
    let content: Vec<u8> = match crate::ident::resolve(&state.packages.records, package_identifier) {
        Ok(i) => state.packages.records[i].content.clone(),
        Err(e) => {
            return Err(e);
        },
    };
    let record = RunRecord {
        package_id: package_identifier.clone(),
        serialized_script: content.clone(),
        serialized_params,
        parallelism: opts.parallelism,
        relative_path_to_main_file,
        main_function_name,
        no_instruction_caching: opts.no_instruction_caching,
        restart_policy: RestartPolicy::Never,
    };
    let out = run_source(state, &content, record, opts);
    Ok(out)
}

/// Store an uploaded script package, committed all-or-nothing.
pub fn upload_starlark_package(
    state: &mut EnclaveState,
    chunks: &Vec<DataChunk>,
    closed_cleanly: bool,
) -> (r: Result<(Vec<u8>, Vec<u8>), UploadError>)
    requires
        old(state).wf(),
        old(state).packages.next_id < u64::MAX,
    ensures
        final(state).wf(),
        final(state).services == old(state).services,
        final(state).artifacts == old(state).artifacts,
        final(state).plan_cache == old(state).plan_cache,
        final(state).last_run == old(state).last_run,
        r is Err ==> *final(state) == *old(state),
        r == Err::<(Vec<u8>, Vec<u8>), UploadError>(UploadError::IncompleteTransferError)
            <==> !closed_cleanly || chunks@.len() == 0,
        r == Err::<(Vec<u8>, Vec<u8>), UploadError>(UploadError::IntegrityError) <==> closed_cleanly
            && integrity_failure(chunk_models(chunks@)),
        r == Err::<(Vec<u8>, Vec<u8>), UploadError>(UploadError::ChunkTooLargeError)
            <==> closed_cleanly && oversize_failure(chunk_models(chunks@)),
        r == Err::<(Vec<u8>, Vec<u8>), UploadError>(UploadError::MissingMetadataError)
            <==> closed_cleanly && chunks@.len() > 0 && chain_ok(chunk_models(chunks@)) && sizes_ok(
            chunk_models(chunks@),
        ) && chunks@[0]@.metadata_name is None,
        r == Err::<(Vec<u8>, Vec<u8>), UploadError>(UploadError::NameAlreadyInUseError)
            <==> closed_cleanly && chunks@.len() > 0 && chain_ok(chunk_models(chunks@)) && sizes_ok(
            chunk_models(chunks@),
        ) && (chunks@[0]@.metadata_name matches Some(nm) && old(state).packages.name_in_use(nm)),
        r matches Ok((u, n)) ==> {
            &&& closed_cleanly
            &&& chunks@.len() > 0
            &&& chain_ok(chunk_models(chunks@))
            &&& sizes_ok(chunk_models(chunks@))
            &&& chunks@[0]@.metadata_name == Some(n@)
            &&& !old(state).packages.name_in_use(n@)
            &&& final(state).packages.records@.len() == old(state).packages.records@.len() + 1
            &&& final(state).packages.records@.last().uuid@ == u@
            &&& final(state).packages.records@.last().name@ == n@
            &&& final(state).packages.records@.last().content@ == payload_of(chunk_models(chunks@))
            &&& final(state).packages.records@.drop_last() == old(state).packages.records@
        },
{
    state.packages.upload_artifact(chunks, closed_cleanly)
}

} // verus!
