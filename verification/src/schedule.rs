//! Topological-level scheduling of a plan onto a bounded worker pool.
//!
//! Instructions form a dependency DAG: an instruction depends on every
//! earlier one it shares a written name with. The scheduler repeatedly takes
//! up to `parallelism` ready instructions (all dependencies in strictly
//! earlier waves) and dispatches them as one wave, so independent
//! instructions may run concurrently while dependents always start after
//! their dependencies completed.
use vstd::prelude::*;
use crate::bytes::bytes_eq;
use crate::script::{
    conflict, depends_on, kinds_of, model_of, reads_of, writes_of, Instruction, InstructionKind,
};

verus! {

/// Index `i` stands in wave `w` of the schedule.
pub open spec fn wave_contains(waves: Seq<Vec<usize>>, w: int, i: int) -> bool {
    0 <= w < waves.len() && exists|p: int| 0 <= p < waves[w]@.len() && waves[w]@[p] == i
}

/// Index `i` stands in some wave of the schedule.
pub open spec fn scheduled_somewhere(waves: Seq<Vec<usize>>, i: int) -> bool {
    exists|w: int| wave_contains(waves, w, i)
}

/// Index `i` stands in some wave strictly before `w`.
pub open spec fn scheduled_before(waves: Seq<Vec<usize>>, w: int, i: int) -> bool {
    exists|w2: int| 0 <= w2 < w && wave_contains(waves, w2, i)
}

/// Total number of scheduled slots over all waves.
pub open spec fn sum_sizes(waves: Seq<Vec<usize>>) -> nat
    decreases waves.len(),
{
    if waves.len() == 0 {
        0
    } else {
        sum_sizes(waves.drop_last()) + waves.last()@.len()
    }
}

/// Taking one more wave adds its size to the total.
pub proof fn lemma_sum_take(waves: Seq<Vec<usize>>, w: int)
    requires
        0 <= w < waves.len(),
    ensures
        sum_sizes(waves.take(w + 1)) == sum_sizes(waves.take(w)) + waves[w]@.len(),
{
    assert(waves.take(w + 1).drop_last() =~= waves.take(w));
    assert(waves.take(w + 1).last() == waves[w]);
}

/// A prefix of the schedule holds no more slots than the whole.
pub proof fn lemma_sum_take_le(waves: Seq<Vec<usize>>, w: int)
    requires
        0 <= w <= waves.len(),
    ensures
        sum_sizes(waves.take(w)) <= sum_sizes(waves),
    decreases waves.len() - w,
{
    if w == waves.len() {
        assert(waves.take(w) =~= waves);
    } else {
        lemma_sum_take(waves, w);
        lemma_sum_take_le(waves, w + 1);
    }
}

proof fn lemma_count_false_all_true(s: Seq<bool>)
    requires
        forall|j: int| 0 <= j < s.len() ==> s[j],
    ensures
        count_false(s) == 0,
    decreases s.len(),
{
    if s.len() > 0 {
        lemma_count_false_all_true(s.drop_last());
    }
}

/// Number of `false` entries of a flag sequence.
pub open spec fn count_false(s: Seq<bool>) -> nat
    decreases s.len(),
{
    if s.len() == 0 {
        0
    } else {
        count_false(s.drop_last()) + if s.last() {
            0nat
        } else {
            1nat
        }
    }
}

proof fn lemma_count_false_update(s: Seq<bool>, i: int)
    requires
        0 <= i < s.len(),
        !s[i],
    ensures
        count_false(s.update(i, true)) + 1 == count_false(s),
    decreases s.len(),
{
    if i == s.len() - 1 {
        assert(s.update(i, true).drop_last() =~= s.drop_last());
    } else {
        assert(s.update(i, true).drop_last() =~= s.drop_last().update(i, true));
        lemma_count_false_update(s.drop_last(), i);
    }
}

fn names_of_kind<'a>(k: &'a InstructionKind) -> (r: (Vec<&'a Vec<u8>>, Vec<&'a Vec<u8>>))
    ensures
        r.0@.len() == writes_of(model_of(*k)).len(),
        forall|i: int| 0 <= i < r.0@.len() ==> (#[trigger] r.0@[i])@ == writes_of(model_of(*k))[i],
        r.1@.len() == reads_of(model_of(*k)).len(),
        forall|i: int| 0 <= i < r.1@.len() ==> (#[trigger] r.1@[i])@ == reads_of(model_of(*k))[i],
{
    match k {
        InstructionKind::AddService { service_name, .. } => {
            let mut w: Vec<&Vec<u8>> = Vec::new();
            w.push(service_name);
            let rd: Vec<&Vec<u8>> = Vec::new();
            (w, rd)
        },
        InstructionKind::RemoveService { service_name } => {
            let mut w: Vec<&Vec<u8>> = Vec::new();
            w.push(service_name);
            let mut rd: Vec<&Vec<u8>> = Vec::new();
            rd.push(service_name);
            (w, rd)
        },
        InstructionKind::Wait { service_names } => {
            let w: Vec<&Vec<u8>> = Vec::new();
            let mut rd: Vec<&Vec<u8>> = Vec::new();
            let ghost models = reads_of(model_of(*k));
            let mut x: usize = 0;
            while x < service_names.len()
                invariant
                    x <= service_names@.len(),
                    models == service_names@.map_values(|n: Vec<u8>| n@),
                    rd@.len() == x,
                    forall|i: int| 0 <= i < x ==> (#[trigger] rd@[i])@ == models[i],
                decreases service_names@.len() - x,
            {
                rd.push(&service_names[x]);
                x = x + 1;
            }
            (w, rd)
        },
    }
}

/// Whether two instructions conflict, that is, one writes a name the other
/// reads or writes.
pub fn conflict_exec(a: &Instruction, b: &Instruction) -> (r: bool)
    ensures
        r == conflict(model_of(a.kind), model_of(b.kind)),
{
    let ghost ma = model_of(a.kind);
    let ghost mb = model_of(b.kind);
    let (wa, ra) = names_of_kind(&a.kind);
    let (wb, rb) = names_of_kind(&b.kind);
    let mut x: usize = 0;
    while x < wa.len()
        invariant
            ma == model_of(a.kind),
            mb == model_of(b.kind),
            x <= wa@.len(),
            wa@.len() == writes_of(ma).len(),
            forall|i: int| 0 <= i < wa@.len() ==> (#[trigger] wa@[i])@ == writes_of(ma)[i],
            rb@.len() == reads_of(mb).len(),
            forall|i: int| 0 <= i < rb@.len() ==> (#[trigger] rb@[i])@ == reads_of(mb)[i],
            wb@.len() == writes_of(mb).len(),
            forall|i: int| 0 <= i < wb@.len() ==> (#[trigger] wb@[i])@ == writes_of(mb)[i],
            forall|i: int, j: int|
                0 <= i < x && 0 <= j < rb@.len() ==> writes_of(ma)[i] != reads_of(mb)[j],
            forall|i: int, j: int|
                0 <= i < x && 0 <= j < wb@.len() ==> writes_of(ma)[i] != writes_of(mb)[j],
        decreases wa@.len() - x,
    {
        let mut y: usize = 0;
        while y < rb.len()
            invariant
                ma == model_of(a.kind),
                mb == model_of(b.kind),
                x < wa@.len(),
                y <= rb@.len(),
                wa@.len() == writes_of(ma).len(),
                forall|i: int| 0 <= i < wa@.len() ==> (#[trigger] wa@[i])@ == writes_of(ma)[i],
                rb@.len() == reads_of(mb).len(),
                forall|i: int| 0 <= i < rb@.len() ==> (#[trigger] rb@[i])@ == reads_of(mb)[i],
                forall|j: int| 0 <= j < y ==> writes_of(ma)[x as int] != reads_of(mb)[j],
            decreases rb@.len() - y,
        {
            if bytes_eq(wa[x], rb[y]) {
                proof {
                    assert(writes_of(ma).contains(writes_of(ma)[x as int]));
                    assert(reads_of(mb)[y as int] == writes_of(ma)[x as int]);
                    assert(reads_of(mb).contains(writes_of(ma)[x as int]));
                    assert(conflict(ma, mb));
                }
                return true;
            }
            y = y + 1;
        }
        let mut y: usize = 0;
        while y < wb.len()
            invariant
                ma == model_of(a.kind),
                mb == model_of(b.kind),
                x < wa@.len(),
                y <= wb@.len(),
                wa@.len() == writes_of(ma).len(),
                forall|i: int| 0 <= i < wa@.len() ==> (#[trigger] wa@[i])@ == writes_of(ma)[i],
                wb@.len() == writes_of(mb).len(),
                forall|i: int| 0 <= i < wb@.len() ==> (#[trigger] wb@[i])@ == writes_of(mb)[i],
                forall|j: int| 0 <= j < y ==> writes_of(ma)[x as int] != writes_of(mb)[j],
            decreases wb@.len() - y,
        {
            if bytes_eq(wa[x], wb[y]) {
                proof {
                    assert(writes_of(ma).contains(writes_of(ma)[x as int]));
                    assert(writes_of(mb)[y as int] == writes_of(ma)[x as int]);
                    assert(writes_of(mb).contains(writes_of(ma)[x as int]));
                    assert(conflict(ma, mb));
                }
                return true;
            }
            y = y + 1;
        }
        x = x + 1;
    }
    let mut x: usize = 0;
    while x < ra.len()
        invariant
            ma == model_of(a.kind),
            mb == model_of(b.kind),
            x <= ra@.len(),
            ra@.len() == reads_of(ma).len(),
            forall|i: int| 0 <= i < ra@.len() ==> (#[trigger] ra@[i])@ == reads_of(ma)[i],
            wb@.len() == writes_of(mb).len(),
            forall|i: int| 0 <= i < wb@.len() ==> (#[trigger] wb@[i])@ == writes_of(mb)[i],
            forall|i: int, j: int|
                0 <= i < writes_of(ma).len() && 0 <= j < reads_of(mb).len() ==> writes_of(ma)[i]
                    != reads_of(mb)[j],
            forall|i: int, j: int|
                0 <= i < writes_of(ma).len() && 0 <= j < writes_of(mb).len() ==> writes_of(ma)[i]
                    != writes_of(mb)[j],
            forall|i: int, j: int|
                0 <= i < x && 0 <= j < wb@.len() ==> reads_of(ma)[i] != writes_of(mb)[j],
        decreases ra@.len() - x,
    {
        let mut y: usize = 0;
        while y < wb.len()
            invariant
                ma == model_of(a.kind),
                mb == model_of(b.kind),
                x < ra@.len(),
                y <= wb@.len(),
                ra@.len() == reads_of(ma).len(),
                forall|i: int| 0 <= i < ra@.len() ==> (#[trigger] ra@[i])@ == reads_of(ma)[i],
                wb@.len() == writes_of(mb).len(),
                forall|i: int| 0 <= i < wb@.len() ==> (#[trigger] wb@[i])@ == writes_of(mb)[i],
                forall|j: int| 0 <= j < y ==> reads_of(ma)[x as int] != writes_of(mb)[j],
            decreases wb@.len() - y,
        {
            if bytes_eq(ra[x], wb[y]) {
                proof {
                    assert(reads_of(ma).contains(reads_of(ma)[x as int]));
                    assert(writes_of(mb)[y as int] == reads_of(ma)[x as int]);
                    assert(writes_of(mb).contains(reads_of(ma)[x as int]));
                    assert(conflict(ma, mb));
                }
                return true;
            }
            y = y + 1;
        }
        x = x + 1;
    }
    proof {
        if conflict(ma, mb) {
            let n = choose|n: Seq<u8>|
                (writes_of(ma).contains(n) && (reads_of(mb).contains(n) || writes_of(mb).contains(
                    n,
                ))) || (reads_of(ma).contains(n) && writes_of(mb).contains(n));
            if writes_of(ma).contains(n) && reads_of(mb).contains(n) {
                let i = choose|i: int| 0 <= i < writes_of(ma).len() && writes_of(ma)[i] == n;
                let j = choose|j: int| 0 <= j < reads_of(mb).len() && reads_of(mb)[j] == n;
                assert(writes_of(ma)[i] == reads_of(mb)[j]);
                assert(false);
            } else if writes_of(ma).contains(n) && writes_of(mb).contains(n) {
                let i = choose|i: int| 0 <= i < writes_of(ma).len() && writes_of(ma)[i] == n;
                let j = choose|j: int| 0 <= j < writes_of(mb).len() && writes_of(mb)[j] == n;
                assert(writes_of(ma)[i] == writes_of(mb)[j]);
                assert(false);
            } else {
                let i = choose|i: int| 0 <= i < reads_of(ma).len() && reads_of(ma)[i] == n;
                let j = choose|j: int| 0 <= j < writes_of(mb).len() && writes_of(mb)[j] == n;
                assert(reads_of(ma)[i] == writes_of(mb)[j]);
                assert(false);
            }
        }
    }
    false
}

/// Schedule the instructions of `plan` from index `start` on into waves.
///
/// Every scheduled index appears in exactly one wave; waves hold between one
/// and `parallelism` instructions; and every dependency of a scheduled
/// instruction that is itself at or past `start` stands in a strictly
/// earlier wave (indices before `start` count as already completed).
pub fn schedule_waves(plan: &Vec<Instruction>, start: usize, parallelism: usize) -> (waves: Vec<
    Vec<usize>,
>)
    requires
        parallelism >= 1,
        start <= plan@.len(),
    ensures
        forall|w: int| 0 <= w < waves@.len() ==> 1 <= (#[trigger] waves@[w])@.len() <= parallelism,
        forall|w: int, p: int|
            #![trigger (waves@[w])@[p]]
            0 <= w < waves@.len() && 0 <= p < (waves@[w])@.len() ==> start <= (waves@[w])@[p]
                < plan@.len(),
        forall|i: int| start <= i < plan@.len() ==> #[trigger] scheduled_somewhere(waves@, i),
        forall|w1: int, p1: int, w2: int, p2: int|
            #![trigger (waves@[w1])@[p1], (waves@[w2])@[p2]]
            0 <= w1 < waves@.len() && 0 <= p1 < (waves@[w1])@.len() && 0 <= w2 < waves@.len() && 0
                <= p2 < (waves@[w2])@.len() && (waves@[w1])@[p1] == (waves@[w2])@[p2] ==> w1 == w2
                && p1 == p2,
        forall|w: int, p: int, i: int|
            #![trigger (waves@[w])@[p], kinds_of(plan@)[i]]
            0 <= w < waves@.len() && 0 <= p < (waves@[w])@.len() && depends_on(
                kinds_of(plan@),
                (waves@[w])@[p] as int,
                i,
            ) && start <= i ==> scheduled_before(waves@, w, i),
        sum_sizes(waves@) == plan@.len() - start,
{
    let n = plan.len();
    let mut scheduled: Vec<bool> = Vec::new();
    let mut i: usize = 0;
    while i < n
        invariant
            i <= n,
            n == plan@.len(),
            start <= n,
            scheduled@.len() == i,
            forall|j: int| 0 <= j < i ==> scheduled@[j] == (j < start),
            count_false(scheduled@) == if i <= start {
                0int
            } else {
                i - start
            },
        decreases n - i,
    {
        let ghost pre = scheduled@;
        scheduled.push(i < start);
        proof {
            assert(scheduled@.drop_last() =~= pre);
        }
        i = i + 1;
    }
    let mut waves: Vec<Vec<usize>> = Vec::new();
    loop
        invariant
            n == plan@.len(),
            parallelism >= 1,
            start <= n,
            scheduled@.len() == n,
            forall|j: int| 0 <= j < start && j < n ==> scheduled@[j],
            forall|j: int|
                start <= j < n ==> ((#[trigger] scheduled@[j]) <==> exists|w: int|
                    wave_contains(waves@, w, j)),
            forall|w: int|
                0 <= w < waves@.len() ==> 1 <= (#[trigger] waves@[w])@.len() <= parallelism,
            forall|w: int, p: int|
                #![trigger (waves@[w])@[p]]
                0 <= w < waves@.len() && 0 <= p < (waves@[w])@.len() ==> start <= (waves@[w])@[p]
                    < n,
            forall|w1: int, p1: int, w2: int, p2: int|
                #![trigger (waves@[w1])@[p1], (waves@[w2])@[p2]]
                0 <= w1 < waves@.len() && 0 <= p1 < (waves@[w1])@.len() && 0 <= w2 < waves@.len()
                    && 0 <= p2 < (waves@[w2])@.len() && (waves@[w1])@[p1] == (waves@[w2])@[p2]
                    ==> w1 == w2 && p1 == p2,
            forall|w: int, p: int, i2: int|
                #![trigger (waves@[w])@[p], kinds_of(plan@)[i2]]
                0 <= w < waves@.len() && 0 <= p < (waves@[w])@.len() && depends_on(
                    kinds_of(plan@),
                    (waves@[w])@[p] as int,
                    i2,
                ) && start <= i2 ==> scheduled_before(waves@, w, i2),
            sum_sizes(waves@) + count_false(scheduled@) == n - start,
        ensures
            forall|j: int| 0 <= j < n ==> scheduled@[j],
        decreases count_false(scheduled@),
    {
        let ghost pre_sched = scheduled@;
        let ghost pre_waves = waves@;
        let mut wave: Vec<usize> = Vec::new();
        let mut i: usize = 0;
        while i < n
            invariant
                i <= n,
                n == plan@.len(),
                scheduled@.len() == n,
                parallelism >= 1,
                start <= n,
                forall|j: int| 0 <= j < start && j < n ==> scheduled@[j],
                wave@.len() <= parallelism,
                forall|p: int, q: int|
                    0 <= p < q < wave@.len() ==> (#[trigger] wave@[p]) < (#[trigger] wave@[q]),
                forall|p: int|
                    0 <= p < wave@.len() ==> start <= (#[trigger] wave@[p]) < i && !scheduled@[wave@[p] as int],
                forall|p: int, i2: int|
                    #![trigger wave@[p], kinds_of(plan@)[i2]]
                    0 <= p < wave@.len() && depends_on(
                        kinds_of(plan@),
                        wave@[p] as int,
                        i2,
                    ) ==> scheduled@[i2],
                wave@.len() == 0 ==> forall|j: int| 0 <= j < i ==> scheduled@[j],
            decreases n - i,
        {
            if !scheduled[i] && wave.len() < parallelism {
                let mut deps_done = true;
                let mut j: usize = 0;
                while j < i
                    invariant
                        j <= i < n,
                        n == plan@.len(),
                        scheduled@.len() == n,
                        deps_done <==> (forall|j2: int|
                            0 <= j2 < j && conflict(
                                kinds_of(plan@)[j2],
                                kinds_of(plan@)[i as int],
                            ) ==> scheduled@[j2]),
                    decreases i - j,
                {
                    proof {
                        assert(kinds_of(plan@)[j as int] == model_of(plan@[j as int].kind));
                        assert(kinds_of(plan@)[i as int] == model_of(plan@[i as int].kind));
                    }
                    if !scheduled[j] && conflict_exec(&plan[j], &plan[i]) {
                        deps_done = false;
                    }
                    j = j + 1;
                }
                if deps_done {
                    wave.push(i);
                }
            }
            proof {
                if wave@.len() == 0 {
                    assert(forall|j: int| 0 <= j < i + 1 ==> scheduled@[j]);
                }
            }
            i = i + 1;
        }
        if wave.len() == 0 {
            break;
        }
        // Mark the wave as scheduled.
        let mut p: usize = 0;
        while p < wave.len()
            invariant
                n == plan@.len(),
                scheduled@.len() == n,
                p <= wave@.len(),
                forall|q: int|
                    0 <= q < wave@.len() ==> start <= (#[trigger] wave@[q]) < n,
                forall|q1: int, q2: int|
                    0 <= q1 < q2 < wave@.len() ==> (#[trigger] wave@[q1]) < (#[trigger] wave@[q2]),
                forall|idx: int|
                    0 <= idx < n ==> (scheduled@[idx] == (pre_sched[idx] || exists|q: int|
                        0 <= q < p && (#[trigger] wave@[q]) == idx)),
                count_false(scheduled@) + p == count_false(pre_sched),
                forall|q: int| 0 <= q < wave@.len() ==> !pre_sched[wave@[q] as int],
            decreases wave@.len() - p,
        {
            let idx = wave[p];
            proof {
                assert(!scheduled@[idx as int]) by {
                    assert(!pre_sched[idx as int]);
                    assert(forall|q: int|
                        0 <= q < p ==> (#[trigger] wave@[q]) != idx);
                }
                lemma_count_false_update(scheduled@, idx as int);
            }
            scheduled.set(idx, true);
            p = p + 1;
        }
        proof {
            assert forall|j: int| 0 <= j < start && j < n implies scheduled@[j] by {
                assert(pre_sched[j]);
            }
        }
        let ghost wave_view = wave@;
        waves.push(wave);
        proof {
            let ws = waves@;
            assert(ws.drop_last() =~= pre_waves);
            assert(ws.last()@ == wave_view);
            assert(sum_sizes(ws) == sum_sizes(pre_waves) + wave_view.len());
            let lastw = ws.len() - 1;
            // Containment in old waves is unchanged by the push.
            assert forall|w: int, j: int|
                0 <= w < lastw implies (wave_contains(ws, w, j) <==> wave_contains(
                pre_waves,
                w,
                j,
            )) by {
                assert(ws[w] == pre_waves[w]);
            }
            // Flags now reflect membership in some wave.
            assert forall|j: int| start <= j < n implies (scheduled@[j] <==> exists|w: int|
                wave_contains(ws, w, j)) by {
                if scheduled@[j] {
                    if pre_sched[j] {
                        let w = choose|w: int| wave_contains(pre_waves, w, j);
                        assert(wave_contains(ws, w, j));
                    } else {
                        let q = choose|q: int|
                            0 <= q < wave_view.len() && (#[trigger] wave_view[q]) == j;
                        assert(wave_contains(ws, lastw, j));
                    }
                } else {
                    assert(!pre_sched[j]);
                    if exists|w: int| wave_contains(ws, w, j) {
                        let w = choose|w: int| wave_contains(ws, w, j);
                        if w < lastw {
                            assert(wave_contains(pre_waves, w, j));
                        } else {
                            let q = choose|q: int|
                                0 <= q < wave_view.len() && wave_view[q] == j;
                            assert(scheduled@[j]);
                        }
                    }
                }
            }
            // Uniqueness across the extended schedule.
            assert forall|w1: int, p1: int, w2: int, p2: int|
                #![trigger (ws[w1])@[p1], (ws[w2])@[p2]]
                0 <= w1 < ws.len() && 0 <= p1 < (ws[w1])@.len() && 0 <= w2 < ws.len() && 0 <= p2
                    < (ws[w2])@.len() && (ws[w1])@[p1] == (ws[w2])@[p2] implies w1 == w2 && p1
                    == p2 by {
                if w1 < lastw && w2 < lastw {
                    assert(ws[w1] == pre_waves[w1]);
                    assert(ws[w2] == pre_waves[w2]);
                } else if w1 == lastw && w2 == lastw {
                    if p1 != p2 {
                        assert(wave_view[p1] != wave_view[p2]);
                    }
                } else if w1 == lastw && w2 < lastw {
                    assert(!pre_sched[wave_view[p1] as int]);
                    assert(wave_contains(pre_waves, w2, (ws[w2])@[p2] as int));
                    assert(pre_sched[(ws[w2])@[p2] as int]);
                } else {
                    assert(!pre_sched[wave_view[p2] as int]);
                    assert(wave_contains(pre_waves, w1, (ws[w1])@[p1] as int));
                    assert(pre_sched[(ws[w1])@[p1] as int]);
                }
            }
            // Dependencies of the new wave stand in earlier waves.
            assert forall|w: int, p: int, i2: int|
                #![trigger (ws[w])@[p], kinds_of(plan@)[i2]]
                0 <= w < ws.len() && 0 <= p < (ws[w])@.len() && depends_on(
                    kinds_of(plan@),
                    (ws[w])@[p] as int,
                    i2,
                ) && start <= i2 implies scheduled_before(ws, w, i2) by {
                if w < lastw {
                    assert(ws[w] == pre_waves[w]);
                    assert(scheduled_before(pre_waves, w, i2));
                    let w2 = choose|w2: int| 0 <= w2 < w && wave_contains(pre_waves, w2, i2);
                    assert(wave_contains(ws, w2, i2));
                } else {
                    assert(pre_sched[i2]);
                    let w2 = choose|w2: int| wave_contains(pre_waves, w2, i2);
                    assert(wave_contains(ws, w2, i2));
                    assert(w2 < lastw);
                }
            }
        }
    }
    proof {
        assert forall|i2: int| start <= i2 < plan@.len() implies #[trigger] scheduled_somewhere(
            waves@,
            i2,
        ) by {
            assert(scheduled@[i2]);
        }
        lemma_count_false_all_true(scheduled@);
    }
    waves
}

} // verus!
