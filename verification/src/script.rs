//! Script interpretation: expansion of a declarative script into an ordered
//! instruction list, and state-independent validation of that plan.
//!
//! The script grammar is deliberately small and fixed here. A script is
//! UTF-8 text, one instruction per line; blank lines and lines starting with
//! `#` are ignored. Tokens are separated by single or repeated spaces:
//!
//! - `add <service-name> <image>` starts a service running `image`
//! - `rm <service-name>` removes a service (a no-op if it is not live)
//! - `wait <service-name>...` requires the named services to be live
//!
//! Interpretation is purely syntactic and deterministic; it never touches
//! cluster state. Validation is a function of the instruction kinds alone:
//! a plan valid once is valid on every re-run.
use vstd::prelude::*;
use crate::bytes::bytes_eq;

verus! {

/// What one instruction does, with its arguments.
pub enum InstructionKind {
    /// Start a service under a fresh name.
    AddService { service_name: Vec<u8>, image: Vec<u8> },
    /// Remove a service; removing an absent service is a no-op.
    RemoveService { service_name: Vec<u8> },
    /// Require the named services to be live.
    Wait { service_names: Vec<Vec<u8>> },
}

/// Mathematical image of an instruction kind.
pub enum KindModel {
    AddService { service_name: Seq<u8>, image: Seq<u8> },
    RemoveService { service_name: Seq<u8> },
    Wait { service_names: Seq<Seq<u8>> },
}

/// The model of an instruction kind.
pub open spec fn model_of(k: InstructionKind) -> KindModel {
    match k {
        InstructionKind::AddService { service_name, image } => KindModel::AddService {
            service_name: service_name@,
            image: image@,
        },
        InstructionKind::RemoveService { service_name } => KindModel::RemoveService {
            service_name: service_name@,
        },
        InstructionKind::Wait { service_names } => KindModel::Wait {
            service_names: service_names@.map_values(|n: Vec<u8>| n@),
        },
    }
}

/// One interpreted step of a run.
pub struct Instruction {
    /// 1-based line of the script the instruction came from.
    pub line: usize,
    pub kind: InstructionKind,
}

/// The kind models of a plan.
pub open spec fn kinds_of(plan: Seq<Instruction>) -> Seq<KindModel> {
    plan.map_values(|ins: Instruction| model_of(ins.kind))
}

/// Names a kind writes (services it creates or removes).
pub open spec fn writes_of(k: KindModel) -> Seq<Seq<u8>> {
    match k {
        KindModel::AddService { service_name, .. } => seq![service_name],
        KindModel::RemoveService { service_name } => seq![service_name],
        KindModel::Wait { .. } => Seq::empty(),
    }
}

/// Names a kind reads (services whose state it observes).
pub open spec fn reads_of(k: KindModel) -> Seq<Seq<u8>> {
    match k {
        KindModel::AddService { .. } => Seq::empty(),
        KindModel::RemoveService { service_name } => seq![service_name],
        KindModel::Wait { service_names } => service_names,
    }
}

/// Two kinds conflict when one writes a name the other reads or writes.
pub open spec fn conflict(a: KindModel, b: KindModel) -> bool {
    exists|n: Seq<u8>|
        #![trigger writes_of(a).contains(n)]
        #![trigger reads_of(a).contains(n)]
        (writes_of(a).contains(n) && (reads_of(b).contains(n) || writes_of(b).contains(n))) || (
        reads_of(a).contains(n) && writes_of(b).contains(n))
}

/// Instruction `j` has a data dependency on the earlier instruction `i`.
pub open spec fn depends_on(kinds: Seq<KindModel>, j: int, i: int) -> bool {
    0 <= i < j < kinds.len() && conflict(kinds[i], kinds[j])
}

// ---------------------------------------------------------------------
// Validation
// ---------------------------------------------------------------------

/// The kind is an AddService of `n`.
pub open spec fn is_add_of(k: KindModel, n: Seq<u8>) -> bool {
    k matches KindModel::AddService { service_name, .. } && service_name == n
}

/// The kind is a RemoveService of `n`.
pub open spec fn is_remove_of(k: KindModel, n: Seq<u8>) -> bool {
    k matches KindModel::RemoveService { service_name } && service_name == n
}

/// Name `n` is available at step `k`: some earlier AddService created it and
/// no RemoveService in between took it away.
pub open spec fn available_at(kinds: Seq<KindModel>, k: int, n: Seq<u8>) -> bool {
    exists|j: int|
        0 <= j < k && is_add_of(kinds[j], n) && (forall|m: int|
            j < m < k ==> !is_remove_of(kinds[m], n))
}

/// Instruction `k` is semantically invalid: an AddService repeating an
/// earlier AddService name (duplicate service), or a Wait on a name no
/// earlier instruction makes available.
pub open spec fn invalid_at(kinds: Seq<KindModel>, k: int) -> bool {
    0 <= k < kinds.len() && match kinds[k] {
        KindModel::AddService { service_name, .. } => exists|j: int|
            0 <= j < k && is_add_of(kinds[j], service_name),
        KindModel::RemoveService { .. } => false,
        KindModel::Wait { service_names } => exists|x: int|
            0 <= x < service_names.len() && !available_at(kinds, k, service_names[x]),
    }
}

/// A plan is valid when no instruction is invalid.
pub open spec fn plan_valid(kinds: Seq<KindModel>) -> bool {
    forall|k: int| !invalid_at(kinds, k)
}

fn kind_is_add_of(k: &InstructionKind, n: &Vec<u8>) -> (r: bool)
    ensures
        r == is_add_of(model_of(*k), n@),
{
    match k {
        InstructionKind::AddService { service_name, .. } => bytes_eq(service_name, n),
        _ => false,
    }
}

fn kind_is_remove_of(k: &InstructionKind, n: &Vec<u8>) -> (r: bool)
    ensures
        r == is_remove_of(model_of(*k), n@),
{
    match k {
        InstructionKind::RemoveService { service_name } => bytes_eq(service_name, n),
        _ => false,
    }
}

/// Whether `n` is available at step `k` of the plan: scan backwards for the
/// latest mention; it decides.
fn check_available(plan: &Vec<Instruction>, k: usize, n: &Vec<u8>) -> (r: bool)
    requires
        k <= plan@.len(),
    ensures
        r == available_at(kinds_of(plan@), k as int, n@),
{
    let ghost kinds = kinds_of(plan@);
    let mut j: usize = k;
    while j > 0
        invariant
            j <= k <= plan@.len(),
            kinds == kinds_of(plan@),
            forall|m: int|
                j <= m < k ==> !is_add_of(kinds[m], n@) && !is_remove_of(kinds[m], n@),
        decreases j,
    {
        j = j - 1;
        proof {
            assert(kinds[j as int] == model_of(plan@[j as int].kind));
        }
        if kind_is_add_of(&plan[j].kind, n) {
            proof {
                assert(available_at(kinds, k as int, n@));
            }
            return true;
        }
        if kind_is_remove_of(&plan[j].kind, n) {
            proof {
                assert forall|j2: int|
                    0 <= j2 < k && is_add_of(kinds[j2], n@) implies exists|m: int|
                    j2 < m < k && is_remove_of(kinds[m], n@) by {
                    assert(j2 < j);
                    assert(is_remove_of(kinds[j as int], n@));
                }
            }
            return false;
        }
    }
    proof {
        if available_at(kinds, k as int, n@) {
            let j2 = choose|j2: int|
                0 <= j2 < k && is_add_of(kinds[j2], n@) && (forall|m: int|
                    j2 < m < k ==> !is_remove_of(kinds[m], n@));
            assert(!is_add_of(kinds[j2], n@));
        }
    }
    false
}

/// Where and why a plan is invalid.
pub struct ValidationFailure {
    /// Index of the first invalid instruction.
    pub index: usize,
    /// Script line of that instruction.
    pub line: usize,
}

/// Validate a plan. Validation depends on the instruction kinds alone,
/// never on cluster state, so a plan valid once stays valid on re-runs.
/// Fails exactly on invalid plans, reporting the first invalid instruction.
pub fn validate_plan(plan: &Vec<Instruction>) -> (r: Result<(), ValidationFailure>)
    ensures
        r is Ok <==> plan_valid(kinds_of(plan@)),
        r matches Err(f) ==> invalid_at(kinds_of(plan@), f.index as int) && (forall|j: int|
            0 <= j < f.index ==> !invalid_at(kinds_of(plan@), j)) && f.index < plan@.len()
            && f.line == plan@[f.index as int].line,
{
    let ghost kinds = kinds_of(plan@);
    let mut k: usize = 0;
    while k < plan.len()
        invariant
            k <= plan@.len(),
            kinds == kinds_of(plan@),
            forall|j: int| 0 <= j < k ==> !invalid_at(kinds, j),
        decreases plan@.len() - k,
    {
        proof {
            assert(kinds[k as int] == model_of(plan@[k as int].kind));
        }
        let bad: bool = match &plan[k].kind {
            InstructionKind::AddService { service_name, .. } => {
                let mut dup = false;
                let mut j: usize = 0;
                while j < k
                    invariant
                        j <= k <= plan@.len(),
                        kinds == kinds_of(plan@),
                        k < plan@.len(),
                        service_name@ == (match kinds[k as int] {
                            KindModel::AddService { service_name: sn, .. } => sn,
                            _ => Seq::empty(),
                        }),
                        kinds[k as int] is AddService,
                        dup <==> exists|m: int| 0 <= m < j && is_add_of(kinds[m], service_name@),
                    decreases k - j,
                {
                    proof {
                        assert(kinds[j as int] == model_of(plan@[j as int].kind));
                    }
                    if kind_is_add_of(&plan[j].kind, service_name) {
                        dup = true;
                    }
                    j = j + 1;
                }
                dup
            },
            InstructionKind::RemoveService { .. } => false,
            InstructionKind::Wait { service_names } => {
                let mut missing = false;
                let mut x: usize = 0;
                while x < service_names.len()
                    invariant
                        x <= service_names@.len(),
                        kinds == kinds_of(plan@),
                        k < plan@.len(),
                        service_names@.map_values(|n: Vec<u8>| n@) == (match kinds[k as int] {
                            KindModel::Wait { service_names: sn } => sn,
                            _ => Seq::empty(),
                        }),
                        kinds[k as int] is Wait,
                        missing <==> exists|y: int|
                            0 <= y < x && !available_at(
                                kinds,
                                k as int,
                                (#[trigger] service_names@[y])@,
                            ),
                    decreases service_names@.len() - x,
                {
                    proof {
                        assert(service_names@.map_values(|n: Vec<u8>| n@)[x as int]
                            == service_names@[x as int]@);
                    }
                    if !check_available(plan, k, &service_names[x]) {
                        missing = true;
                    }
                    x = x + 1;
                }
                proof {
                    let sn = (match kinds[k as int] {
                        KindModel::Wait { service_names: sn } => sn,
                        _ => Seq::empty(),
                    });
                    assert(sn == service_names@.map_values(|n: Vec<u8>| n@));
                    if missing {
                        let y = choose|y: int|
                            0 <= y < service_names@.len() && !available_at(
                                kinds,
                                k as int,
                                (#[trigger] service_names@[y])@,
                            );
                        assert(sn[y] == service_names@[y]@);
                        assert(exists|y2: int|
                            0 <= y2 < sn.len() && !available_at(kinds, k as int, sn[y2]));
                    } else {
                        if exists|y2: int|
                            0 <= y2 < sn.len() && !available_at(kinds, k as int, sn[y2]) {
                            let y2 = choose|y2: int|
                                0 <= y2 < sn.len() && !available_at(kinds, k as int, sn[y2]);
                            assert(sn[y2] == service_names@[y2]@);
                            assert(!available_at(kinds, k as int, service_names@[y2]@));
                        }
                    }
                }
                missing
            },
        };
        if bad {
            proof {
                assert(invalid_at(kinds, k as int));
            }
            return Err(ValidationFailure { index: k, line: plan[k].line });
        }
        proof {
            assert(!invalid_at(kinds, k as int));
        }
        k = k + 1;
    }
    Ok(())
}

// ---------------------------------------------------------------------
// Interpretation
// ---------------------------------------------------------------------

/// A script line that could not be parsed.
pub struct InterpretFailure {
    /// 1-based line number of the offending line.
    pub line: usize,
}

fn is_kw_add(t: &Vec<u8>) -> (r: bool)
    ensures
        r == (t@ =~= seq![97u8, 100u8, 100u8]),
{
    if t.len() == 3 && t[0] == 97 && t[1] == 100 && t[2] == 100 {
        proof {
            assert(t@ =~= seq![97u8, 100u8, 100u8]);
        }
        true
    } else {
        false
    }
}

fn is_kw_rm(t: &Vec<u8>) -> (r: bool)
    ensures
        r == (t@ =~= seq![114u8, 109u8]),
{
    if t.len() == 2 && t[0] == 114 && t[1] == 109 {
        proof {
            assert(t@ =~= seq![114u8, 109u8]);
        }
        true
    } else {
        false
    }
}

fn is_kw_wait(t: &Vec<u8>) -> (r: bool)
    ensures
        r == (t@ =~= seq![119u8, 97u8, 105u8, 116u8]),
{
    if t.len() == 4 && t[0] == 119 && t[1] == 97 && t[2] == 105 && t[3] == 116 {
        proof {
            assert(t@ =~= seq![119u8, 97u8, 105u8, 116u8]);
        }
        true
    } else {
        false
    }
}

// ---------------------------------------------------------------------
// The grammar, as spec functions over the script bytes
// ---------------------------------------------------------------------

/// Tokens of the unread part of a line, given the token read so far and the
/// tokens already complete: split on spaces, empty tokens dropped.
pub open spec fn tokens_acc(line: Seq<u8>, cur: Seq<u8>, acc: Seq<Seq<u8>>) -> Seq<Seq<u8>>
    decreases line.len(),
{
    if line.len() == 0 {
        if cur.len() == 0 {
            acc
        } else {
            acc.push(cur)
        }
    } else if line[0] == 32 {
        if cur.len() == 0 {
            tokens_acc(line.skip(1), Seq::empty(), acc)
        } else {
            tokens_acc(line.skip(1), Seq::empty(), acc.push(cur))
        }
    } else {
        tokens_acc(line.skip(1), cur.push(line[0]), acc)
    }
}

/// The space-separated tokens of one line.
pub open spec fn line_tokens(line: Seq<u8>) -> Seq<Seq<u8>> {
    tokens_acc(line, Seq::empty(), Seq::empty())
}

/// What one tokenized line means: nothing (blank or comment), one
/// instruction kind, or a parse failure.
pub open spec fn line_directive(tokens: Seq<Seq<u8>>) -> Result<Option<KindModel>, ()> {
    if tokens.len() == 0 {
        Ok(None)
    } else if tokens[0].len() > 0 && tokens[0][0] == 35 {
        Ok(None)
    } else if tokens[0] == seq![97u8, 100u8, 100u8] {
        if tokens.len() == 3 {
            Ok(Some(KindModel::AddService { service_name: tokens[1], image: tokens[2] }))
        } else {
            Err(())
        }
    } else if tokens[0] == seq![114u8, 109u8] {
        if tokens.len() == 2 {
            Ok(Some(KindModel::RemoveService { service_name: tokens[1] }))
        } else {
            Err(())
        }
    } else if tokens[0] == seq![119u8, 97u8, 105u8, 116u8] {
        if tokens.len() >= 2 {
            Ok(Some(KindModel::Wait { service_names: tokens.skip(1) }))
        } else {
            Err(())
        }
    } else {
        Err(())
    }
}

/// The plan of the unread part of a script, given the current line so far,
/// its 1-based number, and the (line, kind) pairs already produced; or the
/// number of the first line that does not parse.
pub open spec fn parse_acc(
    s: Seq<u8>,
    line: Seq<u8>,
    line_no: int,
    acc: Seq<(int, KindModel)>,
) -> Result<Seq<(int, KindModel)>, int>
    decreases s.len(),
{
    if s.len() == 0 {
        match line_directive(line_tokens(line)) {
            Result::Err(_) => Err(line_no),
            Result::Ok(opt) => match opt {
                Some(k) => Ok(acc.push((line_no, k))),
                None => Ok(acc),
            },
        }
    } else if s[0] == 10 {
        match line_directive(line_tokens(line)) {
            Result::Err(_) => Err(line_no),
            Result::Ok(opt) => parse_acc(
                s.skip(1),
                Seq::empty(),
                line_no + 1,
                match opt {
                    Some(k) => acc.push((line_no, k)),
                    None => acc,
                },
            ),
        }
    } else {
        parse_acc(s.skip(1), line.push(s[0]), line_no, acc)
    }
}

/// The whole meaning of a script: its ordered (line, kind) pairs, or the
/// first unparseable line. Interpretation is this function of the script
/// bytes and nothing else.
pub open spec fn parse_script(s: Seq<u8>) -> Result<Seq<(int, KindModel)>, int> {
    parse_acc(s, Seq::empty(), 1, Seq::empty())
}

/// The (line, kind) pairs of an interpreted plan.
pub open spec fn plan_models(plan: Seq<Instruction>) -> Seq<(int, KindModel)> {
    plan.map_values(|ins: Instruction| (ins.line as int, model_of(ins.kind)))
}

/// Plans with equal (line, kind) pairs have equal kinds: interpretation
/// determines the instruction sequence of a run.
pub proof fn lemma_plan_models_kinds(plan1: Seq<Instruction>, plan2: Seq<Instruction>)
    requires
        plan_models(plan1) == plan_models(plan2),
    ensures
        kinds_of(plan1) == kinds_of(plan2),
{
    assert(plan_models(plan1).len() == plan1.len());
    assert(plan_models(plan2).len() == plan2.len());
    assert forall|k: int| 0 <= k < plan1.len() implies kinds_of(plan1)[k] == kinds_of(plan2)[k] by {
        assert(plan_models(plan1)[k] == (plan1[k].line as int, model_of(plan1[k].kind)));
        assert(plan_models(plan2)[k] == (plan2[k].line as int, model_of(plan2[k].kind)));
        assert(plan_models(plan1)[k] == plan_models(plan2)[k]);
        assert(kinds_of(plan1)[k] == model_of(plan1[k].kind));
        assert(kinds_of(plan2)[k] == model_of(plan2[k].kind));
    }
    assert(kinds_of(plan1) =~= kinds_of(plan2));
}

/// Split one line into space-separated tokens, dropping empty ones.
fn tokenize(line: &Vec<u8>) -> (tokens: Vec<Vec<u8>>)
    ensures
        tokens@.map_values(|t: Vec<u8>| t@) == line_tokens(line@),
{
    let ghost target = line_tokens(line@);
    let mut tokens: Vec<Vec<u8>> = Vec::new();
    let mut current: Vec<u8> = Vec::new();
    let mut i: usize = 0;
    proof {
        assert(line@.skip(0) =~= line@);
        assert(tokens@.map_values(|t: Vec<u8>| t@) =~= Seq::<Seq<u8>>::empty());
    }
    while i < line.len()
        invariant
            i <= line@.len(),
            target == line_tokens(line@),
            tokens_acc(
                line@.skip(i as int),
                current@,
                tokens@.map_values(|t: Vec<u8>| t@),
            ) == target,
        decreases line@.len() - i,
    {
        proof {
            assert(line@.skip(i as int)[0] == line@[i as int]);
            assert(line@.skip(i as int).skip(1) =~= line@.skip(i + 1));
        }
        let b = line[i];
        if b == 32 {
            if current.len() > 0 {
                let ghost pre = tokens@.map_values(|t: Vec<u8>| t@);
                let ghost cur = current@;
                tokens.push(current);
                proof {
                    assert(tokens@.map_values(|t: Vec<u8>| t@) =~= pre.push(cur));
                }
                current = Vec::new();
            }
            proof {
                assert(current@ =~= Seq::<u8>::empty());
            }
        } else {
            current.push(b);
        }
        i = i + 1;
    }
    proof {
        assert(line@.skip(line@.len() as int).len() == 0);
    }
    if current.len() > 0 {
        let ghost pre = tokens@.map_values(|t: Vec<u8>| t@);
        let ghost cur = current@;
        tokens.push(current);
        proof {
            assert(tokens@.map_values(|t: Vec<u8>| t@) =~= pre.push(cur));
        }
    }
    tokens
}

/// Interpret a script into its ordered instruction list: exactly the plan
/// [`parse_script`] gives for these bytes, or the first line that does not
/// parse. Purely syntactic and deterministic: no cluster state is read or
/// written, and equal scripts always yield equal plans.
pub fn interpret(script: &Vec<u8>) -> (r: Result<Vec<Instruction>, InterpretFailure>)
    ensures
        r is Ok <==> parse_script(script@) is Ok,
        r matches Ok(plan) ==> parse_script(script@) == Ok::<Seq<(int, KindModel)>, int>(
            plan_models(plan@),
        ),
        r matches Err(f) ==> parse_script(script@) == Err::<Seq<(int, KindModel)>, int>(
            f.line as int,
        ),
        r matches Ok(plan) ==> (forall|k1: int, k2: int|
            0 <= k1 < k2 < plan@.len() ==> plan@[k1].line < plan@[k2].line),
        r matches Ok(plan) ==> forall|k: int|
            0 <= k < plan@.len() ==> (#[trigger] plan@[k]).line >= 1,
        r matches Ok(plan) ==> plan@.len() <= script@.len() + 1,
{
    let ghost target = parse_script(script@);
    let mut plan: Vec<Instruction> = Vec::new();
    let mut line_no: usize = 0;
    let mut pos: usize = 0;
    proof {
        assert(script@.skip(0) =~= script@);
        assert(plan_models(plan@) =~= Seq::<(int, KindModel)>::empty());
    }
    while pos < script.len()
        invariant
            pos <= script@.len(),
            line_no <= pos,
            plan@.len() <= line_no,
            target == parse_script(script@),
            parse_acc(
                script@.skip(pos as int),
                Seq::empty(),
                line_no + 1,
                plan_models(plan@),
            ) == target,
            forall|k1: int, k2: int|
                0 <= k1 < k2 < plan@.len() ==> plan@[k1].line < plan@[k2].line,
            forall|k: int|
                0 <= k < plan@.len() ==> (#[trigger] plan@[k]).line >= 1 && plan@[k].line
                    <= line_no,
        decreases script.len() + 1 - pos,
    {
        // Collect the next line.
        let ghost pos0 = pos;
        let mut line: Vec<u8> = Vec::new();
        while pos < script.len() && script[pos] != 10
            invariant
                pos0 <= pos <= script@.len(),
                line_no <= pos0,
                target == parse_script(script@),
                parse_acc(script@.skip(pos as int), line@, line_no + 1, plan_models(plan@))
                    == target,
            decreases script.len() - pos,
        {
            proof {
                assert(script@.skip(pos as int)[0] == script@[pos as int]);
                assert(script@.skip(pos as int).skip(1) =~= script@.skip(pos + 1));
            }
            line.push(script[pos]);
            pos = pos + 1;
        }
        // The line is complete: unfold one line of the script's meaning.
        let ghost acc = plan_models(plan@);
        let ghost ln = line_no + 1;
        let ghost directive = line_directive(line_tokens(line@));
        proof {
            if pos < script@.len() {
                assert(script@.skip(pos as int)[0] == script@[pos as int]);
                assert(script@.skip(pos as int).skip(1) =~= script@.skip(pos + 1));
            } else {
                assert(script@.skip(pos as int).len() == 0);
            }
        }
        if pos < script.len() {
            pos = pos + 1;  // past the newline
        }
        line_no = line_no + 1;
        // From here on: if the directive errs, target == Err(ln); otherwise
        // target == parse_acc(skip(pos), empty, ln + 1, acc') where acc'
        // extends acc exactly when the directive carries a kind.
        let tokens = tokenize(&line);
        let ghost models = tokens@.map_values(|t: Vec<u8>| t@);
        if tokens.len() == 0 {
            proof {
                assert(directive == Ok::<Option<KindModel>, ()>(None));
            }
            continue;
        }
        proof {
            assert(models[0] == tokens@[0]@);
        }
        if tokens[0].len() > 0 && tokens[0][0] == 35 {
            // comment line
            proof {
                assert(directive == Ok::<Option<KindModel>, ()>(None));
            }
            continue;
        }
        let kind: InstructionKind = if is_kw_add(&tokens[0]) {
            if tokens.len() != 3 {
                proof {
                    assert(directive is Err);
                }
                return Err(InterpretFailure { line: line_no });
            }
            proof {
                assert(models[1] == tokens@[1]@);
                assert(models[2] == tokens@[2]@);
            }
            let name = tokens[1].clone();
            let image = tokens[2].clone();
            InstructionKind::AddService { service_name: name, image }
        } else if is_kw_rm(&tokens[0]) {
            if tokens.len() != 2 {
                proof {
                    assert(directive is Err);
                }
                return Err(InterpretFailure { line: line_no });
            }
            proof {
                assert(models[1] == tokens@[1]@);
            }
            InstructionKind::RemoveService { service_name: tokens[1].clone() }
        } else if is_kw_wait(&tokens[0]) {
            if tokens.len() < 2 {
                proof {
                    assert(directive is Err);
                }
                return Err(InterpretFailure { line: line_no });
            }
            let mut names: Vec<Vec<u8>> = Vec::new();
            let mut x: usize = 1;
            while x < tokens.len()
                invariant
                    1 <= x <= tokens@.len(),
                    names@.len() == x - 1,
                    forall|y: int| 0 <= y < x - 1 ==> (#[trigger] names@[y])@ == tokens@[y + 1]@,
                decreases tokens.len() - x,
            {
                names.push(tokens[x].clone());
                x = x + 1;
            }
            proof {
                assert forall|y: int|
                    0 <= y < names@.len() implies (#[trigger] names@[y])@ == models.skip(1)[y] by {
                    assert(names@[y]@ == tokens@[y + 1]@);
                    assert(models[y + 1] == tokens@[y + 1]@);
                }
                assert(names@.map_values(|n: Vec<u8>| n@) =~= models.skip(1));
            }
            InstructionKind::Wait { service_names: names }
        } else {
            proof {
                assert(directive is Err);
            }
            return Err(InterpretFailure { line: line_no });
        };
        proof {
            assert(directive == Ok::<Option<KindModel>, ()>(Some(model_of(kind))));
        }
        let ghost pre_plan = plan@;
        plan.push(Instruction { line: line_no, kind });
        proof {
            assert(plan_models(plan@) =~= plan_models(pre_plan).push(
                (line_no as int, model_of(plan@.last().kind)),
            ));
        }
    }
    proof {
        assert(script@.skip(pos as int).len() == 0);
        assert(line_tokens(Seq::<u8>::empty()) =~= Seq::<Seq<u8>>::empty());
        assert(target == Ok::<Seq<(int, KindModel)>, int>(plan_models(plan@)));
    }
    Ok(plan)
}

// ---------------------------------------------------------------------
// Kind equality (for the instruction cache)
// ---------------------------------------------------------------------

/// Byte-exact equality of two instruction kinds.
#[verifier::loop_isolation(false)]
pub fn kind_eq(a: &InstructionKind, b: &InstructionKind) -> (r: bool)
    ensures
        r == (model_of(*a) == model_of(*b)),
{
    match (a, b) {
        (
            InstructionKind::AddService { service_name: n1, image: i1 },
            InstructionKind::AddService { service_name: n2, image: i2 },
        ) => bytes_eq(n1, n2) && bytes_eq(i1, i2),
        (
            InstructionKind::RemoveService { service_name: n1 },
            InstructionKind::RemoveService { service_name: n2 },
        ) => bytes_eq(n1, n2),
        (
            InstructionKind::Wait { service_names: s1 },
            InstructionKind::Wait { service_names: s2 },
        ) => {
            proof {
                assert(model_of(*a) == (KindModel::Wait {
                    service_names: s1@.map_values(|n: Vec<u8>| n@),
                }));
                assert(model_of(*b) == (KindModel::Wait {
                    service_names: s2@.map_values(|n: Vec<u8>| n@),
                }));
            }
            if s1.len() != s2.len() {
                proof {
                    assert(s1@.map_values(|n: Vec<u8>| n@).len() == s1@.len());
                    assert(s2@.map_values(|n: Vec<u8>| n@).len() == s2@.len());
                }
                return false;
            }
            let mut x: usize = 0;
            while x < s1.len()
                invariant
                    x <= s1@.len(),
                    s1@.len() == s2@.len(),
                    forall|y: int| 0 <= y < x ==> s1@[y]@ == s2@[y]@,
                decreases s1@.len() - x,
            {
                if !bytes_eq(&s1[x], &s2[x]) {
                    proof {
                        assert(s1@.map_values(|n: Vec<u8>| n@)[x as int] == s1@[x as int]@);
                        assert(s2@.map_values(|n: Vec<u8>| n@)[x as int] == s2@[x as int]@);
                    }
                    return false;
                }
                x = x + 1;
            }
            proof {
                assert(s1@.map_values(|n: Vec<u8>| n@) =~= s2@.map_values(|n: Vec<u8>| n@));
            }
            true
        },
        _ => false,
    }
}

} // verus!
