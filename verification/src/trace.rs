//! Runs of the machine: steps taken one after another, with the host's
//! answers taken in as the requests come. The laws here relate a run of a
//! statement or expression to the runs of its parts, as a recursive
//! evaluator would.
use vstd::prelude::*;
use crate::error::DiagnosticModel;
use crate::expr::ExprModel;
use crate::machine::{
    AnswerModel, ControlModel, FrameModel, MachineModel, Outcome, RequestModel, StepModel, law_answer_keeps_scoping,
    law_step_keeps_scoping, scoping, spec_answer, spec_step,
};
use crate::object::ObjectModel;
use crate::stmt::StmtModel;

verus! {

/// What a run has come to: the machine, the answers not yet taken in, the
/// requests made and the diagnostics reported, in order, and whether the run
/// stopped early (`failed` when it stopped on a runtime error).
pub struct Trace {
    pub machine: MachineModel,
    pub answers: Seq<AnswerModel>,
    pub requests: Seq<RequestModel>,
    pub diagnostics: Seq<DiagnosticModel>,
    pub stopped: bool,
    pub failed: bool,
}

/// One move of a run: the next answer taken in while a request is pending,
/// else a step.
pub open spec fn advance(m: MachineModel, answers: Seq<AnswerModel>) -> (Outcome, Seq<AnswerModel>) {
    if m.control is Await && answers.len() > 0 {
        (spec_answer(m, answers[0]), answers.drop_first())
    } else {
        (spec_step(m), answers)
    }
}

/// The run of `n` moves from `m`. It stops early when the execution finishes
/// or fails, or when a request is pending and no answer is left.
pub open spec fn run(m: MachineModel, answers: Seq<AnswerModel>, n: nat) -> Trace
    decreases n,
{
    if n == 0 {
        Trace { machine: m, answers, requests: seq![], diagnostics: seq![], stopped: false, failed: false }
    } else {
        let (o, rest) = advance(m, answers);
        match o.step {
            StepModel::Running => run(o.machine, rest, (n - 1) as nat),
            StepModel::Request(q) => if m.control is Await {
                Trace { machine: m, answers, requests: seq![], diagnostics: seq![], stopped: true, failed: false }
            } else {
                let t = run(o.machine, rest, (n - 1) as nat);
                Trace { requests: seq![q] + t.requests, ..t }
            },
            StepModel::Finished => Trace {
                machine: o.machine,
                answers: rest,
                requests: seq![],
                diagnostics: seq![],
                stopped: true,
                failed: false,
            },
            StepModel::Failed => Trace {
                machine: o.machine,
                answers: rest,
                requests: seq![],
                diagnostics: match o.diagnostic {
                    Some(d) => seq![d],
                    None => seq![],
                },
                stopped: true,
                failed: true,
            },
        }
    }
}

/// The machine `m` with the frames `pre` beneath its own: the state of a part
/// of a program while the rest of the program waits for it.
pub open spec fn below(m: MachineModel, pre: Seq<FrameModel>) -> MachineModel {
    MachineModel { frames: pre + m.frames, ..m }
}

/// A run with the frames `pre` beneath every machine in it.
pub open spec fn trace_below(t: Trace, pre: Seq<FrameModel>) -> Trace {
    Trace { machine: below(t.machine, pre), ..t }
}

/// A run of `a` moves followed by a run of `b` moves from where it stopped.
pub open spec fn then_run(t: Trace, b: nat) -> Trace {
    let u = run(t.machine, t.answers, b);
    Trace { requests: t.requests + u.requests, diagnostics: t.diagnostics + u.diagnostics, ..u }
}

/// The machine that starts evaluating `e` in the scopes of `m`.
pub open spec fn eval_from(m: MachineModel, e: ExprModel) -> MachineModel {
    MachineModel { control: ControlModel::Eval(e), frames: seq![], ..m }
}

/// The machine that starts executing `s` in the scopes of `m`.
pub open spec fn exec_from(m: MachineModel, s: StmtModel) -> MachineModel {
    MachineModel { control: ControlModel::Exec(s), frames: seq![], ..m }
}

/// What an `if` does once its condition has the value `v`: run the then
/// branch when `v` is truthy, else the else branch if there is one, else
/// nothing.
pub open spec fn branch_taken(v: ObjectModel, then_branch: StmtModel, else_branch: Option<StmtModel>) -> ControlModel {
    if v.is_truthy() {
        ControlModel::Exec(then_branch)
    } else {
        match else_branch {
            Some(s) => ControlModel::Exec(s),
            None => ControlModel::Idle,
        }
    }
}

pub open spec fn boxed(s: Option<StmtModel>) -> Option<Box<StmtModel>> {
    match s {
        Some(b) => Some(Box::new(b)),
        None => None,
    }
}

proof fn lemma_frames_below(pre: Seq<FrameModel>, fs: Seq<FrameModel>)
    ensures
        forall|x: Seq<FrameModel>, f: FrameModel| #[trigger] (pre + x).push(f) == pre + x.push(f),
        fs.len() > 0 ==> (pre + fs).last() == fs.last(),
        fs.len() > 0 ==> (pre + fs).drop_last() == pre + fs.drop_last(),
        pre + seq![] == pre,
{
    assert forall|x: Seq<FrameModel>, f: FrameModel| #[trigger] (pre + x).push(f) == pre + x.push(f) by {
        assert((pre + x).push(f) =~= pre + x.push(f));
    }
    if fs.len() > 0 {
        assert((pre + fs).drop_last() =~= pre + fs.drop_last());
    }
    assert(pre + seq![] =~= pre);
}

/// A move that neither finishes nor fails is the same move with frames
/// beneath; a move that fails fails the same way with frames beneath.
proof fn lemma_advance_below(m: MachineModel, answers: Seq<AnswerModel>, pre: Seq<FrameModel>)
    ensures
        ({
            let (o, rest) = advance(m, answers);
            let (o2, rest2) = advance(below(m, pre), answers);
            &&& rest2 == rest
            &&& (o.step is Running || (o.step is Request && !(m.control is Await))) ==> o2 == Outcome {
                machine: below(o.machine, pre),
                ..o
            }
            &&& o.step is Failed ==> o2 == o
        }),
{
    lemma_frames_below(pre, m.frames);
    let bm = below(m, pre);
    match m.control {
        ControlModel::Value(v) => {
            if m.frames.len() > 0 {
                assert(bm.frames.last() == m.frames.last());
                assert(bm.frames.drop_last() == pre + m.frames.drop_last());
            }
        },
        ControlModel::Idle => {
            if m.frames.len() > 0 {
                assert(bm.frames.last() == m.frames.last());
                assert(bm.frames.drop_last() == pre + m.frames.drop_last());
            }
        },
        _ => {},
    }
}

/// A run that does not stop is the same run with frames beneath it; a run
/// that fails fails the same way with frames beneath it.
proof fn lemma_run_below(m: MachineModel, answers: Seq<AnswerModel>, n: nat, pre: Seq<FrameModel>)
    ensures
        !run(m, answers, n).stopped ==> run(below(m, pre), answers, n) == trace_below(run(m, answers, n), pre),
        run(m, answers, n).failed ==> run(below(m, pre), answers, n) == run(m, answers, n),
        run(m, answers, n).failed ==> run(m, answers, n).stopped,
    decreases n,
{
    if n > 0 {
        let (o, rest) = advance(m, answers);
        lemma_advance_below(m, answers, pre);
        lemma_run_below(o.machine, rest, (n - 1) as nat, pre);
    }
}

/// A run of `a + b` moves is a run of `a` moves and then, unless it stopped,
/// a run of `b` moves.
proof fn lemma_run_split(m: MachineModel, answers: Seq<AnswerModel>, a: nat, b: nat)
    ensures
        !run(m, answers, a).stopped ==> run(m, answers, a + b) == then_run(run(m, answers, a), b),
    decreases a,
{
    if a == 0 {
        let u = run(m, answers, b);
        assert(Seq::<RequestModel>::empty() + u.requests =~= u.requests);
        assert(Seq::<DiagnosticModel>::empty() + u.diagnostics =~= u.diagnostics);
    } else {
        let (o, rest) = advance(m, answers);
        lemma_run_split(o.machine, rest, (a - 1) as nat, b);
        assert((a + b - 1) as nat == ((a - 1) as nat + b) as nat);
        let t = run(o.machine, rest, (a - 1) as nat);
        let u = run(t.machine, t.answers, b);
        match o.step {
            StepModel::Request(q) => {
                assert(seq![q] + (t.requests + u.requests) =~= (seq![q] + t.requests) + u.requests);
            },
            _ => {},
        }
    }
}

/// A grouping is its inner expression: one move after evaluating `(e)`
/// begins, the run is the run of evaluating `e` in the same state.
pub proof fn law_grouping_is_transparent(m: MachineModel, e: ExprModel, answers: Seq<AnswerModel>, n: nat)
    requires
        m.control == ControlModel::Eval(ExprModel::Grouping { expression: Box::new(e) }),
    ensures
        run(m, answers, n + 1) == run(MachineModel { control: ControlModel::Eval(e), ..m }, answers, n),
{
    assert((n + 1 - 1) as nat == n);
}

/// An `if` runs exactly one branch, or none. When its condition, evaluated in
/// the scopes of the `if`, comes to the value `v` in `n` moves, then `n + 2`
/// moves after the `if` begins the machine stands where the chosen branch
/// begins (the then branch when `v` is truthy, else the else branch, else
/// nothing), with the scopes, requests and diagnostics of the condition's
/// run and the frames of the `if`. When the condition fails, the `if` fails
/// the same way and no branch runs.
pub proof fn law_if_runs_one_branch(
    m: MachineModel,
    condition: ExprModel,
    then_branch: StmtModel,
    else_branch: Option<StmtModel>,
    answers: Seq<AnswerModel>,
    n: nat,
)
    requires
        m.control == ControlModel::Exec(
            StmtModel::If { condition, then_branch: Box::new(then_branch), else_branch: boxed(else_branch) },
        ),
    ensures
        ({
            let t = run(eval_from(m, condition), answers, n);
            &&& (!t.stopped && t.machine.control is Value && t.machine.frames.len() == 0) ==> run(
                m,
                answers,
                n + 2,
            ) == (Trace {
                machine: MachineModel {
                    control: branch_taken(t.machine.control->Value_0, then_branch, else_branch),
                    frames: m.frames,
                    ..t.machine
                },
                ..t
            })
            &&& t.failed ==> run(m, answers, n + 1) == t
        }),
{
    let start = eval_from(m, condition);
    let pre = m.frames.push(FrameModel::Branch(then_branch, else_branch));
    let m1 = below(start, pre);
    lemma_frames_below(pre, seq![]);
    assert(spec_step(m).machine == m1);
    assert(run(m, answers, n + 1) == run(m1, answers, n)) by {
        assert((n + 1 - 1) as nat == n);
    }
    assert(run(m, answers, n + 2) == run(m1, answers, n + 1)) by {
        assert((n + 2 - 1) as nat == n + 1);
    }
    lemma_run_below(start, answers, n, pre);
    lemma_run_split(m1, answers, n, 1);
    let t = run(start, answers, n);
    if !t.stopped && t.machine.control is Value && t.machine.frames.len() == 0 {
        let lt = trace_below(t, pre);
        lemma_frames_below(pre, lt.machine.frames);
        assert(lt.machine.frames == pre);
        assert(lt.machine.frames.last() == FrameModel::Branch(then_branch, else_branch));
        assert(lt.machine.frames.drop_last() == m.frames);
        let u = run(lt.machine, lt.answers, 1);
        let o = advance(lt.machine, lt.answers).0;
        assert(o.step is Running);
        assert(o.machine == MachineModel {
            control: branch_taken(t.machine.control->Value_0, then_branch, else_branch),
            frames: m.frames,
            ..t.machine
        });
        assert(u == run(o.machine, lt.answers, 0));
        assert(u.requests =~= Seq::<RequestModel>::empty());
        assert(u.diagnostics =~= Seq::<DiagnosticModel>::empty());
        assert(t.requests + u.requests =~= t.requests);
        assert(t.diagnostics + u.diagnostics =~= t.diagnostics);
    }
}

/// Statements run in order, and a failure stops the run. When a sequence of
/// statements stands at statement `i` and that statement, executed in the
/// same scopes, completes in `n` moves, then `n + 1` moves later the
/// sequence stands at statement `i + 1`, with the scopes, requests and
/// diagnostics of the statement's run. When the statement fails, the whole
/// run fails the same way and no later statement runs. At the end of the
/// sequence, one move closes it, and closes the scope of a block.
pub proof fn law_statements_run_in_order(
    m: MachineModel,
    statements: Seq<StmtModel>,
    i: nat,
    scoped: bool,
    answers: Seq<AnswerModel>,
    n: nat,
)
    requires
        m.control == ControlModel::Idle,
        m.frames.len() > 0,
        m.frames.last() == FrameModel::Sequence(statements, i, scoped),
    ensures
        i < statements.len() ==> ({
            let t = run(exec_from(m, statements[i as int]), answers, n);
            &&& (!t.stopped && t.machine.control == ControlModel::Idle && t.machine.frames.len() == 0) ==> run(
                m,
                answers,
                n + 1,
            ) == (Trace {
                machine: MachineModel {
                    frames: m.frames.drop_last().push(FrameModel::Sequence(statements, i + 1, scoped)),
                    ..t.machine
                },
                ..t
            })
            &&& t.failed ==> run(m, answers, n + 1) == t
        }),
        i >= statements.len() ==> run(m, answers, 1) == (Trace {
            machine: MachineModel {
                env: if scoped { m.env.drop_last() } else { m.env },
                frames: m.frames.drop_last(),
                ..m
            },
            answers,
            requests: seq![],
            diagnostics: seq![],
            stopped: false,
            failed: false,
        }),
{
    if i < statements.len() {
        let start = exec_from(m, statements[i as int]);
        let pre = m.frames.drop_last().push(FrameModel::Sequence(statements, i + 1, scoped));
        let m1 = below(start, pre);
        lemma_frames_below(pre, seq![]);
        assert(spec_step(m).machine == m1);
        assert(run(m, answers, n + 1) == run(m1, answers, n)) by {
            assert((n + 1 - 1) as nat == n);
        }
        lemma_run_below(start, answers, n, pre);
        let t = run(start, answers, n);
        if !t.stopped && t.machine.control == ControlModel::Idle && t.machine.frames.len() == 0 {
            lemma_frames_below(pre, t.machine.frames);
        }
    } else {
        assert(run(m, answers, 1) == run(spec_step(m).machine, answers, 0));
    }
}

/// A program with no statements finishes in two moves and changes nothing.
pub proof fn law_empty_program_finishes(m: MachineModel, answers: Seq<AnswerModel>)
    requires
        m.control == ControlModel::Idle,
        m.frames == seq![FrameModel::Sequence(Seq::<StmtModel>::empty(), 0, false)],
    ensures
        run(m, answers, 2) == (Trace {
            machine: MachineModel { control: ControlModel::Done, frames: seq![], ..m },
            answers,
            requests: seq![],
            diagnostics: seq![],
            stopped: true,
            failed: false,
        }),
{
    let m1 = spec_step(m).machine;
    assert(m.frames.drop_last() =~= Seq::<FrameModel>::empty());
    assert(run(m, answers, 2) == run(m1, answers, 1));
}

/// A machine that a run can reach from the start of an execution: blocks
/// paired with their scopes, and no frame left once it is done.
pub open spec fn settled(m: MachineModel) -> bool {
    &&& scoping(m)
    &&& m.control is Done ==> m.frames.len() == 0
}

proof fn lemma_advance_settled(m: MachineModel, answers: Seq<AnswerModel>)
    requires
        settled(m),
    ensures
        settled(advance(m, answers).0.machine),
        advance(m, answers).0.machine.base == m.base,
        (advance(m, answers).0.step is Finished || advance(m, answers).0.step is Failed)
            ==> advance(m, answers).0.machine.frames.len() == 0,
{
    if m.control is Await && answers.len() > 0 {
        law_answer_keeps_scoping(m, answers[0]);
    } else {
        law_step_keeps_scoping(m);
    }
}

/// Every run from a settled machine stays settled and keeps its base; when it
/// finishes or fails, no frame is left.
proof fn lemma_run_settled(m: MachineModel, answers: Seq<AnswerModel>, n: nat)
    requires
        settled(m),
    ensures
        settled(run(m, answers, n).machine),
        run(m, answers, n).machine.base == m.base,
        (run(m, answers, n).stopped && !(run(m, answers, n).machine.control is Await))
            ==> run(m, answers, n).machine.frames.len() == 0,
    decreases n,
{
    if n > 0 {
        let (o, rest) = advance(m, answers);
        lemma_advance_settled(m, answers);
        lemma_run_settled(o.machine, rest, (n - 1) as nat);
    }
}

/// However a run ends, by finishing or by a runtime error, it leaves exactly
/// the scopes that were there when the execution began: every block it
/// opened has been closed.
pub proof fn law_run_restores_scopes(m: MachineModel, answers: Seq<AnswerModel>, n: nat)
    requires
        settled(m),
    ensures
        ({
            let t = run(m, answers, n);
            &&& settled(t.machine)
            &&& t.machine.base == m.base
            &&& (t.stopped && !(t.machine.control is Await)) ==> t.machine.frames.len() == 0 && t.machine.env.len()
                == m.base
        }),
{
    lemma_run_settled(m, answers, n);
}

/// The start of running `statements` as a block inside the scopes `caller`.
pub open spec fn block_start(caller: Seq<Map<Seq<char>, ObjectModel>>, statements: Seq<StmtModel>) -> MachineModel {
    MachineModel {
        env: caller.push(Map::empty()),
        base: caller.len(),
        control: ControlModel::Idle,
        frames: seq![FrameModel::Sequence(statements, 0, true)],
    }
}

/// A block hands back its caller's scopes: when the run of a block finishes
/// or fails, the scope that the block opened is closed and the caller's
/// scopes, and only those, remain.
pub proof fn law_block_restores_scopes(
    caller: Seq<Map<Seq<char>, ObjectModel>>,
    statements: Seq<StmtModel>,
    answers: Seq<AnswerModel>,
    n: nat,
)
    requires
        caller.len() >= 1,
    ensures
        ({
            let t = run(block_start(caller, statements), answers, n);
            (t.stopped && !(t.machine.control is Await)) ==> t.machine.frames.len() == 0 && t.machine.env.len()
                == caller.len()
        }),
{
    let m = block_start(caller, statements);
    assert(m.frames.drop_last() =~= Seq::<FrameModel>::empty());
    assert(crate::machine::scoped_frames(m.frames) == 1) by {
        reveal_with_fuel(crate::machine::scoped_frames, 2);
    }
    lemma_run_settled(m, answers, n);
}

/// Whether a statement's run completed normally: it neither stopped nor has
/// anything left to do.
pub open spec fn completed(t: Trace) -> bool {
    &&& !t.stopped
    &&& t.machine.control == ControlModel::Idle
    &&& t.machine.frames.len() == 0
}

/// Each statement executed on its own, one after another, the first in the
/// scopes of `m` and each next one where the one before left off, statement
/// `k` for `moves[k]` moves; the first that does not complete ends it.
pub open spec fn run_each(m: MachineModel, statements: Seq<StmtModel>, answers: Seq<AnswerModel>, moves: Seq<nat>) -> Trace
    decreases moves.len(),
{
    if moves.len() == 0 || statements.len() == 0 {
        Trace { machine: m, answers, requests: seq![], diagnostics: seq![], stopped: false, failed: false }
    } else {
        let u = run(exec_from(m, statements[0]), answers, moves[0]);
        if completed(u) {
            let r = run_each(u.machine, statements.drop_first(), u.answers, moves.drop_first());
            Trace { requests: u.requests + r.requests, diagnostics: u.diagnostics + r.diagnostics, ..r }
        } else {
            u
        }
    }
}

/// Whether every statement of `run_each` completed.
pub open spec fn each_completed(
    m: MachineModel,
    statements: Seq<StmtModel>,
    answers: Seq<AnswerModel>,
    moves: Seq<nat>,
) -> bool
    decreases moves.len(),
{
    if moves.len() == 0 || statements.len() == 0 {
        true
    } else {
        let u = run(exec_from(m, statements[0]), answers, moves[0]);
        completed(u) && each_completed(u.machine, statements.drop_first(), u.answers, moves.drop_first())
    }
}

/// The moves that a sequence takes to run its statements: each statement's
/// own and one more to begin it.
pub open spec fn total_moves(moves: Seq<nat>) -> nat
    decreases moves.len(),
{
    if moves.len() == 0 {
        0
    } else {
        moves[0] + 1 + total_moves(moves.drop_first())
    }
}

/// A run that has stopped stays where it stopped.
proof fn lemma_run_stays_stopped(m: MachineModel, answers: Seq<AnswerModel>, n: nat, k: nat)
    ensures
        run(m, answers, n).stopped ==> run(m, answers, n + k) == run(m, answers, n),
    decreases n,
{
    if n > 0 {
        let (o, rest) = advance(m, answers);
        lemma_run_stays_stopped(o.machine, rest, (n - 1) as nat, k);
        assert((n + k - 1) as nat == ((n - 1) as nat + k) as nat);
    }
}

/// A program runs its statements in order. Its run is that of executing each
/// statement on its own, one after another, each in the scopes the one
/// before left: when every statement completes, the sequence stands at its
/// end with the scopes, requests and diagnostics of those runs put together;
/// when one fails, the program fails with that statement's error, and no
/// statement after it runs. (With no statements, nothing runs.)
pub proof fn law_program_runs_in_order(
    m: MachineModel,
    statements: Seq<StmtModel>,
    i: nat,
    scoped: bool,
    answers: Seq<AnswerModel>,
    moves: Seq<nat>,
)
    requires
        m.control == ControlModel::Idle,
        m.frames.len() > 0,
        m.frames.last() == FrameModel::Sequence(statements, i, scoped),
        i + moves.len() == statements.len(),
    ensures
        ({
            let rest = statements.subrange(i as int, statements.len() as int);
            let t = run_each(m, rest, answers, moves);
            &&& each_completed(m, rest, answers, moves) ==> run(m, answers, total_moves(moves)) == (Trace {
                machine: MachineModel {
                    frames: m.frames.drop_last().push(FrameModel::Sequence(statements, statements.len(), scoped)),
                    ..t.machine
                },
                ..t
            })
            &&& t.failed ==> run(m, answers, total_moves(moves)) == t
        }),
    decreases moves.len(),
{
    let rest = statements.subrange(i as int, statements.len() as int);
    let fin = m.frames.drop_last().push(FrameModel::Sequence(statements, statements.len(), scoped));
    if moves.len() == 0 {
        assert(m.frames.drop_last().push(m.frames.last()) =~= m.frames);
        assert(fin == m.frames);
    } else {
        let n = moves[0];
        law_statements_run_in_order(m, statements, i, scoped, answers, n);
        assert(rest[0] == statements[i as int]);
        let u = run(exec_from(m, statements[i as int]), answers, n);
        let k = total_moves(moves.drop_first());
        assert(total_moves(moves) == (n + 1) + k);
        assert(rest.drop_first() =~= statements.subrange((i + 1) as int, statements.len() as int));
        if completed(u) {
            let m2 = MachineModel {
                frames: m.frames.drop_last().push(FrameModel::Sequence(statements, i + 1, scoped)),
                ..u.machine
            };
            let rs = rest.drop_first();
            let ms = moves.drop_first();
            law_program_runs_in_order(m2, statements, i + 1, scoped, u.answers, ms);
            assert(m2.frames.drop_last() =~= m.frames.drop_last());
            lemma_run_split(m, answers, n + 1, k);
            lemma_run_each_scopes(m2, u.machine, rs, u.answers, ms);
            let t2 = run_each(m2, rs, u.answers, ms);
            let t3 = run_each(u.machine, rs, u.answers, ms);
            assert(run_each(m, rest, answers, moves) == (Trace {
                requests: u.requests + t3.requests,
                diagnostics: u.diagnostics + t3.diagnostics,
                ..t3
            }));
            assert(each_completed(m, rest, answers, moves) == each_completed(u.machine, rs, u.answers, ms));
            let mid = run(m, answers, n + 1);
            assert(mid == (Trace { machine: m2, ..u }));
            let v = run(m2, u.answers, k);
            assert(run(m, answers, total_moves(moves)) == (Trace {
                requests: u.requests + v.requests,
                diagnostics: u.diagnostics + v.diagnostics,
                ..v
            }));
            if ms.len() == 0 {
                assert(t2.requests == t3.requests);
                assert(t2.diagnostics == t3.diagnostics);
                assert(!t3.failed);
                assert(MachineModel { frames: fin, ..t2.machine } == MachineModel { frames: fin, ..t3.machine });
            } else {
                assert(t2 == t3);
            }
            if each_completed(m, rest, answers, moves) {
                assert(v == (Trace { machine: MachineModel { frames: fin, ..t2.machine }, ..t2 }));
            }
            if t3.failed {
                assert(v == t2);
            }

        } else {
            lemma_run_split(m, answers, n + 1, k);
            lemma_run_stays_stopped(m, answers, n + 1, k);
            assert(run_each(m, rest, answers, moves) == u);
            assert(!each_completed(m, rest, answers, moves));
            lemma_run_below(exec_from(m, statements[i as int]), answers, n, seq![]);
        }
    }
}

/// `run_each` reads only the scopes and base of the machine it starts from.
proof fn lemma_run_each_scopes(
    a: MachineModel,
    b: MachineModel,
    statements: Seq<StmtModel>,
    answers: Seq<AnswerModel>,
    moves: Seq<nat>,
)
    requires
        a.env == b.env,
        a.base == b.base,
    ensures
        (moves.len() > 0 && statements.len() > 0) ==> run_each(a, statements, answers, moves) == run_each(
            b,
            statements,
            answers,
            moves,
        ),
        each_completed(a, statements, answers, moves) == each_completed(b, statements, answers, moves),
{
    if moves.len() > 0 && statements.len() > 0 {
        assert(exec_from(a, statements[0]) == exec_from(b, statements[0]));
    }
}

} // verus!
