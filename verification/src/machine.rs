//! The evaluation of Lox programs as a small-step machine: a control (what is
//! being done now), a stack of frames (what remains to be done with its
//! result), and the environment. Arithmetic on numbers, printing and the
//! clock are requests that the host answers.
use vstd::prelude::*;
use crate::enviorment::{
    law_assign_keeps_domains, law_define_keeps_others, law_get_after_define, spec_assign, spec_define, spec_lookup,
    undefined_message,
};
use crate::error::{DiagnosticModel, LocationModel, Phase};
use crate::expr::ExprModel;
use crate::object::{Callable, ObjectModel};
use crate::stmt::StmtModel;
use crate::token::{TokenModel, TokenType};

verus! {

/// Work for the host.
pub enum RequestModel {
    /// A binary operator applied to two numbers.
    Binary { operator: TokenType, left: Seq<char>, right: Seq<char> },
    /// The negation of a number.
    Negate(Seq<char>),
    /// A line to print.
    Print(Seq<char>),
    /// The current time.
    Clock,
}

/// The host's answer to a request.
pub enum AnswerModel {
    Number(Seq<char>),
    Boolean(bool),
    Printed,
}

/// Whether an answer is of the kind that the request asks for: a number for
/// `+ - * /`, a negation and the clock, a boolean for a comparison or an
/// equality, and `Printed` for a line to print.
pub open spec fn answer_fits(request: RequestModel, a: AnswerModel) -> bool {
    match request {
        RequestModel::Binary { operator, .. } => if arithmetic_operator(operator) {
            a is Number
        } else {
            a is Boolean
        },
        RequestModel::Negate(_) => a is Number,
        RequestModel::Print(_) => a is Printed,
        RequestModel::Clock => a is Number,
    }
}

/// The operators whose result is a number.
pub open spec fn arithmetic_operator(t: TokenType) -> bool {
    t == TokenType::Plus || t == TokenType::Minus || t == TokenType::Star || t == TokenType::Slash
}

/// Whether a numeral denotes zero: it has a digit, and every digit is `0`.
/// (The host writes every number in its binary64 form, so zero reads `0` or
/// `-0`; the scanner's numerals are digits with an optional fraction.)
pub open spec fn zero_numeral(s: Seq<char>) -> bool {
    &&& exists|k: int| 0 <= k < s.len() && s[k] == '0'
    &&& forall|k: int| 0 <= k < s.len() ==> (s[k] == '0' || s[k] == '.' || s[k] == '-')
}

pub enum ControlModel {
    Eval(ExprModel),
    Value(ObjectModel),
    Exec(StmtModel),
    Idle,
    Await(RequestModel),
    Done,
}

pub enum FrameModel {
    Unary(TokenModel),
    BinaryLeft(TokenModel, ExprModel),
    BinaryRight(TokenModel, ObjectModel),
    Logical(TokenModel, ExprModel),
    Assign(TokenModel),
    Callee(TokenModel, Seq<ExprModel>),
    Arguments(TokenModel, ObjectModel, Seq<ObjectModel>, Seq<ExprModel>),
    Discard,
    Print,
    Define(TokenModel),
    Branch(StmtModel, Option<StmtModel>),
    LoopTest(ExprModel, StmtModel),
    LoopBody(ExprModel, StmtModel),
    Sequence(Seq<StmtModel>, nat, bool),
}

pub struct MachineModel {
    pub env: Seq<Map<Seq<char>, ObjectModel>>,
    /// The number of scopes when the execution began.
    pub base: nat,
    pub control: ControlModel,
    pub frames: Seq<FrameModel>,
}

pub enum StepModel {
    Running,
    Finished,
    Request(RequestModel),
    Failed,
}

pub struct Outcome {
    pub machine: MachineModel,
    pub step: StepModel,
    pub diagnostic: Option<DiagnosticModel>,
}

/// The number of frames that opened a scope.
pub open spec fn scoped_frames(frames: Seq<FrameModel>) -> nat
    decreases frames.len(),
{
    if frames.len() == 0 {
        0
    } else {
        scoped_frames(frames.drop_last()) + match frames.last() {
            FrameModel::Sequence(_, _, true) => 1nat,
            _ => 0nat,
        }
    }
}

/// Every open block has its own scope, above the scopes that were there when
/// the execution began.
pub open spec fn scoping(m: MachineModel) -> bool {
    &&& m.base >= 1
    &&& m.env.len() == m.base + scoped_frames(m.frames)
}

// ---------------------------------------------------------------------------
// Messages.
// ---------------------------------------------------------------------------

pub open spec fn runtime_error(token: TokenModel, message: Seq<char>) -> DiagnosticModel {
    DiagnosticModel {
        line: token.line,
        phase: Phase::Runtime,
        location: if token.token_type == TokenType::EOF {
            LocationModel::AtEnd
        } else {
            LocationModel::AtLexeme(token.text())
        },
        message,
    }
}

/// `<type>(<value>)`, as messages show a value.
pub open spec fn described(v: ObjectModel) -> Seq<char> {
    v.kind_name() + "("@ + v.display() + ")"@
}

pub open spec fn operand_message(v: ObjectModel) -> Seq<char> {
    "Operand must be a number, found: "@ + described(v)
}

pub open spec fn operands_message(expected: Seq<char>, l: ObjectModel, r: ObjectModel) -> Seq<char> {
    "Operands must be "@ + expected + ", found: "@ + described(l) + " and "@ + described(r)
}

pub open spec fn digit_text(d: nat) -> Seq<char> {
    if d == 0 {
        "0"@
    } else if d == 1 {
        "1"@
    } else if d == 2 {
        "2"@
    } else if d == 3 {
        "3"@
    } else if d == 4 {
        "4"@
    } else if d == 5 {
        "5"@
    } else if d == 6 {
        "6"@
    } else if d == 7 {
        "7"@
    } else if d == 8 {
        "8"@
    } else {
        "9"@
    }
}

/// The decimal numeral of `n`.
pub open spec fn decimal(n: nat) -> Seq<char>
    decreases n,
{
    if n < 10 {
        digit_text(n)
    } else {
        decimal(n / 10) + digit_text(n % 10)
    }
}

pub open spec fn arity_message(expected: nat, got: nat) -> Seq<char> {
    "Expected "@ + decimal(expected) + " arguments but got "@ + decimal(got) + "."@
}

// ---------------------------------------------------------------------------
// Equality of values that are not both numbers.
// ---------------------------------------------------------------------------

/// Lox `==` on two values that are not both numbers: strings by their text,
/// booleans, `nil`, and the same function; values of different types differ.
pub open spec fn objects_equal(l: ObjectModel, r: ObjectModel) -> bool {
    match (l, r) {
        (ObjectModel::String(a), ObjectModel::String(b)) => a == b,
        (ObjectModel::Boolean(a), ObjectModel::Boolean(b)) => a == b,
        (ObjectModel::Nil, ObjectModel::Nil) => true,
        (ObjectModel::Callable(a), ObjectModel::Callable(b)) => a == b,
        _ => false,
    }
}

// ---------------------------------------------------------------------------
// The step relation.
// ---------------------------------------------------------------------------

pub open spec fn go(m: MachineModel, control: ControlModel, frames: Seq<FrameModel>) -> Outcome {
    Outcome { machine: MachineModel { control, frames, ..m }, step: StepModel::Running, diagnostic: None }
}

pub open spec fn go_env(
    m: MachineModel,
    env: Seq<Map<Seq<char>, ObjectModel>>,
    control: ControlModel,
    frames: Seq<FrameModel>,
) -> Outcome {
    Outcome { machine: MachineModel { env, control, frames, ..m }, step: StepModel::Running, diagnostic: None }
}

pub open spec fn wait(m: MachineModel, request: RequestModel, frames: Seq<FrameModel>) -> Outcome {
    Outcome {
        machine: MachineModel { control: ControlModel::Await(request), frames, ..m },
        step: StepModel::Request(request),
        diagnostic: None,
    }
}

/// A runtime error: the execution stops, its scopes are closed, and the
/// error is reported at `token`.
pub open spec fn fail(m: MachineModel, token: TokenModel, message: Seq<char>) -> Outcome {
    Outcome {
        machine: MachineModel {
            env: m.env.subrange(0, m.base as int),
            base: m.base,
            control: ControlModel::Done,
            frames: seq![],
        },
        step: StepModel::Failed,
        diagnostic: Some(runtime_error(token, message)),
    }
}

pub open spec fn eval_step(m: MachineModel, e: ExprModel) -> Outcome {
    match e {
        ExprModel::Literal { object } => go(m, ControlModel::Value(object), m.frames),
        ExprModel::Grouping { expression } => go(m, ControlModel::Eval(*expression), m.frames),
        ExprModel::Unary { operator, right } => go(
            m,
            ControlModel::Eval(*right),
            m.frames.push(FrameModel::Unary(operator)),
        ),
        ExprModel::Binary { left, operator, right } => go(
            m,
            ControlModel::Eval(*left),
            m.frames.push(FrameModel::BinaryLeft(operator, *right)),
        ),
        ExprModel::Logical { left, operator, right } => go(
            m,
            ControlModel::Eval(*left),
            m.frames.push(FrameModel::Logical(operator, *right)),
        ),
        ExprModel::Variable { name } => match spec_lookup(m.env, name.text()) {
            Some(v) => go(m, ControlModel::Value(v), m.frames),
            None => fail(m, name, undefined_message(name.text())),
        },
        ExprModel::Assign { name, value } => go(
            m,
            ControlModel::Eval(*value),
            m.frames.push(FrameModel::Assign(name)),
        ),
        ExprModel::Call { callee, paren, arguments } => go(
            m,
            ControlModel::Eval(*callee),
            m.frames.push(FrameModel::Callee(paren, arguments)),
        ),
    }
}

/// Whether an operator takes two numbers and nothing else.
pub open spec fn numeric_operator(t: TokenType) -> bool {
    t == TokenType::Minus || t == TokenType::Star || t == TokenType::Slash || t == TokenType::Greater || t
        == TokenType::GreaterEqual || t == TokenType::Less || t == TokenType::LessEqual
}

pub open spec fn binary_step(m: MachineModel, op: TokenModel, l: ObjectModel, r: ObjectModel, rest: Seq<FrameModel>) -> Outcome {
    let t = op.token_type;
    if t == TokenType::Plus {
        match (l, r) {
            (ObjectModel::Number(a), ObjectModel::Number(b)) => wait(
                m,
                RequestModel::Binary { operator: t, left: a, right: b },
                rest,
            ),
            (ObjectModel::String(a), ObjectModel::String(b)) => go(m, ControlModel::Value(ObjectModel::String(a + b)), rest),
            _ => fail(m, op, operands_message("two numbers or two strings"@, l, r)),
        }
    } else if numeric_operator(t) {
        match (l, r) {
            (ObjectModel::Number(a), ObjectModel::Number(b)) => if t == TokenType::Slash && zero_numeral(b) {
                fail(m, op, "Division by zero."@)
            } else {
                wait(m, RequestModel::Binary { operator: t, left: a, right: b }, rest)
            },
            _ => fail(m, op, operands_message("numbers"@, l, r)),
        }
    } else if t == TokenType::EqualEqual || t == TokenType::BangEqual {
        match (l, r) {
            (ObjectModel::Number(a), ObjectModel::Number(b)) => wait(
                m,
                RequestModel::Binary { operator: t, left: a, right: b },
                rest,
            ),
            _ => go(
                m,
                ControlModel::Value(
                    ObjectModel::Boolean(
                        if t == TokenType::EqualEqual {
                            objects_equal(l, r)
                        } else {
                            !objects_equal(l, r)
                        },
                    ),
                ),
                rest,
            ),
        }
    } else {
        fail(m, op, "Invalid binary operator: "@ + op.text())
    }
}

pub open spec fn call_step(
    m: MachineModel,
    paren: TokenModel,
    callee: ObjectModel,
    args: Seq<ObjectModel>,
    rest: Seq<FrameModel>,
) -> Outcome {
    match callee {
        ObjectModel::Callable(c) => if args.len() != c.spec_arity() {
            fail(m, paren, arity_message(c.spec_arity(), args.len()))
        } else {
            wait(m, RequestModel::Clock, rest)
        },
        _ => fail(m, paren, "Can only call functions and classes."@),
    }
}

pub open spec fn value_step(m: MachineModel, v: ObjectModel, top: FrameModel, rest: Seq<FrameModel>) -> Outcome {
    match top {
        FrameModel::Unary(op) => if op.token_type == TokenType::Minus {
            match v {
                ObjectModel::Number(n) => wait(m, RequestModel::Negate(n), rest),
                _ => fail(m, op, operand_message(v)),
            }
        } else if op.token_type == TokenType::Bang {
            go(m, ControlModel::Value(ObjectModel::Boolean(!v.is_truthy())), rest)
        } else {
            fail(m, op, "Invalid unary operator: "@ + op.text())
        },
        FrameModel::BinaryLeft(op, right) => go(m, ControlModel::Eval(right), rest.push(FrameModel::BinaryRight(op, v))),
        FrameModel::BinaryRight(op, l) => binary_step(m, op, l, v, rest),
        FrameModel::Logical(op, right) => if (op.token_type == TokenType::Or && v.is_truthy()) || (op.token_type
            != TokenType::Or && !v.is_truthy()) {
            go(m, ControlModel::Value(v), rest)
        } else {
            go(m, ControlModel::Eval(right), rest)
        },
        FrameModel::Assign(name) => match spec_lookup(m.env, name.text()) {
            Some(_) => go_env(m, spec_assign(m.env, name.text(), v), ControlModel::Value(v), rest),
            None => fail(m, name, undefined_message(name.text())),
        },
        FrameModel::Callee(paren, args) => if args.len() == 0 {
            call_step(m, paren, v, seq![], rest)
        } else {
            go(m, ControlModel::Eval(args[0]), rest.push(FrameModel::Arguments(paren, v, seq![], args)))
        },
        FrameModel::Arguments(paren, callee, done, args) => {
            let done = done.push(v);
            if done.len() < args.len() {
                go(
                    m,
                    ControlModel::Eval(args[done.len() as int]),
                    rest.push(FrameModel::Arguments(paren, callee, done, args)),
                )
            } else {
                call_step(m, paren, callee, done, rest)
            }
        },
        FrameModel::Discard => go(m, ControlModel::Idle, rest),
        FrameModel::Print => wait(m, RequestModel::Print(v.display()), rest),
        FrameModel::Define(name) => go_env(m, spec_define(m.env, name.text(), v), ControlModel::Idle, rest),
        FrameModel::Branch(then_branch, else_branch) => if v.is_truthy() {
            go(m, ControlModel::Exec(then_branch), rest)
        } else {
            match else_branch {
                Some(s) => go(m, ControlModel::Exec(s), rest),
                None => go(m, ControlModel::Idle, rest),
            }
        },
        FrameModel::LoopTest(condition, body) => if v.is_truthy() {
            go(m, ControlModel::Exec(body), rest.push(FrameModel::LoopBody(condition, body)))
        } else {
            go(m, ControlModel::Idle, rest)
        },
        FrameModel::LoopBody(..) | FrameModel::Sequence(..) => go(m, ControlModel::Idle, m.frames),
    }
}

pub open spec fn exec_step(m: MachineModel, s: StmtModel) -> Outcome {
    match s {
        StmtModel::Expression { expression } => go(
            m,
            ControlModel::Eval(expression),
            m.frames.push(FrameModel::Discard),
        ),
        StmtModel::Print { expression } => go(m, ControlModel::Eval(expression), m.frames.push(FrameModel::Print)),
        StmtModel::Var { name, initializer } => match initializer {
            Some(e) => go(m, ControlModel::Eval(e), m.frames.push(FrameModel::Define(name))),
            None => go_env(m, spec_define(m.env, name.text(), ObjectModel::Nil), ControlModel::Idle, m.frames),
        },
        StmtModel::Block { statements } => go_env(
            m,
            m.env.push(Map::empty()),
            ControlModel::Idle,
            m.frames.push(FrameModel::Sequence(statements, 0, true)),
        ),
        StmtModel::If { condition, then_branch, else_branch } => go(
            m,
            ControlModel::Eval(condition),
            m.frames.push(
                FrameModel::Branch(
                    *then_branch,
                    match else_branch {
                        Some(b) => Some(*b),
                        None => None,
                    },
                ),
            ),
        ),
        StmtModel::While { condition, body } => go(
            m,
            ControlModel::Eval(condition),
            m.frames.push(FrameModel::LoopTest(condition, *body)),
        ),
    }
}

pub open spec fn idle_step(m: MachineModel, top: FrameModel, rest: Seq<FrameModel>) -> Outcome {
    match top {
        FrameModel::Sequence(stmts, i, scoped) => if i < stmts.len() {
            go(m, ControlModel::Exec(stmts[i as int]), rest.push(FrameModel::Sequence(stmts, i + 1, scoped)))
        } else if scoped {
            go_env(m, m.env.drop_last(), ControlModel::Idle, rest)
        } else {
            go(m, ControlModel::Idle, rest)
        },
        FrameModel::LoopBody(condition, body) => go(
            m,
            ControlModel::Eval(condition),
            rest.push(FrameModel::LoopTest(condition, body)),
        ),
        _ => go(m, ControlModel::Idle, rest),
    }
}

/// One step of the machine.
pub open spec fn spec_step(m: MachineModel) -> Outcome {
    match m.control {
        ControlModel::Done => Outcome { machine: m, step: StepModel::Finished, diagnostic: None },
        ControlModel::Await(request) => Outcome { machine: m, step: StepModel::Request(request), diagnostic: None },
        ControlModel::Eval(e) => eval_step(m, e),
        ControlModel::Value(v) => if m.frames.len() == 0 {
            Outcome { machine: m, step: StepModel::Finished, diagnostic: None }
        } else {
            value_step(m, v, m.frames.last(), m.frames.drop_last())
        },
        ControlModel::Exec(s) => exec_step(m, s),
        ControlModel::Idle => if m.frames.len() == 0 {
            Outcome {
                machine: MachineModel { control: ControlModel::Done, ..m },
                step: StepModel::Finished,
                diagnostic: None,
            }
        } else {
            idle_step(m, m.frames.last(), m.frames.drop_last())
        },
    }
}

/// The host's answer taken in. A number or boolean is the value of the
/// pending operation, and a printed line ends the print statement. An answer
/// of another kind than the request asks for is refused: nothing changes and
/// the request stands. Outside a request nothing changes.
pub open spec fn spec_answer(m: MachineModel, a: AnswerModel) -> Outcome {
    match m.control {
        ControlModel::Await(request) => if !answer_fits(request, a) {
            Outcome { machine: m, step: StepModel::Request(request), diagnostic: None }
        } else {
            match a {
                AnswerModel::Number(n) => go(m, ControlModel::Value(ObjectModel::Number(n)), m.frames),
                AnswerModel::Boolean(b) => go(m, ControlModel::Value(ObjectModel::Boolean(b)), m.frames),
                AnswerModel::Printed => go(m, ControlModel::Idle, m.frames),
            }
        },
        _ => Outcome { machine: m, step: StepModel::Running, diagnostic: None },
    }
}

// ---------------------------------------------------------------------------
// Laws.
// ---------------------------------------------------------------------------

proof fn lemma_scoped_push(frames: Seq<FrameModel>, f: FrameModel)
    ensures
        scoped_frames(frames.push(f)) == scoped_frames(frames) + match f {
            FrameModel::Sequence(_, _, true) => 1nat,
            _ => 0nat,
        },
{
    assert(frames.push(f).drop_last() =~= frames);
}

/// Every step keeps each open block paired with its own scope: blocks always
/// close the scope they opened, on every path, errors included.
pub proof fn law_step_keeps_scoping(m: MachineModel)
    requires
        scoping(m),
    ensures
        scoping(spec_step(m).machine),
{
    let frames = m.frames;
    assert forall|f: FrameModel| #[trigger] scoped_frames(frames.push(f)) == scoped_frames(frames) + match f {
        FrameModel::Sequence(_, _, true) => 1nat,
        _ => 0nat,
    } by {
        lemma_scoped_push(frames, f);
    }
    if frames.len() > 0 {
        let top = frames.last();
        let rest = frames.drop_last();
        assert(rest.push(top) =~= frames);
        lemma_scoped_push(rest, top);
        assert forall|f: FrameModel| #[trigger] scoped_frames(rest.push(f)) == scoped_frames(rest) + match f {
            FrameModel::Sequence(_, _, true) => 1nat,
            _ => 0nat,
        } by {
            lemma_scoped_push(rest, f);
        }
        match m.control {
            ControlModel::Value(v) => {
                match top {
                    FrameModel::Assign(name) => {
                        law_assign_keeps_domains(m.env, name.text(), v);
                    },
                    _ => {},
                }
            },
            _ => {},
        }
    }
}

/// Taking in an answer keeps each open block paired with its own scope.
pub proof fn law_answer_keeps_scoping(m: MachineModel, a: AnswerModel)
    requires
        scoping(m),
    ensures
        scoping(spec_answer(m, a).machine),
{
}

/// When an execution has finished, or stopped on an error, the environment
/// has exactly the scopes it had when the execution began.
pub proof fn law_end_restores_environment(m: MachineModel)
    requires
        scoping(m),
        m.frames.len() == 0,
    ensures
        m.env.len() == m.base,
{
}

/// `or` yields its left operand when it is true, and `and` when it is false,
/// without evaluating the right operand; otherwise the right operand is
/// evaluated and its value is the result.
pub proof fn law_logical_short_circuit(m: MachineModel, v: ObjectModel, op: TokenModel, right: ExprModel)
    requires
        m.control == ControlModel::Value(v),
        m.frames.len() > 0,
        m.frames.last() == FrameModel::Logical(op, right),
    ensures
        ((op.token_type == TokenType::Or) == v.is_truthy()) ==> spec_step(m).machine.control == ControlModel::Value(v),
        ((op.token_type == TokenType::Or) != v.is_truthy()) ==> spec_step(m).machine.control == ControlModel::Eval(right),
        spec_step(m).machine.frames == m.frames.drop_last(),
        spec_step(m).machine.env == m.env,
{
}

/// A step that stops on a runtime error reports one diagnostic, ends the
/// execution, and leaves the environment with the scopes it had when the
/// execution began.
pub proof fn law_error_closes_scopes(m: MachineModel)
    requires
        scoping(m),
        spec_step(m).step is Failed,
    ensures
        spec_step(m).machine.env == m.env.subrange(0, m.base as int),
        spec_step(m).machine.frames.len() == 0,
        spec_step(m).machine.control == ControlModel::Done,
        spec_step(m).diagnostic is Some,
{
}

/// A finished execution stays finished.
pub proof fn law_finished_is_final(m: MachineModel)
    requires
        spec_step(m).step is Finished,
    ensures
        spec_step(spec_step(m).machine).step is Finished,
        spec_step(spec_step(m).machine).machine == spec_step(m).machine,
{
}

/// Executing `var name;` binds `name` to nil in the innermost scope, and
/// `var name = e;` binds it to the value of `e`, once that value is in; no
/// other variable changes and no scope is opened or closed.
pub proof fn law_var_declaration(m: MachineModel, name: TokenModel, v: ObjectModel, rest: Seq<FrameModel>, other: Seq<char>)
    requires
        m.env.len() >= 1,
        other != name.text(),
    ensures
        m.control == ControlModel::Exec(StmtModel::Var { name, initializer: None }) ==> {
            let o = spec_step(m);
            &&& o.step is Running
            &&& spec_lookup(o.machine.env, name.text()) == Some(ObjectModel::Nil)
            &&& spec_lookup(o.machine.env, other) == spec_lookup(m.env, other)
            &&& o.machine.env.len() == m.env.len()
            &&& o.machine.frames == m.frames
        },
        (m.control == ControlModel::Value(v) && m.frames == rest.push(FrameModel::Define(name))) ==> {
            let o = spec_step(m);
            &&& o.step is Running
            &&& spec_lookup(o.machine.env, name.text()) == Some(v)
            &&& spec_lookup(o.machine.env, other) == spec_lookup(m.env, other)
            &&& o.machine.env.len() == m.env.len()
            &&& o.machine.frames == rest
        },
{
    law_get_after_define(m.env, name.text(), ObjectModel::Nil);
    law_define_keeps_others(m.env, name.text(), other, ObjectModel::Nil);
    law_get_after_define(m.env, name.text(), v);
    law_define_keeps_others(m.env, name.text(), other, v);
    if m.frames == rest.push(FrameModel::Define(name)) {
        assert(m.frames.drop_last() =~= rest);
    }
}

/// Division fails with "Division by zero." exactly when the divisor is zero:
/// a divisor whose numeral holds a digit from 1 to 9 is never zero, and the
/// host is asked for the quotient; the divisors `0` and `-0`, as the host
/// writes zero, fail at the operator.
pub proof fn law_division_by_zero(m: MachineModel, op: TokenModel, a: Seq<char>, b: Seq<char>, rest: Seq<FrameModel>)
    requires
        op.token_type == TokenType::Slash,
    ensures
        (exists|k: int| 0 <= k < b.len() && '1' <= #[trigger] b[k] <= '9') ==> {
            let o = binary_step(m, op, ObjectModel::Number(a), ObjectModel::Number(b), rest);
            &&& o.step == StepModel::Request(RequestModel::Binary { operator: TokenType::Slash, left: a, right: b })
            &&& o.diagnostic is None
            &&& o.machine.frames == rest
            &&& o.machine.env == m.env
        },
        (b == "0"@ || b == "-0"@) ==> {
            let o = binary_step(m, op, ObjectModel::Number(a), ObjectModel::Number(b), rest);
            &&& o.step is Failed
            &&& o.diagnostic == Some(runtime_error(op, "Division by zero."@))
        },
{
    reveal_strlit("0");
    reveal_strlit("-0");
    if exists|k: int| 0 <= k < b.len() && '1' <= #[trigger] b[k] <= '9' {
        let k = choose|k: int| 0 <= k < b.len() && '1' <= #[trigger] b[k] <= '9';
        assert(!zero_numeral(b));
    }
    if b == "0"@ {
        assert(b[0] == '0');
        assert(zero_numeral(b));
    }
    if b == "-0"@ {
        assert(b[1] == '0');
        assert(zero_numeral(b));
    }
}

/// `==` on values that are not both numbers: two strings are equal exactly
/// when they have the same characters; every such value equals itself;
/// values of different types are unequal; and `!=` answers the opposite of
/// `==`.
pub proof fn law_equality(
    m: MachineModel,
    eq: TokenModel,
    ne: TokenModel,
    l: ObjectModel,
    r: ObjectModel,
    rest: Seq<FrameModel>,
)
    requires
        eq.token_type == TokenType::EqualEqual,
        ne.token_type == TokenType::BangEqual,
        !(l is Number && r is Number),
    ensures
        binary_step(m, eq, l, r, rest).step is Running,
        binary_step(m, eq, l, r, rest).machine.control is Value,
        binary_step(m, eq, l, r, rest).machine.control->Value_0 is Boolean,
        binary_step(m, ne, l, r, rest).machine.control == ControlModel::Value(
            ObjectModel::Boolean(!binary_step(m, eq, l, r, rest).machine.control->Value_0->Boolean_0),
        ),
        (l is String && r is String) ==> binary_step(m, eq, l, r, rest).machine.control == ControlModel::Value(
            ObjectModel::Boolean(l->String_0 == r->String_0),
        ),
        l == r ==> binary_step(m, eq, l, r, rest).machine.control == ControlModel::Value(ObjectModel::Boolean(true)),
        l.kind_name() != r.kind_name() ==> binary_step(m, eq, l, r, rest).machine.control == ControlModel::Value(
            ObjectModel::Boolean(false),
        ),
{
    reveal_strlit("string");
    reveal_strlit("number");
    reveal_strlit("boolean");
    reveal_strlit("nil");
    reveal_strlit("callable");
}

/// Unary operators on the value `v` of their operand: `-` asks the host to
/// negate a number and fails on any other value; `!` gives the opposite of
/// the value's truthiness.
pub proof fn law_unary(m: MachineModel, op: TokenModel, v: ObjectModel, rest: Seq<FrameModel>)
    requires
        m.control == ControlModel::Value(v),
        m.frames == rest.push(FrameModel::Unary(op)),
    ensures
        op.token_type == TokenType::Minus && v is Number ==> spec_step(m).step == StepModel::Request(
            RequestModel::Negate(v->Number_0),
        ),
        op.token_type == TokenType::Minus && !(v is Number) ==> spec_step(m).step is Failed && spec_step(m).diagnostic
            == Some(runtime_error(op, "Operand must be a number, found: "@ + described(v))),
        op.token_type == TokenType::Bang ==> spec_step(m).machine.control == ControlModel::Value(
            ObjectModel::Boolean(!v.is_truthy()),
        ) && spec_step(m).machine.frames == rest,
{
    assert(m.frames.drop_last() =~= rest);
}

/// `+` joins two strings, asks the host to add two numbers, and fails on any
/// other pair of values; `- * / < <= > >=` ask the host about two numbers
/// (but for a division by zero) and fail on anything else.
pub proof fn law_arithmetic(m: MachineModel, op: TokenModel, l: ObjectModel, r: ObjectModel, rest: Seq<FrameModel>)
    ensures
        op.token_type == TokenType::Plus && l is String && r is String ==> binary_step(m, op, l, r, rest).machine.control
            == ControlModel::Value(ObjectModel::String(l->String_0 + r->String_0)),
        op.token_type == TokenType::Plus && l is Number && r is Number ==> binary_step(m, op, l, r, rest).step
            == StepModel::Request(
            RequestModel::Binary { operator: TokenType::Plus, left: l->Number_0, right: r->Number_0 },
        ),
        op.token_type == TokenType::Plus && !(l is String && r is String) && !(l is Number && r is Number)
            ==> binary_step(m, op, l, r, rest).step is Failed,
        (op.token_type == TokenType::Minus || op.token_type == TokenType::Star || op.token_type == TokenType::Less
            || op.token_type == TokenType::LessEqual || op.token_type == TokenType::Greater || op.token_type
            == TokenType::GreaterEqual) && l is Number && r is Number ==> binary_step(m, op, l, r, rest).step
            == StepModel::Request(
            RequestModel::Binary { operator: op.token_type, left: l->Number_0, right: r->Number_0 },
        ),
        (op.token_type == TokenType::Minus || op.token_type == TokenType::Star || op.token_type == TokenType::Slash
            || op.token_type == TokenType::Less || op.token_type == TokenType::LessEqual || op.token_type
            == TokenType::Greater || op.token_type == TokenType::GreaterEqual) && !(l is Number && r is Number)
            ==> binary_step(m, op, l, r, rest).step is Failed && binary_step(m, op, l, r, rest).diagnostic == Some(
            runtime_error(op, "Operands must be numbers, found: "@ + described(l) + " and "@ + described(r)),
        ),
{
    reveal_strlit("Operands must be ");
    reveal_strlit("numbers");
    reveal_strlit(", found: ");
    reveal_strlit("Operands must be numbers, found: ");
    assert("Operands must be "@ + "numbers"@ + ", found: "@ =~= "Operands must be numbers, found: "@);
    assert(operands_message("numbers"@, l, r) =~= "Operands must be numbers, found: "@ + described(l) + " and "@
        + described(r));
}

} // verus!
