use vstd::prelude::*;
use crate::enviorment::{Enviorment, global_scope};
use crate::error::{Diagnostic, DiagnosticModel, Error, Phase, diagnostics_view, error_at_token};
use crate::expr::{Expr, expr_models, lemma_expr_models};
use crate::machine::{
    AnswerModel, ControlModel, FrameModel, MachineModel, Outcome, RequestModel, StepModel, answer_fits, arity_message,
    binary_step, call_step, decimal, described, digit_text, eval_step, exec_step, fail, idle_step, numeric_operator,
    objects_equal, operand_message, zero_numeral, operands_message, scoping, scoped_frames, spec_answer, spec_step, value_step,
};
use crate::object::{Callable, Object, ObjectModel};
use crate::stmt::{Stmt, stmt_models, lemma_stmt_models};
use crate::token::{Token, TokenType};

verus! {

/// Work that the host does for a running program.
pub enum Request {
    /// A binary operator applied to two numbers.
    Binary { operator: TokenType, left: String, right: String },
    /// The negation of a number.
    Negate(String),
    /// A line to print.
    Print(String),
    /// The current time, in seconds.
    Clock,
}

impl View for Request {
    type V = RequestModel;

    open spec fn view(&self) -> RequestModel {
        match self {
            Request::Binary { operator, left, right } => RequestModel::Binary {
                operator: *operator,
                left: left@,
                right: right@,
            },
            Request::Negate(n) => RequestModel::Negate(n@),
            Request::Print(s) => RequestModel::Print(s@),
            Request::Clock => RequestModel::Clock,
        }
    }
}

impl Clone for Request {
    fn clone(&self) -> (r: Self)
        ensures
            r@ == self@,
    {
        match self {
            Request::Binary { operator, left, right } => Request::Binary {
                operator: *operator,
                left: left.clone(),
                right: right.clone(),
            },
            Request::Negate(n) => Request::Negate(n.clone()),
            Request::Print(s) => Request::Print(s.clone()),
            Request::Clock => Request::Clock,
        }
    }
}

/// The host's answer to a request.
pub enum Answer {
    /// A number, as its numeral.
    Number(String),
    Boolean(bool),
    /// The line was printed.
    Printed,
}

impl View for Answer {
    type V = AnswerModel;

    open spec fn view(&self) -> AnswerModel {
        match self {
            Answer::Number(n) => AnswerModel::Number(n@),
            Answer::Boolean(b) => AnswerModel::Boolean(*b),
            Answer::Printed => AnswerModel::Printed,
        }
    }
}

/// What a step of an execution came to.
pub enum Step {
    /// There is more to do.
    Running,
    /// The execution is over.
    Finished,
    /// The host must answer this request before the execution can go on.
    Request(Request),
    /// The execution stopped on an error.
    Failed(Error),
}

impl View for Step {
    type V = StepModel;

    open spec fn view(&self) -> StepModel {
        match self {
            Step::Running => StepModel::Running,
            Step::Finished => StepModel::Finished,
            Step::Request(r) => StepModel::Request(r@),
            Step::Failed(_) => StepModel::Failed,
        }
    }
}

enum Control<'a> {
    Eval(&'a Expr),
    Value(Object),
    Exec(&'a Stmt),
    Idle,
    Await(Request),
    Done,
}

enum Frame<'a> {
    Unary(&'a Token),
    BinaryLeft(&'a Token, &'a Expr),
    BinaryRight(&'a Token, Object),
    Logical(&'a Token, &'a Expr),
    Assign(&'a Token),
    Callee(&'a Token, &'a Vec<Expr>),
    Arguments(&'a Token, Object, Vec<Object>, &'a Vec<Expr>),
    Discard,
    Print,
    Define(&'a Token),
    Branch(&'a Stmt, Option<&'a Stmt>),
    LoopTest(&'a Expr, &'a Stmt),
    LoopBody(&'a Expr, &'a Stmt),
    Sequence(&'a Vec<Stmt>, usize, bool),
}

spec fn control_model(c: Control) -> ControlModel {
    match c {
        Control::Eval(e) => ControlModel::Eval(e.model()),
        Control::Value(v) => ControlModel::Value(v@),
        Control::Exec(s) => ControlModel::Exec(s.model()),
        Control::Idle => ControlModel::Idle,
        Control::Await(r) => ControlModel::Await(r@),
        Control::Done => ControlModel::Done,
    }
}

pub open spec fn objects_view(vs: Seq<Object>) -> Seq<ObjectModel> {
    vs.map_values(|o: Object| o@)
}

spec fn frame_model(f: Frame) -> FrameModel {
    match f {
        Frame::Unary(t) => FrameModel::Unary(t@),
        Frame::BinaryLeft(t, e) => FrameModel::BinaryLeft(t@, e.model()),
        Frame::BinaryRight(t, v) => FrameModel::BinaryRight(t@, v@),
        Frame::Logical(t, e) => FrameModel::Logical(t@, e.model()),
        Frame::Assign(t) => FrameModel::Assign(t@),
        Frame::Callee(t, args) => FrameModel::Callee(t@, expr_models(args@)),
        Frame::Arguments(t, c, done, args) => FrameModel::Arguments(t@, c@, objects_view(done@), expr_models(args@)),
        Frame::Discard => FrameModel::Discard,
        Frame::Print => FrameModel::Print,
        Frame::Define(t) => FrameModel::Define(t@),
        Frame::Branch(s, e) => FrameModel::Branch(
            s.model(),
            match e {
                Some(e) => Some(e.model()),
                None => None,
            },
        ),
        Frame::LoopTest(c, b) => FrameModel::LoopTest(c.model(), b.model()),
        Frame::LoopBody(c, b) => FrameModel::LoopBody(c.model(), b.model()),
        Frame::Sequence(ss, i, scoped) => FrameModel::Sequence(stmt_models(ss@), i as nat, scoped),
    }
}

spec fn frames_model(fs: Seq<Frame>) -> Seq<FrameModel> {
    fs.map_values(|f: Frame| frame_model(f))
}

/// `r` and the state after a step are what the outcome `o` says, and the
/// diagnostic it reports, if any, is appended.
pub open spec fn follows(o: Outcome, after: MachineModel, r: Step, ds0: Seq<Diagnostic>, ds1: Seq<Diagnostic>) -> bool {
    &&& after == o.machine
    &&& r@ == o.step
    &&& (r is Failed ==> r->Failed_0 == Error::Runtime)
    &&& diagnostics_view(ds1) == diagnostics_view(ds0) + match o.diagnostic {
        Some(d) => seq![d],
        None => Seq::<DiagnosticModel>::empty(),
    }
}

/// A Lox interpreter: the variables that programs define.
pub struct Interpreter {
    pub environment: Enviorment,
}

/// A program, statement or expression being run by an interpreter.
pub struct Execution<'a> {
    interpreter: Interpreter,
    base: usize,
    control: Control<'a>,
    frames: Vec<Frame<'a>>,
}

impl Interpreter {
    /// An interpreter whose global scope defines `clock`.
    pub fn new() -> (i: Self)
        ensures
            i.environment.wf(),
            i.environment.model() == seq![global_scope()],
    {
        Interpreter { environment: Enviorment::new() }
    }

    /// Begins running a program, statement after statement.
    pub fn interpret<'a>(self, stmts: &'a Vec<Stmt>) -> (e: Execution<'a>)
        requires
            self.environment.wf(),
        ensures
            e.wf(),
            e.model() == (MachineModel {
                env: self.environment.model(),
                base: self.environment.model().len(),
                control: ControlModel::Idle,
                frames: seq![FrameModel::Sequence(stmt_models(stmts@), 0, false)],
            }),
    {
        let base = self.environment.depth();
        let mut frames: Vec<Frame<'a>> = Vec::new();
        frames.push(Frame::Sequence(stmts, 0, false));
        let e = Execution { interpreter: self, base, control: Control::Idle, frames };
        proof {
            self.environment.lemma_wf();
            assert(frames_model(e.frames@) =~= seq![FrameModel::Sequence(stmt_models(stmts@), 0, false)]);
            lemma_single_frame(e.frames@);
        }
        e
    }

    /// Begins running one statement.
    pub fn execute<'a>(self, stmt: &'a Stmt) -> (e: Execution<'a>)
        requires
            self.environment.wf(),
        ensures
            e.wf(),
            e.model() == (MachineModel {
                env: self.environment.model(),
                base: self.environment.model().len(),
                control: ControlModel::Exec(stmt.model()),
                frames: seq![],
            }),
    {
        let base = self.environment.depth();
        let e = Execution { interpreter: self, base, control: Control::Exec(stmt), frames: Vec::new() };
        proof {
            self.environment.lemma_wf();
            assert(frames_model(e.frames@) =~= seq![]);
        }
        e
    }

    /// Begins running statements in a new scope inside the current one.
    pub fn execute_block<'a>(self, statements: &'a Vec<Stmt>) -> (e: Execution<'a>)
        requires
            self.environment.wf(),
        ensures
            e.wf(),
            e.model() == (MachineModel {
                env: self.environment.model().push(Map::empty()),
                base: self.environment.model().len(),
                control: ControlModel::Idle,
                frames: seq![FrameModel::Sequence(stmt_models(statements@), 0, true)],
            }),
    {
        let mut interpreter = self;
        let base = interpreter.environment.depth();
        interpreter.environment.push_scope();
        let mut frames: Vec<Frame<'a>> = Vec::new();
        frames.push(Frame::Sequence(statements, 0, true));
        let e = Execution { interpreter, base, control: Control::Idle, frames };
        proof {
            self.environment.lemma_wf();
            assert(frames_model(e.frames@) =~= seq![FrameModel::Sequence(stmt_models(statements@), 0, true)]);
            lemma_single_frame(e.frames@);
        }
        e
    }

    /// Begins evaluating an expression.
    pub fn evaluate<'a>(self, expr: &'a Expr) -> (e: Execution<'a>)
        requires
            self.environment.wf(),
        ensures
            e.wf(),
            e.model() == (MachineModel {
                env: self.environment.model(),
                base: self.environment.model().len(),
                control: ControlModel::Eval(expr.model()),
                frames: seq![],
            }),
    {
        let base = self.environment.depth();
        let e = Execution { interpreter: self, base, control: Control::Eval(expr), frames: Vec::new() };
        proof {
            self.environment.lemma_wf();
            assert(frames_model(e.frames@) =~= seq![]);
        }
        e
    }
}

proof fn lemma_single_frame(fs: Seq<Frame>)
    requires
        fs.len() == 1,
        fs[0] is Sequence,
    ensures
        scoped_frames(frames_model(fs)) == if fs[0]->Sequence_2 { 1nat } else { 0nat },
{
    let fm = frames_model(fs);
    assert(fm.drop_last() =~= Seq::<FrameModel>::empty());
    assert(scoped_frames(fm.drop_last()) == 0);
    assert(fm.last() == frame_model(fs[0]));
}

/// The decimal numeral of a digit.
fn digit(d: usize) -> (s: &'static str)
    requires
        d < 10,
    ensures
        s@ == digit_text(d as nat),
{
    if d == 0 {
        "0"
    } else if d == 1 {
        "1"
    } else if d == 2 {
        "2"
    } else if d == 3 {
        "3"
    } else if d == 4 {
        "4"
    } else if d == 5 {
        "5"
    } else if d == 6 {
        "6"
    } else if d == 7 {
        "7"
    } else if d == 8 {
        "8"
    } else {
        "9"
    }
}

/// The decimal numeral of `n`.
pub fn decimal_string(n: usize) -> (s: String)
    ensures
        s@ == decimal(n as nat),
    decreases n,
{
    if n < 10 {
        String::from_str(digit(n))
    } else {
        let high = decimal_string(n / 10);
        high.concat(digit(n % 10))
    }
}

/// `<type>(<value>)`.
fn describe(v: &Object) -> (s: String)
    ensures
        s@ == described(v@),
{
    let s = String::from_str(v.get_type());
    let s = s.concat("(");
    let s = s.concat(v.display().as_str());
    let s = s.concat(")");
    s
}

/// Lox `==` on two values that are not both numbers.
fn equal_objects(l: &Object, r: &Object) -> (b: bool)
    ensures
        b == objects_equal(l@, r@),
{
    match (l, r) {
        (Object::String(a), Object::String(b)) => *a == *b,
        (Object::Boolean(a), Object::Boolean(b)) => *a == *b,
        (Object::Nil, Object::Nil) => true,
        (Object::Callable(a), Object::Callable(b)) => *a == *b,
        _ => false,
    }
}

fn operand_msg(v: &Object) -> (s: String)
    ensures
        s@ == operand_message(v@),
{
    String::from_str("Operand must be a number, found: ").concat(describe(v).as_str())
}

fn operands_msg(expected: &str, l: &Object, r: &Object) -> (s: String)
    ensures
        s@ == operands_message(expected@, l@, r@),
{
    let s = String::from_str("Operands must be ");
    let s = s.concat(expected);
    let s = s.concat(", found: ");
    let s = s.concat(describe(l).as_str());
    let s = s.concat(" and ");
    s.concat(describe(r).as_str())
}

fn arity_msg(expected: usize, got: usize) -> (s: String)
    ensures
        s@ == arity_message(expected as nat, got as nat),
{
    let s = String::from_str("Expected ");
    let s = s.concat(decimal_string(expected).as_str());
    let s = s.concat(" arguments but got ");
    let s = s.concat(decimal_string(got).as_str());
    s.concat(".")
}

/// `prefix` followed by the text of `op`.
fn invalid_msg(prefix: &str, op: &Token) -> (s: String)
    ensures
        s@ == prefix@ + op@.text(),
{
    String::from_str(prefix).concat(op.lexeme())
}

fn is_numeric_operator(t: TokenType) -> (b: bool)
    ensures
        b == numeric_operator(t),
{
    t == TokenType::Minus || t == TokenType::Star || t == TokenType::Slash || t == TokenType::Greater || t
        == TokenType::GreaterEqual || t == TokenType::Less || t == TokenType::LessEqual
}

impl<'a> Execution<'a> {
    /// The state of the execution.
    pub closed spec fn model(&self) -> MachineModel {
        MachineModel {
            env: self.interpreter.environment.model(),
            base: self.base as nat,
            control: control_model(self.control),
            frames: frames_model(self.frames@),
        }
    }

    /// The environment is well formed and every open block has its own scope.
    pub closed spec fn wf(&self) -> bool {
        &&& self.interpreter.environment.wf()
        &&& scoping(self.model())
    }

    /// Ends the execution and hands back the interpreter, with the variables
    /// that the execution left.
    pub fn finish(self) -> (i: Interpreter)
        requires
            self.wf(),
        ensures
            i.environment.wf(),
            i.environment.model() == self.model().env,
    {
        self.interpreter
    }

    /// The value of an expression whose evaluation has finished.
    pub fn value(&self) -> (v: Option<Object>)
        ensures
            match self.model().control {
                ControlModel::Value(x) => if self.model().frames.len() == 0 {
                    v matches Some(o) && o@ == x
                } else {
                    v is None
                },
                _ => v is None,
            },
    {
        match &self.control {
            Control::Value(x) => if self.frames.len() == 0 {
                Some(x.clone())
            } else {
                None
            },
            _ => None,
        }
    }

    /// Stops the execution on a runtime error at `token`: closes the scopes it
    /// opened and reports `message`.
    fn fail(&mut self, token: &Token, message: &str, diagnostics: &mut Vec<Diagnostic>, Ghost(m): Ghost<MachineModel>) -> (r:
        Step)
        requires
            old(self).interpreter.environment.wf(),
            old(self).model().env == m.env,
            old(self).base == m.base,
            scoping(m),
        ensures
            final(self).wf(),
            follows(fail(m, token@, message@), final(self).model(), r, old(diagnostics)@, final(diagnostics)@),
    {
        self.interpreter.environment.truncate(self.base);
        self.frames = Vec::new();
        self.control = Control::Done;
        let d = error_at_token(token, Phase::Runtime, message);
        diagnostics.push(d);
        proof {
            assert(frames_model(self.frames@) =~= seq![]);
            assert(diagnostics_view(diagnostics@) =~= diagnostics_view(old(diagnostics)@) + seq![d@]);
        }
        Step::Failed(Error::Runtime)
    }

    /// Sets the control, keeping the frames.
    fn set_control(&mut self, control: Control<'a>)
        ensures
            final(self).interpreter == old(self).interpreter,
            final(self).base == old(self).base,
            final(self).frames == old(self).frames,
            final(self).control == control,
    {
        self.control = control;
    }

    /// Pushes a frame.
    fn push_frame(&mut self, f: Frame<'a>)
        ensures
            final(self).interpreter == old(self).interpreter,
            final(self).base == old(self).base,
            final(self).control == old(self).control,
            frames_model(final(self).frames@) == frames_model(old(self).frames@).push(frame_model(f)),
    {
        self.frames.push(f);
        assert(frames_model(self.frames@) =~= frames_model(old(self).frames@).push(frame_model(f)));
    }

    /// Waits for the host to carry out `request`.
    fn wait(&mut self, request: Request) -> (r: Step)
        ensures
            final(self).interpreter == old(self).interpreter,
            final(self).base == old(self).base,
            final(self).frames == old(self).frames,
            control_model(final(self).control) == ControlModel::Await(request@),
            r@ == StepModel::Request(request@),
            r !is Failed,
    {
        let out = request.clone();
        self.control = Control::Await(request);
        Step::Request(out)
    }

    fn eval_step(&mut self, e: &'a Expr, diagnostics: &mut Vec<Diagnostic>, Ghost(m): Ghost<MachineModel>) -> (r: Step)
        requires
            old(self).interpreter.environment.wf(),
            scoping(m),
            old(self).model() == (MachineModel { control: ControlModel::Idle, ..m }),
        ensures
            final(self).wf(),
            follows(eval_step(m, e.model()), final(self).model(), r, old(diagnostics)@, final(diagnostics)@),
    {
        match e {
            Expr::LiteralExprs(l) => {
                self.set_control(Control::Value(l.value.clone()));
            },
            Expr::GroupingExprs(g) => {
                self.set_control(Control::Eval(&g.expression));
            },
            Expr::UnaryExprs(u) => {
                self.push_frame(Frame::Unary(&u.operator));
                self.set_control(Control::Eval(&u.right));
                proof { lemma_push_unscoped(m.frames, FrameModel::Unary(u.operator@)); }
            },
            Expr::BinaryExprs(b) => {
                self.push_frame(Frame::BinaryLeft(&b.operator, &b.right));
                self.set_control(Control::Eval(&b.left));
                proof { lemma_push_unscoped(m.frames, FrameModel::BinaryLeft(b.operator@, b.right.model())); }
            },
            Expr::LogicalExprs(l) => {
                self.push_frame(Frame::Logical(&l.operator, &l.right));
                self.set_control(Control::Eval(&l.left));
                proof { lemma_push_unscoped(m.frames, FrameModel::Logical(l.operator@, l.right.model())); }
            },
            Expr::VariableExprs(v) => {
                match self.interpreter.environment.get(v.name.lexeme()) {
                    Ok(value) => {
                        self.set_control(Control::Value(value));
                    },
                    Err(msg) => {
                        return self.fail(&v.name, msg.as_str(), diagnostics, Ghost(m));
                    },
                }
            },
            Expr::AssignExprs(a) => {
                self.push_frame(Frame::Assign(&a.name));
                self.set_control(Control::Eval(&a.value));
                proof { lemma_push_unscoped(m.frames, FrameModel::Assign(a.name@)); }
            },
            Expr::CallExprs(c) => {
                self.push_frame(Frame::Callee(&c.paren, &c.arguments));
                self.set_control(Control::Eval(&c.callee));
                proof { lemma_push_unscoped(m.frames, FrameModel::Callee(c.paren@, expr_models(c.arguments@))); }
            },
        }
        assert(diagnostics_view(diagnostics@) =~= diagnostics_view(old(diagnostics)@) + Seq::<DiagnosticModel>::empty());
        Step::Running
    }

    fn binary_step(
        &mut self,
        op: &'a Token,
        l: Object,
        r: Object,
        diagnostics: &mut Vec<Diagnostic>,
        Ghost(m): Ghost<MachineModel>,
        Ghost(rest): Ghost<Seq<FrameModel>>,
    ) -> (res: Step)
        requires
            old(self).interpreter.environment.wf(),
            scoping(m),
            scoped_frames(rest) == scoped_frames(m.frames),
            old(self).model() == (MachineModel { control: ControlModel::Idle, frames: rest, ..m }),
        ensures
            final(self).wf(),
            follows(binary_step(m, op@, l@, r@, rest), final(self).model(), res, old(diagnostics)@, final(diagnostics)@),
    {
        let t = op.token_type;
        if t == TokenType::Plus {
            match (&l, &r) {
                (Object::Number(a), Object::Number(b)) => {
                    return self.wait(Request::Binary { operator: t, left: a.clone(), right: b.clone() });
                },
                (Object::String(a), Object::String(b)) => {
                    let joined = a.clone().concat(b.as_str());
                    self.set_control(Control::Value(Object::String(joined)));
                    assert(diagnostics_view(diagnostics@) =~= diagnostics_view(old(diagnostics)@) + Seq::<DiagnosticModel>::empty());
                    return Step::Running;
                },
                _ => {
                    let msg = operands_msg("two numbers or two strings", &l, &r);
                    return self.fail(op, msg.as_str(), diagnostics, Ghost(m));
                },
            }
        } else if is_numeric_operator(t) {
            match (&l, &r) {
                (Object::Number(a), Object::Number(b)) => {
                    if t == TokenType::Slash && is_zero_numeral(b.as_str()) {
                        return self.fail(op, "Division by zero.", diagnostics, Ghost(m));
                    }
                    return self.wait(Request::Binary { operator: t, left: a.clone(), right: b.clone() });
                },
                _ => {
                    let msg = operands_msg("numbers", &l, &r);
                    return self.fail(op, msg.as_str(), diagnostics, Ghost(m));
                },
            }
        } else if t == TokenType::EqualEqual || t == TokenType::BangEqual {
            match (&l, &r) {
                (Object::Number(a), Object::Number(b)) => {
                    return self.wait(Request::Binary { operator: t, left: a.clone(), right: b.clone() });
                },
                _ => {
                    let same = equal_objects(&l, &r);
                    let b = if t == TokenType::EqualEqual { same } else { !same };
                    self.set_control(Control::Value(Object::Boolean(b)));
                    assert(diagnostics_view(diagnostics@) =~= diagnostics_view(old(diagnostics)@) + Seq::<DiagnosticModel>::empty());
                    return Step::Running;
                },
            }
        } else {
            let msg = invalid_msg("Invalid binary operator: ", op);
            return self.fail(op, msg.as_str(), diagnostics, Ghost(m));
        }
    }

    fn call_step(
        &mut self,
        paren: &'a Token,
        callee: Object,
        args: Vec<Object>,
        diagnostics: &mut Vec<Diagnostic>,
        Ghost(m): Ghost<MachineModel>,
        Ghost(rest): Ghost<Seq<FrameModel>>,
    ) -> (res: Step)
        requires
            old(self).interpreter.environment.wf(),
            scoping(m),
            scoped_frames(rest) == scoped_frames(m.frames),
            old(self).model() == (MachineModel { control: ControlModel::Idle, frames: rest, ..m }),
        ensures
            final(self).wf(),
            follows(
                call_step(m, paren@, callee@, objects_view(args@), rest),
                final(self).model(),
                res,
                old(diagnostics)@,
                final(diagnostics)@,
            ),
    {
        match &callee {
            Object::Callable(c) => {
                if args.len() != c.arity() {
                    let msg = arity_msg(c.arity(), args.len());
                    self.fail(paren, msg.as_str(), diagnostics, Ghost(m))
                } else {
                    let r = self.wait(Request::Clock);
                    assert(diagnostics_view(diagnostics@) =~= diagnostics_view(old(diagnostics)@) + Seq::<DiagnosticModel>::empty());
                    r
                }
            },
            _ => self.fail(paren, "Can only call functions and classes.", diagnostics, Ghost(m)),
        }
    }

    fn value_step(&mut self, v: Object, top: Frame<'a>, diagnostics: &mut Vec<Diagnostic>, Ghost(m): Ghost<MachineModel>) -> (r:
        Step)
        requires
            old(self).interpreter.environment.wf(),
            scoping(m),
            m.frames.len() > 0,
            m.frames.last() == frame_model(top),
            old(self).model() == (MachineModel { control: ControlModel::Idle, frames: m.frames.drop_last(), ..m }),
        ensures
            final(self).wf(),
            follows(
                value_step(m, v@, frame_model(top), m.frames.drop_last()),
                final(self).model(),
                r,
                old(diagnostics)@,
                final(diagnostics)@,
            ),
    {
        let ghost rest = m.frames.drop_last();
        proof {
            assert(rest.push(m.frames.last()) =~= m.frames);
            lemma_push_any(rest, m.frames.last());
        }
        match top {
            Frame::Unary(op) => {
                if op.token_type == TokenType::Minus {
                    match &v {
                        Object::Number(n) => {
                            let r = self.wait(Request::Negate(n.clone()));
                            assert(diagnostics_view(diagnostics@) =~= diagnostics_view(old(diagnostics)@) + Seq::<DiagnosticModel>::empty());
                            return r;
                        },
                        _ => {
                            let msg = operand_msg(&v);
                            return self.fail(op, msg.as_str(), diagnostics, Ghost(m));
                        },
                    }
                } else if op.token_type == TokenType::Bang {
                    self.set_control(Control::Value(Object::Boolean(!v.is_truthy())));
                } else {
                    let msg = invalid_msg("Invalid unary operator: ", op);
                    return self.fail(op, msg.as_str(), diagnostics, Ghost(m));
                }
            },
            Frame::BinaryLeft(op, right) => {
                proof { lemma_push_unscoped(rest, FrameModel::BinaryRight(op@, v@)); }
                self.push_frame(Frame::BinaryRight(op, v));
                self.set_control(Control::Eval(right));
            },
            Frame::BinaryRight(op, l) => {
                return self.binary_step(op, l, v, diagnostics, Ghost(m), Ghost(rest));
            },
            Frame::Logical(op, right) => {
                let truthy = v.is_truthy();
                if (op.token_type == TokenType::Or && truthy) || (op.token_type != TokenType::Or && !truthy) {
                    self.set_control(Control::Value(v));
                } else {
                    self.set_control(Control::Eval(right));
                }
            },
            Frame::Assign(name) => {
                proof {
                    crate::enviorment::law_assign_keeps_domains(m.env, name@.text(), v@);
                }
                let copy = v.clone();
                match self.interpreter.environment.assign(name.lexeme(), copy) {
                    Ok(()) => {
                        self.set_control(Control::Value(v));
                    },
                    Err(msg) => {
                        return self.fail(name, msg.as_str(), diagnostics, Ghost(m));
                    },
                }
            },
            Frame::Callee(paren, args) => {
                let none: Vec<Object> = Vec::new();
                assert(objects_view(none@) =~= seq![]);
                if args.len() == 0 {
                    proof {
                        assert(expr_models(args@) =~= seq![]);
                    }
                    return self.call_step(paren, v, none, diagnostics, Ghost(m), Ghost(rest));
                } else {
                    proof {
                        lemma_expr_models(args@);
                        lemma_push_unscoped(rest, FrameModel::Arguments(paren@, v@, seq![], expr_models(args@)));
                    }
                    self.push_frame(Frame::Arguments(paren, v, none, args));
                    self.set_control(Control::Eval(&args[0]));
                }
            },
            Frame::Arguments(paren, callee, done, args) => {
                let mut done = done;
                let ghost done0 = done@;
                done.push(v);
                proof {
                    assert(objects_view(done@) =~= objects_view(done0).push(v@));
                    lemma_expr_models(args@);
                }
                if done.len() < args.len() {
                    let next = &args[done.len()];
                    proof {
                        lemma_push_unscoped(
                            rest,
                            FrameModel::Arguments(paren@, callee@, objects_view(done@), expr_models(args@)),
                        );
                    }
                    self.push_frame(Frame::Arguments(paren, callee, done, args));
                    self.set_control(Control::Eval(next));
                } else {
                    return self.call_step(paren, callee, done, diagnostics, Ghost(m), Ghost(rest));
                }
            },
            Frame::Discard => {
                self.set_control(Control::Idle);
            },
            Frame::Print => {
                let r = self.wait(Request::Print(v.display()));
                assert(diagnostics_view(diagnostics@) =~= diagnostics_view(old(diagnostics)@) + Seq::<DiagnosticModel>::empty());
                return r;
            },
            Frame::Define(name) => {
                self.interpreter.environment.define(name.lexeme(), v);
                self.set_control(Control::Idle);
            },
            Frame::Branch(then_branch, else_branch) => {
                if v.is_truthy() {
                    self.set_control(Control::Exec(then_branch));
                } else {
                    match else_branch {
                        Some(s) => self.set_control(Control::Exec(s)),
                        None => self.set_control(Control::Idle),
                    }
                }
            },
            Frame::LoopTest(condition, body) => {
                if v.is_truthy() {
                    proof { lemma_push_unscoped(rest, FrameModel::LoopBody(condition.model(), body.model())); }
                    self.push_frame(Frame::LoopBody(condition, body));
                    self.set_control(Control::Exec(body));
                } else {
                    self.set_control(Control::Idle);
                }
            },
            Frame::LoopBody(condition, body) => {
                self.push_frame(Frame::LoopBody(condition, body));
                self.set_control(Control::Idle);
                assert(frames_model(self.frames@) =~= m.frames);
            },
            Frame::Sequence(ss, i, scoped) => {
                self.push_frame(Frame::Sequence(ss, i, scoped));
                self.set_control(Control::Idle);
                assert(frames_model(self.frames@) =~= m.frames);
            },
        }
        assert(diagnostics_view(diagnostics@) =~= diagnostics_view(old(diagnostics)@) + Seq::<DiagnosticModel>::empty());
        Step::Running
    }


    fn exec_step(&mut self, st: &'a Stmt, Ghost(m): Ghost<MachineModel>)
        requires
            old(self).interpreter.environment.wf(),
            scoping(m),
            old(self).model() == (MachineModel { control: ControlModel::Idle, ..m }),
        ensures
            final(self).wf(),
            final(self).model() == exec_step(m, st.model()).machine,
    {
        match st {
            Stmt::Expression(s) => {
                proof { lemma_push_unscoped(m.frames, FrameModel::Discard); }
                self.push_frame(Frame::Discard);
                self.set_control(Control::Eval(&s.expression));
            },
            Stmt::Print(s) => {
                proof { lemma_push_unscoped(m.frames, FrameModel::Print); }
                self.push_frame(Frame::Print);
                self.set_control(Control::Eval(&s.expression));
            },
            Stmt::Var(s) => {
                match &s.initializer {
                    Some(e) => {
                        proof { lemma_push_unscoped(m.frames, FrameModel::Define(s.name@)); }
                        self.push_frame(Frame::Define(&s.name));
                        self.set_control(Control::Eval(e));
                    },
                    None => {
                        self.interpreter.environment.define(s.name.lexeme(), Object::Nil);
                        self.set_control(Control::Idle);
                    },
                }
            },
            Stmt::Block(s) => {
                self.interpreter.environment.push_scope();
                proof { lemma_push_scoped(m.frames, FrameModel::Sequence(stmt_models(s.statements@), 0, true)); }
                self.push_frame(Frame::Sequence(&s.statements, 0, true));
                self.set_control(Control::Idle);
            },
            Stmt::If(s) => {
                let else_branch: Option<&'a Stmt> = match &s.else_branch {
                    Some(b) => Some(&**b),
                    None => None,
                };
                proof {
                    lemma_push_unscoped(m.frames, frame_model(Frame::Branch(&s.then_branch, else_branch)));
                }
                self.push_frame(Frame::Branch(&s.then_branch, else_branch));
                self.set_control(Control::Eval(&s.condition));
            },
            Stmt::While(s) => {
                proof { lemma_push_unscoped(m.frames, FrameModel::LoopTest(s.condition.model(), s.body.model())); }
                self.push_frame(Frame::LoopTest(&s.condition, &s.body));
                self.set_control(Control::Eval(&s.condition));
            },
        }
    }

    #[verifier::rlimit(40)]
    fn idle_step(&mut self, top: Frame<'a>, Ghost(m): Ghost<MachineModel>)
        requires
            old(self).interpreter.environment.wf(),
            scoping(m),
            m.frames.len() > 0,
            m.frames.last() == frame_model(top),
            old(self).model() == (MachineModel { control: ControlModel::Idle, frames: m.frames.drop_last(), ..m }),
        ensures
            final(self).wf(),
            final(self).model() == idle_step(m, frame_model(top), m.frames.drop_last()).machine,
    {
        let ghost rest = m.frames.drop_last();
        proof {
            assert(rest.push(m.frames.last()) =~= m.frames);
            lemma_push_any(rest, m.frames.last());
        }
        match top {
            Frame::Sequence(ss, i, scoped) => {
                proof {
                    lemma_stmt_models(ss@);
                }
                if i < ss.len() {
                    proof {
                        lemma_push_scoped(rest, FrameModel::Sequence(stmt_models(ss@), (i + 1) as nat, scoped));
                    }
                    self.push_frame(Frame::Sequence(ss, i + 1, scoped));
                    self.set_control(Control::Exec(&ss[i]));
                    assert(stmt_models(ss@)[i as int] == ss@[i as int].model());
                    assert(self.model() == idle_step(m, frame_model(top), rest).machine);
                } else if scoped {
                    let depth = self.interpreter.environment.depth();
                    self.interpreter.environment.truncate(depth - 1);
                    assert(m.env.subrange(0, m.env.len() - 1) =~= m.env.drop_last());
                    assert(self.model() == idle_step(m, frame_model(top), rest).machine);
                } else {
                    assert(self.model() == idle_step(m, frame_model(top), rest).machine);
                }
            },
            Frame::LoopBody(condition, body) => {
                proof { lemma_push_unscoped(rest, FrameModel::LoopTest(condition.model(), body.model())); }
                self.push_frame(Frame::LoopTest(condition, body));
                self.set_control(Control::Eval(condition));
                assert(self.model() == idle_step(m, frame_model(top), rest).machine);
            },
            _ => {
                assert(self.model() == idle_step(m, frame_model(top), rest).machine);
            },
        }
    }

    /// Carries out one step of the execution. A step that reaches a request
    /// waits for the host's answer; a runtime error stops the execution,
    /// closes the scopes it opened, and appends its diagnostic.
    pub fn step(&mut self, diagnostics: &mut Vec<Diagnostic>) -> (r: Step)
        requires
            old(self).wf(),
        ensures
            final(self).wf(),
            follows(spec_step(old(self).model()), final(self).model(), r, old(diagnostics)@, final(diagnostics)@),
    {
        let ghost m = self.model();
        let mut control = Control::Idle;
        std::mem::swap(&mut control, &mut self.control);
        assert(diagnostics_view(diagnostics@) =~= diagnostics_view(old(diagnostics)@) + Seq::<DiagnosticModel>::empty());
        match control {
            Control::Done => {
                self.set_control(Control::Done);
                Step::Finished
            },
            Control::Await(request) => {
                let out = request.clone();
                self.set_control(Control::Await(request));
                Step::Request(out)
            },
            Control::Eval(e) => self.eval_step(e, diagnostics, Ghost(m)),
            Control::Value(v) => {
                let ghost fs = self.frames@;
                match self.frames.pop() {
                    None => {
                        self.set_control(Control::Value(v));
                        Step::Finished
                    },
                    Some(top) => {
                        proof {
                            assert(frames_model(self.frames@) =~= m.frames.drop_last());
                            assert(m.frames.last() == frame_model(fs.last()));
                        }
                        self.value_step(v, top, diagnostics, Ghost(m))
                    },
                }
            },
            Control::Exec(st) => {
                self.exec_step(st, Ghost(m));
                Step::Running
            },
            Control::Idle => {
                let ghost fs = self.frames@;
                match self.frames.pop() {
                    None => {
                        self.set_control(Control::Done);
                        Step::Finished
                    },
                    Some(top) => {
                        proof {
                            assert(frames_model(self.frames@) =~= m.frames.drop_last());
                            assert(m.frames.last() == frame_model(fs.last()));
                        }
                        self.idle_step(top, Ghost(m));
                        Step::Running
                    },
                }
            },
        }
    }

    /// Takes in the host's answer to the pending request.
    pub fn answer(&mut self, answer: Answer, diagnostics: &mut Vec<Diagnostic>) -> (r: Step)
        requires
            old(self).wf(),
        ensures
            final(self).wf(),
            follows(spec_answer(old(self).model(), answer@), final(self).model(), r, old(diagnostics)@, final(diagnostics)@),
    {
        let ghost m = self.model();
        assert(diagnostics_view(diagnostics@) =~= diagnostics_view(old(diagnostics)@) + Seq::<DiagnosticModel>::empty());
        let fits = match &self.control {
            Control::Await(request) => answer_fits_request(request, &answer),
            _ => {
                return Step::Running;
            },
        };
        if !fits {
            let request = match &self.control {
                Control::Await(request) => request.clone(),
                _ => {
                    return Step::Running;
                },
            };
            return Step::Request(request);
        }
        match answer {
            Answer::Number(n) => {
                self.set_control(Control::Value(Object::Number(n)));
                Step::Running
            },
            Answer::Boolean(b) => {
                self.set_control(Control::Value(Object::Boolean(b)));
                Step::Running
            },
            Answer::Printed => {
                self.set_control(Control::Idle);
                Step::Running
            },
        }
    }
}

/// Whether `answer` is of the kind that `request` asks for.
fn answer_fits_request(request: &Request, answer: &Answer) -> (b: bool)
    ensures
        b == answer_fits(request@, answer@),
{
    match request {
        Request::Binary { operator, .. } => {
            let arithmetic = *operator == TokenType::Plus || *operator == TokenType::Minus || *operator
                == TokenType::Star || *operator == TokenType::Slash;
            if arithmetic {
                matches!(answer, Answer::Number(_))
            } else {
                matches!(answer, Answer::Boolean(_))
            }
        },
        Request::Negate(_) => matches!(answer, Answer::Number(_)),
        Request::Print(_) => matches!(answer, Answer::Printed),
        Request::Clock => matches!(answer, Answer::Number(_)),
    }
}

/// Whether a numeral denotes zero: it has a digit, and every digit is `0`.
fn is_zero_numeral(s: &str) -> (b: bool)
    ensures
        b == zero_numeral(s@),
{
    let n = s.unicode_len();
    let mut i: usize = 0;
    let mut seen = false;
    while i < n
        invariant
            n == s@.len(),
            i <= n,
            forall|k: int| 0 <= k < i ==> (s@[k] == '0' || s@[k] == '.' || s@[k] == '-'),
            seen <==> exists|k: int| 0 <= k < i && s@[k] == '0',
        decreases n - i,
    {
        let c = s.get_char(i);
        if c == '0' {
            seen = true;
        } else if c != '.' && c != '-' {
            return false;
        }
        i = i + 1;
    }
    seen
}

/// Pushing a frame counts it among the scoped frames exactly when it opened
/// a scope.
proof fn lemma_push_any(frames: Seq<FrameModel>, f: FrameModel)
    ensures
        scoped_frames(frames.push(f)) == scoped_frames(frames) + match f {
            FrameModel::Sequence(_, _, true) => 1nat,
            _ => 0nat,
        },
{
    assert(frames.push(f).drop_last() =~= frames);
}

proof fn lemma_push_unscoped(frames: Seq<FrameModel>, f: FrameModel)
    requires
        f !is Sequence,
    ensures
        scoped_frames(frames.push(f)) == scoped_frames(frames),
{
    assert(frames.push(f).drop_last() =~= frames);
}

proof fn lemma_push_scoped(frames: Seq<FrameModel>, f: FrameModel)
    requires
        f is Sequence,
    ensures
        scoped_frames(frames.push(f)) == scoped_frames(frames) + if f->Sequence_2 { 1nat } else { 0nat },
{
    assert(frames.push(f).drop_last() =~= frames);
}


} // verus!
