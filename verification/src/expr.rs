use vstd::prelude::*;
use crate::object::{Object, ObjectModel};
use crate::token::{Token, TokenModel};

verus! {

pub struct AssignExpr {
    pub name: Token,
    pub value: Box<Expr>,
}

pub struct BinaryExpr {
    pub left: Box<Expr>,
    pub operator: Token,
    pub right: Box<Expr>,
}

pub struct CallExpr {
    pub callee: Box<Expr>,
    pub paren: Token,
    pub arguments: Vec<Expr>,
}

pub struct GroupingExpr {
    pub expression: Box<Expr>,
}

pub struct LiteralExpr {
    pub value: Object,
}

pub struct LogicalExpr {
    pub left: Box<Expr>,
    pub operator: Token,
    pub right: Box<Expr>,
}

pub struct UnaryExpr {
    pub operator: Token,
    pub right: Box<Expr>,
}

pub struct VariableExpr {
    pub name: Token,
}

/// A Lox expression.
pub enum Expr {
    BinaryExprs(BinaryExpr),
    CallExprs(CallExpr),
    GroupingExprs(GroupingExpr),
    LiteralExprs(LiteralExpr),
    LogicalExprs(LogicalExpr),
    UnaryExprs(UnaryExpr),
    VariableExprs(VariableExpr),
    AssignExprs(AssignExpr),
}

/// The mathematical value of an [`Expr`].
pub enum ExprModel {
    Binary { left: Box<ExprModel>, operator: TokenModel, right: Box<ExprModel> },
    Call { callee: Box<ExprModel>, paren: TokenModel, arguments: Seq<ExprModel> },
    Grouping { expression: Box<ExprModel> },
    Literal { object: ObjectModel },
    Logical { left: Box<ExprModel>, operator: TokenModel, right: Box<ExprModel> },
    Unary { operator: TokenModel, right: Box<ExprModel> },
    Variable { name: TokenModel },
    Assign { name: TokenModel, value: Box<ExprModel> },
}

impl Expr {
    pub open spec fn model(&self) -> ExprModel
        decreases self,
    {
        match self {
            Expr::BinaryExprs(b) => ExprModel::Binary {
                left: Box::new(b.left.model()),
                operator: b.operator@,
                right: Box::new(b.right.model()),
            },
            Expr::CallExprs(c) => ExprModel::Call {
                callee: Box::new(c.callee.model()),
                paren: c.paren@,
                arguments: expr_models(c.arguments@),
            },
            Expr::GroupingExprs(g) => ExprModel::Grouping { expression: Box::new(g.expression.model()) },
            Expr::LiteralExprs(l) => ExprModel::Literal { object: l.value@ },
            Expr::LogicalExprs(l) => ExprModel::Logical {
                left: Box::new(l.left.model()),
                operator: l.operator@,
                right: Box::new(l.right.model()),
            },
            Expr::UnaryExprs(u) => ExprModel::Unary { operator: u.operator@, right: Box::new(u.right.model()) },
            Expr::VariableExprs(v) => ExprModel::Variable { name: v.name@ },
            Expr::AssignExprs(a) => ExprModel::Assign { name: a.name@, value: Box::new(a.value.model()) },
        }
    }
}

/// The models of a list of expressions.
pub open spec fn expr_models(es: Seq<Expr>) -> Seq<ExprModel>
    decreases es,
{
    if es.len() == 0 {
        seq![]
    } else {
        expr_models(es.subrange(0, es.len() - 1)).push(es[es.len() - 1].model())
    }
}

pub proof fn lemma_expr_models(es: Seq<Expr>)
    ensures
        expr_models(es).len() == es.len(),
        forall|i: int| 0 <= i < es.len() ==> #[trigger] expr_models(es)[i] == es[i].model(),
    decreases es.len(),
{
    if es.len() > 0 {
        lemma_expr_models(es.subrange(0, es.len() - 1));
        assert forall|i: int| 0 <= i < es.len() implies #[trigger] expr_models(es)[i] == es[i].model() by {
            if i < es.len() - 1 {
                assert(es.subrange(0, es.len() - 1)[i] == es[i]);
            }
        }
    }
}

pub proof fn lemma_expr_models_push(es: Seq<Expr>, e: Expr)
    ensures
        expr_models(es.push(e)) == expr_models(es).push(e.model()),
{
    assert(es.push(e).subrange(0, es.len() as int) =~= es);
}

impl Expr {
    pub fn binary(left: Expr, operator: Token, right: Expr) -> (e: Self)
        ensures
            e == Expr::BinaryExprs(BinaryExpr { left: Box::new(left), operator, right: Box::new(right) }),
    {
        Expr::BinaryExprs(BinaryExpr { left: Box::new(left), operator, right: Box::new(right) })
    }

    pub fn call(callee: Expr, paren: Token, arguments: Vec<Expr>) -> (e: Self)
        ensures
            e == Expr::CallExprs(CallExpr { callee: Box::new(callee), paren, arguments }),
    {
        Expr::CallExprs(CallExpr { callee: Box::new(callee), paren, arguments })
    }

    pub fn grouping(expression: Expr) -> (e: Self)
        ensures
            e == Expr::GroupingExprs(GroupingExpr { expression: Box::new(expression) }),
    {
        Expr::GroupingExprs(GroupingExpr { expression: Box::new(expression) })
    }

    pub fn literal(value: Object) -> (e: Self)
        ensures
            e == Expr::LiteralExprs(LiteralExpr { value }),
    {
        Expr::LiteralExprs(LiteralExpr { value })
    }

    pub fn logical(left: Expr, operator: Token, right: Expr) -> (e: Self)
        ensures
            e == Expr::LogicalExprs(LogicalExpr { left: Box::new(left), operator, right: Box::new(right) }),
    {
        Expr::LogicalExprs(LogicalExpr { left: Box::new(left), operator, right: Box::new(right) })
    }

    pub fn unary(operator: Token, right: Expr) -> (e: Self)
        ensures
            e == Expr::UnaryExprs(UnaryExpr { operator, right: Box::new(right) }),
    {
        Expr::UnaryExprs(UnaryExpr { operator, right: Box::new(right) })
    }

    pub fn variable(name: Token) -> (e: Self)
        ensures
            e == Expr::VariableExprs(VariableExpr { name }),
    {
        Expr::VariableExprs(VariableExpr { name })
    }

    pub fn assign(name: Token, value: Expr) -> (e: Self)
        ensures
            e == Expr::AssignExprs(AssignExpr { name, value: Box::new(value) }),
    {
        Expr::AssignExprs(AssignExpr { name, value: Box::new(value) })
    }
}

// ---------------------------------------------------------------------------
// Printing.
// ---------------------------------------------------------------------------

/// `(operator(<op>) <operands>)`.
pub open spec fn operator_text(op: TokenModel, operands: Seq<char>) -> Seq<char> {
    "(operator("@ + op.text() + ") "@ + operands + ")"@
}

/// The printed form of an expression, in prefix notation.
pub open spec fn spec_pretty(e: ExprModel) -> Seq<char>
    decreases e,
{
    match e {
        ExprModel::Binary { left, operator, right } => operator_text(
            operator,
            spec_pretty(*left) + " "@ + spec_pretty(*right),
        ),
        ExprModel::Call { callee, paren, arguments } => "(call "@ + spec_pretty(*callee) + " "@ + spec_pretty_list(
            arguments,
        ) + ")"@,
        ExprModel::Grouping { expression } => "(group "@ + spec_pretty(*expression) + ")"@,
        ExprModel::Literal { object } => object.kind_name() + "("@ + object.display() + ")"@,
        ExprModel::Logical { left, operator, right } => operator_text(
            operator,
            spec_pretty(*left) + " "@ + spec_pretty(*right),
        ),
        ExprModel::Unary { operator, right } => operator_text(operator, spec_pretty(*right)),
        ExprModel::Variable { name } => "variable("@ + name.text() + ")"@,
        ExprModel::Assign { name, value } => "assign("@ + name.text() + " = "@ + spec_pretty(*value) + ")"@,
    }
}

/// The printed forms of a list of expressions, separated by `", "`.
pub open spec fn spec_pretty_list(es: Seq<ExprModel>) -> Seq<char>
    decreases es,
{
    if es.len() == 0 {
        seq![]
    } else if es.len() == 1 {
        spec_pretty(es[0])
    } else {
        spec_pretty_list(es.subrange(0, es.len() - 1)) + ", "@ + spec_pretty(es[es.len() - 1])
    }
}

impl Expr {
    /// The expression in prefix notation, as `(operator(*) number(1) number(2))`.
    pub fn pretty_print(&self) -> (s: String)
        ensures
            s@ == spec_pretty(self.model()),
        decreases self,
    {
        match self {
            Expr::BinaryExprs(binary) => {
                let s = String::from_str("(operator(");
                let s = s.concat(binary.operator.lexeme());
                let s = s.concat(") ");
                let s = s.concat(binary.left.pretty_print().as_str());
                let s = s.concat(" ");
                let s = s.concat(binary.right.pretty_print().as_str());
                let s = s.concat(")");
                proof {
                    reveal_strlit(" ");
                }
                assert(s@ =~= spec_pretty(self.model()));
                s
            },
            Expr::CallExprs(call) => {
                let mut args = String::new();
                let mut i: usize = 0;
                proof {
                    lemma_expr_models(call.arguments@);
                }
                while i < call.arguments.len()
                    invariant
                        *self == Expr::CallExprs(*call),
                        i <= call.arguments@.len(),
                        args@ == spec_pretty_list(expr_models(call.arguments@).subrange(0, i as int)),
                        expr_models(call.arguments@).len() == call.arguments@.len(),
                        forall|k: int| 0 <= k < call.arguments@.len() ==> #[trigger] expr_models(call.arguments@)[k] == call.arguments@[k].model(),
                    decreases call.arguments@.len() - i,
                {
                    let ghost ms = expr_models(call.arguments@);
                    let ghost old_args = args@;
                    proof {
                        let args_seq = call.arguments@;
                        assert(decreases_to!(call.arguments => args_seq));
                        assert(decreases_to!(args_seq => args_seq[i as int]));
                        assert(decreases_to!(*self => (*self)->CallExprs_0));
                    }
                    let piece = call.arguments[i].pretty_print();
                    assert(piece@ == spec_pretty(ms[i as int]));
                    if i > 0 {
                        args = args.concat(", ");
                    }
                    args = args.concat(piece.as_str());
                    proof {
                        let pre = ms.subrange(0, i + 1);
                        assert(pre.subrange(0, i as int) =~= ms.subrange(0, i as int));
                        assert(pre[i as int] == ms[i as int]);
                        if i == 0 {
                            assert(pre.len() == 1);
                            assert(spec_pretty_list(pre) == spec_pretty(pre[0]));
                            assert(args@ =~= spec_pretty(ms[0]));
                        } else {
                            assert(spec_pretty_list(pre) == spec_pretty_list(pre.subrange(0, i as int)) + ", "@ + spec_pretty(pre[i as int]));
                            assert(args@ =~= old_args + ", "@ + spec_pretty(ms[i as int]));
                        }
                    }
                    i = i + 1;
                }
                assert(expr_models(call.arguments@).subrange(0, call.arguments@.len() as int) =~= expr_models(call.arguments@));
                let s = String::from_str("(call ");
                let s = s.concat(call.callee.pretty_print().as_str());
                let s = s.concat(" ");
                let s = s.concat(args.as_str());
                let s = s.concat(")");
                assert(s@ =~= spec_pretty(self.model()));
                s
            },
            Expr::GroupingExprs(grouping) => {
                let s = String::from_str("(group ");
                let s = s.concat(grouping.expression.pretty_print().as_str());
                let s = s.concat(")");
                assert(s@ =~= spec_pretty(self.model()));
                s
            },
            Expr::LiteralExprs(literal) => {
                let s = String::from_str(literal.value.get_type());
                let s = s.concat("(");
                let s = s.concat(literal.value.display().as_str());
                let s = s.concat(")");
                assert(s@ =~= spec_pretty(self.model()));
                s
            },
            Expr::LogicalExprs(logical) => {
                let s = String::from_str("(operator(");
                let s = s.concat(logical.operator.lexeme());
                let s = s.concat(") ");
                let s = s.concat(logical.left.pretty_print().as_str());
                let s = s.concat(" ");
                let s = s.concat(logical.right.pretty_print().as_str());
                let s = s.concat(")");
                assert(s@ =~= spec_pretty(self.model()));
                s
            },
            Expr::UnaryExprs(unary) => {
                let s = String::from_str("(operator(");
                let s = s.concat(unary.operator.lexeme());
                let s = s.concat(") ");
                let s = s.concat(unary.right.pretty_print().as_str());
                let s = s.concat(")");
                assert(s@ =~= spec_pretty(self.model()));
                s
            },
            Expr::VariableExprs(variable) => {
                let s = String::from_str("variable(");
                let s = s.concat(variable.name.lexeme());
                let s = s.concat(")");
                assert(s@ =~= spec_pretty(self.model()));
                s
            },
            Expr::AssignExprs(assign) => {
                let s = String::from_str("assign(");
                let s = s.concat(assign.name.lexeme());
                let s = s.concat(" = ");
                let s = s.concat(assign.value.pretty_print().as_str());
                let s = s.concat(")");
                assert(s@ =~= spec_pretty(self.model()));
                s
            },
        }
    }
}

} // verus!
