use vstd::prelude::*;
use crate::expr::{Expr, ExprModel};
use crate::token::{Token, TokenModel};

verus! {

pub struct ExpressionStatement {
    pub expression: Expr,
}

pub struct PrintStatement {
    pub expression: Expr,
}

pub struct VarStatement {
    pub name: Token,
    pub initializer: Option<Expr>,
}

pub struct BlockStatement {
    pub statements: Vec<Stmt>,
}

pub struct IfStatement {
    pub condition: Expr,
    pub then_branch: Box<Stmt>,
    pub else_branch: Option<Box<Stmt>>,
}

pub struct WhileStatement {
    pub condition: Expr,
    pub body: Box<Stmt>,
}

/// A Lox statement.
pub enum Stmt {
    Expression(ExpressionStatement),
    Print(PrintStatement),
    Var(VarStatement),
    Block(BlockStatement),
    If(IfStatement),
    While(WhileStatement),
}

/// The mathematical value of a [`Stmt`].
pub enum StmtModel {
    Expression { expression: ExprModel },
    Print { expression: ExprModel },
    Var { name: TokenModel, initializer: Option<ExprModel> },
    Block { statements: Seq<StmtModel> },
    If { condition: ExprModel, then_branch: Box<StmtModel>, else_branch: Option<Box<StmtModel>> },
    While { condition: ExprModel, body: Box<StmtModel> },
}

impl Stmt {
    pub open spec fn model(&self) -> StmtModel
        decreases self,
    {
        match self {
            Stmt::Expression(s) => StmtModel::Expression { expression: s.expression.model() },
            Stmt::Print(s) => StmtModel::Print { expression: s.expression.model() },
            Stmt::Var(s) => StmtModel::Var {
                name: s.name@,
                initializer: match s.initializer {
                    Some(e) => Some(e.model()),
                    None => None,
                },
            },
            Stmt::Block(s) => StmtModel::Block { statements: stmt_models(s.statements@) },
            Stmt::If(s) => StmtModel::If {
                condition: s.condition.model(),
                then_branch: Box::new(s.then_branch.model()),
                else_branch: match s.else_branch {
                    Some(b) => Some(Box::new(b.model())),
                    None => None,
                },
            },
            Stmt::While(s) => StmtModel::While { condition: s.condition.model(), body: Box::new(s.body.model()) },
        }
    }
}

/// The models of a list of statements.
pub open spec fn stmt_models(ss: Seq<Stmt>) -> Seq<StmtModel>
    decreases ss,
{
    if ss.len() == 0 {
        seq![]
    } else {
        stmt_models(ss.subrange(0, ss.len() - 1)).push(ss[ss.len() - 1].model())
    }
}

pub proof fn lemma_stmt_models(ss: Seq<Stmt>)
    ensures
        stmt_models(ss).len() == ss.len(),
        forall|i: int| 0 <= i < ss.len() ==> #[trigger] stmt_models(ss)[i] == ss[i].model(),
    decreases ss.len(),
{
    if ss.len() > 0 {
        lemma_stmt_models(ss.subrange(0, ss.len() - 1));
        assert forall|i: int| 0 <= i < ss.len() implies #[trigger] stmt_models(ss)[i] == ss[i].model() by {
            if i < ss.len() - 1 {
                assert(ss.subrange(0, ss.len() - 1)[i] == ss[i]);
            }
        }
    }
}

pub proof fn lemma_stmt_models_push(ss: Seq<Stmt>, s: Stmt)
    ensures
        stmt_models(ss.push(s)) == stmt_models(ss).push(s.model()),
{
    assert(ss.push(s).subrange(0, ss.len() as int) =~= ss);
}

impl Stmt {
    pub fn expression_stmt(expression: Expr) -> (s: Self)
        ensures
            s == Stmt::Expression(ExpressionStatement { expression }),
    {
        Stmt::Expression(ExpressionStatement { expression })
    }

    pub fn print_stmt(expression: Expr) -> (s: Self)
        ensures
            s == Stmt::Print(PrintStatement { expression }),
    {
        Stmt::Print(PrintStatement { expression })
    }

    pub fn block_stmt(statements: Vec<Stmt>) -> (s: Self)
        ensures
            s == Stmt::Block(BlockStatement { statements }),
    {
        Stmt::Block(BlockStatement { statements })
    }

    pub fn var_stmt(name: Token, initializer: Option<Expr>) -> (s: Self)
        ensures
            s == Stmt::Var(VarStatement { name, initializer }),
    {
        Stmt::Var(VarStatement { name, initializer })
    }

    pub fn if_stmt(condition: Expr, then_branch: Stmt, else_branch: Option<Stmt>) -> (s: Self)
        ensures
            s == Stmt::If(IfStatement {
                condition,
                then_branch: Box::new(then_branch),
                else_branch: match else_branch {
                    Some(b) => Some(Box::new(b)),
                    None => None,
                },
            }),
    {
        let else_branch = match else_branch {
            Some(b) => Some(Box::new(b)),
            None => None,
        };
        Stmt::If(IfStatement { condition, then_branch: Box::new(then_branch), else_branch })
    }

    pub fn while_stmt(condition: Expr, body: Stmt) -> (s: Self)
        ensures
            s == Stmt::While(WhileStatement { condition, body: Box::new(body) }),
    {
        Stmt::While(WhileStatement { condition, body: Box::new(body) })
    }
}

} // verus!
