use vstd::prelude::*;
use crate::error::{Diagnostic, DiagnosticModel, Error, Phase, diagnostics_view, error_at_token};
use crate::expr::{Expr, ExprModel, expr_models, lemma_expr_models_push};
use crate::grammar::{
    at_end, at_level_operator, check, desugar_for, parse_expect, parse_arguments, parse_assignment, parse_block,
    parse_block_rest, parse_call, parse_call_rest, parse_condition, parse_declaration, parse_expression,
    parse_expression_statement, parse_finish_call, parse_for_initializer, parse_for_statement, parse_if_statement,
    parse_level, parse_level_rest, parse_operand, parse_optional_expression, parse_primary, parse_print_statement,
    parse_program, parse_program_rest, parse_statement, parse_terminated, parse_unary, parse_var_declaration,
    parse_while_statement, syntax_error, well_formed,
};
use crate::object::Object;
use crate::stmt::{Stmt, StmtModel, lemma_stmt_models, lemma_stmt_models_push, stmt_models};
use crate::token::{Token, TokenModel, TokenType, tokens_view};
use crate::scanner::{law_scan_ends_with_eof, scan_tokens, spec_scan};

verus! {

// ---------------------------------------------------------------------------
// How an executable result answers a grammar rule.
// ---------------------------------------------------------------------------

/// `r` is what the rule answered `rule`: on success the same tree and position
/// (which lies after `pos` and before `len`) with no new diagnostic, on failure
/// `Error::Parser` with the rule's diagnostic appended.
pub open spec fn expr_outcome(
    rule: Result<(ExprModel, int), DiagnosticModel>,
    r: Result<(Expr, usize), Error>,
    pos: int,
    len: int,
    ds0: Seq<Diagnostic>,
    ds1: Seq<Diagnostic>,
) -> bool {
    match rule {
        Ok((m, p)) => {
            &&& r matches Ok((e, q)) && e.model() == m && q == p
            &&& pos < p < len
            &&& diagnostics_view(ds1) == diagnostics_view(ds0)
        },
        Err(d) => {
            &&& r is Err && r->Err_0 == Error::Parser
            &&& diagnostics_view(ds1) == diagnostics_view(ds0).push(d)
        },
    }
}

pub open spec fn stmt_outcome(
    rule: Result<(StmtModel, int), DiagnosticModel>,
    r: Result<(Stmt, usize), Error>,
    pos: int,
    len: int,
    ds0: Seq<Diagnostic>,
    ds1: Seq<Diagnostic>,
) -> bool {
    match rule {
        Ok((m, p)) => {
            &&& r matches Ok((s, q)) && s.model() == m && q == p
            &&& pos < p < len
            &&& diagnostics_view(ds1) == diagnostics_view(ds0)
        },
        Err(d) => {
            &&& r is Err && r->Err_0 == Error::Parser
            &&& diagnostics_view(ds1) == diagnostics_view(ds0).push(d)
        },
    }
}

pub open spec fn stmts_outcome(
    rule: Result<(Seq<StmtModel>, int), DiagnosticModel>,
    r: Result<(Vec<Stmt>, usize), Error>,
    pos: int,
    len: int,
    ds0: Seq<Diagnostic>,
    ds1: Seq<Diagnostic>,
) -> bool {
    match rule {
        Ok((m, p)) => {
            &&& r matches Ok((s, q)) && stmt_models(s@) == m && q == p
            &&& pos < p < len
            &&& diagnostics_view(ds1) == diagnostics_view(ds0)
        },
        Err(d) => {
            &&& r is Err && r->Err_0 == Error::Parser
            &&& diagnostics_view(ds1) == diagnostics_view(ds0).push(d)
        },
    }
}

pub open spec fn opt_expr_model(e: Option<Expr>) -> Option<ExprModel> {
    match e {
        Some(e) => Some(e.model()),
        None => None,
    }
}

pub open spec fn opt_stmt_model(s: Option<Stmt>) -> Option<StmtModel> {
    match s {
        Some(s) => Some(s.model()),
        None => None,
    }
}

/// Like [`expr_outcome`], for a rule that may read nothing.
pub open spec fn opt_expr_outcome(
    rule: Result<(Option<ExprModel>, int), DiagnosticModel>,
    r: Result<(Option<Expr>, usize), Error>,
    pos: int,
    len: int,
    ds0: Seq<Diagnostic>,
    ds1: Seq<Diagnostic>,
) -> bool {
    match rule {
        Ok((m, p)) => {
            &&& r matches Ok((e, q)) && opt_expr_model(e) == m && q == p
            &&& pos <= p < len
            &&& diagnostics_view(ds1) == diagnostics_view(ds0)
        },
        Err(d) => {
            &&& r is Err && r->Err_0 == Error::Parser
            &&& diagnostics_view(ds1) == diagnostics_view(ds0).push(d)
        },
    }
}

pub open spec fn opt_stmt_outcome(
    rule: Result<(Option<StmtModel>, int), DiagnosticModel>,
    r: Result<(Option<Stmt>, usize), Error>,
    pos: int,
    len: int,
    ds0: Seq<Diagnostic>,
    ds1: Seq<Diagnostic>,
) -> bool {
    match rule {
        Ok((m, p)) => {
            &&& r matches Ok((s, q)) && opt_stmt_model(s) == m && q == p
            &&& pos < p < len
            &&& diagnostics_view(ds1) == diagnostics_view(ds0)
        },
        Err(d) => {
            &&& r is Err && r->Err_0 == Error::Parser
            &&& diagnostics_view(ds1) == diagnostics_view(ds0).push(d)
        },
    }
}

pub open spec fn pos_outcome(
    rule: Result<int, DiagnosticModel>,
    r: Result<usize, Error>,
    ds0: Seq<Diagnostic>,
    ds1: Seq<Diagnostic>,
) -> bool {
    match rule {
        Ok(p) => r matches Ok(q) && q == p && diagnostics_view(ds1) == diagnostics_view(ds0),
        Err(d) => {
            &&& r is Err && r->Err_0 == Error::Parser
            &&& diagnostics_view(ds1) == diagnostics_view(ds0).push(d)
        },
    }
}

// ---------------------------------------------------------------------------
// Reading tokens.
// ---------------------------------------------------------------------------

fn check_token(tokens: &Vec<Token>, pos: usize, t: TokenType) -> (b: bool)
    requires
        pos < tokens.len(),
    ensures
        b == check(tokens_view(tokens@), pos as int, t),
{
    pos + 1 < tokens.len() && tokens[pos].token_type != TokenType::EOF && tokens[pos].token_type == t
}

fn is_at_end(tokens: &Vec<Token>, pos: usize) -> (b: bool)
    requires
        pos < tokens.len(),
    ensures
        b == at_end(tokens_view(tokens@), pos as int),
{
    tokens[pos].token_type == TokenType::EOF
}

/// Reports `message` at the token at `pos`.
fn error_at(tokens: &Vec<Token>, pos: usize, message: &str, diagnostics: &mut Vec<Diagnostic>)
    requires
        pos < tokens.len(),
    ensures
        diagnostics_view(final(diagnostics)@) == diagnostics_view(old(diagnostics)@).push(
            syntax_error(tokens_view(tokens@)[pos as int], message@),
        ),
{
    let d = error_at_token(&tokens[pos], Phase::Syntax, message);
    diagnostics.push(d);
    assert(diagnostics_view(diagnostics@) =~= diagnostics_view(old(diagnostics)@).push(d@));
}

/// The token at `pos`, copied.
fn token_at(tokens: &Vec<Token>, pos: usize) -> (t: Token)
    requires
        pos < tokens.len(),
    ensures
        t@ == tokens_view(tokens@)[pos as int],
{
    tokens[pos].clone()
}

/// Reads a token of type `t`, or reports `message` at what stands there.
fn expect(tokens: &Vec<Token>, pos: usize, t: TokenType, message: &str, diagnostics: &mut Vec<Diagnostic>) -> (r:
    Result<usize, Error>)
    requires
        pos < tokens.len(),
    ensures
        pos_outcome(parse_expect(tokens_view(tokens@), pos as int, t, message@), r, old(diagnostics)@, final(diagnostics)@),
{
    if check_token(tokens, pos, t) {
        Ok(pos + 1)
    } else {
        error_at(tokens, pos, message, diagnostics);
        Err(Error::Parser)
    }
}

// ---------------------------------------------------------------------------
// Expressions.
// ---------------------------------------------------------------------------

fn expression(tokens: &Vec<Token>, pos: usize, diagnostics: &mut Vec<Diagnostic>) -> (r: Result<(Expr, usize), Error>)
    requires
        well_formed(tokens_view(tokens@)),
        pos < tokens.len(),
    ensures
        expr_outcome(
            parse_expression(tokens_view(tokens@), pos as int),
            r,
            pos as int,
            tokens@.len() as int,
            old(diagnostics)@,
            final(diagnostics)@,
        ),
    decreases tokens@.len() - pos, 180int,
{
    assignment(tokens, pos, diagnostics)
}

fn assignment(tokens: &Vec<Token>, pos: usize, diagnostics: &mut Vec<Diagnostic>) -> (r: Result<(Expr, usize), Error>)
    requires
        well_formed(tokens_view(tokens@)),
        pos < tokens.len(),
    ensures
        expr_outcome(
            parse_assignment(tokens_view(tokens@), pos as int),
            r,
            pos as int,
            tokens@.len() as int,
            old(diagnostics)@,
            final(diagnostics)@,
        ),
    decreases tokens@.len() - pos, 170int,
{
    let (expr, p1) = or(tokens, pos, diagnostics)?;
    if check_token(tokens, p1, TokenType::Equal) {
        let (value, p2) = assignment(tokens, p1 + 1, diagnostics)?;
        match expr {
            Expr::VariableExprs(variable_expr) => {
                let name = variable_expr.name;
                Ok((Expr::assign(name, value), p2))
            },
            _ => {
                error_at(tokens, p1, "Invalid assignment target.", diagnostics);
                Err(Error::Parser)
            },
        }
    } else {
        Ok((expr, p1))
    }
}

fn or(tokens: &Vec<Token>, pos: usize, diagnostics: &mut Vec<Diagnostic>) -> (r: Result<(Expr, usize), Error>)
    requires
        well_formed(tokens_view(tokens@)),
        pos < tokens.len(),
    ensures
        expr_outcome(
            parse_level(tokens_view(tokens@), pos as int, 6),
            r,
            pos as int,
            tokens@.len() as int,
            old(diagnostics)@,
            final(diagnostics)@,
        ),
    decreases tokens@.len() - pos, 161int,
{
    level(tokens, pos, 6, diagnostics)
}

fn and(tokens: &Vec<Token>, pos: usize, diagnostics: &mut Vec<Diagnostic>) -> (r: Result<(Expr, usize), Error>)
    requires
        well_formed(tokens_view(tokens@)),
        pos < tokens.len(),
    ensures
        expr_outcome(
            parse_level(tokens_view(tokens@), pos as int, 5),
            r,
            pos as int,
            tokens@.len() as int,
            old(diagnostics)@,
            final(diagnostics)@,
        ),
    decreases tokens@.len() - pos, 151int,
{
    level(tokens, pos, 5, diagnostics)
}

fn equality(tokens: &Vec<Token>, pos: usize, diagnostics: &mut Vec<Diagnostic>) -> (r: Result<(Expr, usize), Error>)
    requires
        well_formed(tokens_view(tokens@)),
        pos < tokens.len(),
    ensures
        expr_outcome(
            parse_level(tokens_view(tokens@), pos as int, 4),
            r,
            pos as int,
            tokens@.len() as int,
            old(diagnostics)@,
            final(diagnostics)@,
        ),
    decreases tokens@.len() - pos, 141int,
{
    level(tokens, pos, 4, diagnostics)
}

fn comparison(tokens: &Vec<Token>, pos: usize, diagnostics: &mut Vec<Diagnostic>) -> (r: Result<(Expr, usize), Error>)
    requires
        well_formed(tokens_view(tokens@)),
        pos < tokens.len(),
    ensures
        expr_outcome(
            parse_level(tokens_view(tokens@), pos as int, 3),
            r,
            pos as int,
            tokens@.len() as int,
            old(diagnostics)@,
            final(diagnostics)@,
        ),
    decreases tokens@.len() - pos, 131int,
{
    level(tokens, pos, 3, diagnostics)
}

fn term(tokens: &Vec<Token>, pos: usize, diagnostics: &mut Vec<Diagnostic>) -> (r: Result<(Expr, usize), Error>)
    requires
        well_formed(tokens_view(tokens@)),
        pos < tokens.len(),
    ensures
        expr_outcome(
            parse_level(tokens_view(tokens@), pos as int, 2),
            r,
            pos as int,
            tokens@.len() as int,
            old(diagnostics)@,
            final(diagnostics)@,
        ),
    decreases tokens@.len() - pos, 121int,
{
    level(tokens, pos, 2, diagnostics)
}

fn factor(tokens: &Vec<Token>, pos: usize, diagnostics: &mut Vec<Diagnostic>) -> (r: Result<(Expr, usize), Error>)
    requires
        well_formed(tokens_view(tokens@)),
        pos < tokens.len(),
    ensures
        expr_outcome(
            parse_level(tokens_view(tokens@), pos as int, 1),
            r,
            pos as int,
            tokens@.len() as int,
            old(diagnostics)@,
            final(diagnostics)@,
        ),
    decreases tokens@.len() - pos, 111int,
{
    level(tokens, pos, 1, diagnostics)
}

/// The operand of precedence level `lvl`.
fn operand(tokens: &Vec<Token>, pos: usize, lvl: usize, diagnostics: &mut Vec<Diagnostic>) -> (r: Result<
    (Expr, usize),
    Error,
>)
    requires
        well_formed(tokens_view(tokens@)),
        pos < tokens.len(),
        lvl <= 5,
    ensures
        expr_outcome(
            parse_operand(tokens_view(tokens@), pos as int, lvl as nat),
            r,
            pos as int,
            tokens@.len() as int,
            old(diagnostics)@,
            final(diagnostics)@,
        ),
    decreases tokens@.len() - pos, 102 + 10 * lvl,
{
    if lvl == 0 {
        unary(tokens, pos, diagnostics)
    } else if lvl == 1 {
        factor(tokens, pos, diagnostics)
    } else if lvl == 2 {
        term(tokens, pos, diagnostics)
    } else if lvl == 3 {
        comparison(tokens, pos, diagnostics)
    } else if lvl == 4 {
        equality(tokens, pos, diagnostics)
    } else {
        and(tokens, pos, diagnostics)
    }
}

fn at_level_operator_token(tokens: &Vec<Token>, pos: usize, lvl: usize) -> (b: bool)
    requires
        pos < tokens.len(),
        1 <= lvl <= 6,
    ensures
        b == at_level_operator(tokens_view(tokens@), pos as int, lvl as nat),
{
    if !(pos + 1 < tokens.len()) || tokens[pos].token_type == TokenType::EOF {
        return false;
    }
    let t = tokens[pos].token_type;
    if lvl == 1 {
        t == TokenType::Slash || t == TokenType::Star
    } else if lvl == 2 {
        t == TokenType::Minus || t == TokenType::Plus
    } else if lvl == 3 {
        t == TokenType::Greater || t == TokenType::GreaterEqual || t == TokenType::Less || t == TokenType::LessEqual
    } else if lvl == 4 {
        t == TokenType::BangEqual || t == TokenType::EqualEqual
    } else if lvl == 5 {
        t == TokenType::And
    } else {
        t == TokenType::Or
    }
}

/// A left-associative chain of operands joined by the operators of `lvl`.
fn level(tokens: &Vec<Token>, pos: usize, lvl: usize, diagnostics: &mut Vec<Diagnostic>) -> (r: Result<
    (Expr, usize),
    Error,
>)
    requires
        well_formed(tokens_view(tokens@)),
        pos < tokens.len(),
        1 <= lvl <= 6,
    ensures
        expr_outcome(
            parse_level(tokens_view(tokens@), pos as int, lvl as nat),
            r,
            pos as int,
            tokens@.len() as int,
            old(diagnostics)@,
            final(diagnostics)@,
        ),
    decreases tokens@.len() - pos, 100 + 10 * lvl,
{
    let ghost toks = tokens_view(tokens@);
    let (mut expr, mut cur) = operand(tokens, pos, lvl - 1, diagnostics)?;
    while at_level_operator_token(tokens, cur, lvl)
        invariant
            well_formed(toks),
            toks == tokens_view(tokens@),
            1 <= lvl <= 6,
            pos < cur < tokens.len(),
            parse_level(toks, pos as int, lvl as nat) == parse_level_rest(toks, expr.model(), cur as int, lvl as nat),
            diagnostics_view(diagnostics@) == diagnostics_view(old(diagnostics)@),
        decreases tokens@.len() - cur,
    {
        let operator = token_at(tokens, cur);
        let (right, next) = operand(tokens, cur + 1, lvl - 1, diagnostics)?;
        expr = if lvl >= 5 {
            Expr::logical(expr, operator, right)
        } else {
            Expr::binary(expr, operator, right)
        };
        cur = next;
    }
    Ok((expr, cur))
}

fn unary(tokens: &Vec<Token>, pos: usize, diagnostics: &mut Vec<Diagnostic>) -> (r: Result<(Expr, usize), Error>)
    requires
        well_formed(tokens_view(tokens@)),
        pos < tokens.len(),
    ensures
        expr_outcome(
            parse_unary(tokens_view(tokens@), pos as int),
            r,
            pos as int,
            tokens@.len() as int,
            old(diagnostics)@,
            final(diagnostics)@,
        ),
    decreases tokens@.len() - pos, 100int,
{
    if check_token(tokens, pos, TokenType::Bang) || check_token(tokens, pos, TokenType::Minus) {
        let operator = token_at(tokens, pos);
        let (right, p) = unary(tokens, pos + 1, diagnostics)?;
        return Ok((Expr::unary(operator, right), p));
    }
    call(tokens, pos, diagnostics)
}

fn call(tokens: &Vec<Token>, pos: usize, diagnostics: &mut Vec<Diagnostic>) -> (r: Result<(Expr, usize), Error>)
    requires
        well_formed(tokens_view(tokens@)),
        pos < tokens.len(),
    ensures
        expr_outcome(
            parse_call(tokens_view(tokens@), pos as int),
            r,
            pos as int,
            tokens@.len() as int,
            old(diagnostics)@,
            final(diagnostics)@,
        ),
    decreases tokens@.len() - pos, 98int,
{
    let ghost toks = tokens_view(tokens@);
    let (mut expr, mut cur) = primary(tokens, pos, diagnostics)?;
    while check_token(tokens, cur, TokenType::LeftParen)
        invariant
            well_formed(toks),
            toks == tokens_view(tokens@),
            pos < cur < tokens.len(),
            parse_call(toks, pos as int) == parse_call_rest(toks, expr.model(), cur as int),
            diagnostics_view(diagnostics@) == diagnostics_view(old(diagnostics)@),
        decreases tokens@.len() - cur,
    {
        let (c, next) = finish_call(tokens, cur + 1, expr, diagnostics)?;
        expr = c;
        cur = next;
    }
    Ok((expr, cur))
}

fn finish_call(tokens: &Vec<Token>, pos: usize, callee: Expr, diagnostics: &mut Vec<Diagnostic>) -> (r: Result<
    (Expr, usize),
    Error,
>)
    requires
        well_formed(tokens_view(tokens@)),
        pos < tokens.len(),
    ensures
        expr_outcome(
            parse_finish_call(tokens_view(tokens@), callee.model(), pos as int),
            r,
            pos as int,
            tokens@.len() as int,
            old(diagnostics)@,
            final(diagnostics)@,
        ),
    decreases tokens@.len() - pos, 200int,
{
    let ghost toks = tokens_view(tokens@);
    let ghost callee_model = callee.model();
    if check_token(tokens, pos, TokenType::RightParen) {
        let paren = token_at(tokens, pos);
        let arguments: Vec<Expr> = Vec::new();
        let e = Expr::call(callee, paren, arguments);
        assert(expr_models(arguments@) =~= seq![]);
        return Ok((e, pos + 1));
    }
    let mut arguments: Vec<Expr> = Vec::new();
    let mut cur = pos;
    assert(expr_models(arguments@) =~= seq![]);
    loop
        invariant_except_break
            parse_arguments(toks, seq![], pos as int) == parse_arguments(toks, expr_models(arguments@), cur as int),
        invariant
            well_formed(toks),
            toks == tokens_view(tokens@),
            pos <= cur < tokens.len(),
            !check(toks, pos as int, TokenType::RightParen),
            callee_model == callee.model(),
            expr_models(arguments@).len() == arguments@.len(),
            diagnostics_view(diagnostics@) == diagnostics_view(old(diagnostics)@),
        ensures
            parse_arguments(toks, seq![], pos as int) == Ok::<(Seq<ExprModel>, int), DiagnosticModel>(
                (expr_models(arguments@), cur as int),
            ),
        decreases tokens@.len() - cur,
    {
        let ghost models = expr_models(arguments@);
        let ghost at = cur as int;
        if arguments.len() >= 255 {
            error_at(tokens, cur, "Can't have more than 255 arguments.", diagnostics);
            assert(parse_arguments(toks, models, at) == Err::<(Seq<ExprModel>, int), DiagnosticModel>(
                syntax_error(toks[at], "Can't have more than 255 arguments."@),
            ));
            return Err(Error::Parser);
        }
        let (e, p1) = match expression(tokens, cur, diagnostics) {
            Ok(found) => found,
            Err(err) => {
                assert(parse_expression(toks, at) is Err);
                assert(parse_arguments(toks, models, at) == Err::<(Seq<ExprModel>, int), DiagnosticModel>(
                    parse_expression(toks, at)->Err_0,
                ));
                return Err(err);
            },
        };
        proof {
            lemma_expr_models_push(arguments@, e);
        }
        arguments.push(e);
        if check_token(tokens, p1, TokenType::Comma) {
            cur = p1 + 1;
        } else {
            cur = p1;
            break;
        }
    }
    if check_token(tokens, cur, TokenType::RightParen) {
        let paren = token_at(tokens, cur);
        Ok((Expr::call(callee, paren, arguments), cur + 1))
    } else {
        error_at(tokens, cur, "Expected ')' after arguments.", diagnostics);
        Err(Error::Parser)
    }
}

fn primary(tokens: &Vec<Token>, pos: usize, diagnostics: &mut Vec<Diagnostic>) -> (r: Result<(Expr, usize), Error>)
    requires
        well_formed(tokens_view(tokens@)),
        pos < tokens.len(),
    ensures
        expr_outcome(
            parse_primary(tokens_view(tokens@), pos as int),
            r,
            pos as int,
            tokens@.len() as int,
            old(diagnostics)@,
            final(diagnostics)@,
        ),
    decreases tokens@.len() - pos, 90int,
{
    if check_token(tokens, pos, TokenType::False) {
        return Ok((Expr::literal(Object::Boolean(false)), pos + 1));
    }
    if check_token(tokens, pos, TokenType::True) {
        return Ok((Expr::literal(Object::Boolean(true)), pos + 1));
    }
    if check_token(tokens, pos, TokenType::Nil) {
        return Ok((Expr::literal(Object::Nil), pos + 1));
    }
    if check_token(tokens, pos, TokenType::Number) || check_token(tokens, pos, TokenType::String) {
        match &tokens[pos].literal {
            Some(literal) => return Ok((Expr::literal(literal.clone()), pos + 1)),
            None => {
                error_at(tokens, pos, "Expected literal value.", diagnostics);
                return Err(Error::Parser);
            },
        }
    }
    if check_token(tokens, pos, TokenType::Identifier) {
        let name = token_at(tokens, pos);
        return Ok((Expr::variable(name), pos + 1));
    }
    if check_token(tokens, pos, TokenType::LeftParen) {
        let (expr, p1) = expression(tokens, pos + 1, diagnostics)?;
        if check_token(tokens, p1, TokenType::RightParen) {
            return Ok((Expr::grouping(expr), p1 + 1));
        }
        error_at(tokens, p1, "Expected ')' after expression.", diagnostics);
        return Err(Error::Parser);
    }
    error_at(tokens, pos, "Expected expression.", diagnostics);
    Err(Error::Parser)
}

// ---------------------------------------------------------------------------
// Statements.
// ---------------------------------------------------------------------------

fn declaration(tokens: &Vec<Token>, pos: usize, diagnostics: &mut Vec<Diagnostic>) -> (r: Result<(Stmt, usize), Error>)
    requires
        well_formed(tokens_view(tokens@)),
        pos < tokens.len(),
    ensures
        stmt_outcome(
            parse_declaration(tokens_view(tokens@), pos as int),
            r,
            pos as int,
            tokens@.len() as int,
            old(diagnostics)@,
            final(diagnostics)@,
        ),
    decreases tokens@.len() - pos, 350int,
{
    if check_token(tokens, pos, TokenType::Var) {
        return var_declaration(tokens, pos + 1, diagnostics);
    }
    statement(tokens, pos, diagnostics)
}

fn var_declaration(tokens: &Vec<Token>, pos: usize, diagnostics: &mut Vec<Diagnostic>) -> (r: Result<
    (Stmt, usize),
    Error,
>)
    requires
        well_formed(tokens_view(tokens@)),
        pos < tokens.len(),
    ensures
        stmt_outcome(
            parse_var_declaration(tokens_view(tokens@), pos as int),
            r,
            pos as int,
            tokens@.len() as int,
            old(diagnostics)@,
            final(diagnostics)@,
        ),
    decreases tokens@.len() - pos, 300int,
{
    let p1 = expect(tokens, pos, TokenType::Identifier, "Expected variable name.", diagnostics)?;
    let name = token_at(tokens, pos);
    let (initializer, p2) = if check_token(tokens, p1, TokenType::Equal) {
        let (e, p) = expression(tokens, p1 + 1, diagnostics)?;
        (Some(e), p)
    } else {
        (None, p1)
    };
    let p3 = expect(tokens, p2, TokenType::Semicolon, "Expected ';' after variable declaration.", diagnostics)?;
    Ok((Stmt::var_stmt(name, initializer), p3))
}

fn statement(tokens: &Vec<Token>, pos: usize, diagnostics: &mut Vec<Diagnostic>) -> (r: Result<(Stmt, usize), Error>)
    requires
        well_formed(tokens_view(tokens@)),
        pos < tokens.len(),
    ensures
        stmt_outcome(
            parse_statement(tokens_view(tokens@), pos as int),
            r,
            pos as int,
            tokens@.len() as int,
            old(diagnostics)@,
            final(diagnostics)@,
        ),
    decreases tokens@.len() - pos, 340int,
{
    if check_token(tokens, pos, TokenType::Print) {
        return print_statement(tokens, pos + 1, diagnostics);
    }
    if check_token(tokens, pos, TokenType::LeftBrace) {
        let (statements, p) = block(tokens, pos + 1, diagnostics)?;
        return Ok((Stmt::block_stmt(statements), p));
    }
    if check_token(tokens, pos, TokenType::If) {
        return if_statement(tokens, pos + 1, diagnostics);
    }
    if check_token(tokens, pos, TokenType::While) {
        return while_statement(tokens, pos + 1, diagnostics);
    }
    if check_token(tokens, pos, TokenType::For) {
        return for_statement(tokens, pos + 1, diagnostics);
    }
    expression_statement(tokens, pos, diagnostics)
}

/// The statements of a block, after its `{`, through its `}`.
fn block(tokens: &Vec<Token>, pos: usize, diagnostics: &mut Vec<Diagnostic>) -> (r: Result<(Vec<Stmt>, usize), Error>)
    requires
        well_formed(tokens_view(tokens@)),
        pos < tokens.len(),
    ensures
        stmts_outcome(
            parse_block(tokens_view(tokens@), pos as int),
            r,
            pos as int,
            tokens@.len() as int,
            old(diagnostics)@,
            final(diagnostics)@,
        ),
    decreases tokens@.len() - pos, 370int,
{
    let ghost toks = tokens_view(tokens@);
    let mut statements: Vec<Stmt> = Vec::new();
    let mut cur = pos;
    assert(stmt_models(statements@) =~= seq![]);
    while !check_token(tokens, cur, TokenType::RightBrace) && !is_at_end(tokens, cur)
        invariant
            well_formed(toks),
            toks == tokens_view(tokens@),
            pos <= cur < tokens.len(),
            parse_block(toks, pos as int) == parse_block_rest(toks, stmt_models(statements@), cur as int),
            diagnostics_view(diagnostics@) == diagnostics_view(old(diagnostics)@),
        decreases tokens@.len() - cur,
    {
        let (s, p1) = declaration(tokens, cur, diagnostics)?;
        proof {
            lemma_stmt_models_push(statements@, s);
        }
        statements.push(s);
        cur = p1;
    }
    let p = expect(tokens, cur, TokenType::RightBrace, "Expected '}' after block.", diagnostics)?;
    Ok((statements, p))
}

/// An expression and the `;` after it.
fn terminated(tokens: &Vec<Token>, pos: usize, message: &str, diagnostics: &mut Vec<Diagnostic>) -> (r: Result<
    (Expr, usize),
    Error,
>)
    requires
        well_formed(tokens_view(tokens@)),
        pos < tokens.len(),
    ensures
        expr_outcome(
            parse_terminated(tokens_view(tokens@), pos as int, message@),
            r,
            pos as int,
            tokens@.len() as int,
            old(diagnostics)@,
            final(diagnostics)@,
        ),
    decreases tokens@.len() - pos, 305int,
{
    let (e, p1) = expression(tokens, pos, diagnostics)?;
    let p2 = expect(tokens, p1, TokenType::Semicolon, message, diagnostics)?;
    Ok((e, p2))
}

fn print_statement(tokens: &Vec<Token>, pos: usize, diagnostics: &mut Vec<Diagnostic>) -> (r: Result<
    (Stmt, usize),
    Error,
>)
    requires
        well_formed(tokens_view(tokens@)),
        pos < tokens.len(),
    ensures
        stmt_outcome(
            parse_print_statement(tokens_view(tokens@), pos as int),
            r,
            pos as int,
            tokens@.len() as int,
            old(diagnostics)@,
            final(diagnostics)@,
        ),
    decreases tokens@.len() - pos, 320int,
{
    let (value, p) = terminated(tokens, pos, "Expected ';' after value.", diagnostics)?;
    Ok((Stmt::print_stmt(value), p))
}

fn expression_statement(tokens: &Vec<Token>, pos: usize, diagnostics: &mut Vec<Diagnostic>) -> (r: Result<
    (Stmt, usize),
    Error,
>)
    requires
        well_formed(tokens_view(tokens@)),
        pos < tokens.len(),
    ensures
        stmt_outcome(
            parse_expression_statement(tokens_view(tokens@), pos as int),
            r,
            pos as int,
            tokens@.len() as int,
            old(diagnostics)@,
            final(diagnostics)@,
        ),
    decreases tokens@.len() - pos, 310int,
{
    let (expr, p) = terminated(tokens, pos, "Expected ';' after expression.", diagnostics)?;
    Ok((Stmt::expression_stmt(expr), p))
}

/// A parenthesized condition; `open` and `close` report a missing `(` and `)`.
fn condition(tokens: &Vec<Token>, pos: usize, open: &str, close: &str, diagnostics: &mut Vec<Diagnostic>) -> (r:
    Result<(Expr, usize), Error>)
    requires
        well_formed(tokens_view(tokens@)),
        pos < tokens.len(),
    ensures
        expr_outcome(
            parse_condition(tokens_view(tokens@), pos as int, open@, close@),
            r,
            pos as int,
            tokens@.len() as int,
            old(diagnostics)@,
            final(diagnostics)@,
        ),
    decreases tokens@.len() - pos, 315int,
{
    let p1 = expect(tokens, pos, TokenType::LeftParen, open, diagnostics)?;
    let (c, p2) = expression(tokens, p1, diagnostics)?;
    let p3 = expect(tokens, p2, TokenType::RightParen, close, diagnostics)?;
    Ok((c, p3))
}

fn if_statement(tokens: &Vec<Token>, pos: usize, diagnostics: &mut Vec<Diagnostic>) -> (r: Result<(Stmt, usize), Error>)
    requires
        well_formed(tokens_view(tokens@)),
        pos < tokens.len(),
    ensures
        stmt_outcome(
            parse_if_statement(tokens_view(tokens@), pos as int),
            r,
            pos as int,
            tokens@.len() as int,
            old(diagnostics)@,
            final(diagnostics)@,
        ),
    decreases tokens@.len() - pos, 330int,
{
    let (condition, p1) = condition(
        tokens,
        pos,
        "Expected '(' after 'if'.",
        "Expected ')' after if condition.",
        diagnostics,
    )?;
    let (then_branch, p2) = statement(tokens, p1, diagnostics)?;
    if check_token(tokens, p2, TokenType::Else) {
        let (else_branch, p3) = statement(tokens, p2 + 1, diagnostics)?;
        Ok((Stmt::if_stmt(condition, then_branch, Some(else_branch)), p3))
    } else {
        Ok((Stmt::if_stmt(condition, then_branch, None), p2))
    }
}

fn while_statement(tokens: &Vec<Token>, pos: usize, diagnostics: &mut Vec<Diagnostic>) -> (r: Result<
    (Stmt, usize),
    Error,
>)
    requires
        well_formed(tokens_view(tokens@)),
        pos < tokens.len(),
    ensures
        stmt_outcome(
            parse_while_statement(tokens_view(tokens@), pos as int),
            r,
            pos as int,
            tokens@.len() as int,
            old(diagnostics)@,
            final(diagnostics)@,
        ),
    decreases tokens@.len() - pos, 330int,
{
    let (condition, p1) = condition(
        tokens,
        pos,
        "Expected '(' after 'while'.",
        "Expected ')' after condition.",
        diagnostics,
    )?;
    let (body, p2) = statement(tokens, p1, diagnostics)?;
    Ok((Stmt::while_stmt(condition, body), p2))
}

/// The initializer clause of a `for`.
fn for_initializer(tokens: &Vec<Token>, pos: usize, diagnostics: &mut Vec<Diagnostic>) -> (r: Result<
    (Option<Stmt>, usize),
    Error,
>)
    requires
        well_formed(tokens_view(tokens@)),
        pos < tokens.len(),
    ensures
        opt_stmt_outcome(
            parse_for_initializer(tokens_view(tokens@), pos as int),
            r,
            pos as int,
            tokens@.len() as int,
            old(diagnostics)@,
            final(diagnostics)@,
        ),
    decreases tokens@.len() - pos, 312int,
{
    if check_token(tokens, pos, TokenType::Semicolon) {
        Ok((None, pos + 1))
    } else if check_token(tokens, pos, TokenType::Var) {
        let (s, p) = var_declaration(tokens, pos + 1, diagnostics)?;
        Ok((Some(s), p))
    } else {
        let (s, p) = expression_statement(tokens, pos, diagnostics)?;
        Ok((Some(s), p))
    }
}

/// An expression, or nothing when the token at `pos` has type `stop`.
fn optional_expression(tokens: &Vec<Token>, pos: usize, stop: TokenType, diagnostics: &mut Vec<Diagnostic>) -> (r:
    Result<(Option<Expr>, usize), Error>)
    requires
        well_formed(tokens_view(tokens@)),
        pos < tokens.len(),
    ensures
        opt_expr_outcome(
            parse_optional_expression(tokens_view(tokens@), pos as int, stop),
            r,
            pos as int,
            tokens@.len() as int,
            old(diagnostics)@,
            final(diagnostics)@,
        ),
    decreases tokens@.len() - pos, 311int,
{
    if !check_token(tokens, pos, stop) {
        let (e, p) = expression(tokens, pos, diagnostics)?;
        Ok((Some(e), p))
    } else {
        Ok((None, pos))
    }
}

/// The `while` loop that a `for` stands for.
fn desugar(initializer: Option<Stmt>, condition: Option<Expr>, increment: Option<Expr>, body: Stmt) -> (s: Stmt)
    ensures
        s.model() == desugar_for(
            opt_stmt_model(initializer),
            opt_expr_model(condition),
            opt_expr_model(increment),
            body.model(),
        ),
{
    let ghost models = (opt_stmt_model(initializer), opt_expr_model(condition), opt_expr_model(increment), body.model());
    let body = match increment {
        Some(increment) => {
            let statements = vec![body, Stmt::expression_stmt(increment)];
            proof {
                lemma_stmt_models(statements@);
                assert(stmt_models(statements@) =~= seq![statements@[0].model(), statements@[1].model()]);
            }
            Stmt::block_stmt(statements)
        },
        None => body,
    };
    let condition = match condition {
        Some(c) => c,
        None => Expr::literal(Object::Boolean(true)),
    };
    let looped = Stmt::while_stmt(condition, body);
    let ghost looped_model = StmtModel::While {
        condition: match models.1 {
            Some(c) => c,
            None => ExprModel::Literal { object: crate::object::ObjectModel::Boolean(true) },
        },
        body: Box::new(
            match models.2 {
                Some(i) => StmtModel::Block { statements: seq![models.3, StmtModel::Expression { expression: i }] },
                None => models.3,
            },
        ),
    };
    assert(looped.model() == looped_model) by {
        assert(condition.model() == looped_model->While_condition);
        assert(body.model() == *looped_model->While_body);
    }
    match initializer {
        Some(initializer) => {
            let statements = vec![initializer, looped];
            proof {
                lemma_stmt_models(statements@);
                assert(stmt_models(statements@) =~= seq![statements@[0].model(), statements@[1].model()]);
                assert(stmt_models(statements@) =~= seq![models.0->Some_0, looped_model]);
            }
            Stmt::block_stmt(statements)
        },
        None => looped,
    }
}

fn for_statement(tokens: &Vec<Token>, pos: usize, diagnostics: &mut Vec<Diagnostic>) -> (r: Result<(Stmt, usize), Error>)
    requires
        well_formed(tokens_view(tokens@)),
        pos < tokens.len(),
    ensures
        stmt_outcome(
            parse_for_statement(tokens_view(tokens@), pos as int),
            r,
            pos as int,
            tokens@.len() as int,
            old(diagnostics)@,
            final(diagnostics)@,
        ),
    decreases tokens@.len() - pos, 330int,
{
    let p1 = expect(tokens, pos, TokenType::LeftParen, "Expected '(' after 'for'.", diagnostics)?;
    let (initializer, p2) = for_initializer(tokens, p1, diagnostics)?;
    let (condition, p3) = optional_expression(tokens, p2, TokenType::Semicolon, diagnostics)?;
    let p4 = expect(tokens, p3, TokenType::Semicolon, "Expected ';' after loop condition.", diagnostics)?;
    let (increment, p5) = optional_expression(tokens, p4, TokenType::RightParen, diagnostics)?;
    let p6 = expect(tokens, p5, TokenType::RightParen, "Expected ')' after for clauses.", diagnostics)?;
    let (body, p7) = statement(tokens, p6, diagnostics)?;
    Ok((desugar(initializer, condition, increment, body), p7))
}

/// Parses a token sequence into statements.
pub struct Parser {
    tokens: Vec<Token>,
    current: usize,
}

/// Whether a token of this type begins a statement, so that recovery after a
/// syntax error stops before it.
pub open spec fn starts_statement(t: TokenType) -> bool {
    ||| t == TokenType::Class
    ||| t == TokenType::Fun
    ||| t == TokenType::Var
    ||| t == TokenType::For
    ||| t == TokenType::If
    ||| t == TokenType::While
    ||| t == TokenType::Print
    ||| t == TokenType::Return
}

/// Where recovery that has reached `p` stops: at the end marker, just after a
/// `;`, or before a token that begins a statement.
pub open spec fn recovery_stop(toks: Seq<TokenModel>, p: int) -> int
    decreases toks.len() - p,
{
    if p < 1 || p >= toks.len() || at_end(toks, p) {
        p
    } else if toks[p - 1].token_type == TokenType::Semicolon || starts_statement(toks[p].token_type) {
        p
    } else {
        recovery_stop(toks, p + 1)
    }
}

/// The position that recovery from an error at `current` moves to: past the
/// offending token (unless it is the end marker), then on to the next
/// statement boundary.
pub open spec fn spec_synchronize(toks: Seq<TokenModel>, current: int) -> int {
    recovery_stop(toks, if at_end(toks, current) { current } else { current + 1 })
}

impl Parser {
    /// The tokens that the parser reads.
    pub closed spec fn tokens_model(&self) -> Seq<TokenModel> {
        tokens_view(self.tokens@)
    }

    pub fn new(tokens: Vec<Token>) -> (p: Self)
        ensures
            p.tokens_model() == tokens_view(tokens@),
    {
        Parser { tokens, current: 0 }
    }

    /// Skips to the start of the next statement after an error.
    fn synchronize(&mut self)
        requires
            well_formed(tokens_view(old(self).tokens@)),
            old(self).current < old(self).tokens.len(),
        ensures
            final(self).tokens@ == old(self).tokens@,
            old(self).current <= final(self).current < final(self).tokens.len(),
            final(self).current == spec_synchronize(tokens_view(old(self).tokens@), old(self).current as int),
    {
        let ghost toks = tokens_view(self.tokens@);
        if !is_at_end(&self.tokens, self.current) {
            self.current = self.current + 1;
        }
        while !is_at_end(&self.tokens, self.current)
            invariant
                well_formed(toks),
                toks == tokens_view(self.tokens@),
                self.tokens@ == old(self).tokens@,
                old(self).current <= self.current < self.tokens.len(),
                at_end(toks, self.current as int) || self.current >= 1,
                recovery_stop(toks, self.current as int) == spec_synchronize(toks, old(self).current as int),
            decreases self.tokens@.len() - self.current,
        {
            if self.tokens[self.current - 1].token_type == TokenType::Semicolon {
                return;
            }
            match self.tokens[self.current].token_type {
                TokenType::Class | TokenType::Fun | TokenType::Var | TokenType::For | TokenType::If
                | TokenType::While | TokenType::Print | TokenType::Return => return,
                _ => {},
            }
            self.current = self.current + 1;
        }
    }

    /// The statements of a token sequence that ends with the end marker.
    fn parse_all(&mut self, diagnostics: &mut Vec<Diagnostic>) -> (r: Result<Vec<Stmt>, Error>)
        requires
            well_formed(old(self).tokens_model()),
        ensures
            final(self).tokens_model() == old(self).tokens_model(),
            match parse_program(old(self).tokens_model()) {
                Ok(ss) => {
                    &&& r matches Ok(stmts) && stmt_models(stmts@) == ss
                    &&& diagnostics_view(final(diagnostics)@) == diagnostics_view(old(diagnostics)@)
                },
                Err(d) => {
                    &&& r == Err::<Vec<Stmt>, Error>(Error::Parser)
                    &&& diagnostics_view(final(diagnostics)@) == diagnostics_view(old(diagnostics)@).push(d)
                },
            },
    {
        let ghost toks = tokens_view(self.tokens@);
        self.current = 0;
        let mut statements: Vec<Stmt> = Vec::new();
        assert(stmt_models(statements@) =~= seq![]);
        while !is_at_end(&self.tokens, self.current)
            invariant
                well_formed(toks),
                toks == tokens_view(self.tokens@),
                self.tokens@ == old(self).tokens@,
                self.current < self.tokens.len(),
                parse_program(toks) == parse_program_rest(toks, stmt_models(statements@), self.current as int),
                diagnostics_view(diagnostics@) == diagnostics_view(old(diagnostics)@),
            decreases self.tokens@.len() - self.current,
        {
            match declaration(&self.tokens, self.current, diagnostics) {
                Ok((stmt, next)) => {
                    proof {
                        lemma_stmt_models_push(statements@, stmt);
                    }
                    statements.push(stmt);
                    self.current = next;
                },
                Err(e) => {
                    self.synchronize();
                    return Err(e);
                },
            }
        }
        Ok(statements)
    }

    /// The statements of the tokens up to the first end marker, or
    /// `Error::Parser` at the first syntax error, whose diagnostic is appended
    /// to `diagnostics`. Tokens after the first end marker are not read; the
    /// tokens must hold an end marker, as the scanner's output does at its end.
    pub fn parse(&mut self, diagnostics: &mut Vec<Diagnostic>) -> (r: Result<Vec<Stmt>, Error>)
        requires
            has_end(old(self).tokens_model()),
        ensures
            final(self).tokens_model() == old(self).tokens_model(),
            match parse_program(through_end(old(self).tokens_model())) {
                Ok(ss) => {
                    &&& r matches Ok(stmts) && stmt_models(stmts@) == ss
                    &&& diagnostics_view(final(diagnostics)@) == diagnostics_view(old(diagnostics)@)
                },
                Err(d) => {
                    &&& r == Err::<Vec<Stmt>, Error>(Error::Parser)
                    &&& diagnostics_view(final(diagnostics)@) == diagnostics_view(old(diagnostics)@).push(d)
                },
            },
    {
        let ghost toks = tokens_view(self.tokens@);
        let k = first_end_index(&self.tokens);
        proof {
            lemma_first_end(toks, 0);
        }
        if k + 1 == self.tokens.len() {
            assert(through_end(toks) =~= toks);
            self.parse_all(diagnostics)
        } else {
            let mut prefix: Vec<Token> = Vec::new();
            let mut j: usize = 0;
            while j <= k
                invariant
                    k < self.tokens.len(),
                    j <= k + 1,
                    prefix@ == self.tokens@.subrange(0, j as int),
                    self.tokens@ == old(self).tokens@,
                decreases k + 1 - j,
            {
                prefix.push(self.tokens[j].clone());
                assert(prefix@ =~= self.tokens@.subrange(0, j + 1));
                j = j + 1;
            }
            assert(tokens_view(prefix@) =~= through_end(toks));
            let mut part = Parser::new(prefix);
            let r = part.parse_all(diagnostics);
            self.current = part.current;
            r
        }
    }
}

/// Whether some token is the end marker.
pub open spec fn has_end(toks: Seq<TokenModel>) -> bool {
    exists|i: int| 0 <= i < toks.len() && #[trigger] toks[i].token_type == TokenType::EOF
}

/// The first position at or after `i` that holds the end marker.
pub open spec fn first_end_from(toks: Seq<TokenModel>, i: int) -> int
    decreases toks.len() - i,
{
    if i < 0 || i >= toks.len() || toks[i].token_type == TokenType::EOF {
        i
    } else {
        first_end_from(toks, i + 1)
    }
}

/// The tokens up to and with the first end marker.
pub open spec fn through_end(toks: Seq<TokenModel>) -> Seq<TokenModel> {
    toks.subrange(0, first_end_from(toks, 0) + 1)
}

proof fn lemma_first_end(toks: Seq<TokenModel>, i: int)
    requires
        0 <= i,
        exists|j: int| i <= j < toks.len() && #[trigger] toks[j].token_type == TokenType::EOF,
    ensures
        i <= first_end_from(toks, i) < toks.len(),
        toks[first_end_from(toks, i)].token_type == TokenType::EOF,
        forall|j: int| i <= j < first_end_from(toks, i) ==> #[trigger] toks[j].token_type != TokenType::EOF,
        well_formed(toks.subrange(0, first_end_from(toks, i) + 1)),
    decreases toks.len() - i,
{
    if toks[i].token_type != TokenType::EOF {
        let w = choose|j: int| i <= j < toks.len() && #[trigger] toks[j].token_type == TokenType::EOF;
        assert(i + 1 <= w);
        lemma_first_end(toks, i + 1);
    }
}

/// The position of the first end marker.
fn first_end_index(tokens: &Vec<Token>) -> (k: usize)
    requires
        has_end(tokens_view(tokens@)),
    ensures
        k == first_end_from(tokens_view(tokens@), 0),
        k < tokens.len(),
{
    let ghost toks = tokens_view(tokens@);
    proof {
        lemma_first_end(toks, 0);
    }
    let mut i: usize = 0;
    while tokens[i].token_type != TokenType::EOF
        invariant
            toks == tokens_view(tokens@),
            i <= first_end_from(toks, 0) < tokens.len(),
            first_end_from(toks, i as int) == first_end_from(toks, 0),
            toks[first_end_from(toks, 0)].token_type == TokenType::EOF,
        decreases tokens.len() - i,
    {
        assert(toks[i as int].token_type == tokens@[i as int].token_type);
        proof {
            lemma_first_end(toks, i as int);
        }
        i = i + 1;
    }
    i
}

/// The statements of a source text: its tokens, then their parse. The
/// diagnostics of the scan, and of the parse when the scan succeeds, are
/// appended to `diagnostics`.
pub fn parse_source(source: &str, diagnostics: &mut Vec<Diagnostic>) -> (r: Result<Vec<Stmt>, Error>)
    requires
        source@.len() < usize::MAX,
    ensures
        ({
            let s = spec_scan(source@);
            let ds0 = diagnostics_view(old(diagnostics)@) + s.diagnostics;
            if s.failed {
                &&& r == Err::<Vec<Stmt>, Error>(Error::Scanner)
                &&& diagnostics_view(final(diagnostics)@) == ds0
            } else {
                match parse_program(s.tokens) {
                    Ok(ss) => {
                        &&& r matches Ok(stmts) && stmt_models(stmts@) == ss
                        &&& diagnostics_view(final(diagnostics)@) == ds0
                    },
                    Err(d) => {
                        &&& r == Err::<Vec<Stmt>, Error>(Error::Parser)
                        &&& diagnostics_view(final(diagnostics)@) == ds0.push(d)
                    },
                }
            }
        }),
{
    let tokens = scan_tokens(source, diagnostics)?;
    let ghost toks = tokens_view(tokens@);
    proof {
        law_scan_ends_with_eof(source@, 0, 1);
        assert(toks[toks.len() - 1].token_type == TokenType::EOF);
        lemma_first_end(toks, 0);
        if first_end_from(toks, 0) < toks.len() - 1 {
            assert(toks[first_end_from(toks, 0)].token_type != TokenType::EOF);
        }
        assert(through_end(toks) =~= toks);
    }
    let mut parser = Parser::new(tokens);
    parser.parse(diagnostics)
}

} // verus!
