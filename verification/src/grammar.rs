//! The Lox grammar as the parser reads it: each rule maps a token sequence
//! and a position to the tree it reads and the position after it, or to the
//! diagnostic it stops on.
use vstd::prelude::*;
use crate::error::{DiagnosticModel, LocationModel, Phase};
use crate::expr::ExprModel;
use crate::object::ObjectModel;
use crate::stmt::StmtModel;
use crate::token::{TokenModel, TokenType};

verus! {

/// A token sequence that the parser accepts: it ends with the end marker.
pub open spec fn well_formed(toks: Seq<TokenModel>) -> bool {
    toks.len() > 0 && toks.last().token_type == TokenType::EOF
}

/// Whether the token at `pos` is the end marker.
pub open spec fn at_end(toks: Seq<TokenModel>, pos: int) -> bool {
    toks[pos].token_type == TokenType::EOF
}

/// Whether the token at `pos` has type `t` and is not the end marker.
pub open spec fn check(toks: Seq<TokenModel>, pos: int, t: TokenType) -> bool {
    &&& 0 <= pos
    &&& pos + 1 < toks.len()
    &&& toks[pos].token_type != TokenType::EOF
    &&& toks[pos].token_type == t
}

/// A syntax diagnostic that points at `token`.
pub open spec fn syntax_error(token: TokenModel, message: Seq<char>) -> DiagnosticModel {
    DiagnosticModel {
        line: token.line,
        phase: Phase::Syntax,
        location: if token.token_type == TokenType::EOF {
            LocationModel::AtEnd
        } else {
            LocationModel::AtLexeme(token.text())
        },
        message,
    }
}

/// The answer for a position that a well-formed sequence never reaches.
pub open spec fn out_of_range() -> DiagnosticModel {
    DiagnosticModel { line: 0, phase: Phase::Syntax, location: LocationModel::Line, message: seq![] }
}

/// The operators of a binary precedence level: 1 factor, 2 term,
/// 3 comparison, 4 equality, 5 `and`, 6 `or`.
pub open spec fn level_operator(level: nat, t: TokenType) -> bool {
    if level == 1 {
        t == TokenType::Slash || t == TokenType::Star
    } else if level == 2 {
        t == TokenType::Minus || t == TokenType::Plus
    } else if level == 3 {
        t == TokenType::Greater || t == TokenType::GreaterEqual || t == TokenType::Less || t == TokenType::LessEqual
    } else if level == 4 {
        t == TokenType::BangEqual || t == TokenType::EqualEqual
    } else if level == 5 {
        t == TokenType::And
    } else {
        t == TokenType::Or
    }
}

/// Whether the token at `pos` is an operator of `level`.
pub open spec fn at_level_operator(toks: Seq<TokenModel>, pos: int, level: nat) -> bool {
    &&& 0 <= pos
    &&& pos + 1 < toks.len()
    &&& toks[pos].token_type != TokenType::EOF
    &&& level_operator(level, toks[pos].token_type)
}

/// `left op right` at a precedence level: logical for `and` and `or`.
pub open spec fn combine(level: nat, left: ExprModel, op: TokenModel, right: ExprModel) -> ExprModel {
    if level >= 5 {
        ExprModel::Logical { left: Box::new(left), operator: op, right: Box::new(right) }
    } else {
        ExprModel::Binary { left: Box::new(left), operator: op, right: Box::new(right) }
    }
}

/// expression → assignment
pub open spec fn parse_expression(toks: Seq<TokenModel>, pos: int) -> Result<(ExprModel, int), DiagnosticModel>
    decreases toks.len() - pos, 180int,
{
    parse_assignment(toks, pos)
}

/// assignment → IDENTIFIER "=" assignment | or
pub open spec fn parse_assignment(toks: Seq<TokenModel>, pos: int) -> Result<(ExprModel, int), DiagnosticModel>
    decreases toks.len() - pos, 170int,
{
    match parse_level(toks, pos, 6) {
        Ok((expr, p1)) => if !(pos <= p1 < toks.len()) {
            Err(out_of_range())
        } else if check(toks, p1, TokenType::Equal) {
            match parse_assignment(toks, p1 + 1) {
                Ok((value, p2)) => match expr {
                    ExprModel::Variable { name } => Ok((ExprModel::Assign { name, value: Box::new(value) }, p2)),
                    _ => Err(syntax_error(toks[p1], "Invalid assignment target."@)),
                },
                Err(d) => Err(d),
            }
        } else {
            Ok((expr, p1))
        },
        Err(d) => Err(d),
    }
}

/// The operand of a precedence level: the next level down, or unary.
pub open spec fn parse_operand(toks: Seq<TokenModel>, pos: int, level: nat) -> Result<(ExprModel, int), DiagnosticModel>
    decreases toks.len() - pos, 101 + 10 * level,
{
    if level == 0 || level > 6 {
        parse_unary(toks, pos)
    } else {
        parse_level(toks, pos, level)
    }
}

/// level → operand ( OP operand )*
pub open spec fn parse_level(toks: Seq<TokenModel>, pos: int, level: nat) -> Result<(ExprModel, int), DiagnosticModel>
    decreases toks.len() - pos, 100 + 10 * level,
{
    if level == 0 || level > 6 {
        Err(out_of_range())
    } else {
        match parse_operand(toks, pos, (level - 1) as nat) {
            Ok((left, p1)) => if pos <= p1 < toks.len() {
                parse_level_rest(toks, left, p1, level)
            } else {
                Err(out_of_range())
            },
            Err(d) => Err(d),
        }
    }
}

/// The `( OP operand )*` part of a level, after `left`.
pub open spec fn parse_level_rest(toks: Seq<TokenModel>, left: ExprModel, pos: int, level: nat) -> Result<
    (ExprModel, int),
    DiagnosticModel,
>
    decreases toks.len() - pos, 95 + 10 * level,
{
    if 1 <= level <= 6 && at_level_operator(toks, pos, level) {
        match parse_operand(toks, pos + 1, (level - 1) as nat) {
            Ok((right, p2)) => if pos < p2 < toks.len() {
                parse_level_rest(toks, combine(level, left, toks[pos], right), p2, level)
            } else {
                Err(out_of_range())
            },
            Err(d) => Err(d),
        }
    } else {
        Ok((left, pos))
    }
}

/// unary → ( "!" | "-" ) unary | call
pub open spec fn parse_unary(toks: Seq<TokenModel>, pos: int) -> Result<(ExprModel, int), DiagnosticModel>
    decreases toks.len() - pos, 100int,
{
    if check(toks, pos, TokenType::Bang) || check(toks, pos, TokenType::Minus) {
        match parse_unary(toks, pos + 1) {
            Ok((right, p2)) => Ok((ExprModel::Unary { operator: toks[pos], right: Box::new(right) }, p2)),
            Err(d) => Err(d),
        }
    } else {
        parse_call(toks, pos)
    }
}

/// call → primary ( "(" arguments? ")" )*
pub open spec fn parse_call(toks: Seq<TokenModel>, pos: int) -> Result<(ExprModel, int), DiagnosticModel>
    decreases toks.len() - pos, 98int,
{
    match parse_primary(toks, pos) {
        Ok((callee, p1)) => if pos <= p1 < toks.len() {
            parse_call_rest(toks, callee, p1)
        } else {
            Err(out_of_range())
        },
        Err(d) => Err(d),
    }
}

/// The `( "(" arguments? ")" )*` part of a call, after `callee`.
pub open spec fn parse_call_rest(toks: Seq<TokenModel>, callee: ExprModel, pos: int) -> Result<
    (ExprModel, int),
    DiagnosticModel,
>
    decreases toks.len() - pos, 97int,
{
    if check(toks, pos, TokenType::LeftParen) {
        match parse_finish_call(toks, callee, pos + 1) {
            Ok((call, p2)) => if pos < p2 < toks.len() {
                parse_call_rest(toks, call, p2)
            } else {
                Err(out_of_range())
            },
            Err(d) => Err(d),
        }
    } else {
        Ok((callee, pos))
    }
}

/// The arguments and `)` of a call, after its `(`.
pub open spec fn parse_finish_call(toks: Seq<TokenModel>, callee: ExprModel, pos: int) -> Result<
    (ExprModel, int),
    DiagnosticModel,
>
    decreases toks.len() - pos, 200int,
{
    if !(0 <= pos < toks.len()) {
        Err(out_of_range())
    } else if check(toks, pos, TokenType::RightParen) {
        Ok((ExprModel::Call { callee: Box::new(callee), paren: toks[pos], arguments: seq![] }, pos + 1))
    } else {
        match parse_arguments(toks, seq![], pos) {
            Ok((arguments, p2)) => if !(pos <= p2 < toks.len()) {
                Err(out_of_range())
            } else if check(toks, p2, TokenType::RightParen) {
                Ok((ExprModel::Call { callee: Box::new(callee), paren: toks[p2], arguments }, p2 + 1))
            } else {
                Err(syntax_error(toks[p2], "Expected ')' after arguments."@))
            },
            Err(d) => Err(d),
        }
    }
}

/// arguments → expression ( "," expression )*, at most 255 of them.
pub open spec fn parse_arguments(toks: Seq<TokenModel>, args: Seq<ExprModel>, pos: int) -> Result<
    (Seq<ExprModel>, int),
    DiagnosticModel,
>
    decreases toks.len() - pos, 190int,
{
    if !(0 <= pos < toks.len()) {
        Err(out_of_range())
    } else if args.len() >= 255 {
        Err(syntax_error(toks[pos], "Can't have more than 255 arguments."@))
    } else {
        match parse_expression(toks, pos) {
            Ok((e, p1)) => if !(pos <= p1 < toks.len()) {
                Err(out_of_range())
            } else if check(toks, p1, TokenType::Comma) {
                parse_arguments(toks, args.push(e), p1 + 1)
            } else {
                Ok((args.push(e), p1))
            },
            Err(d) => Err(d),
        }
    }
}

/// primary → "false" | "true" | "nil" | NUMBER | STRING | IDENTIFIER | "(" expression ")"
pub open spec fn parse_primary(toks: Seq<TokenModel>, pos: int) -> Result<(ExprModel, int), DiagnosticModel>
    decreases toks.len() - pos, 90int,
{
    if !(0 <= pos < toks.len()) {
        Err(out_of_range())
    } else if check(toks, pos, TokenType::False) {
        Ok((ExprModel::Literal { object: ObjectModel::Boolean(false) }, pos + 1))
    } else if check(toks, pos, TokenType::True) {
        Ok((ExprModel::Literal { object: ObjectModel::Boolean(true) }, pos + 1))
    } else if check(toks, pos, TokenType::Nil) {
        Ok((ExprModel::Literal { object: ObjectModel::Nil }, pos + 1))
    } else if check(toks, pos, TokenType::Number) || check(toks, pos, TokenType::String) {
        match toks[pos].literal {
            Some(object) => Ok((ExprModel::Literal { object }, pos + 1)),
            None => Err(syntax_error(toks[pos], "Expected literal value."@)),
        }
    } else if check(toks, pos, TokenType::Identifier) {
        Ok((ExprModel::Variable { name: toks[pos] }, pos + 1))
    } else if check(toks, pos, TokenType::LeftParen) {
        match parse_expression(toks, pos + 1) {
            Ok((e, p1)) => if !(pos < p1 < toks.len()) {
                Err(out_of_range())
            } else if check(toks, p1, TokenType::RightParen) {
                Ok((ExprModel::Grouping { expression: Box::new(e) }, p1 + 1))
            } else {
                Err(syntax_error(toks[p1], "Expected ')' after expression."@))
            },
            Err(d) => Err(d),
        }
    } else {
        Err(syntax_error(toks[pos], "Expected expression."@))
    }
}

/// Reads a token of type `t` at `pos`, or reports `message` at it.
pub open spec fn parse_expect(toks: Seq<TokenModel>, pos: int, t: TokenType, message: Seq<char>) -> Result<int, DiagnosticModel> {
    if !(0 <= pos < toks.len()) {
        Err(out_of_range())
    } else if check(toks, pos, t) {
        Ok(pos + 1)
    } else {
        Err(syntax_error(toks[pos], message))
    }
}

/// declaration → "var" varDeclaration | statement
pub open spec fn parse_declaration(toks: Seq<TokenModel>, pos: int) -> Result<(StmtModel, int), DiagnosticModel>
    decreases toks.len() - pos, 350int,
{
    if check(toks, pos, TokenType::Var) {
        parse_var_declaration(toks, pos + 1)
    } else {
        parse_statement(toks, pos)
    }
}

/// varDeclaration → IDENTIFIER ( "=" expression )? ";"
pub open spec fn parse_var_declaration(toks: Seq<TokenModel>, pos: int) -> Result<(StmtModel, int), DiagnosticModel>
    decreases toks.len() - pos, 300int,
{
    match parse_expect(toks, pos, TokenType::Identifier, "Expected variable name."@) {
        Ok(p1) => {
            let name = toks[pos];
            let init: Result<(Option<ExprModel>, int), DiagnosticModel> = if check(toks, p1, TokenType::Equal) {
                match parse_expression(toks, p1 + 1) {
                    Ok((e, p2)) => Ok((Some(e), p2)),
                    Err(d) => Err(d),
                }
            } else {
                Ok((None, p1))
            };
            match init {
                Ok((initializer, p2)) => match parse_expect(
                    toks,
                    p2,
                    TokenType::Semicolon,
                    "Expected ';' after variable declaration."@,
                ) {
                    Ok(p3) => Ok((StmtModel::Var { name, initializer }, p3)),
                    Err(d) => Err(d),
                },
                Err(d) => Err(d),
            }
        },
        Err(d) => Err(d),
    }
}

/// statement → print | block | if | while | for | expressionStatement
pub open spec fn parse_statement(toks: Seq<TokenModel>, pos: int) -> Result<(StmtModel, int), DiagnosticModel>
    decreases toks.len() - pos, 340int,
{
    if check(toks, pos, TokenType::Print) {
        parse_print_statement(toks, pos + 1)
    } else if check(toks, pos, TokenType::LeftBrace) {
        match parse_block(toks, pos + 1) {
            Ok((statements, p1)) => Ok((StmtModel::Block { statements }, p1)),
            Err(d) => Err(d),
        }
    } else if check(toks, pos, TokenType::If) {
        parse_if_statement(toks, pos + 1)
    } else if check(toks, pos, TokenType::While) {
        parse_while_statement(toks, pos + 1)
    } else if check(toks, pos, TokenType::For) {
        parse_for_statement(toks, pos + 1)
    } else {
        parse_expression_statement(toks, pos)
    }
}

/// block → declaration* "}" (after the `{`)
pub open spec fn parse_block(toks: Seq<TokenModel>, pos: int) -> Result<(Seq<StmtModel>, int), DiagnosticModel>
    decreases toks.len() - pos, 370int,
{
    parse_block_rest(toks, seq![], pos)
}

/// The rest of a block, after the statements `stmts`.
pub open spec fn parse_block_rest(toks: Seq<TokenModel>, stmts: Seq<StmtModel>, pos: int) -> Result<
    (Seq<StmtModel>, int),
    DiagnosticModel,
>
    decreases toks.len() - pos, 360int,
{
    if !(0 <= pos < toks.len()) {
        Err(out_of_range())
    } else if !check(toks, pos, TokenType::RightBrace) && !at_end(toks, pos) {
        match parse_declaration(toks, pos) {
            Ok((s, p1)) => if pos < p1 < toks.len() {
                parse_block_rest(toks, stmts.push(s), p1)
            } else {
                Err(out_of_range())
            },
            Err(d) => Err(d),
        }
    } else {
        match parse_expect(toks, pos, TokenType::RightBrace, "Expected '}' after block."@) {
            Ok(p1) => Ok((stmts, p1)),
            Err(d) => Err(d),
        }
    }
}

/// An expression followed by a `;`, or `message` at what stands there.
pub open spec fn parse_terminated(toks: Seq<TokenModel>, pos: int, message: Seq<char>) -> Result<
    (ExprModel, int),
    DiagnosticModel,
>
    decreases toks.len() - pos, 305int,
{
    match parse_expression(toks, pos) {
        Ok((e, p1)) => match parse_expect(toks, p1, TokenType::Semicolon, message) {
            Ok(p2) => Ok((e, p2)),
            Err(d) => Err(d),
        },
        Err(d) => Err(d),
    }
}

/// printStatement → expression ";" (after `print`)
pub open spec fn parse_print_statement(toks: Seq<TokenModel>, pos: int) -> Result<(StmtModel, int), DiagnosticModel>
    decreases toks.len() - pos, 320int,
{
    match parse_terminated(toks, pos, "Expected ';' after value."@) {
        Ok((expression, p1)) => Ok((StmtModel::Print { expression }, p1)),
        Err(d) => Err(d),
    }
}

/// expressionStatement → expression ";"
pub open spec fn parse_expression_statement(toks: Seq<TokenModel>, pos: int) -> Result<
    (StmtModel, int),
    DiagnosticModel,
>
    decreases toks.len() - pos, 310int,
{
    match parse_terminated(toks, pos, "Expected ';' after expression."@) {
        Ok((expression, p1)) => Ok((StmtModel::Expression { expression }, p1)),
        Err(d) => Err(d),
    }
}

/// `"(" expression ")"` around a condition; the messages are for a missing
/// `(` and a missing `)`.
pub open spec fn parse_condition(toks: Seq<TokenModel>, pos: int, open: Seq<char>, close: Seq<char>) -> Result<
    (ExprModel, int),
    DiagnosticModel,
>
    decreases toks.len() - pos, 315int,
{
    match parse_expect(toks, pos, TokenType::LeftParen, open) {
        Ok(p1) => match parse_expression(toks, p1) {
            Ok((c, p2)) => match parse_expect(toks, p2, TokenType::RightParen, close) {
                Ok(p3) => Ok((c, p3)),
                Err(d) => Err(d),
            },
            Err(d) => Err(d),
        },
        Err(d) => Err(d),
    }
}

/// ifStatement → "(" expression ")" statement ( "else" statement )? (after `if`)
pub open spec fn parse_if_statement(toks: Seq<TokenModel>, pos: int) -> Result<(StmtModel, int), DiagnosticModel>
    decreases toks.len() - pos, 330int,
{
    match parse_condition(toks, pos, "Expected '(' after 'if'."@, "Expected ')' after if condition."@) {
        Ok((condition, p1)) => if !(pos < p1 < toks.len()) {
            Err(out_of_range())
        } else {
            match parse_statement(toks, p1) {
                Ok((then_branch, p2)) => if !(p1 < p2 < toks.len()) {
                    Err(out_of_range())
                } else if check(toks, p2, TokenType::Else) {
                    match parse_statement(toks, p2 + 1) {
                        Ok((else_branch, p3)) => Ok((
                            StmtModel::If {
                                condition,
                                then_branch: Box::new(then_branch),
                                else_branch: Some(Box::new(else_branch)),
                            },
                            p3,
                        )),
                        Err(d) => Err(d),
                    }
                } else {
                    Ok((StmtModel::If { condition, then_branch: Box::new(then_branch), else_branch: None }, p2))
                },
                Err(d) => Err(d),
            }
        },
        Err(d) => Err(d),
    }
}

/// whileStatement → "(" expression ")" statement (after `while`)
pub open spec fn parse_while_statement(toks: Seq<TokenModel>, pos: int) -> Result<(StmtModel, int), DiagnosticModel>
    decreases toks.len() - pos, 330int,
{
    match parse_condition(toks, pos, "Expected '(' after 'while'."@, "Expected ')' after condition."@) {
        Ok((condition, p1)) => if !(pos < p1 < toks.len()) {
            Err(out_of_range())
        } else {
            match parse_statement(toks, p1) {
                Ok((body, p2)) => Ok((StmtModel::While { condition, body: Box::new(body) }, p2)),
                Err(d) => Err(d),
            }
        },
        Err(d) => Err(d),
    }
}

/// The initializer clause of a `for`: nothing (`;`), a variable declaration,
/// or an expression statement.
pub open spec fn parse_for_initializer(toks: Seq<TokenModel>, pos: int) -> Result<
    (Option<StmtModel>, int),
    DiagnosticModel,
>
    decreases toks.len() - pos, 312int,
{
    if check(toks, pos, TokenType::Semicolon) {
        Ok((None, pos + 1))
    } else if check(toks, pos, TokenType::Var) {
        match parse_var_declaration(toks, pos + 1) {
            Ok((s, p1)) => Ok((Some(s), p1)),
            Err(d) => Err(d),
        }
    } else {
        match parse_expression_statement(toks, pos) {
            Ok((s, p1)) => Ok((Some(s), p1)),
            Err(d) => Err(d),
        }
    }
}

/// An optional expression, absent when the token at `pos` has type `stop`.
pub open spec fn parse_optional_expression(toks: Seq<TokenModel>, pos: int, stop: TokenType) -> Result<
    (Option<ExprModel>, int),
    DiagnosticModel,
>
    decreases toks.len() - pos, 311int,
{
    if !check(toks, pos, stop) {
        match parse_expression(toks, pos) {
            Ok((e, p1)) => Ok((Some(e), p1)),
            Err(d) => Err(d),
        }
    } else {
        Ok((None, pos))
    }
}

/// The `while` loop that a `for` stands for.
pub open spec fn desugar_for(
    initializer: Option<StmtModel>,
    condition: Option<ExprModel>,
    increment: Option<ExprModel>,
    body: StmtModel,
) -> StmtModel {
    let body = match increment {
        Some(i) => StmtModel::Block { statements: seq![body, StmtModel::Expression { expression: i }] },
        None => body,
    };
    let condition = match condition {
        Some(c) => c,
        None => ExprModel::Literal { object: ObjectModel::Boolean(true) },
    };
    let looped = StmtModel::While { condition, body: Box::new(body) };
    match initializer {
        Some(init) => StmtModel::Block { statements: seq![init, looped] },
        None => looped,
    }
}

/// forStatement → "(" ( varDecl | exprStmt | ";" ) expression? ";" expression? ")" statement
/// (after `for`)
pub open spec fn parse_for_statement(toks: Seq<TokenModel>, pos: int) -> Result<(StmtModel, int), DiagnosticModel>
    decreases toks.len() - pos, 330int,
{
    match parse_expect(toks, pos, TokenType::LeftParen, "Expected '(' after 'for'."@) {
        Ok(p1) => match parse_for_initializer(toks, p1) {
            Ok((initializer, p2)) => if !(p1 <= p2 < toks.len()) {
                Err(out_of_range())
            } else {
                match parse_optional_expression(toks, p2, TokenType::Semicolon) {
                    Ok((condition, p3)) => match parse_expect(
                        toks,
                        p3,
                        TokenType::Semicolon,
                        "Expected ';' after loop condition."@,
                    ) {
                        Ok(p4) => if !(p1 < p4 < toks.len()) {
                            Err(out_of_range())
                        } else {
                            match parse_optional_expression(toks, p4, TokenType::RightParen) {
                                Ok((increment, p5)) => match parse_expect(
                                    toks,
                                    p5,
                                    TokenType::RightParen,
                                    "Expected ')' after for clauses."@,
                                ) {
                                    Ok(p6) => if !(p4 < p6 < toks.len()) {
                                        Err(out_of_range())
                                    } else {
                                        match parse_statement(toks, p6) {
                                            Ok((body, p7)) => Ok(
                                                (desugar_for(initializer, condition, increment, body), p7),
                                            ),
                                            Err(d) => Err(d),
                                        }
                                    },
                                    Err(d) => Err(d),
                                },
                                Err(d) => Err(d),
                            }
                        },
                        Err(d) => Err(d),
                    },
                    Err(d) => Err(d),
                }
            },
            Err(d) => Err(d),
        },
        Err(d) => Err(d),
    }
}

/// program → declaration* EOF, after the statements `stmts`.
pub open spec fn parse_program_rest(toks: Seq<TokenModel>, stmts: Seq<StmtModel>, pos: int) -> Result<
    Seq<StmtModel>,
    DiagnosticModel,
>
    decreases toks.len() - pos, 380int,
{
    if !(0 <= pos < toks.len()) {
        Err(out_of_range())
    } else if at_end(toks, pos) {
        Ok(stmts)
    } else {
        match parse_declaration(toks, pos) {
            Ok((s, p1)) => if pos < p1 < toks.len() {
                parse_program_rest(toks, stmts.push(s), p1)
            } else {
                Err(out_of_range())
            },
            Err(d) => Err(d),
        }
    }
}

/// The statements of a whole token sequence, or the first syntax diagnostic.
pub open spec fn parse_program(toks: Seq<TokenModel>) -> Result<Seq<StmtModel>, DiagnosticModel> {
    parse_program_rest(toks, seq![], 0)
}

/// `left op right`, as the parser builds it for an operator of `level`:
/// a logical expression for `and` and `or`, a binary one for the others.
pub open spec fn operation(level: nat, left: ExprModel, op: TokenModel, right: ExprModel) -> ExprModel {
    if level == 5 || level == 6 {
        ExprModel::Logical { left: Box::new(left), operator: op, right: Box::new(right) }
    } else {
        ExprModel::Binary { left: Box::new(left), operator: op, right: Box::new(right) }
    }
}

/// Operators of one precedence level associate to the left. When the
/// operands `a`, `b` and `c` are read at the next higher level and stand
/// between two operators of `level` (and no third one follows `c`), the
/// level reads `a op1 b op2 c` as `(a op1 b) op2 c`, ending after `c`.
pub proof fn law_left_associative(
    toks: Seq<TokenModel>,
    pos: int,
    level: nat,
    a: ExprModel,
    p1: int,
    b: ExprModel,
    p2: int,
    c: ExprModel,
    p3: int,
)
    requires
        1 <= level <= 6,
        0 <= pos <= p1 < p2 < p3 < toks.len(),
        parse_operand(toks, pos, (level - 1) as nat) == Ok::<(ExprModel, int), DiagnosticModel>((a, p1)),
        at_level_operator(toks, p1, level),
        parse_operand(toks, p1 + 1, (level - 1) as nat) == Ok::<(ExprModel, int), DiagnosticModel>((b, p2)),
        at_level_operator(toks, p2, level),
        parse_operand(toks, p2 + 1, (level - 1) as nat) == Ok::<(ExprModel, int), DiagnosticModel>((c, p3)),
        !at_level_operator(toks, p3, level),
    ensures
        parse_level(toks, pos, level) == Ok::<(ExprModel, int), DiagnosticModel>(
            (operation(level, operation(level, a, toks[p1], b), toks[p2], c), p3),
        ),
{
    assert(parse_level_rest(toks, operation(level, operation(level, a, toks[p1], b), toks[p2], c), p3, level)
        == Ok::<(ExprModel, int), DiagnosticModel>((operation(level, operation(level, a, toks[p1], b), toks[p2], c), p3)));
    assert(parse_level_rest(toks, operation(level, a, toks[p1], b), p2, level) == parse_level_rest(
        toks,
        operation(level, operation(level, a, toks[p1], b), toks[p2], c),
        p3,
        level,
    ));
    assert(parse_level_rest(toks, a, p1, level) == parse_level_rest(toks, operation(level, a, toks[p1], b), p2, level));
}

} // verus!
