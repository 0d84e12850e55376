use rlox::enviorment::Enviorment;
use rlox::error::{error, error_at_token, Diagnostic, Error, Location, Phase};
use rlox::expr::Expr;
use rlox::interpreter::{decimal_string, Answer, Execution, Interpreter, Request, Step};
use rlox::object::{Callable, Object};
use rlox::parser::{parse_source, Parser};
use rlox::scanner::{scan_tokens, set_number_values};
use rlox::stmt::Stmt;
use rlox::token::{fixed_lexeme, keyword_token, Literal, Token, TokenType};

fn number(f: f64) -> Object {
    Object::Number(format!("{}", f))
}

/// Answers the interpreter's requests as a binary64 host would, collecting
/// printed lines.
fn host(request: &Request, printed: &mut Vec<String>) -> Answer {
    match request {
        Request::Binary { operator, left, right } => {
            let l: f64 = left.parse().unwrap();
            let r: f64 = right.parse().unwrap();
            match operator {
                TokenType::Plus => Answer::Number(format!("{}", l + r)),
                TokenType::Minus => Answer::Number(format!("{}", l - r)),
                TokenType::Star => Answer::Number(format!("{}", l * r)),
                TokenType::Slash => Answer::Number(format!("{}", l / r)),
                TokenType::Greater => Answer::Boolean(l > r),
                TokenType::GreaterEqual => Answer::Boolean(l >= r),
                TokenType::Less => Answer::Boolean(l < r),
                TokenType::LessEqual => Answer::Boolean(l <= r),
                TokenType::EqualEqual => Answer::Boolean(l == r),
                TokenType::BangEqual => Answer::Boolean(l != r),
                _ => panic!("unexpected operator"),
            }
        }
        Request::Negate(n) => {
            let v: f64 = n.parse().unwrap();
            Answer::Number(format!("{}", -v))
        }
        Request::Print(line) => {
            printed.push(line.clone());
            Answer::Printed
        }
        Request::Clock => Answer::Number("12".to_string()),
    }
}

fn drive(mut execution: Execution<'_>, diagnostics: &mut Vec<Diagnostic>, printed: &mut Vec<String>) -> (Interpreter, Result<(), Error>) {
    loop {
        let mut step = execution.step(diagnostics);
        while let Step::Request(request) = &step {
            let answer = host(request, printed);
            step = execution.answer(answer, diagnostics);
        }
        match step {
            Step::Finished => return (execution.finish(), Ok(())),
            Step::Failed(e) => return (execution.finish(), Err(e)),
            _ => {}
        }
    }
}

/// Runs a program; gives the printed lines, the rendered diagnostics and the result.
fn run(source: &str) -> (Vec<String>, Vec<String>, Result<(), Error>) {
    let mut diagnostics = Vec::new();
    let mut printed = Vec::new();
    let result = match parse_source(source, &mut diagnostics) {
        Ok(stmts) => {
            let interpreter = Interpreter::new();
            let execution = interpreter.interpret(&stmts);
            drive(execution, &mut diagnostics, &mut printed).1
        }
        Err(e) => Err(e),
    };
    let rendered = diagnostics.iter().map(|d| d.render()).collect();
    (printed, rendered, result)
}

fn parse_expression(source: &str) -> Expr {
    let mut diagnostics = Vec::new();
    let stmts = parse_source(source, &mut diagnostics).unwrap();
    match stmts.into_iter().next().unwrap() {
        Stmt::Expression(s) => s.expression,
        _ => panic!("not an expression statement"),
    }
}

#[test]
fn test_expr_pretty_print() {
    let expr = Expr::binary(
        Expr::unary(
            Token::operator(TokenType::Minus, 1),
            Expr::literal(number(123.0)),
        ),
        Token::operator(TokenType::Star, 1),
        Expr::grouping(Expr::literal(number(45.67))),
    );
    assert_eq!(expr.pretty_print(), "(operator(*) (operator(-) number(123)) (group number(45.67)))");
}

#[test]
fn pretty_print_covers_every_expression() {
    assert_eq!(parse_expression("a = b or c and !d;").pretty_print(),
        "assign(a = (operator(or) variable(b) (operator(and) variable(c) (operator(!) variable(d)))))");
    assert_eq!(parse_expression("f(1, \"s\", nil)(true);").pretty_print(),
        "(call (call variable(f) number(1), string(s), nil(nil)) boolean(true))");
    assert_eq!(parse_expression("f();").pretty_print(), "(call variable(f) )");
}

#[test]
fn exit_codes() {
    assert_eq!(Error::Scanner.exit_code(), 65);
    assert_eq!(Error::Parser.exit_code(), 65);
    assert_eq!(Error::Runtime.exit_code(), 70);
}

#[test]
fn keywords_and_fixed_lexemes() {
    assert_eq!(keyword_token("while"), Some(TokenType::While));
    assert_eq!(keyword_token("and"), Some(TokenType::And));
    assert_eq!(keyword_token("whilst"), None);
    assert_eq!(keyword_token(""), None);
    assert_eq!(fixed_lexeme(TokenType::BangEqual), "!=");
    assert_eq!(fixed_lexeme(TokenType::Identifier), "");
    assert_eq!(fixed_lexeme(TokenType::EOF), "");
    let t = Token::new(TokenType::Identifier, Some("abc"), None, 3);
    assert_eq!(t.lexeme(), "abc");
    assert_eq!(Token::operator(TokenType::LessEqual, 1).lexeme(), "<=");
}

#[test]
fn type_names() {
    assert_eq!(Object::String("s".to_string()).get_type(), "string");
    assert_eq!(number(1.0).get_type(), "number");
    assert_eq!(Object::Boolean(true).get_type(), "boolean");
    assert_eq!(Object::Nil.get_type(), "nil");
    assert_eq!(Object::Callable(Callable::Clock).get_type(), "callable");
    assert_eq!(Literal::Number("1".to_string()).get_type(), "number");
    assert_eq!(Literal::Nil.get_type(), "nil");
    assert!(!Object::Nil.is_truthy());
    assert!(!Object::Boolean(false).is_truthy());
    assert!(number(0.0).is_truthy());
    assert!(Object::String(String::new()).is_truthy());
}

#[test]
fn scanner_tokens_lexemes_and_lines() {
    let mut diagnostics = Vec::new();
    let tokens = scan_tokens("var x = 1.5; // note\nprint x >= \"a\nb\";", &mut diagnostics).unwrap();
    let kinds: Vec<TokenType> = tokens.iter().map(|t| t.token_type).collect();
    assert_eq!(kinds, vec![
        TokenType::Var, TokenType::Identifier, TokenType::Equal, TokenType::Number, TokenType::Semicolon,
        TokenType::Print, TokenType::Identifier, TokenType::GreaterEqual, TokenType::String, TokenType::Semicolon,
        TokenType::EOF,
    ]);
    assert_eq!(tokens[1].lexeme(), "x");
    assert_eq!(tokens[3].lexeme(), "1.5");
    assert!(matches!(&tokens[3].literal, Some(Object::Number(n)) if n == "1.5"));
    assert!(matches!(&tokens[8].literal, Some(Object::String(s)) if s == "a\nb"));
    assert_eq!(tokens[8].lexeme(), "\"a\nb\"");
    assert_eq!(tokens[0].lexeme, None);
    assert_eq!(tokens[0].line, 1);
    assert_eq!(tokens[5].line, 2);
    assert_eq!(tokens[8].line, 3);
    assert_eq!(tokens[10].line, 3);
    assert!(diagnostics.is_empty());
}

#[test]
fn scanner_numbers_need_digits_after_the_point() {
    let mut diagnostics = Vec::new();
    let tokens = scan_tokens("12.a", &mut diagnostics).unwrap();
    let kinds: Vec<TokenType> = tokens.iter().map(|t| t.token_type).collect();
    assert_eq!(kinds, vec![TokenType::Number, TokenType::Dot, TokenType::Identifier, TokenType::EOF]);
    assert_eq!(tokens[0].lexeme(), "12");
}

#[test]
fn scanner_rejects_unexpected_character() {
    let mut diagnostics = Vec::new();
    let r = scan_tokens("var a;\n@", &mut diagnostics);
    assert!(matches!(r, Err(Error::Scanner)));
    assert_eq!(diagnostics.len(), 1);
    assert_eq!(diagnostics[0].render(), "[line 2] Scanner Error: Unexpected character.");
}

#[test]
fn scanner_reports_unterminated_string_and_goes_on() {
    let mut diagnostics = Vec::new();
    let tokens = scan_tokens("print \"abc\n", &mut diagnostics).unwrap();
    assert_eq!(tokens.len(), 2);
    assert_eq!(tokens[1].token_type, TokenType::EOF);
    assert_eq!(tokens[1].line, 2);
    assert_eq!(diagnostics[0].render(), "[line 2] Scanner Error: Unterminated string.");
}

#[test]
fn parser_reports_first_syntax_error() {
    let mut diagnostics = Vec::new();
    let r = parse_source("print 1", &mut diagnostics);
    assert!(matches!(r, Err(Error::Parser)));
    assert_eq!(diagnostics.len(), 1);
    assert_eq!(diagnostics[0].render(), "[line 1] Syntax Error at end: Expected ';' after value.");

    let mut diagnostics = Vec::new();
    let r = parse_source("1 = 2;", &mut diagnostics);
    assert!(matches!(r, Err(Error::Parser)));
    assert_eq!(diagnostics[0].render(), "[line 1] Syntax Error at '=': Invalid assignment target.");

    let mut diagnostics = Vec::new();
    let r = parse_source("var 1;", &mut diagnostics);
    assert!(r.is_err());
    assert_eq!(diagnostics[0].render(), "[line 1] Syntax Error at '1': Expected variable name.");

    let mut diagnostics = Vec::new();
    let r = parse_source("{ print 1;", &mut diagnostics);
    assert!(r.is_err());
    assert_eq!(diagnostics[0].render(), "[line 1] Syntax Error at end: Expected '}' after block.");

    let mut diagnostics = Vec::new();
    let r = parse_source(";", &mut diagnostics);
    assert!(r.is_err());
    assert_eq!(diagnostics[0].render(), "[line 1] Syntax Error at ';': Expected expression.");
}

#[test]
fn parser_limits_arguments() {
    let args: Vec<String> = (0..256).map(|i| i.to_string()).collect();
    let mut diagnostics = Vec::new();
    let source = format!("f({});", args.join(", "));
    let r = parse_source(&source, &mut diagnostics);
    assert!(r.is_err());
    assert_eq!(diagnostics[0].render(), "[line 1] Syntax Error at '255': Can't have more than 255 arguments.");
    let source = format!("f({});", args[..255].join(", "));
    let mut diagnostics = Vec::new();
    assert!(parse_source(&source, &mut diagnostics).is_ok());
}

#[test]
fn parser_number_token_without_literal() {
    let tokens = vec![
        Token::new(TokenType::Number, Some("1"), None, 1),
        Token::operator(TokenType::Semicolon, 1),
        Token::operator(TokenType::EOF, 1),
    ];
    let mut diagnostics = Vec::new();
    let r = Parser::new(tokens).parse(&mut diagnostics);
    assert!(r.is_err());
    assert_eq!(diagnostics[0].render(), "[line 1] Syntax Error at '1': Expected literal value.");
}

#[test]
fn parser_desugars_for_loops() {
    let mut diagnostics = Vec::new();
    let stmts = parse_source("for (var i = 0; i < 3; i = i + 1) print i;", &mut diagnostics).unwrap();
    assert_eq!(stmts.len(), 1);
    match &stmts[0] {
        Stmt::Block(b) => {
            assert_eq!(b.statements.len(), 2);
            assert!(matches!(b.statements[0], Stmt::Var(_)));
            match &b.statements[1] {
                Stmt::While(w) => {
                    assert_eq!(w.condition.pretty_print(), "(operator(<) variable(i) number(3))");
                    match &*w.body {
                        Stmt::Block(inner) => {
                            assert_eq!(inner.statements.len(), 2);
                            assert!(matches!(inner.statements[0], Stmt::Print(_)));
                            assert!(matches!(inner.statements[1], Stmt::Expression(_)));
                        }
                        _ => panic!("body"),
                    }
                }
                _ => panic!("while"),
            }
        }
        _ => panic!("block"),
    }
    let stmts = parse_source("for (;;) print 1;", &mut diagnostics).unwrap();
    match &stmts[0] {
        Stmt::While(w) => assert_eq!(w.condition.pretty_print(), "boolean(true)"),
        _ => panic!("while"),
    }
}

#[test]
fn environment_define_get_assign() {
    let mut env = Enviorment::new();
    assert!(matches!(env.get("clock"), Ok(Object::Callable(Callable::Clock))));
    assert_eq!(env.get("x").err().unwrap(), "Undefined variable 'x'.");
    assert_eq!(env.assign("x", Object::Nil).err().unwrap(), "Undefined variable 'x'.");
    env.define("x", Object::Boolean(true));
    assert!(matches!(env.get("x"), Ok(Object::Boolean(true))));
    env.push_scope();
    env.define("x", Object::Nil);
    assert!(matches!(env.get("x"), Ok(Object::Nil)));
    assert!(env.assign("clock", Object::Boolean(false)).is_ok());
    env.truncate(1);
    assert!(matches!(env.get("x"), Ok(Object::Boolean(true))));
    assert!(matches!(env.get("clock"), Ok(Object::Boolean(false))));
    assert_eq!(env.depth(), 1);
}

#[test]
fn program_arithmetic_and_strings() {
    let (printed, diagnostics, result) = run("var a = 1; var b = 2; print a + b * 3; print \"x\" + \"y\"; print -a; print 7 / 2;");
    assert!(result.is_ok());
    assert!(diagnostics.is_empty());
    assert_eq!(printed, vec!["7", "xy", "-1", "3.5"]);
}

#[test]
fn program_equality_and_truthiness() {
    let (printed, _, result) = run("print 1 == 1; print \"a\" == \"a\"; print nil == false; print !nil; print !0; print 2 != 3; print clock == clock;");
    assert!(result.is_ok());
    assert_eq!(printed, vec!["true", "true", "false", "true", "false", "true", "true"]);
}

#[test]
fn program_blocks_scope_variables() {
    let (printed, _, result) = run("var a = \"outer\"; { var a = \"inner\"; print a; a = \"changed\"; } print a;");
    assert!(result.is_ok());
    assert_eq!(printed, vec!["inner", "outer"]);
    let (printed, _, _) = run("var a = 1; { a = 2; } print a;");
    assert_eq!(printed, vec!["2"]);
}

#[test]
fn program_control_flow() {
    let (printed, _, result) = run("for (var i = 0; i < 3; i = i + 1) { if (i == 1) print \"one\"; else print i; } var n = 0; while (n < 2) n = n + 1; print n;");
    assert!(result.is_ok());
    assert_eq!(printed, vec!["0", "one", "2", "2"]);
}

#[test]
fn program_logical_operators_short_circuit() {
    let (printed, _, result) = run("print nil or \"yes\"; print 1 and 2; print false and undefined; print true or undefined;");
    assert!(result.is_ok());
    assert_eq!(printed, vec!["yes", "2", "false", "true"]);
}

#[test]
fn program_runtime_errors() {
    let (printed, diagnostics, result) = run("print 1;\nprint 1 + \"a\";\nprint 2;");
    assert!(matches!(result, Err(Error::Runtime)));
    assert_eq!(printed, vec!["1"]);
    assert_eq!(diagnostics, vec!["[line 2] Runtime Error at '+': Operands must be two numbers or two strings, found: number(1) and string(a)"]);

    let (_, diagnostics, _) = run("print -\"x\";");
    assert_eq!(diagnostics, vec!["[line 1] Runtime Error at '-': Operand must be a number, found: string(x)"]);

    let (_, diagnostics, _) = run("print 1 < true;");
    assert_eq!(diagnostics, vec!["[line 1] Runtime Error at '<': Operands must be numbers, found: number(1) and boolean(true)"]);

    let (_, diagnostics, _) = run("print 1 / 0;");
    assert_eq!(diagnostics, vec!["[line 1] Runtime Error at '/': Division by zero."]);

    let (_, diagnostics, _) = run("print y;");
    assert_eq!(diagnostics, vec!["[line 1] Runtime Error at 'y': Undefined variable 'y'."]);

    let (_, diagnostics, _) = run("y = 1;");
    assert_eq!(diagnostics, vec!["[line 1] Runtime Error at 'y': Undefined variable 'y'."]);

    let (_, diagnostics, _) = run("\"f\"();");
    assert_eq!(diagnostics, vec!["[line 1] Runtime Error at ')': Can only call functions and classes."]);

    let (_, diagnostics, _) = run("clock(1, 2);");
    assert_eq!(diagnostics, vec!["[line 1] Runtime Error at ')': Expected 0 arguments but got 2."]);
}

#[test]
fn program_calls_clock() {
    let (printed, _, result) = run("print clock();");
    assert!(result.is_ok());
    assert_eq!(printed, vec!["12"]);
}

#[test]
fn runtime_error_inside_block_restores_environment() {
    let mut diagnostics = Vec::new();
    let stmts = parse_source("var a = 1; { var a = 2; print b; }", &mut diagnostics).unwrap();
    let interpreter = Interpreter::new();
    let mut printed = Vec::new();
    let (interpreter, result) = drive(interpreter.interpret(&stmts), &mut diagnostics, &mut printed);
    assert!(matches!(result, Err(Error::Runtime)));
    assert_eq!(interpreter.environment.depth(), 1);
    assert!(matches!(interpreter.environment.get("a"), Ok(Object::Number(n)) if n == "1"));
}

#[test]
fn execute_block_and_evaluate() {
    let mut diagnostics = Vec::new();
    let stmts = parse_source("var inner = 5;", &mut diagnostics).unwrap();
    let mut printed = Vec::new();
    let (interpreter, result) = drive(Interpreter::new().execute_block(&stmts), &mut diagnostics, &mut printed);
    assert!(result.is_ok());
    assert_eq!(interpreter.environment.depth(), 1);
    assert!(interpreter.environment.get("inner").is_err());

    let expr = parse_expression("(1 + 2) * 4;");
    let mut execution = interpreter.evaluate(&expr);
    let mut step = execution.step(&mut diagnostics);
    loop {
        match &step {
            Step::Request(r) => {
                let a = host(r, &mut printed);
                step = execution.answer(a, &mut diagnostics);
            }
            Step::Finished => break,
            _ => step = execution.step(&mut diagnostics),
        }
    }
    assert!(matches!(execution.value(), Some(Object::Number(n)) if n == "12"));

    let stmts = parse_source("print 3;", &mut diagnostics).unwrap();
    let interpreter = execution.finish();
    let (_, result) = drive(interpreter.execute(&stmts[0]), &mut diagnostics, &mut printed);
    assert!(result.is_ok());
    assert_eq!(printed, vec!["3"]);
}

#[test]
fn diagnostics_render() {
    assert_eq!(error(12, Phase::Scanner, "Unexpected character.").render(), "[line 12] Scanner Error: Unexpected character.");
    let eof = Token::operator(TokenType::EOF, 4);
    assert_eq!(error_at_token(&eof, Phase::Syntax, "m").render(), "[line 4] Syntax Error at end: m");
    let t = Token::new(TokenType::Identifier, Some("name"), None, 9);
    let d = error_at_token(&t, Phase::Runtime, "m");
    assert!(matches!(&d.location, Location::AtLexeme(s) if s == "name"));
    assert_eq!(d.render(), "[line 9] Runtime Error at 'name': m");
    assert_eq!(decimal_string(0), "0");
    assert_eq!(decimal_string(1907), "1907");
}

#[test]
fn finished_execution_stays_finished() {
    let mut diagnostics = Vec::new();
    let stmts = parse_source("var a = 1;", &mut diagnostics).unwrap();
    let mut execution = Interpreter::new().interpret(&stmts);
    let mut step = execution.step(&mut diagnostics);
    while !matches!(step, Step::Finished) {
        step = execution.step(&mut diagnostics);
    }
    assert!(matches!(execution.step(&mut diagnostics), Step::Finished));
    assert!(matches!(execution.step(&mut diagnostics), Step::Finished));
    let interpreter = execution.finish();
    assert!(matches!(interpreter.environment.get("a"), Ok(Object::Number(n)) if n == "1"));
}

#[test]
fn failed_execution_reports_once() {
    let mut diagnostics = Vec::new();
    let stmts = parse_source("{ { print nope; } }", &mut diagnostics).unwrap();
    let mut execution = Interpreter::new().interpret(&stmts);
    let mut step = execution.step(&mut diagnostics);
    while matches!(step, Step::Running) {
        step = execution.step(&mut diagnostics);
    }
    assert!(matches!(step, Step::Failed(Error::Runtime)));
    assert_eq!(diagnostics.len(), 1);
    assert!(matches!(execution.step(&mut diagnostics), Step::Finished));
    assert_eq!(diagnostics.len(), 1);
    assert_eq!(execution.finish().environment.depth(), 1);
}

#[test]
fn if_runs_one_branch_or_none() {
    let (printed, _, result) = run("if (nil) print 1; if (0) print 2; else print 3; if (false) print 4; else print 5; print 6;");
    assert!(result.is_ok());
    assert_eq!(printed, vec!["2", "5", "6"]);
}

#[test]
fn grouping_has_the_value_of_its_expression() {
    let (printed, _, result) = run("print (((\"a\")));  print (2) * (3 + 1); print !(nil);");
    assert!(result.is_ok());
    assert_eq!(printed, vec!["a", "8", "true"]);
}

#[test]
fn empty_program_does_nothing() {
    let (printed, diagnostics, result) = run("");
    assert!(result.is_ok());
    assert!(printed.is_empty());
    assert!(diagnostics.is_empty());
}

#[test]
fn answer_of_the_wrong_kind_is_refused() {
    let mut diagnostics = Vec::new();
    let stmts = parse_source("print 1 + 2;", &mut diagnostics).unwrap();
    let mut execution = Interpreter::new().interpret(&stmts);
    let mut step = execution.step(&mut diagnostics);
    while matches!(step, Step::Running) {
        step = execution.step(&mut diagnostics);
    }
    assert!(matches!(&step, Step::Request(Request::Binary { operator: TokenType::Plus, .. })));
    assert!(matches!(execution.answer(Answer::Printed, &mut diagnostics), Step::Request(Request::Binary { .. })));
    assert!(matches!(execution.answer(Answer::Boolean(true), &mut diagnostics), Step::Request(Request::Binary { .. })));
    assert!(matches!(execution.answer(Answer::Number("3".to_string()), &mut diagnostics), Step::Running));
    let mut step = execution.step(&mut diagnostics);
    while matches!(step, Step::Running) {
        step = execution.step(&mut diagnostics);
    }
    assert!(matches!(&step, Step::Request(Request::Print(line)) if line == "3"));
}

#[test]
fn division_by_zero_is_decided_on_the_numeral() {
    let (_, diagnostics, result) = run("print 1 / 0.00;");
    assert!(matches!(result, Err(Error::Runtime)));
    assert_eq!(diagnostics, vec!["[line 1] Runtime Error at '/': Division by zero."]);
    let (printed, _, result) = run("print 1 / 0.5; print 0 / 2;");
    assert!(result.is_ok());
    assert_eq!(printed, vec!["2", "0"]);
    let (_, diagnostics, _) = run("print 1 / (0 * -1);");
    assert_eq!(diagnostics, vec!["[line 1] Runtime Error at '/': Division by zero."]);
}

#[test]
fn number_literals_take_the_host_values() {
    let mut diagnostics = Vec::new();
    let mut tokens = scan_tokens("print 1.50 + 007;", &mut diagnostics).unwrap();
    let values: Vec<String> = tokens
        .iter()
        .map(|t| match &t.literal {
            Some(Object::Number(n)) => format!("{}", n.parse::<f64>().unwrap()),
            _ => String::new(),
        })
        .collect();
    set_number_values(&mut tokens, &values);
    assert!(matches!(&tokens[1].literal, Some(Object::Number(n)) if n == "1.5"));
    assert_eq!(tokens[1].lexeme(), "1.50");
    assert!(matches!(&tokens[3].literal, Some(Object::Number(n)) if n == "7"));
    assert!(tokens[2].literal.is_none());
    let stmts = Parser::new(tokens).parse(&mut diagnostics).unwrap();
    match &stmts[0] {
        Stmt::Print(p) => assert_eq!(p.expression.pretty_print(), "(operator(+) number(1.5) number(7))"),
        _ => panic!("print"),
    }
}

#[test]
fn parser_stops_at_the_first_end_marker() {
    let tokens = vec![
        Token::operator(TokenType::Nil, 1),
        Token::operator(TokenType::Semicolon, 1),
        Token::operator(TokenType::EOF, 1),
        Token::operator(TokenType::Semicolon, 2),
    ];
    let mut diagnostics = Vec::new();
    let stmts = Parser::new(tokens).parse(&mut diagnostics).unwrap();
    assert_eq!(stmts.len(), 1);
    assert!(diagnostics.is_empty());
}
