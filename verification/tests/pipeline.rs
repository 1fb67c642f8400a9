use rox::diag::{crash, DiagKind};
use rox::interpreter::Interpreter;
use rox::num::Num;
use rox::parser::Parser;
use rox::scanner::Scanner;
use rox::syntax::Expr;
use rox::token::{Literal, Token};
use rox::token_type::TokenType;
use rox::value::Value;

fn scan(src: &str) -> Vec<Token> {
    let mut sc = Scanner::new(src.to_string());
    sc.scan_tokens()
}

fn tok(kind: TokenType, lexeme: &str) -> Token {
    Token::new(kind, lexeme.to_string(), Literal::Absent, 1)
}

fn ident(name: &str) -> Token {
    Token::new(TokenType::Identifier, name.to_string(), Literal::Absent, 1)
}

fn num_tok(n: i64) -> Token {
    Token::new(
        TokenType::Number,
        format!("{}", n),
        Literal::Num(Num { n, d: 1 }),
        1,
    )
}

fn eof() -> Token {
    Token::new(TokenType::EOF, String::new(), Literal::Absent, 1)
}

fn eval_source_expr(src: &str) -> Result<Value, rox::diag::Diag> {
    let toks = scan(src);
    let mut p = Parser::new(toks);
    let e = p.parse_expr().expect("parse");
    let mut i = Interpreter::new();
    i.evaluate_expr(&e)
}

fn eval_tokens_expr(mut toks: Vec<Token>) -> Result<Value, rox::diag::Diag> {
    toks.push(eof());
    let mut p = Parser::new(toks);
    let e = p.parse_expr().expect("parse");
    let mut i = Interpreter::new();
    i.evaluate_expr(&e)
}

fn as_num(v: Value) -> Num {
    match v {
        Value::Num(q) => q,
        other => panic!("expected a number, got {:?}", render(&other)),
    }
}

fn render(v: &Value) -> String {
    v.render()
}

#[test]
fn num_lexeme_round_trip() {
    // scanning a numeric literal and re-slicing its lexeme gives the text
    for lit in ["0", "7", "123", "1.5", "42.25", "0.001"] {
        let toks = scan(lit);
        assert_eq!(toks.len(), 2);
        assert!(matches!(toks[0].kind, TokenType::Number));
        assert_eq!(toks[0].lexeme, lit);
        assert!(matches!(toks[1].kind, TokenType::EOF));
    }
}

#[test]
fn string_newline_increments_line() {
    // a string literal spanning a newline bumps the line of later tokens
    let toks = scan("\"a\nb\" 1");
    assert!(matches!(toks[0].kind, TokenType::String));
    assert_eq!(toks[0].line, 2);
    assert!(matches!(toks[1].kind, TokenType::Number));
    assert_eq!(toks[1].line, 2);
}

#[test]
fn factor_binds_tighter_than_term() {
    // 1 + 2 * 3 evaluates to 7
    let v = as_num(eval_source_expr("1 + 2 * 3").expect("eval"));
    assert_eq!(v.n, 7);
    assert_eq!(v.d, 1);
}

#[test]
fn power_is_left_associative() {
    // 2 ^ 3 ^ 2 evaluates to (2^3)^2 = 64, not 512
    let v = as_num(eval_source_expr("2 ^ 3 ^ 2").expect("eval"));
    assert_eq!(v.n as f64 / v.d as f64, 64.0);
}

#[test]
fn plus_concatenates_string_and_number() {
    // "a" + 1 is "a1" and 1 + "a" is "1a"
    match eval_source_expr("\"a\" + 1").expect("eval") {
        Value::Str(s) => assert_eq!(s, "a1"),
        _ => panic!("expected a string"),
    }
    match eval_source_expr("1 + \"a\"").expect("eval") {
        Value::Str(s) => assert_eq!(s, "1a"),
        _ => panic!("expected a string"),
    }
}

#[test]
fn logical_operators_collapse_to_booleans() {
    // true and false -> False; false or true -> True
    let v = eval_tokens_expr(vec![
        tok(TokenType::True, "true"),
        tok(TokenType::And, "and"),
        tok(TokenType::False, "false"),
    ])
    .expect("eval");
    assert!(matches!(v, Value::False));
    let v = eval_tokens_expr(vec![
        tok(TokenType::False, "false"),
        tok(TokenType::Or, "or"),
        tok(TokenType::True, "true"),
    ])
    .expect("eval");
    assert!(matches!(v, Value::True));
}

#[test]
fn and_short_circuits_past_division_by_zero() {
    // false and (1/0) must not raise: the right side is never evaluated
    let mut toks = scan("(1/0)");
    toks.truncate(toks.len() - 1); // drop the end-of-input token
    let mut all = vec![tok(TokenType::False, "false"), tok(TokenType::And, "and")];
    all.extend(toks);
    let v = eval_tokens_expr(all).expect("short-circuit must succeed");
    assert!(matches!(v, Value::False));
}

#[test]
fn division_by_zero_when_evaluated_is_fatal() {
    let d = eval_source_expr("1/0").expect_err("dividing by zero is fatal");
    assert!(matches!(d.kind, DiagKind::DivisionByZero));
}

#[test]
fn block_scoping_keeps_outer_assignment_and_drops_inner_declaration() {
    // var x = 1; { x = 2; }  -> x is 2 afterwards
    // var y = 1; { var y = 2; } -> y is 1 afterwards
    let toks = vec![
        tok(TokenType::Var, "var"),
        ident("x"),
        tok(TokenType::Equal, "="),
        num_tok(1),
        tok(TokenType::Semicolon, ";"),
        tok(TokenType::LeftBrace, "{"),
        ident("x"),
        tok(TokenType::Equal, "="),
        num_tok(2),
        tok(TokenType::Semicolon, ";"),
        tok(TokenType::RightBrace, "}"),
        tok(TokenType::Var, "var"),
        ident("y"),
        tok(TokenType::Equal, "="),
        num_tok(1),
        tok(TokenType::Semicolon, ";"),
        tok(TokenType::LeftBrace, "{"),
        tok(TokenType::Var, "var"),
        ident("y"),
        tok(TokenType::Equal, "="),
        num_tok(2),
        tok(TokenType::Semicolon, ";"),
        tok(TokenType::RightBrace, "}"),
        tok(TokenType::Print, "print"),
        ident("x"),
        tok(TokenType::Semicolon, ";"),
        tok(TokenType::Print, "print"),
        ident("y"),
        tok(TokenType::Semicolon, ";"),
        eof(),
    ];
    let mut p = Parser::new(toks);
    let stmts = p.parse_statements().expect("parse");
    let mut i = Interpreter::new();
    i.interpret(stmts).expect("run");
    assert_eq!(i.output(), "21");
}

#[test]
fn undeclared_variable_reference_is_a_name_error() {
    let toks = vec![ident("ghostly"), eof()];
    let mut p = Parser::new(toks);
    let e = p.parse_expr().expect("parse");
    let mut i = Interpreter::new();
    let d = i.evaluate_expr(&e).expect_err("unknown name is fatal");
    assert!(matches!(d.kind, DiagKind::UnknownVariable));
    assert_eq!(d.line, 1);
    assert_eq!(d.name, "ghostly");
}

#[test]
fn assignment_to_undeclared_variable_is_a_name_error() {
    let toks = vec![
        ident("nobody"),
        tok(TokenType::Equal, "="),
        num_tok(1),
        eof(),
    ];
    let mut p = Parser::new(toks);
    let e = p.parse_expr().expect("parse");
    let mut i = Interpreter::new();
    let d = i.evaluate_expr(&e).expect_err("undeclared assignment is fatal");
    assert!(matches!(d.kind, DiagKind::AssignUndeclared));
    assert_eq!(d.line, 1);
    assert_eq!(d.name, "nobody");
}

#[test]
fn type_errors_cite_the_operator() {
    // unary minus on a string
    let d = eval_source_expr("-\"a\"").expect_err("type error");
    assert!(matches!(d.kind, DiagKind::TypeErrorUnaryMinus));
    // plus between a boolean and a number
    let d = eval_tokens_expr(vec![
        tok(TokenType::True, "true"),
        tok(TokenType::Plus, "+"),
        num_tok(1),
    ])
    .expect_err("type error");
    assert!(matches!(d.kind, DiagKind::TypeErrorPlus));
}

#[test]
fn if_chain_runs_only_first_true_branch() {
    // if true print 1; else if true print 2; else print 3;  -> prints 1 only
    let toks = vec![
        tok(TokenType::If, "if"),
        tok(TokenType::True, "true"),
        tok(TokenType::Print, "print"),
        num_tok(1),
        tok(TokenType::Semicolon, ";"),
        tok(TokenType::Else, "else"),
        tok(TokenType::If, "if"),
        tok(TokenType::True, "true"),
        tok(TokenType::Print, "print"),
        num_tok(2),
        tok(TokenType::Semicolon, ";"),
        tok(TokenType::Else, "else"),
        tok(TokenType::Print, "print"),
        num_tok(3),
        tok(TokenType::Semicolon, ";"),
        eof(),
    ];
    let mut p = Parser::new(toks);
    let stmts = p.parse_statements().expect("parse");
    let mut i = Interpreter::new();
    i.interpret(stmts).expect("run");
    assert_eq!(i.output(), "1");
}

#[test]
fn fractions_stay_exact() {
    let v = as_num(eval_source_expr("0.1 + 0.2").expect("eval"));
    // exactly 3/10
    assert_eq!(v.n as i128 * 10, 3 * v.d as i128);
    let v = eval_source_expr("0.5 + 0.25").expect("eval");
    assert_eq!(v.render(), "0.75");
}

#[test]
fn unterminated_string_reports_and_recovers() {
    let mut sc = Scanner::new("\"abc".to_string());
    let toks = sc.scan_tokens();
    assert_eq!(toks.len(), 1); // only the end-of-input token
    assert_eq!(sc.diagnostics().len(), 1);
    assert!(matches!(
        sc.diagnostics()[0].kind,
        DiagKind::UnterminatedString
    ));
}

#[test]
fn unexpected_character_reports_and_continues() {
    let mut sc = Scanner::new("@ 1".to_string());
    let toks = sc.scan_tokens();
    assert!(matches!(toks[0].kind, TokenType::Number));
    assert_eq!(sc.diagnostics().len(), 1);
    assert!(matches!(
        sc.diagnostics()[0].kind,
        DiagKind::UnexpectedCharacter
    ));
}

#[test]
fn comments_and_two_char_operators_scan() {
    let toks = scan("1 <= 2 // trailing words\n3 != 4");
    let kinds: Vec<TokenType> = toks.iter().map(|t| t.kind).collect();
    assert_eq!(
        kinds,
        vec![
            TokenType::Number,
            TokenType::LessEqual,
            TokenType::Number,
            TokenType::Number,
            TokenType::BangEqual,
            TokenType::Number,
            TokenType::EOF,
        ]
    );
}

#[test]
fn missing_semicolon_is_a_syntax_error() {
    let mut p = Parser::new(scan("1 + 2"));
    let d = p.parse_statements().expect_err("missing ';'");
    assert!(matches!(d.kind, DiagKind::ExpectedSemicolon));
}

#[test]
fn invalid_assignment_target_is_fatal() {
    let toks = vec![
        num_tok(1),
        tok(TokenType::Equal, "="),
        num_tok(2),
        tok(TokenType::Semicolon, ";"),
        eof(),
    ];
    let mut p = Parser::new(toks);
    let d = p.parse_statements().expect_err("bad target");
    assert!(matches!(d.kind, DiagKind::InvalidAssignmentTarget));
}

#[test]
fn while_and_for_parse_but_do_not_execute() {
    let toks = vec![
        tok(TokenType::While, "while"),
        tok(TokenType::True, "true"),
        tok(TokenType::Print, "print"),
        num_tok(1),
        tok(TokenType::Semicolon, ";"),
        eof(),
    ];
    let mut p = Parser::new(toks);
    let stmts = p.parse_statements().expect("parse");
    let mut i = Interpreter::new();
    let d = i.interpret(stmts).expect_err("while is not executed");
    assert!(matches!(d.kind, DiagKind::UnsupportedStatement));
}

#[test]
fn crash_renders_the_diagnostic_line() {
    assert_eq!(crash(3, "Unexpected character."), "[line 3] Error: Unexpected character.");
}

#[test]
fn comparisons_and_equality() {
    assert!(matches!(eval_source_expr("1 < 2").unwrap(), Value::True));
    assert!(matches!(eval_source_expr("2 <= 1").unwrap(), Value::False));
    assert!(matches!(eval_source_expr("2 > 1").unwrap(), Value::True));
    assert!(matches!(eval_source_expr("1 >= 2").unwrap(), Value::False));
    assert!(matches!(eval_source_expr("1 == 1").unwrap(), Value::True));
    assert!(matches!(
        eval_source_expr("\"x\" == \"x\"").unwrap(),
        Value::True
    ));
    assert!(matches!(eval_source_expr("1 != 1").unwrap(), Value::False));
    // numeric equality sees through representation: 0.5 == 2/4
    assert!(matches!(eval_source_expr("0.5 == 2/4").unwrap(), Value::True));
}

#[test]
fn unary_minus_and_bang() {
    let v = as_num(eval_source_expr("-(3)").unwrap());
    assert_eq!(v.n, -3);
    // any value other than exactly true counts as false, so !1 is true
    assert!(matches!(eval_source_expr("!1").unwrap(), Value::True));
    let toks = vec![tok(TokenType::Bang, "!"), tok(TokenType::True, "true")];
    assert!(matches!(eval_tokens_expr(toks).unwrap(), Value::False));
}

#[test]
fn negative_and_fractional_exponents() {
    // 2 raised to minus one is exactly one half
    let v = as_num(eval_source_expr("2 ^ (0 - 1)").unwrap());
    assert_eq!(v.n as i128 * 2, v.d as i128);
    // a fractional exponent is refused exactly
    let d = eval_source_expr("2 ^ 0.5").expect_err("fractional exponent");
    assert!(matches!(d.kind, DiagKind::FractionalExponent));
}

#[test]
fn print_renders_values() {
    // print "x"; println 1.5; print 2 + 3;
    let toks = vec![
        tok(TokenType::Print, "print"),
        Token::new(
            TokenType::String,
            "\"x\"".to_string(),
            Literal::Str("x".to_string()),
            1,
        ),
        tok(TokenType::Semicolon, ";"),
        tok(TokenType::Println, "println"),
        Token::new(
            TokenType::Number,
            "1.5".to_string(),
            Literal::Num(Num { n: 15, d: 10 }),
            1,
        ),
        tok(TokenType::Semicolon, ";"),
        tok(TokenType::Print, "print"),
        num_tok(2),
        tok(TokenType::Plus, "+"),
        num_tok(3),
        tok(TokenType::Semicolon, ";"),
        eof(),
    ];
    let mut p = Parser::new(toks);
    let stmts = p.parse_statements().expect("parse");
    let mut i = Interpreter::new();
    i.interpret(stmts).expect("run");
    assert_eq!(i.output(), "x1.5\n5");
}
