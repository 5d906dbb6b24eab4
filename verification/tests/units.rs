//! Component tests: the scanner's stream shape, the evaluator on hand-built
//! trees, the environment's scope rules, and value rendering.

use ritual::environment::Environment;
use ritual::error::{error, ErrorHandler};
use ritual::expression::{Expression, GroupingExpression, LiteralExpression};
use ritual::interpreter::Interpreter;
use ritual::lexer::Lexer;
use ritual::parser::Parser;
use ritual::token::{Token, TokenType};
use ritual::value::{number_to_string, to_text, Value};

fn lex_all(src: &str) -> Vec<Token> {
    let (tokens, _) = Lexer::new(src.to_string()).lex();
    tokens
}

fn kinds(tokens: &[Token]) -> Vec<TokenType> {
    tokens.iter().map(|t| t.token_type).collect()
}

#[test]
fn scan_ends_with_one_statement_end_then_one_eof() {
    let cases = ["", "1", "1\n", "$< 1 + 2\n", "offering x = 1", "+++", "\"open", "}\n\n"];
    for src in cases.iter() {
        let tokens = lex_all(src);
        let n = tokens.len();
        assert!(n >= 2);
        assert!(matches!(tokens[n - 1].token_type, TokenType::EOF));
        assert!(matches!(tokens[n - 2].token_type, TokenType::StatementEnd));
        for i in 0..n - 1 {
            assert!(!matches!(tokens[i].token_type, TokenType::EOF));
        }
        if n >= 3 {
            assert!(!matches!(tokens[n - 3].token_type, TokenType::StatementEnd));
        }
    }
}

#[test]
fn scanner_splits_double_character_operators() {
    let tokens = lex_all("++ -- += -= $< $> <= >= < > =");
    let expect = vec![
        TokenType::PlusPlus,
        TokenType::MinusMinus,
        TokenType::PlusEqual,
        TokenType::MinusEqual,
        TokenType::DollarLess,
        TokenType::DollarGreater,
        TokenType::LessEqual,
        TokenType::GreaterEqual,
        TokenType::Less,
        TokenType::Greater,
        TokenType::Equal,
        TokenType::StatementEnd,
        TokenType::EOF,
    ];
    assert_eq!(format!("{:?}", kinds(&tokens)), format!("{:?}", expect));
}

#[test]
fn scanner_recognizes_keywords_and_identifiers() {
    let tokens = lex_all("offering while if else and or is not true false none ritual end xyz");
    let expect = vec![
        TokenType::Offering,
        TokenType::While,
        TokenType::If,
        TokenType::Else,
        TokenType::And,
        TokenType::Or,
        TokenType::Is,
        TokenType::Not,
        TokenType::True,
        TokenType::False,
        TokenType::NoneKw,
        TokenType::Ritual,
        TokenType::End,
        TokenType::Identifier,
        TokenType::StatementEnd,
        TokenType::EOF,
    ];
    assert_eq!(format!("{:?}", kinds(&tokens)), format!("{:?}", expect));
}

#[test]
fn scanner_carries_literal_values() {
    let tokens = lex_all("42 \"hi\"");
    assert!(matches!(tokens[0].literal, Value::Number(42)));
    match &tokens[1].literal {
        Value::String(s) => assert_eq!(s, "hi"),
        other => panic!("expected a string literal, got {:?}", other),
    }
}

#[test]
fn scanner_counts_lines() {
    let tokens = lex_all("a\nb\nc");
    assert_eq!(tokens[0].line, 0);
    assert_eq!(tokens[2].line, 1);
    assert_eq!(tokens[4].line, 2);
}

#[test]
fn evaluate_literal_is_the_value_itself() {
    let mut interpreter = Interpreter::new();
    let expr = Expression::Literal(Box::new(LiteralExpression { value: Value::Number(7) }));
    let got = interpreter.evaluate(&expr).unwrap();
    assert!(matches!(got, Value::Number(7)));
}

#[test]
fn evaluate_grouping_is_the_inner_expression() {
    let mut interpreter = Interpreter::new();
    let inner = Expression::Literal(Box::new(LiteralExpression { value: Value::Boolean(true) }));
    let expr = Expression::Grouping(Box::new(GroupingExpression { expr: inner }));
    let got = interpreter.evaluate(&expr).unwrap();
    assert!(matches!(got, Value::Boolean(true)));
}

fn name_token(name: &str) -> Token {
    Token::new(
        TokenType::Identifier,
        name.to_string(),
        Value::Nil,
        0,
    )
}

#[test]
fn environment_defines_and_reads() {
    let mut env = Environment::new();
    env.define("x".to_string(), Value::Number(1));
    let got = env.get(&name_token("x")).unwrap();
    assert!(matches!(got, Value::Number(1)));
}

#[test]
fn environment_lookup_walks_the_chain() {
    let mut env = Environment::new();
    env.define("x".to_string(), Value::Number(1));
    env.push_frame();
    let got = env.get(&name_token("x")).unwrap();
    assert!(matches!(got, Value::Number(1)));
    env.pop_frame();
}

#[test]
fn environment_child_frame_shadows_and_is_discarded() {
    let mut env = Environment::new();
    env.define("x".to_string(), Value::Number(1));
    env.push_frame();
    env.define("x".to_string(), Value::Number(2));
    assert!(matches!(env.get(&name_token("x")).unwrap(), Value::Number(2)));
    env.pop_frame();
    assert!(matches!(env.get(&name_token("x")).unwrap(), Value::Number(1)));
}

#[test]
fn environment_assign_mutates_the_owning_frame() {
    let mut env = Environment::new();
    env.define("x".to_string(), Value::Number(1));
    env.push_frame();
    env.assign(&name_token("x"), Value::Number(5)).unwrap();
    env.pop_frame();
    assert!(matches!(env.get(&name_token("x")).unwrap(), Value::Number(5)));
}

#[test]
fn environment_assign_never_declares() {
    let mut env = Environment::new();
    let r = env.assign(&name_token("ghostly"), Value::Number(5));
    assert!(r.is_err());
    assert!(env.get(&name_token("ghostly")).is_err());
}

#[test]
fn environment_get_reports_undefined() {
    let env = Environment::new();
    let e = env.get(&name_token("nope")).unwrap_err();
    assert_eq!(e.message, "Undefined variable.");
}

#[test]
fn numbers_render_in_decimal() {
    assert_eq!(number_to_string(0), "0");
    assert_eq!(number_to_string(7), "7");
    assert_eq!(number_to_string(-7), "-7");
    assert_eq!(number_to_string(1234567890), "1234567890");
    assert_eq!(number_to_string(i64::MAX), "9223372036854775807");
    assert_eq!(number_to_string(i64::MIN), "-9223372036854775808");
}

#[test]
fn values_render_canonically() {
    assert_eq!(to_text(&Value::String("hi".to_string())), "hi");
    assert_eq!(to_text(&Value::Number(3)), "3");
    assert_eq!(to_text(&Value::Boolean(true)), "true");
    assert_eq!(to_text(&Value::Boolean(false)), "false");
    assert_eq!(to_text(&Value::Nil), "none");
}

#[test]
fn parser_always_returns_a_complete_program() {
    let cases = ["+ +\n$< 1\n", ")(\n", "offering\n", "{ {\n", "= = =\n"];
    for src in cases.iter() {
        let (tokens, _) = Lexer::new(src.to_string()).lex();
        let mut parser = Parser::new(tokens);
        let statements = parser.parse();
        // Recovery substitutes no-op statements; the program is complete
        // and the parser reached the end of the stream.
        let _ = statements;
    }
}

#[test]
fn parse_errors_are_reported_with_lines() {
    let (tokens, _) = Lexer::new("$< 1\n+ 2\n".to_string()).lex();
    let mut parser = Parser::new(tokens);
    let _ = parser.parse();
    assert_eq!(parser.reporter.entries.len(), 1);
    assert_eq!(parser.reporter.entries[0].line, 1);
}

#[test]
fn error_reports_at_the_token_line() {
    let mut handler = ErrorHandler::new();
    let t = Token::new(TokenType::Plus, "+".to_string(), Value::Nil, 7);
    error(&mut handler, &t, "Unexpected token.");
    assert_eq!(handler.entries.len(), 1);
    assert_eq!(handler.entries[0].line, 7);
    assert_eq!(handler.entries[0].message, "Unexpected token.");
}

#[test]
fn token_new_keeps_its_fields() {
    let t = Token::new(TokenType::Number, "42".to_string(), Value::Number(42), 3);
    assert!(matches!(t.token_type, TokenType::Number));
    assert_eq!(t.lexeme, "42");
    assert!(matches!(t.literal, Value::Number(42)));
    assert_eq!(t.line, 3);
}
