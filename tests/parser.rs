use lox::lox::Lox;
use lox::parser::{Error, Parser};
use lox::scanner::tokenize;
use lox::token::{BinaryOperator, Expr, Literal, Token, UnaryOperator};
use lox::token_type::TokenType;

fn render(e: &Expr) -> String {
    match e {
        Expr::Binary(l, op, r) => format!("({:?} {} {})", op, render(l), render(r)),
        Expr::Grouping(inner) => format!("(group {})", render(inner)),
        Expr::Literal(Literal::Number(n)) => n.clone(),
        Expr::Literal(Literal::String(s)) => format!("\"{}\"", s),
        Expr::Literal(Literal::True) => "true".to_string(),
        Expr::Literal(Literal::False) => "false".to_string(),
        Expr::Literal(Literal::Nil) => "nil".to_string(),
        Expr::Unary(op, inner) => format!("({:?} {})", op, render(inner)),
    }
}

fn parse_source(source: &str) -> Result<Expr, Error> {
    let mut lox = Lox::new();
    let tokens = tokenize(source, &mut lox);
    let mut parser = Parser::new(tokens);
    parser.parse()
}

fn parsed(source: &str) -> String {
    match parse_source(source) {
        Ok(e) => render(&e),
        Err(_) => panic!("parse failed for {}", source),
    }
}

fn error_of(source: &str) -> (String, TokenType, usize) {
    match parse_source(source) {
        Ok(e) => panic!("unexpected success: {}", render(&e)),
        Err(Error::ParseError { token, message }) => (message, token.token_type, token.line),
    }
}

fn tok(kind: TokenType, lexeme: &str, literal: &str) -> Token {
    Token::new(kind, lexeme.to_string(), literal.to_string(), 1)
}

#[test]
fn subtraction_is_left_associative() {
    assert_eq!(parsed("1 - 2 - 3"), "(Minus (Minus 1 2) 3)");
}

#[test]
fn all_binary_levels_are_left_associative() {
    assert_eq!(parsed("8 / 4 / 2"), "(Slash (Slash 8 4) 2)");
    assert_eq!(parsed("1 < 2 < 3"), "(Less (Less 1 2) 3)");
    assert_eq!(parsed("1 == 2 != 3"), "(NotEqual (EqualEqual 1 2) 3)");
}

#[test]
fn multiplication_binds_tighter_than_addition() {
    assert_eq!(parsed("1 + 2 * 3"), "(Plus 1 (Star 2 3))");
}

#[test]
fn precedence_ladder() {
    assert_eq!(
        parsed("1 == 2 >= 3 - 4 / -5"),
        "(EqualEqual 1 (GreaterEqual 2 (Minus 3 (Slash 4 (Minus 5)))))"
    );
}

#[test]
fn unary_nests_to_the_right() {
    assert_eq!(parsed("!!true"), "(Bang (Bang true))");
    match parse_source("!!true") {
        Ok(Expr::Unary(UnaryOperator::Bang, inner)) => match *inner {
            Expr::Unary(UnaryOperator::Bang, lit) => {
                assert!(matches!(*lit, Expr::Literal(Literal::True)))
            }
            _ => panic!("expected nested unary"),
        },
        _ => panic!("expected unary"),
    }
}

#[test]
fn grouping_is_preserved() {
    assert_eq!(parsed("(1 + 2)"), "(group (Plus 1 2))");
    match parse_source("(1 + 2)") {
        Ok(Expr::Grouping(inner)) => {
            assert!(matches!(*inner, Expr::Binary(_, BinaryOperator::Plus, _)))
        }
        _ => panic!("expected grouping"),
    }
}

#[test]
fn literals_parse() {
    assert_eq!(parsed("nil"), "nil");
    assert_eq!(parsed("false"), "false");
    assert_eq!(parsed("\"s\""), "\"s\"");
}

#[test]
fn number_node_keeps_token_text() {
    match parse_source("3.14") {
        Ok(Expr::Literal(Literal::Number(text))) => {
            assert_eq!(text, "3.14");
            assert_eq!(text.parse::<f64>().unwrap(), 3.14);
        }
        _ => panic!("expected number"),
    }
}

#[test]
fn missing_close_paren_is_an_error() {
    let (message, kind, line) = error_of("(1 + 2");
    assert_eq!(message, "Expect ')' after expression.");
    assert_eq!(kind, TokenType::Eof);
    assert_eq!(line, 1);
}

#[test]
fn empty_input_expects_expression() {
    let (message, kind, _) = error_of("");
    assert_eq!(message, "Expect expression.");
    assert_eq!(kind, TokenType::Eof);
    let (message, _, line) = error_of("  \n\t ");
    assert_eq!(message, "Expect expression.");
    assert_eq!(line, 2);
}

#[test]
fn error_inside_operand_is_reported_at_offending_token() {
    let (message, kind, _) = error_of("1 + ;");
    assert_eq!(message, "Expect expression.");
    assert_eq!(kind, TokenType::Semicolon);
}

#[test]
fn consume_reports_given_message() {
    let mut parser = Parser::new(vec![tok(TokenType::Number, "1", "1"), tok(TokenType::Eof, "", "")]);
    match parser.consume(TokenType::Semicolon, "Expect ';'.") {
        Err(Error::ParseError { token, message }) => {
            assert_eq!(message, "Expect ';'.");
            assert_eq!(token.token_type, TokenType::Number);
        }
        Ok(_) => panic!("expected error"),
    }
    assert!(parser.check(TokenType::Number));
    assert!(parser.consume(TokenType::Number, "x").is_ok());
    assert!(parser.is_at_end());
}

#[test]
fn cursor_never_passes_sentinel() {
    let mut parser = Parser::new(vec![tok(TokenType::Nil, "nil", ""), tok(TokenType::Eof, "", "")]);
    assert_eq!(parser.advance().token_type, TokenType::Nil);
    assert_eq!(parser.previous().token_type, TokenType::Nil);
    assert_eq!(parser.advance().token_type, TokenType::Eof);
    assert_eq!(parser.advance().token_type, TokenType::Eof);
    assert_eq!(parser.peek().token_type, TokenType::Eof);
    assert!(!parser.check(TokenType::Eof));
    assert!(!parser.match_token(vec![TokenType::Eof]));
}

#[test]
fn match_token_consumes_only_listed_kinds() {
    let mut parser = Parser::new(vec![tok(TokenType::Plus, "+", ""), tok(TokenType::Eof, "", "")]);
    assert!(!parser.match_token(vec![TokenType::Minus, TokenType::Star]));
    assert!(parser.match_token(vec![TokenType::Minus, TokenType::Plus]));
    assert!(parser.is_at_end());
}

#[test]
fn synchronize_stops_after_semicolon() {
    let mut lox = Lox::new();
    let tokens = tokenize("1 2 ; 3", &mut lox);
    let mut parser = Parser::new(tokens);
    parser.synchronize();
    assert_eq!(parser.peek().lexeme, "3");
    assert_eq!(parser.previous().token_type, TokenType::Semicolon);
}

#[test]
fn synchronize_stops_before_statement_keyword() {
    let mut lox = Lox::new();
    let tokens = tokenize("1 2 3 var x", &mut lox);
    let mut parser = Parser::new(tokens);
    parser.synchronize();
    assert_eq!(parser.peek().token_type, TokenType::Var);
}

#[test]
fn synchronize_moves_past_at_least_one_token_and_stops_at_end() {
    let mut lox = Lox::new();
    let tokens = tokenize("return 1 2", &mut lox);
    let mut parser = Parser::new(tokens);
    parser.synchronize();
    assert!(parser.is_at_end());
    let mut empty = Parser::new(tokenize("", &mut lox));
    empty.synchronize();
    assert!(empty.is_at_end());
}

#[test]
fn operator_mappings() {
    assert_eq!(Parser::binary_operator(TokenType::BangEqual), BinaryOperator::NotEqual);
    assert_eq!(Parser::binary_operator(TokenType::Slash), BinaryOperator::Slash);
    assert_eq!(Parser::unary_operator(TokenType::Minus), UnaryOperator::Minus);
}

#[test]
fn parse_error_is_reported_with_location() {
    let mut lox = Lox::new();
    let tokens = tokenize("(1 + 2", &mut lox);
    let mut parser = Parser::new(tokens);
    match parser.parse() {
        Err(Error::ParseError { token, message }) => lox.error_at(&token, message),
        Ok(_) => panic!("expected error"),
    }
    let diags = lox.diagnostics();
    assert_eq!(diags.len(), 1);
    assert_eq!(diags[0].location, " at end");
    assert_eq!(diags[0].message, "Expect ')' after expression.");

    let mut lox = Lox::new();
    let tokens = tokenize("1 + )", &mut lox);
    match Parser::new(tokens).parse() {
        Err(Error::ParseError { token, message }) => lox.error_at(&token, message),
        Ok(_) => panic!("expected error"),
    }
    assert_eq!(lox.diagnostics()[0].location, " at ')'");
    assert!(lox.had_error());
}
