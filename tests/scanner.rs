use lox::lox::Lox;
use lox::scanner::tokenize;
use lox::token::Token;
use lox::token_type::TokenType;

fn kinds(tokens: &[Token]) -> Vec<TokenType> {
    tokens.iter().map(|t| t.token_type).collect()
}

#[test]
fn empty_source_yields_only_sentinel() {
    let mut lox = Lox::new();
    let tokens = tokenize("", &mut lox);
    assert_eq!(kinds(&tokens), vec![TokenType::Eof]);
    assert_eq!(tokens[0].line, 1);
    assert!(!lox.had_error());
}

#[test]
fn sentinel_is_last_for_ordinary_source() {
    let mut lox = Lox::new();
    let tokens = tokenize("var x = 1;\nprint x;", &mut lox);
    assert_eq!(tokens.last().unwrap().token_type, TokenType::Eof);
    assert_eq!(tokens.last().unwrap().line, 2);
    for t in &tokens[..tokens.len() - 1] {
        assert!(t.token_type != TokenType::Eof);
        assert!(!t.lexeme.is_empty());
    }
}

#[test]
fn bang_equal_is_one_token() {
    let mut lox = Lox::new();
    let tokens = tokenize("!=", &mut lox);
    assert_eq!(kinds(&tokens), vec![TokenType::BangEqual, TokenType::Eof]);
    assert_eq!(tokens[0].lexeme, "!=");
}

#[test]
fn two_character_operators_take_longest_match() {
    let mut lox = Lox::new();
    let tokens = tokenize("== <= >= ! = < >", &mut lox);
    assert_eq!(
        kinds(&tokens),
        vec![
            TokenType::EqualEqual,
            TokenType::LessEqual,
            TokenType::GreaterEqual,
            TokenType::Bang,
            TokenType::Equal,
            TokenType::Less,
            TokenType::Greater,
            TokenType::Eof
        ]
    );
}

#[test]
fn number_literal_text_parses_as_float() {
    let mut lox = Lox::new();
    let tokens = tokenize("3.14 42", &mut lox);
    assert_eq!(tokens[0].token_type, TokenType::Number);
    assert_eq!(tokens[0].literal, "3.14");
    assert_eq!(tokens[0].literal.parse::<f64>().unwrap(), 3.14);
    assert_eq!(tokens[1].literal.parse::<f64>().unwrap(), 42.0);
}

#[test]
fn number_without_fraction_digits_leaves_dot() {
    let mut lox = Lox::new();
    let tokens = tokenize("1.", &mut lox);
    assert_eq!(kinds(&tokens), vec![TokenType::Number, TokenType::Dot, TokenType::Eof]);
    assert_eq!(tokens[0].lexeme, "1");
}

#[test]
fn invalid_character_is_reported_once_and_skipped() {
    let mut lox = Lox::new();
    let tokens = tokenize("@1 + 2", &mut lox);
    assert_eq!(
        kinds(&tokens),
        vec![TokenType::Number, TokenType::Plus, TokenType::Number, TokenType::Eof]
    );
    assert!(lox.had_error());
    let diags = lox.diagnostics();
    assert_eq!(diags.len(), 1);
    assert_eq!(diags[0].line, 1);
    assert_eq!(diags[0].message, "Unexpected character.");
    assert_eq!(diags[0].location, "");
}

#[test]
fn several_lexical_errors_in_one_pass() {
    let mut lox = Lox::new();
    let tokens = tokenize("#\n$ 7", &mut lox);
    assert_eq!(kinds(&tokens), vec![TokenType::Number, TokenType::Eof]);
    let diags = lox.diagnostics();
    assert_eq!(diags.len(), 2);
    assert_eq!(diags[0].line, 1);
    assert_eq!(diags[1].line, 2);
}

#[test]
fn unterminated_string_is_reported() {
    let mut lox = Lox::new();
    let tokens = tokenize("\"abc\ndef", &mut lox);
    assert_eq!(kinds(&tokens), vec![TokenType::Eof]);
    let diags = lox.diagnostics();
    assert_eq!(diags.len(), 1);
    assert_eq!(diags[0].message, "Unterminated string.");
    assert_eq!(diags[0].line, 2);
}

#[test]
fn string_spans_lines() {
    let mut lox = Lox::new();
    let tokens = tokenize("\"a\nb\" x", &mut lox);
    assert_eq!(kinds(&tokens), vec![TokenType::String, TokenType::Identifier, TokenType::Eof]);
    assert_eq!(tokens[0].lexeme, "\"a\nb\"");
    assert_eq!(tokens[0].literal, "a\nb");
    assert_eq!(tokens[0].line, 2);
    assert_eq!(tokens[1].line, 2);
    assert!(!lox.had_error());
}

#[test]
fn comments_and_whitespace_are_skipped() {
    let mut lox = Lox::new();
    let tokens = tokenize("1 // two three\n\t/ 4", &mut lox);
    assert_eq!(
        kinds(&tokens),
        vec![TokenType::Number, TokenType::Slash, TokenType::Number, TokenType::Eof]
    );
    assert_eq!(tokens[1].line, 2);
}

#[test]
fn reserved_words_and_identifiers() {
    let mut lox = Lox::new();
    let tokens = tokenize("and class else false for fun if nil or print return super this true var while orchid _x1", &mut lox);
    assert_eq!(
        kinds(&tokens),
        vec![
            TokenType::And,
            TokenType::Class,
            TokenType::Else,
            TokenType::False,
            TokenType::For,
            TokenType::Fun,
            TokenType::If,
            TokenType::Nil,
            TokenType::Or,
            TokenType::Print,
            TokenType::Return,
            TokenType::Super,
            TokenType::This,
            TokenType::True,
            TokenType::Var,
            TokenType::While,
            TokenType::Identifier,
            TokenType::Identifier,
            TokenType::Eof
        ]
    );
    assert_eq!(tokens[16].lexeme, "orchid");
    assert_eq!(tokens[17].lexeme, "_x1");
}

#[test]
fn punctuation_tokens() {
    let mut lox = Lox::new();
    let tokens = tokenize("(){},.-+;*", &mut lox);
    assert_eq!(
        kinds(&tokens),
        vec![
            TokenType::LeftParen,
            TokenType::RightParen,
            TokenType::LeftBrace,
            TokenType::RightBrace,
            TokenType::Comma,
            TokenType::Dot,
            TokenType::Minus,
            TokenType::Plus,
            TokenType::Semicolon,
            TokenType::Star,
            TokenType::Eof
        ]
    );
}

#[test]
fn token_to_string_lists_kind_lexeme_literal() {
    let mut lox = Lox::new();
    let tokens = tokenize("12.5 \"hi\" foo", &mut lox);
    assert_eq!(tokens[0].to_string(), "Number 12.5 12.5");
    assert_eq!(tokens[1].to_string(), "String \"hi\" hi");
    assert_eq!(tokens[2].to_string(), "Identifier foo ");
    let t = Token::new(TokenType::Eof, String::new(), String::new(), 3);
    assert_eq!(t.to_string(), "Eof  ");
}

#[test]
fn lox_error_and_reset() {
    let mut lox = Lox::new();
    lox.error(4, "oops".to_string());
    assert!(lox.had_error());
    assert_eq!(lox.diagnostics().len(), 1);
    assert_eq!(lox.diagnostics()[0].line, 4);
    lox.reset();
    assert!(!lox.had_error());
    assert!(lox.diagnostics().is_empty());
}
