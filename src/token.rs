use vstd::prelude::*;

use crate::token_type::TokenType;

verus! {

/// A token: its kind, the source text it was scanned from, its decoded
/// literal text and the 1-based line it ends on.
///
/// The literal of a string token is the text between its quotes; that of a
/// number token is its digits as written. Other tokens have an empty literal.
#[derive(Debug)]
pub struct Token {
    pub token_type: TokenType,
    pub lexeme: String,
    pub literal: String,
    pub line: usize,
}

impl Clone for Token {
    fn clone(&self) -> (r: Self)
        ensures
            r == *self,
    {
        Token {
            token_type: self.token_type,
            lexeme: self.lexeme.clone(),
            literal: self.literal.clone(),
            line: self.line,
        }
    }
}

impl Token {
    pub fn new(token_type: TokenType, lexeme: String, literal: String, line: usize) -> (r: Token)
        ensures
            r.token_type == token_type,
            r.lexeme == lexeme,
            r.literal == literal,
            r.line == line,
    {
        Token { token_type, lexeme, literal, line }
    }

    /// The text of `to_string`: kind name, lexeme and literal, separated by
    /// single spaces.
    pub open spec fn spec_to_string(&self) -> Seq<char> {
        self.token_type.spec_name() + " "@ + self.lexeme@ + " "@ + self.literal@
    }

    pub fn to_string(&self) -> (r: String)
        ensures
            r@ == self.spec_to_string(),
    {
        let s = String::from_str(self.token_type.name());
        let s = s.concat(" ");
        let s = s.concat(self.lexeme.as_str());
        let s = s.concat(" ");
        s.concat(self.literal.as_str())
    }
}

/// An expression tree. Each node owns its children.
#[derive(Debug)]
pub enum Expr {
    Binary(Box<Expr>, BinaryOperator, Box<Expr>),
    Grouping(Box<Expr>),
    Literal(Literal),
    Unary(UnaryOperator, Box<Expr>),
}

#[derive(Clone, Copy, Debug, PartialEq, Eq, Structural)]
pub enum UnaryOperator {
    Bang,
    Minus,
}

#[derive(Clone, Copy, Debug, PartialEq, Eq, Structural)]
pub enum BinaryOperator {
    EqualEqual,
    NotEqual,
    Less,
    LessEqual,
    Greater,
    GreaterEqual,
    Plus,
    Minus,
    Star,
    Slash,
}

/// A literal value. A number keeps the decimal text it was written with
/// (digits, optionally a `.` and more digits); converting it to a machine
/// number is left to the consumer of the tree.
#[derive(Debug)]
pub enum Literal {
    Number(String),
    String(String),
    True,
    False,
    Nil,
}

} // verus!
