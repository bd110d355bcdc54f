//! Recursive-descent parser for the expression grammar
//!
//! ```text
//! expression → equality
//! equality   → comparison ( ( "!=" | "==" ) comparison )*
//! comparison → term ( ( ">" | ">=" | "<" | "<=" ) term )*
//! term       → factor ( ( "-" | "+" ) factor )*
//! factor     → unary ( ( "/" | "*" ) unary )*
//! unary      → ( "!" | "-" ) unary | primary
//! primary    → NUMBER | STRING | "true" | "false" | "nil" | "(" expression ")"
//! ```
//!
//! The grammar is stated once more as spec functions over the token sequence
//! and a cursor position; each parsing method is proved to compute exactly
//! what its rule says.
use vstd::prelude::*;

use crate::token::{BinaryOperator, Expr, Literal, Token, UnaryOperator};
use crate::scanner::{is_number_text, lemma_number_tokens, scan};
use crate::token_type::TokenType;

verus! {

/// Outcome of a grammar rule started at some position: the expression and
/// the position after it, or an error message and the position of the
/// offending token.
pub type ParseOutcome = Result<(Expr, int), (Seq<char>, int)>;

pub open spec fn expect_expression_message() -> Seq<char> {
    "Expect expression."@
}

pub open spec fn expect_right_paren_message() -> Seq<char> {
    "Expect ')' after expression."@
}

/// The kind of the token at `pos`; positions outside the sequence read as
/// end of input.
pub open spec fn kind_at(toks: Seq<Token>, pos: int) -> TokenType {
    if 0 <= pos < toks.len() {
        toks[pos].token_type
    } else {
        TokenType::Eof
    }
}

/// A token sequence as the scanner hands it over: non-empty, ending with
/// the end-of-input sentinel.
pub open spec fn tokens_wf(toks: Seq<Token>) -> bool {
    toks.len() > 0 && toks.last().token_type == TokenType::Eof
}

/// The binary operator a token kind stands for, if any.
pub open spec fn binary_operator_of(kind: TokenType) -> Option<BinaryOperator> {
    match kind {
        TokenType::BangEqual => Some(BinaryOperator::NotEqual),
        TokenType::EqualEqual => Some(BinaryOperator::EqualEqual),
        TokenType::Less => Some(BinaryOperator::Less),
        TokenType::LessEqual => Some(BinaryOperator::LessEqual),
        TokenType::Greater => Some(BinaryOperator::Greater),
        TokenType::GreaterEqual => Some(BinaryOperator::GreaterEqual),
        TokenType::Plus => Some(BinaryOperator::Plus),
        TokenType::Minus => Some(BinaryOperator::Minus),
        TokenType::Star => Some(BinaryOperator::Star),
        TokenType::Slash => Some(BinaryOperator::Slash),
        _ => None,
    }
}

/// The unary operator a token kind stands for, if any.
pub open spec fn unary_operator_of(kind: TokenType) -> Option<UnaryOperator> {
    match kind {
        TokenType::Bang => Some(UnaryOperator::Bang),
        TokenType::Minus => Some(UnaryOperator::Minus),
        _ => None,
    }
}

/// Whether `kind` is an operator of binary precedence level `level`:
/// 0 is equality, 1 comparison, 2 term and 3 factor.
pub open spec fn is_level_operator(level: nat, kind: TokenType) -> bool {
    match kind {
        TokenType::BangEqual | TokenType::EqualEqual => level == 0,
        TokenType::Greater | TokenType::GreaterEqual | TokenType::Less
        | TokenType::LessEqual => level == 1,
        TokenType::Minus | TokenType::Plus => level == 2,
        TokenType::Slash | TokenType::Star => level == 3,
        _ => false,
    }
}

/// `expression → equality`
pub open spec fn parse_expression(toks: Seq<Token>, pos: int) -> ParseOutcome
    decreases toks.len() - pos, 10int,
{
    parse_binary(toks, 0, pos)
}

/// The operand of binary level `level`: the next level, or `unary` below
/// `factor`.
pub open spec fn parse_operand(toks: Seq<Token>, level: nat, pos: int) -> ParseOutcome
    decreases toks.len() - pos, if level >= 3 { 2int } else { 8 - 2 * level },
{
    if level >= 3 {
        parse_unary(toks, pos)
    } else {
        parse_binary(toks, level + 1, pos)
    }
}

/// One binary level: an operand, then the loop over this level's operators.
pub open spec fn parse_binary(toks: Seq<Token>, level: nat, pos: int) -> ParseOutcome
    decreases toks.len() - pos, if level >= 3 { 3int } else { 9 - 2 * level },
{
    match parse_operand(toks, level, pos) {
        Ok((left, p)) => if pos < p <= toks.len() {
            parse_binary_rest(toks, level, left, p)
        } else {
            Ok((left, p))
        },
        Err(e) => Err(e),
    }
}

/// The loop of a binary level: while the token at `pos` is an operator of
/// this level, consume it and an operand, and fold into a left-associative
/// `Binary` node.
pub open spec fn parse_binary_rest(toks: Seq<Token>, level: nat, left: Expr, pos: int) -> ParseOutcome
    decreases toks.len() - pos, 0int,
{
    let kind = kind_at(toks, pos);
    if kind != TokenType::Eof && is_level_operator(level, kind) {
        match parse_operand(toks, level, pos + 1) {
            Ok((right, p)) => {
                let e = Expr::Binary(Box::new(left), binary_operator_of(kind)->0, Box::new(right));
                if pos + 1 < p <= toks.len() {
                    parse_binary_rest(toks, level, e, p)
                } else {
                    Ok((e, p))
                }
            },
            Err(e) => Err(e),
        }
    } else {
        Ok((left, pos))
    }
}

/// `unary → ( "!" | "-" ) unary | primary`
pub open spec fn parse_unary(toks: Seq<Token>, pos: int) -> ParseOutcome
    decreases toks.len() - pos, 1int,
{
    let kind = kind_at(toks, pos);
    if kind != TokenType::Eof && unary_operator_of(kind) is Some {
        match parse_unary(toks, pos + 1) {
            Ok((e, p)) => Ok((Expr::Unary(unary_operator_of(kind)->0, Box::new(e)), p)),
            Err(e) => Err(e),
        }
    } else {
        parse_primary(toks, pos)
    }
}

/// `primary → NUMBER | STRING | "true" | "false" | "nil" | "(" expression ")"`
pub open spec fn parse_primary(toks: Seq<Token>, pos: int) -> ParseOutcome
    decreases toks.len() - pos, 0int,
{
    match kind_at(toks, pos) {
        TokenType::False => Ok((Expr::Literal(Literal::False), pos + 1)),
        TokenType::True => Ok((Expr::Literal(Literal::True), pos + 1)),
        TokenType::Nil => Ok((Expr::Literal(Literal::Nil), pos + 1)),
        TokenType::Number => Ok((Expr::Literal(Literal::Number(toks[pos].literal)), pos + 1)),
        TokenType::String => Ok((Expr::Literal(Literal::String(toks[pos].literal)), pos + 1)),
        TokenType::LeftParen => match parse_expression(toks, pos + 1) {
            Ok((e, p)) => if kind_at(toks, p) == TokenType::RightParen {
                Ok((Expr::Grouping(Box::new(e)), p + 1))
            } else {
                Err((expect_right_paren_message(), p))
            },
            Err(e) => Err(e),
        },
        _ => Err((expect_expression_message(), pos)),
    }
}

/// Whether a reserved word of this kind begins a statement.
pub open spec fn starts_statement(kind: TokenType) -> bool {
    match kind {
        TokenType::Class | TokenType::Fun | TokenType::Var | TokenType::For | TokenType::If
        | TokenType::While | TokenType::Print | TokenType::Return => true,
        _ => false,
    }
}

/// Where the cursor stops when discarding tokens from `pos`: at end of
/// input, just after a `;`, or just before a word that begins a statement.
pub open spec fn sync_point(toks: Seq<Token>, pos: int) -> int
    decreases toks.len() - pos,
{
    if kind_at(toks, pos) == TokenType::Eof {
        pos
    } else if kind_at(toks, pos - 1) == TokenType::Semicolon {
        pos
    } else if starts_statement(kind_at(toks, pos)) {
        pos
    } else {
        sync_point(toks, pos + 1)
    }
}

/// The cursor position after one `advance` from `pos`.
pub open spec fn advanced(toks: Seq<Token>, pos: int) -> int {
    if kind_at(toks, pos) == TokenType::Eof {
        pos
    } else {
        pos + 1
    }
}

/// A number token of a scanned source becomes a number literal node that
/// holds the token's literal text; that text is the token's lexeme and has
/// the shape of a number literal.
pub proof fn lemma_number_literal(src: Seq<char>, toks: Seq<Token>, pos: int)
    requires
        toks.map_values(|t: Token| t@) == scan(src).0,
        0 <= pos < toks.len(),
        toks[pos].token_type == TokenType::Number,
    ensures
        parse_primary(toks, pos) == Ok::<(Expr, int), (Seq<char>, int)>(
            (Expr::Literal(Literal::Number(toks[pos].literal)), pos + 1),
        ),
        toks[pos].literal@ == toks[pos].lexeme@,
        is_number_text(toks[pos].literal@),
{
    lemma_number_tokens(src, 0, 1);
    assert(toks.map_values(|t: Token| t@)[pos] == toks[pos]@);
}

/// A parse error: the token where the grammar was violated, and what was
/// expected there.
pub enum Error {
    ParseError { token: Token, message: String },
}

/// Whether `r` is what a rule with spec outcome `o` returns, the cursor
/// having moved from `start` to `end`.
pub open spec fn outcome_matches(
    toks: Seq<Token>,
    o: ParseOutcome,
    r: Result<Expr, Error>,
    start: int,
    end: int,
) -> bool {
    match o {
        Ok((e, p)) => r == Ok::<Expr, Error>(e) && end == p && start < p,
        Err((m, p)) => 0 <= p < toks.len() && (r matches Err(Error::ParseError { token, message })
            && token == toks[p] && message@ == m),
    }
}

/// A cursor over a token sequence.
pub struct Parser {
    tokens: Vec<Token>,
    current: usize,
}

impl Parser {
    pub closed spec fn tokens(&self) -> Seq<Token> {
        self.tokens@
    }

    pub closed spec fn current(&self) -> int {
        self.current as int
    }

    /// The sequence ends with the sentinel and the cursor lies within it.
    pub open spec fn wf(&self) -> bool {
        tokens_wf(self.tokens()) && 0 <= self.current() < self.tokens().len()
    }

    pub fn new(tokens: Vec<Token>) -> (r: Parser)
        requires
            tokens_wf(tokens@),
        ensures
            r.wf(),
            r.tokens() == tokens@,
            r.current() == 0,
    {
        Parser { tokens, current: 0 }
    }

    /// Parses one expression from the cursor on.
    pub fn parse(&mut self) -> (r: Result<Expr, Error>)
        requires
            old(self).wf(),
        ensures
            final(self).wf(),
            final(self).tokens() == old(self).tokens(),
            outcome_matches(
                old(self).tokens(),
                parse_expression(old(self).tokens(), old(self).current()),
                r,
                old(self).current(),
                final(self).current(),
            ),
    {
        self.expression()
    }

    fn expression(&mut self) -> (r: Result<Expr, Error>)
        requires
            old(self).wf(),
        ensures
            final(self).wf(),
            final(self).tokens() == old(self).tokens(),
            outcome_matches(
                old(self).tokens(),
                parse_expression(old(self).tokens(), old(self).current()),
                r,
                old(self).current(),
                final(self).current(),
            ),
        decreases old(self).tokens().len() - old(self).current(), 10int,
    {
        self.equality()
    }

    fn equality(&mut self) -> (r: Result<Expr, Error>)
        requires
            old(self).wf(),
        ensures
            final(self).wf(),
            final(self).tokens() == old(self).tokens(),
            outcome_matches(
                old(self).tokens(),
                parse_binary(old(self).tokens(), 0, old(self).current()),
                r,
                old(self).current(),
                final(self).current(),
            ),
        decreases old(self).tokens().len() - old(self).current(), 9int,
    {
        let ghost toks = self.tokens();
        let ghost start = self.current();
        let mut expr = match self.comparison() {
            Ok(e) => e,
            Err(e) => return Err(e),
        };
        loop
            invariant
                self.wf(),
                self.tokens() == toks,
                toks == old(self).tokens(),
                start == old(self).current(),
                start < self.current(),
                parse_binary_rest(toks, 0, expr, self.current()) == parse_binary(toks, 0, start),
            decreases toks.len() - self.current(),
        {
            let ghost c = self.current();
            let ops = vec![TokenType::BangEqual, TokenType::EqualEqual];
            assert(ops@ == seq![TokenType::BangEqual, TokenType::EqualEqual]);
            if !self.match_token(ops) {
                proof {
                    if is_level_operator(0, kind_at(toks, c)) && kind_at(toks, c) != TokenType::Eof {
                        let k = kind_at(toks, c);
                        if k == TokenType::BangEqual { assert(ops@[0] == k); }
                        if k == TokenType::EqualEqual { assert(ops@[1] == k); }
                    }
                }
                return Ok(expr);
            }
            let ghost k = kind_at(toks, c);
            assert(is_level_operator(0, k)) by {
                let j = choose|j: int| 0 <= j < ops@.len() && ops@[j] == k;
            }
            assert(parse_operand(toks, 0, c + 1) == parse_binary(toks, 1, c + 1));
            let operator = self.previous();
            let right = match self.comparison() {
                Ok(e) => e,
                Err(e) => {
                    assert(parse_binary_rest(toks, 0, expr, c) == parse_binary(toks, 1, c + 1));
                    return Err(e);
                },
            };
            let bin_op = Self::binary_operator(operator.token_type);
            let ghost prev = expr;
            expr = Expr::Binary(Box::new(expr), bin_op, Box::new(right));
            assert(parse_binary_rest(toks, 0, prev, c) == parse_binary_rest(toks, 0, expr, self.current()));
        }
    }

    fn comparison(&mut self) -> (r: Result<Expr, Error>)
        requires
            old(self).wf(),
        ensures
            final(self).wf(),
            final(self).tokens() == old(self).tokens(),
            outcome_matches(
                old(self).tokens(),
                parse_binary(old(self).tokens(), 1, old(self).current()),
                r,
                old(self).current(),
                final(self).current(),
            ),
        decreases old(self).tokens().len() - old(self).current(), 8int,
    {
        let ghost toks = self.tokens();
        let ghost start = self.current();
        let mut expr = match self.term() {
            Ok(e) => e,
            Err(e) => return Err(e),
        };
        loop
            invariant
                self.wf(),
                self.tokens() == toks,
                toks == old(self).tokens(),
                start == old(self).current(),
                start < self.current(),
                parse_binary_rest(toks, 1, expr, self.current()) == parse_binary(toks, 1, start),
            decreases toks.len() - self.current(),
        {
            let ghost c = self.current();
            let ops = vec![TokenType::Greater, TokenType::GreaterEqual, TokenType::Less, TokenType::LessEqual];
            assert(ops@ == seq![TokenType::Greater, TokenType::GreaterEqual, TokenType::Less, TokenType::LessEqual]);
            if !self.match_token(ops) {
                proof {
                    if is_level_operator(1, kind_at(toks, c)) && kind_at(toks, c) != TokenType::Eof {
                        let k = kind_at(toks, c);
                        if k == TokenType::Greater { assert(ops@[0] == k); }
                        if k == TokenType::GreaterEqual { assert(ops@[1] == k); }
                        if k == TokenType::Less { assert(ops@[2] == k); }
                        if k == TokenType::LessEqual { assert(ops@[3] == k); }
                    }
                }
                return Ok(expr);
            }
            let ghost k = kind_at(toks, c);
            assert(is_level_operator(1, k)) by {
                let j = choose|j: int| 0 <= j < ops@.len() && ops@[j] == k;
            }
            assert(parse_operand(toks, 1, c + 1) == parse_binary(toks, 2, c + 1));
            let operator = self.previous();
            let right = match self.term() {
                Ok(e) => e,
                Err(e) => {
                    assert(parse_binary_rest(toks, 1, expr, c) == parse_binary(toks, 2, c + 1));
                    return Err(e);
                },
            };
            let bin_op = Self::binary_operator(operator.token_type);
            let ghost prev = expr;
            expr = Expr::Binary(Box::new(expr), bin_op, Box::new(right));
            assert(parse_binary_rest(toks, 1, prev, c) == parse_binary_rest(toks, 1, expr, self.current()));
        }
    }

    fn term(&mut self) -> (r: Result<Expr, Error>)
        requires
            old(self).wf(),
        ensures
            final(self).wf(),
            final(self).tokens() == old(self).tokens(),
            outcome_matches(
                old(self).tokens(),
                parse_binary(old(self).tokens(), 2, old(self).current()),
                r,
                old(self).current(),
                final(self).current(),
            ),
        decreases old(self).tokens().len() - old(self).current(), 7int,
    {
        let ghost toks = self.tokens();
        let ghost start = self.current();
        let mut expr = match self.factor() {
            Ok(e) => e,
            Err(e) => return Err(e),
        };
        loop
            invariant
                self.wf(),
                self.tokens() == toks,
                toks == old(self).tokens(),
                start == old(self).current(),
                start < self.current(),
                parse_binary_rest(toks, 2, expr, self.current()) == parse_binary(toks, 2, start),
            decreases toks.len() - self.current(),
        {
            let ghost c = self.current();
            let ops = vec![TokenType::Minus, TokenType::Plus];
            assert(ops@ == seq![TokenType::Minus, TokenType::Plus]);
            if !self.match_token(ops) {
                proof {
                    if is_level_operator(2, kind_at(toks, c)) && kind_at(toks, c) != TokenType::Eof {
                        let k = kind_at(toks, c);
                        if k == TokenType::Minus { assert(ops@[0] == k); }
                        if k == TokenType::Plus { assert(ops@[1] == k); }
                    }
                }
                return Ok(expr);
            }
            let ghost k = kind_at(toks, c);
            assert(is_level_operator(2, k)) by {
                let j = choose|j: int| 0 <= j < ops@.len() && ops@[j] == k;
            }
            assert(parse_operand(toks, 2, c + 1) == parse_binary(toks, 3, c + 1));
            let operator = self.previous();
            let right = match self.factor() {
                Ok(e) => e,
                Err(e) => {
                    assert(parse_binary_rest(toks, 2, expr, c) == parse_binary(toks, 3, c + 1));
                    return Err(e);
                },
            };
            let bin_op = Self::binary_operator(operator.token_type);
            let ghost prev = expr;
            expr = Expr::Binary(Box::new(expr), bin_op, Box::new(right));
            assert(parse_binary_rest(toks, 2, prev, c) == parse_binary_rest(toks, 2, expr, self.current()));
        }
    }

    fn factor(&mut self) -> (r: Result<Expr, Error>)
        requires
            old(self).wf(),
        ensures
            final(self).wf(),
            final(self).tokens() == old(self).tokens(),
            outcome_matches(
                old(self).tokens(),
                parse_binary(old(self).tokens(), 3, old(self).current()),
                r,
                old(self).current(),
                final(self).current(),
            ),
        decreases old(self).tokens().len() - old(self).current(), 6int,
    {
        let ghost toks = self.tokens();
        let ghost start = self.current();
        let mut expr = match self.unary() {
            Ok(e) => e,
            Err(e) => return Err(e),
        };
        loop
            invariant
                self.wf(),
                self.tokens() == toks,
                toks == old(self).tokens(),
                start == old(self).current(),
                start < self.current(),
                parse_binary_rest(toks, 3, expr, self.current()) == parse_binary(toks, 3, start),
            decreases toks.len() - self.current(),
        {
            let ghost c = self.current();
            let ops = vec![TokenType::Slash, TokenType::Star];
            assert(ops@ == seq![TokenType::Slash, TokenType::Star]);
            if !self.match_token(ops) {
                proof {
                    if is_level_operator(3, kind_at(toks, c)) && kind_at(toks, c) != TokenType::Eof {
                        let k = kind_at(toks, c);
                        if k == TokenType::Slash { assert(ops@[0] == k); }
                        if k == TokenType::Star { assert(ops@[1] == k); }
                    }
                }
                return Ok(expr);
            }
            let ghost k = kind_at(toks, c);
            assert(is_level_operator(3, k)) by {
                let j = choose|j: int| 0 <= j < ops@.len() && ops@[j] == k;
            }
            assert(parse_operand(toks, 3, c + 1) == parse_unary(toks, c + 1));
            let operator = self.previous();
            let right = match self.unary() {
                Ok(e) => e,
                Err(e) => {
                    assert(parse_binary_rest(toks, 3, expr, c) == parse_unary(toks, c + 1));
                    return Err(e);
                },
            };
            let bin_op = Self::binary_operator(operator.token_type);
            let ghost prev = expr;
            expr = Expr::Binary(Box::new(expr), bin_op, Box::new(right));
            assert(parse_binary_rest(toks, 3, prev, c) == parse_binary_rest(toks, 3, expr, self.current()));
        }
    }

    fn unary(&mut self) -> (r: Result<Expr, Error>)
        requires
            old(self).wf(),
        ensures
            final(self).wf(),
            final(self).tokens() == old(self).tokens(),
            outcome_matches(
                old(self).tokens(),
                parse_unary(old(self).tokens(), old(self).current()),
                r,
                old(self).current(),
                final(self).current(),
            ),
        decreases old(self).tokens().len() - old(self).current(), 1int,
    {
        if self.match_token(vec![TokenType::Bang, TokenType::Minus]) {
            let operator = self.previous();
            let right = match self.unary() {
                Ok(e) => e,
                Err(e) => return Err(e),
            };
            let unary_op = Self::unary_operator(operator.token_type);
            return Ok(Expr::Unary(unary_op, Box::new(right)));
        }
        self.primary()
    }

    fn primary(&mut self) -> (r: Result<Expr, Error>)
        requires
            old(self).wf(),
        ensures
            final(self).wf(),
            final(self).tokens() == old(self).tokens(),
            outcome_matches(
                old(self).tokens(),
                parse_primary(old(self).tokens(), old(self).current()),
                r,
                old(self).current(),
                final(self).current(),
            ),
        decreases old(self).tokens().len() - old(self).current(), 0int,
    {
        if self.match_token(vec![TokenType::False]) {
            return Ok(Expr::Literal(Literal::False));
        }
        if self.match_token(vec![TokenType::True]) {
            return Ok(Expr::Literal(Literal::True));
        }
        if self.match_token(vec![TokenType::Nil]) {
            return Ok(Expr::Literal(Literal::Nil));
        }
        if self.match_token(vec![TokenType::Number]) {
            return Ok(Expr::Literal(Literal::Number(self.previous().literal)));
        }
        if self.match_token(vec![TokenType::String]) {
            return Ok(Expr::Literal(Literal::String(self.previous().literal)));
        }
        if self.match_token(vec![TokenType::LeftParen]) {
            let expr = match self.expression() {
                Ok(e) => e,
                Err(e) => return Err(e),
            };
            return match self.consume(TokenType::RightParen, "Expect ')' after expression.") {
                Ok(_) => Ok(Expr::Grouping(Box::new(expr))),
                Err(e) => Err(e),
            };
        }
        Err(Error::ParseError { token: self.peek(), message: String::from_str("Expect expression.") })
    }

    /// The operator node for a binary operator token.
    pub fn binary_operator(token_type: TokenType) -> (r: BinaryOperator)
        requires
            binary_operator_of(token_type) is Some,
        ensures
            r == binary_operator_of(token_type)->0,
    {
        match token_type {
            TokenType::BangEqual => BinaryOperator::NotEqual,
            TokenType::EqualEqual => BinaryOperator::EqualEqual,
            TokenType::Less => BinaryOperator::Less,
            TokenType::LessEqual => BinaryOperator::LessEqual,
            TokenType::Greater => BinaryOperator::Greater,
            TokenType::GreaterEqual => BinaryOperator::GreaterEqual,
            TokenType::Plus => BinaryOperator::Plus,
            TokenType::Minus => BinaryOperator::Minus,
            TokenType::Star => BinaryOperator::Star,
            _ => BinaryOperator::Slash,
        }
    }

    /// The operator node for a unary operator token.
    pub fn unary_operator(token_type: TokenType) -> (r: UnaryOperator)
        requires
            unary_operator_of(token_type) is Some,
        ensures
            r == unary_operator_of(token_type)->0,
    {
        match token_type {
            TokenType::Bang => UnaryOperator::Bang,
            _ => UnaryOperator::Minus,
        }
    }

    /// Consumes a token of the given kind, or fails with `message` at the
    /// token under the cursor.
    pub fn consume(&mut self, token_type: TokenType, message: &str) -> (r: Result<Token, Error>)
        requires
            old(self).wf(),
        ensures
            final(self).wf(),
            final(self).tokens() == old(self).tokens(),
            ({
                let kind = kind_at(old(self).tokens(), old(self).current());
                if kind != TokenType::Eof && kind == token_type {
                    &&& r == Ok::<Token, Error>(old(self).tokens()[old(self).current()])
                    &&& final(self).current() == old(self).current() + 1
                } else {
                    &&& r matches Err(Error::ParseError { token, message: m })
                    &&& token == old(self).tokens()[old(self).current()]
                    &&& m@ == message@
                    &&& final(self).current() == old(self).current()
                }
            }),
    {
        if self.check(token_type) {
            return Ok(self.advance());
        }
        Err(Error::ParseError { token: self.peek(), message: String::from_str(message) })
    }

    /// Discards tokens until a likely statement boundary: just after a `;`,
    /// or just before a word that begins a statement. Always moves past at
    /// least one token unless already at end of input.
    pub fn synchronize(&mut self)
        requires
            old(self).wf(),
        ensures
            final(self).wf(),
            final(self).tokens() == old(self).tokens(),
            final(self).current() == sync_point(
                old(self).tokens(),
                advanced(old(self).tokens(), old(self).current()),
            ),
    {
        self.advance();
        while !self.is_at_end()
            invariant
                self.wf(),
                self.tokens() == old(self).tokens(),
                sync_point(self.tokens(), self.current()) == sync_point(
                    old(self).tokens(),
                    advanced(old(self).tokens(), old(self).current()),
                ),
                !self.is_at_end_spec() ==> self.current() > 0,
            decreases self.tokens().len() - self.current(),
        {
            if self.previous().token_type == TokenType::Semicolon {
                return;
            }
            match self.peek().token_type {
                TokenType::Class | TokenType::Fun | TokenType::Var | TokenType::For
                | TokenType::If | TokenType::While | TokenType::Print | TokenType::Return => {
                    return;
                },
                _ => {
                    self.advance();
                },
            }
        }
    }

    pub open spec fn is_at_end_spec(&self) -> bool {
        kind_at(self.tokens(), self.current()) == TokenType::Eof
    }

    /// Consumes the token under the cursor if its kind is one of `types`.
    pub fn match_token(&mut self, types: Vec<TokenType>) -> (r: bool)
        requires
            old(self).wf(),
        ensures
            final(self).wf(),
            final(self).tokens() == old(self).tokens(),
            r == (!old(self).is_at_end_spec() && types@.contains(
                kind_at(old(self).tokens(), old(self).current()),
            )),
            final(self).current() == if r {
                old(self).current() + 1
            } else {
                old(self).current()
            },
    {
        let mut i: usize = 0;
        while i < types.len()
            invariant
                *self == *old(self),
                self.wf(),
                i <= types.len(),
                forall|j: int| 0 <= j < i ==> !self.check_spec(#[trigger] types@[j]),
            decreases types.len() - i,
        {
            if self.check(types[i]) {
                assert(types@[i as int] == kind_at(self.tokens(), self.current()));
                self.advance();
                return true;
            }
            i += 1;
        }
        false
    }

    pub open spec fn check_spec(&self, token_type: TokenType) -> bool {
        !self.is_at_end_spec() && kind_at(self.tokens(), self.current()) == token_type
    }

    /// Whether the token under the cursor has the given kind; never at end
    /// of input.
    pub fn check(&self, token_type: TokenType) -> (r: bool)
        requires
            self.wf(),
        ensures
            r == self.check_spec(token_type),
    {
        if self.is_at_end() {
            return false;
        }
        self.tokens[self.current].token_type == token_type
    }

    /// Returns the token under the cursor and moves past it, unless it is
    /// the end-of-input sentinel.
    pub fn advance(&mut self) -> (r: Token)
        requires
            old(self).wf(),
        ensures
            final(self).wf(),
            final(self).tokens() == old(self).tokens(),
            r == old(self).tokens()[old(self).current()],
            final(self).current() == advanced(old(self).tokens(), old(self).current()),
    {
        let token = self.peek();
        let n = self.tokens.len();
        if !self.is_at_end() {
            assert(self.current + 1 < n);
            self.current += 1;
        }
        token
    }

    pub fn is_at_end(&self) -> (r: bool)
        requires
            self.wf(),
        ensures
            r == self.is_at_end_spec(),
    {
        self.tokens[self.current].token_type == TokenType::Eof
    }

    /// The token under the cursor.
    pub fn peek(&self) -> (r: Token)
        requires
            self.wf(),
        ensures
            r == self.tokens()[self.current()],
    {
        self.tokens[self.current].clone()
    }

    /// The token just before the cursor.
    pub fn previous(&self) -> (r: Token)
        requires
            self.wf(),
            self.current() > 0,
        ensures
            r == self.tokens()[self.current() - 1],
    {
        self.tokens[self.current - 1].clone()
    }
}

} // verus!
