//! The scanner: source text to tokens, left to right, longest match first.
//!
//! Whitespace and `//` comments are skipped; newlines advance the line
//! counter, also inside string literals. An unexpected character or an
//! unterminated string is reported and scanning goes on after it.
use vstd::prelude::*;

use crate::lox::Lox;
use crate::token::Token;
use crate::token_type::TokenType;

verus! {

/// What a token is, in terms of plain values.
pub struct TokenView {
    pub kind: TokenType,
    pub lexeme: Seq<char>,
    pub literal: Seq<char>,
    pub line: nat,
}

impl View for Token {
    type V = TokenView;

    open spec fn view(&self) -> TokenView {
        TokenView {
            kind: self.token_type,
            lexeme: self.lexeme@,
            literal: self.literal@,
            line: self.line as nat,
        }
    }
}

pub open spec fn unexpected_character_message() -> Seq<char> {
    "Unexpected character."@
}

pub open spec fn unterminated_string_message() -> Seq<char> {
    "Unterminated string."@
}

pub open spec fn is_digit(c: char) -> bool {
    '0' <= c <= '9'
}

pub open spec fn is_alpha(c: char) -> bool {
    ('a' <= c <= 'z') || ('A' <= c <= 'Z') || c == '_'
}

pub open spec fn is_alphanumeric(c: char) -> bool {
    is_alpha(c) || is_digit(c)
}

pub open spec fn is_not_newline(c: char) -> bool {
    c != '\n'
}

pub open spec fn is_not_quote(c: char) -> bool {
    c != '"'
}

pub open spec fn digits() -> spec_fn(char) -> bool {
    |c: char| is_digit(c)
}

pub open spec fn word_chars() -> spec_fn(char) -> bool {
    |c: char| is_alphanumeric(c)
}

pub open spec fn line_chars() -> spec_fn(char) -> bool {
    |c: char| is_not_newline(c)
}

pub open spec fn string_chars() -> spec_fn(char) -> bool {
    |c: char| is_not_quote(c)
}

/// The first index at or after `i` whose character fails `p`, or the end.
pub open spec fn run_end(src: Seq<char>, i: int, p: spec_fn(char) -> bool) -> int
    decreases src.len() - i,
{
    if 0 <= i < src.len() && p(src[i]) {
        run_end(src, i + 1, p)
    } else {
        i
    }
}

/// The number of newline characters in `s`.
pub open spec fn count_newlines(s: Seq<char>) -> nat
    decreases s.len(),
{
    if s.len() == 0 {
        0
    } else {
        count_newlines(s.drop_last()) + if s.last() == '\n' {
            1nat
        } else {
            0nat
        }
    }
}

/// The token kind of a reserved word, if `text` is one.
pub open spec fn keyword(text: Seq<char>) -> Option<TokenType> {
    if text == "and"@ {
        Some(TokenType::And)
    } else if text == "class"@ {
        Some(TokenType::Class)
    } else if text == "else"@ {
        Some(TokenType::Else)
    } else if text == "false"@ {
        Some(TokenType::False)
    } else if text == "for"@ {
        Some(TokenType::For)
    } else if text == "fun"@ {
        Some(TokenType::Fun)
    } else if text == "if"@ {
        Some(TokenType::If)
    } else if text == "nil"@ {
        Some(TokenType::Nil)
    } else if text == "or"@ {
        Some(TokenType::Or)
    } else if text == "print"@ {
        Some(TokenType::Print)
    } else if text == "return"@ {
        Some(TokenType::Return)
    } else if text == "super"@ {
        Some(TokenType::Super)
    } else if text == "this"@ {
        Some(TokenType::This)
    } else if text == "true"@ {
        Some(TokenType::True)
    } else if text == "var"@ {
        Some(TokenType::Var)
    } else if text == "while"@ {
        Some(TokenType::While)
    } else {
        None
    }
}

/// The effect of scanning one lexeme: where scanning resumes, the line
/// counter after it, the token produced (if any) and the error reported
/// (if any).
pub struct ScanStep {
    pub next: int,
    pub line: nat,
    pub token: Option<TokenView>,
    pub error: Option<Seq<char>>,
}

/// A token of `kind` spanning `src[start..end]`, with an empty literal.
pub open spec fn plain_step(src: Seq<char>, start: int, end: int, line: nat, kind: TokenType) -> ScanStep {
    ScanStep {
        next: end,
        line,
        token: Some(TokenView { kind, lexeme: src.subrange(start, end), literal: Seq::empty(), line }),
        error: None,
    }
}

/// A one-character token, or a two-character one when the next character
/// is `=`.
pub open spec fn operator_step(
    src: Seq<char>,
    start: int,
    line: nat,
    with_equal: TokenType,
    alone: TokenType,
) -> ScanStep {
    if start + 1 < src.len() && src[start + 1] == '=' {
        plain_step(src, start, start + 2, line, with_equal)
    } else {
        plain_step(src, start, start + 1, line, alone)
    }
}

pub open spec fn skip_step(next: int, line: nat) -> ScanStep {
    ScanStep { next, line, token: None, error: None }
}

/// A string literal opening at `start`: up to the closing quote, or an
/// error at end of input.
pub open spec fn string_step(src: Seq<char>, start: int, line: nat) -> ScanStep {
    let close = run_end(src, start + 1, string_chars());
    let end_line = line + count_newlines(src.subrange(start + 1, close));
    if close >= src.len() {
        ScanStep { next: src.len() as int, line: end_line, token: None, error: Some(unterminated_string_message()) }
    } else {
        ScanStep {
            next: close + 1,
            line: end_line,
            token: Some(
                TokenView {
                    kind: TokenType::String,
                    lexeme: src.subrange(start, close + 1),
                    literal: src.subrange(start + 1, close),
                    line: end_line,
                },
            ),
            error: None,
        }
    }
}

/// Where a number literal starting at `start` ends: digits, then a `.` and
/// more digits only when a digit follows the `.`.
pub open spec fn number_end(src: Seq<char>, start: int) -> int {
    let whole = run_end(src, start, digits());
    if whole + 1 < src.len() && src[whole] == '.' && is_digit(src[whole + 1]) {
        run_end(src, whole + 1, digits())
    } else {
        whole
    }
}

pub open spec fn number_step(src: Seq<char>, start: int, line: nat) -> ScanStep {
    let end = number_end(src, start);
    let text = src.subrange(start, end);
    ScanStep {
        next: end,
        line,
        token: Some(TokenView { kind: TokenType::Number, lexeme: text, literal: text, line }),
        error: None,
    }
}

pub open spec fn identifier_step(src: Seq<char>, start: int, line: nat) -> ScanStep {
    let end = run_end(src, start, word_chars());
    let text = src.subrange(start, end);
    let kind = match keyword(text) {
        Some(k) => k,
        None => TokenType::Identifier,
    };
    plain_step(src, start, end, line, kind)
}

/// Scans the lexeme that starts at `start` (which lies within `src`).
pub open spec fn scan_step(src: Seq<char>, start: int, line: nat) -> ScanStep {
    let c = src[start];
    if c == '(' {
        plain_step(src, start, start + 1, line, TokenType::LeftParen)
    } else if c == ')' {
        plain_step(src, start, start + 1, line, TokenType::RightParen)
    } else if c == '{' {
        plain_step(src, start, start + 1, line, TokenType::LeftBrace)
    } else if c == '}' {
        plain_step(src, start, start + 1, line, TokenType::RightBrace)
    } else if c == ',' {
        plain_step(src, start, start + 1, line, TokenType::Comma)
    } else if c == '.' {
        plain_step(src, start, start + 1, line, TokenType::Dot)
    } else if c == '-' {
        plain_step(src, start, start + 1, line, TokenType::Minus)
    } else if c == '+' {
        plain_step(src, start, start + 1, line, TokenType::Plus)
    } else if c == ';' {
        plain_step(src, start, start + 1, line, TokenType::Semicolon)
    } else if c == '*' {
        plain_step(src, start, start + 1, line, TokenType::Star)
    } else if c == '!' {
        operator_step(src, start, line, TokenType::BangEqual, TokenType::Bang)
    } else if c == '=' {
        operator_step(src, start, line, TokenType::EqualEqual, TokenType::Equal)
    } else if c == '<' {
        operator_step(src, start, line, TokenType::LessEqual, TokenType::Less)
    } else if c == '>' {
        operator_step(src, start, line, TokenType::GreaterEqual, TokenType::Greater)
    } else if c == '/' {
        if start + 1 < src.len() && src[start + 1] == '/' {
            skip_step(run_end(src, start + 2, line_chars()), line)
        } else {
            plain_step(src, start, start + 1, line, TokenType::Slash)
        }
    } else if c == ' ' || c == '\r' || c == '\t' {
        skip_step(start + 1, line)
    } else if c == '\n' {
        skip_step(start + 1, line + 1)
    } else if c == '"' {
        string_step(src, start, line)
    } else if is_digit(c) {
        number_step(src, start, line)
    } else if is_alpha(c) {
        identifier_step(src, start, line)
    } else {
        ScanStep { next: start + 1, line, token: None, error: Some(unexpected_character_message()) }
    }
}

pub proof fn lemma_run_end_bounds(src: Seq<char>, i: int, p: spec_fn(char) -> bool)
    requires
        0 <= i <= src.len(),
    ensures
        i <= run_end(src, i, p) <= src.len(),
        forall|k: int| i <= k < run_end(src, i, p) ==> p(#[trigger] src[k]),
    decreases src.len() - i,
{
    if i < src.len() && p(src[i]) {
        lemma_run_end_bounds(src, i + 1, p);
    }
}

pub proof fn lemma_scan_step_advances(src: Seq<char>, start: int, line: nat)
    requires
        0 <= start < src.len(),
    ensures
        start < scan_step(src, start, line).next <= src.len(),
{
    let c = src[start];
    if c == '/' && start + 1 < src.len() && src[start + 1] == '/' {
        lemma_run_end_bounds(src, start + 2, line_chars());
    } else if c == '"' {
        lemma_run_end_bounds(src, start + 1, string_chars());
    } else if is_digit(c) {
        lemma_run_end_bounds(src, start + 1, digits());
        let whole = run_end(src, start, digits());
        if whole + 1 < src.len() && src[whole] == '.' && is_digit(src[whole + 1]) {
            lemma_run_end_bounds(src, whole + 1, digits());
        }
    } else if is_alpha(c) {
        lemma_run_end_bounds(src, start + 1, word_chars());
    }
}

/// The tokens and the error reports (line, an empty location, message) of
/// scanning `src`
/// from `start` on with the line counter at `line`.
pub open spec fn scan_from(src: Seq<char>, start: int, line: nat) -> (Seq<TokenView>, Seq<(nat, Seq<char>, Seq<char>)>)
    decreases src.len() - start,
{
    if start < 0 || start >= src.len() {
        (seq![TokenView { kind: TokenType::Eof, lexeme: Seq::empty(), literal: Seq::empty(), line }], seq![])
    } else {
        let step = scan_step(src, start, line);
        proof {
            lemma_scan_step_advances(src, start, line);
        }
        let (toks, errs) = scan_from(src, step.next, step.line);
        let toks = match step.token {
            Some(t) => seq![t] + toks,
            None => toks,
        };
        let errs = match step.error {
            Some(m) => seq![(step.line, Seq::empty(), m)] + errs,
            None => errs,
        };
        (toks, errs)
    }
}

/// The tokens and error reports of a whole source text, lines counted from 1.
pub open spec fn scan(src: Seq<char>) -> (Seq<TokenView>, Seq<(nat, Seq<char>, Seq<char>)>) {
    scan_from(src, 0, 1)
}

/// Relies on `str::chars`: the characters of `s`, in order.
#[verifier::external_body]
fn chars_of(s: &str) -> (r: Vec<char>)
    ensures
        r@ == s@,
{
    s.chars().collect()
}

/// Relies on collecting characters into a `String`: the text of
/// `chars[from..to]`.
#[verifier::external_body]
fn text_of(chars: &Vec<char>, from: usize, to: usize) -> (r: String)
    requires
        from <= to <= chars@.len(),
    ensures
        r@ == chars@.subrange(from as int, to as int),
{
    chars[from..to].iter().collect()
}

/// The character classes that scanning runs over.
enum CharClass {
    Digit,
    Word,
    Line,
    Quoted,
}

spec fn class_fn(k: CharClass) -> spec_fn(char) -> bool {
    match k {
        CharClass::Digit => digits(),
        CharClass::Word => word_chars(),
        CharClass::Line => line_chars(),
        CharClass::Quoted => string_chars(),
    }
}

fn is_digit_char(c: char) -> (r: bool)
    ensures
        r == is_digit(c),
{
    '0' <= c && c <= '9'
}

fn is_alpha_char(c: char) -> (r: bool)
    ensures
        r == is_alpha(c),
{
    ('a' <= c && c <= 'z') || ('A' <= c && c <= 'Z') || c == '_'
}

fn in_class(c: char, k: &CharClass) -> (r: bool)
    ensures
        r == class_fn(*k)(c),
{
    match k {
        CharClass::Digit => is_digit_char(c),
        CharClass::Word => is_alpha_char(c) || is_digit_char(c),
        CharClass::Line => c != '\n',
        CharClass::Quoted => c != '"',
    }
}

fn run_end_of(chars: &Vec<char>, i: usize, k: CharClass) -> (r: usize)
    requires
        i <= chars@.len(),
    ensures
        r == run_end(chars@, i as int, class_fn(k)),
{
    let mut j = i;
    while j < chars.len() && in_class(chars[j], &k)
        invariant
            i <= j <= chars@.len(),
            run_end(chars@, j as int, class_fn(k)) == run_end(chars@, i as int, class_fn(k)),
        decreases chars@.len() - j,
    {
        j += 1;
    }
    j
}

proof fn lemma_count_newlines_step(s: Seq<char>, from: int, to: int)
    requires
        0 <= from <= to < s.len(),
    ensures
        count_newlines(s.subrange(from, to + 1)) == count_newlines(s.subrange(from, to)) + if s[to]
            == '\n' {
            1nat
        } else {
            0nat
        },
{
    assert(s.subrange(from, to + 1).drop_last() =~= s.subrange(from, to));
}

fn count_newlines_in(chars: &Vec<char>, from: usize, to: usize) -> (r: usize)
    requires
        from <= to <= chars@.len(),
    ensures
        r == count_newlines(chars@.subrange(from as int, to as int)),
        r <= to - from,
{
    let mut count: usize = 0;
    let mut j = from;
    assert(chars@.subrange(from as int, from as int) =~= Seq::<char>::empty());
    while j < to
        invariant
            from <= j <= to <= chars@.len(),
            count == count_newlines(chars@.subrange(from as int, j as int)),
            count <= j - from,
        decreases to - j,
    {
        proof {
            lemma_count_newlines_step(chars@, from as int, j as int);
        }
        if chars[j] == '\n' {
            count += 1;
        }
        j += 1;
    }
    count
}

/// Whether `chars[start..end]` is exactly `word`.
fn spells(chars: &Vec<char>, start: usize, end: usize, word: &str) -> (r: bool)
    requires
        start <= end <= chars@.len(),
    ensures
        r == (chars@.subrange(start as int, end as int) == word@),
{
    let n = word.unicode_len();
    if end - start != n {
        return false;
    }
    let mut k: usize = 0;
    while k < n
        invariant
            n == word@.len(),
            end - start == n,
            start <= end <= chars@.len(),
            k <= n,
            forall|m: int| 0 <= m < k ==> chars@[start + m] == word@[m],
        decreases n - k,
    {
        if chars[start + k] != word.get_char(k) {
            assert(chars@.subrange(start as int, end as int)[k as int] != word@[k as int]);
            return false;
        }
        k += 1;
    }
    assert(chars@.subrange(start as int, end as int) =~= word@);
    true
}

fn keyword_kind(chars: &Vec<char>, start: usize, end: usize) -> (r: Option<TokenType>)
    requires
        start <= end <= chars@.len(),
    ensures
        r == keyword(chars@.subrange(start as int, end as int)),
{
        if spells(chars, start, end, "and") {
            Some(TokenType::And)
        } else if spells(chars, start, end, "class") {
            Some(TokenType::Class)
        } else if spells(chars, start, end, "else") {
            Some(TokenType::Else)
        } else if spells(chars, start, end, "false") {
            Some(TokenType::False)
        } else if spells(chars, start, end, "for") {
            Some(TokenType::For)
        } else if spells(chars, start, end, "fun") {
            Some(TokenType::Fun)
        } else if spells(chars, start, end, "if") {
            Some(TokenType::If)
        } else if spells(chars, start, end, "nil") {
            Some(TokenType::Nil)
        } else if spells(chars, start, end, "or") {
            Some(TokenType::Or)
        } else if spells(chars, start, end, "print") {
            Some(TokenType::Print)
        } else if spells(chars, start, end, "return") {
            Some(TokenType::Return)
        } else if spells(chars, start, end, "super") {
            Some(TokenType::Super)
        } else if spells(chars, start, end, "this") {
            Some(TokenType::This)
        } else if spells(chars, start, end, "true") {
            Some(TokenType::True)
        } else if spells(chars, start, end, "var") {
            Some(TokenType::Var)
        } else if spells(chars, start, end, "while") {
            Some(TokenType::While)
        } else {
            None
        }
}

pub open spec fn token_matches(t: Option<Token>, v: Option<TokenView>) -> bool {
    match t {
        Some(t) => v == Some(t@),
        None => v is None,
    }
}

pub open spec fn error_matches(e: Option<&'static str>, v: Option<Seq<char>>) -> bool {
    match e {
        Some(m) => v == Some(m@),
        None => v is None,
    }
}

fn plain_token(chars: &Vec<char>, start: usize, end: usize, line: usize, kind: TokenType) -> (r: Token)
    requires
        start <= end <= chars@.len(),
    ensures
        Some(r@) == plain_step(chars@, start as int, end as int, line as nat, kind).token,
{
    Token::new(kind, text_of(chars, start, end), String::new(), line)
}

fn scan_string(chars: &Vec<char>, start: usize, line: usize) -> (r: (usize, usize, Option<Token>, Option<&'static str>))
    requires
        start < chars@.len(),
        chars@[start as int] == '"',
        chars@.len() < usize::MAX,
        line <= start + 1,
    ensures
        ({
            let step = string_step(chars@, start as int, line as nat);
            &&& r.0 == step.next
            &&& r.1 == step.line
            &&& r.1 <= r.0 + 1
            &&& token_matches(r.2, step.token)
            &&& error_matches(r.3, step.error)
        }),
{
    let close = run_end_of(chars, start + 1, CharClass::Quoted);
    proof {
        lemma_run_end_bounds(chars@, start + 1, string_chars());
    }
    let end_line = line + count_newlines_in(chars, start + 1, close);
    if close >= chars.len() {
        return (chars.len(), end_line, None, Some("Unterminated string."));
    }
    let token = Token::new(
        TokenType::String,
        text_of(chars, start, close + 1),
        text_of(chars, start + 1, close),
        end_line,
    );
    (close + 1, end_line, Some(token), None)
}

fn scan_number(chars: &Vec<char>, start: usize, line: usize) -> (r: (usize, usize, Option<Token>, Option<&'static str>))
    requires
        start < chars@.len(),
        is_digit(chars@[start as int]),
    ensures
        ({
            let step = number_step(chars@, start as int, line as nat);
            &&& r.0 == step.next
            &&& r.1 == step.line
            &&& token_matches(r.2, step.token)
            &&& r.3 is None
        }),
{
    let whole = run_end_of(chars, start, CharClass::Digit);
    proof {
        lemma_run_end_bounds(chars@, start as int, digits());
    }
    let mut end = whole;
    if whole < chars.len() && whole + 1 < chars.len() && chars[whole] == '.' && is_digit_char(chars[whole + 1]) {
        end = run_end_of(chars, whole + 1, CharClass::Digit);
        proof {
            lemma_run_end_bounds(chars@, whole + 1, digits());
        }
    }
    let text = text_of(chars, start, end);
    let token = Token::new(TokenType::Number, text.clone(), text, line);
    (end, line, Some(token), None)
}

fn scan_identifier(chars: &Vec<char>, start: usize, line: usize) -> (r: (usize, usize, Option<Token>, Option<&'static str>))
    requires
        start < chars@.len(),
    ensures
        ({
            let step = identifier_step(chars@, start as int, line as nat);
            &&& r.0 == step.next
            &&& r.1 == step.line
            &&& token_matches(r.2, step.token)
            &&& r.3 is None
        }),
{
    let end = run_end_of(chars, start, CharClass::Word);
    proof {
        lemma_run_end_bounds(chars@, start as int, word_chars());
    }
    let kind = match keyword_kind(chars, start, end) {
        Some(k) => k,
        None => TokenType::Identifier,
    };
    (end, line, Some(plain_token(chars, start, end, line, kind)), None)
}

/// Scans the lexeme that starts at `start`.
fn scan_token(chars: &Vec<char>, start: usize, line: usize) -> (r: (usize, usize, Option<Token>, Option<&'static str>))
    requires
        start < chars@.len(),
        chars@.len() < usize::MAX,
        line <= start + 1,
    ensures
        ({
            let step = scan_step(chars@, start as int, line as nat);
            &&& r.0 == step.next
            &&& r.1 == step.line
            &&& r.1 <= r.0 + 1
            &&& token_matches(r.2, step.token)
            &&& error_matches(r.3, step.error)
        }),
{
    proof {
        lemma_scan_step_advances(chars@, start as int, line as nat);
    }
    let c = chars[start];
    let single = match c {
        '(' => Some(TokenType::LeftParen),
        ')' => Some(TokenType::RightParen),
        '{' => Some(TokenType::LeftBrace),
        '}' => Some(TokenType::RightBrace),
        ',' => Some(TokenType::Comma),
        '.' => Some(TokenType::Dot),
        '-' => Some(TokenType::Minus),
        '+' => Some(TokenType::Plus),
        ';' => Some(TokenType::Semicolon),
        '*' => Some(TokenType::Star),
        _ => None,
    };
    if let Some(kind) = single {
        return (start + 1, line, Some(plain_token(chars, start, start + 1, line, kind)), None);
    }
    let pair = match c {
        '!' => Some((TokenType::BangEqual, TokenType::Bang)),
        '=' => Some((TokenType::EqualEqual, TokenType::Equal)),
        '<' => Some((TokenType::LessEqual, TokenType::Less)),
        '>' => Some((TokenType::GreaterEqual, TokenType::Greater)),
        _ => None,
    };
    if let Some((with_equal, alone)) = pair {
        if start + 1 < chars.len() && chars[start + 1] == '=' {
            return (start + 2, line, Some(plain_token(chars, start, start + 2, line, with_equal)), None);
        }
        return (start + 1, line, Some(plain_token(chars, start, start + 1, line, alone)), None);
    }
    if c == '/' {
        if start + 1 < chars.len() && chars[start + 1] == '/' {
            let end = run_end_of(chars, start + 2, CharClass::Line);
            return (end, line, None, None);
        }
        return (start + 1, line, Some(plain_token(chars, start, start + 1, line, TokenType::Slash)), None);
    }
    if c == ' ' || c == '\r' || c == '\t' {
        return (start + 1, line, None, None);
    }
    if c == '\n' {
        return (start + 1, line + 1, None, None);
    }
    if c == '"' {
        return scan_string(chars, start, line);
    }
    if is_digit_char(c) {
        return scan_number(chars, start, line);
    }
    if is_alpha_char(c) {
        return scan_identifier(chars, start, line);
    }
    (start + 1, line, None, Some("Unexpected character."))
}

/// A scanned token is never the sentinel, and its lexeme is exactly the
/// source text it was scanned from.
pub proof fn lemma_scan_step_token(src: Seq<char>, start: int, line: nat)
    requires
        0 <= start < src.len(),
    ensures
        scan_step(src, start, line).token matches Some(t) ==> t.kind != TokenType::Eof && t.lexeme
            == src.subrange(start, scan_step(src, start, line).next),
{
    lemma_scan_step_advances(src, start, line);
}

/// Every scan ends with exactly one sentinel, and every token before it has
/// a non-empty lexeme.
pub proof fn lemma_scan_from_shape(src: Seq<char>, start: int, line: nat)
    requires
        0 <= start <= src.len(),
    ensures
        scan_from(src, start, line).0.len() > 0,
        scan_from(src, start, line).0.last().kind == TokenType::Eof,
        forall|k: int|
            0 <= k < scan_from(src, start, line).0.len() - 1 ==> (#[trigger] scan_from(
                src,
                start,
                line,
            ).0[k]).kind != TokenType::Eof && scan_from(src, start, line).0[k].lexeme.len() > 0,
    decreases src.len() - start,
{
    if start < src.len() {
        let step = scan_step(src, start, line);
        lemma_scan_step_advances(src, start, line);
        lemma_scan_step_token(src, start, line);
        lemma_scan_from_shape(src, step.next, step.line);
        let rest = scan_from(src, step.next, step.line).0;
        let toks = scan_from(src, start, line).0;
        if let Some(t) = step.token {
            assert(toks == seq![t] + rest);
            assert forall|k: int| 0 <= k < toks.len() - 1 implies (#[trigger] toks[k]).kind
                != TokenType::Eof && toks[k].lexeme.len() > 0 by {
                if k > 0 {
                    assert(toks[k] == rest[k - 1]);
                }
            }
        }
    }
}

/// The two-character operator that `c` followed by `=` forms, if any.
pub open spec fn two_char_operator(c: char) -> Option<TokenType> {
    if c == '!' {
        Some(TokenType::BangEqual)
    } else if c == '=' {
        Some(TokenType::EqualEqual)
    } else if c == '<' {
        Some(TokenType::LessEqual)
    } else if c == '>' {
        Some(TokenType::GreaterEqual)
    } else {
        None
    }
}

/// Longest match: wherever scanning reaches a `!`, `=`, `<` or `>` that is
/// followed by `=`, the two characters become one token, and scanning
/// resumes after both.
pub proof fn lemma_longest_match(src: Seq<char>, start: int, line: nat)
    requires
        0 <= start,
        start + 1 < src.len(),
        src[start + 1] == '=',
        two_char_operator(src[start]) is Some,
    ensures
        scan_from(src, start, line).0[0] == (TokenView {
            kind: two_char_operator(src[start])->0,
            lexeme: src.subrange(start, start + 2),
            literal: Seq::empty(),
            line,
        }),
        scan_from(src, start, line).0.drop_first() == scan_from(src, start + 2, line).0,
        scan_from(src, start, line).1 == scan_from(src, start + 2, line).1,
{
    let step = scan_step(src, start, line);
    assert(step == plain_step(src, start, start + 2, line, two_char_operator(src[start])->0));
    let rest = scan_from(src, start + 2, line).0;
    assert((seq![step.token->0] + rest).drop_first() =~= rest);
}

/// Recovery: an unexpected character yields no token and exactly one
/// report on its line; scanning goes on with the next character, on the
/// same line.
pub proof fn lemma_unexpected_character(src: Seq<char>, start: int, line: nat)
    requires
        0 <= start < src.len(),
        scan_step(src, start, line).error == Some(unexpected_character_message()),
    ensures
        scan_from(src, start, line).0 == scan_from(src, start + 1, line).0,
        scan_from(src, start, line).1 == seq![(line, Seq::<char>::empty(), unexpected_character_message())]
            + scan_from(src, start + 1, line).1,
{
    let c = src[start];
    if c == '"' {
        lemma_run_end_bounds(src, start + 1, string_chars());
        reveal_strlit("Unexpected character.");
        reveal_strlit("Unterminated string.");
        assert(unterminated_string_message()[2] != unexpected_character_message()[2]);
    }
}

/// Whether `c` can begin a lexeme, or is whitespace the scanner skips.
pub open spec fn is_recognized(c: char) -> bool {
    c == '(' || c == ')' || c == '{' || c == '}' || c == ',' || c == '.' || c == '-' || c == '+'
        || c == ';' || c == '*' || c == '!' || c == '=' || c == '<' || c == '>' || c == '/'
        || c == ' ' || c == '\r' || c == '\t' || c == '\n' || c == '"' || is_digit(c) || is_alpha(c)
}

proof fn lemma_run_end_shift(s: Seq<char>, c: char, i: int, p: spec_fn(char) -> bool)
    requires
        0 <= i <= s.len(),
    ensures
        run_end(seq![c] + s, i + 1, p) == run_end(s, i, p) + 1,
    decreases s.len() - i,
{
    let t = seq![c] + s;
    if i < s.len() {
        assert(t[i + 1] == s[i]);
        lemma_run_end_shift(s, c, i + 1, p);
    }
}

proof fn lemma_subrange_shift(s: Seq<char>, c: char, a: int, b: int)
    requires
        0 <= a <= b <= s.len(),
    ensures
        (seq![c] + s).subrange(a + 1, b + 1) == s.subrange(a, b),
{
    assert((seq![c] + s).subrange(a + 1, b + 1) =~= s.subrange(a, b));
}

proof fn lemma_scan_step_shift(s: Seq<char>, c: char, k: int, line: nat)
    requires
        0 <= k < s.len(),
    ensures
        scan_step(seq![c] + s, k + 1, line).next == scan_step(s, k, line).next + 1,
        scan_step(seq![c] + s, k + 1, line).line == scan_step(s, k, line).line,
        scan_step(seq![c] + s, k + 1, line).token == scan_step(s, k, line).token,
        scan_step(seq![c] + s, k + 1, line).error == scan_step(s, k, line).error,
{
    let t = seq![c] + s;
    let d = s[k];
    assert(t[k + 1] == d);
    assert(t.len() == s.len() + 1);
    if k + 1 < s.len() {
        assert(t[k + 2] == s[k + 1]);
    }
    lemma_subrange_shift(s, c, k, k + 1);
    if k + 2 <= s.len() {
        lemma_subrange_shift(s, c, k, k + 2);
    }
    if d == '/' && k + 1 < s.len() && s[k + 1] == '/' {
        lemma_run_end_shift(s, c, k + 2, line_chars());
    } else if d == '"' {
        lemma_run_end_shift(s, c, k + 1, string_chars());
        lemma_run_end_bounds(s, k + 1, string_chars());
        let close = run_end(s, k + 1, string_chars());
        lemma_subrange_shift(s, c, k + 1, close);
        if close < s.len() {
            lemma_subrange_shift(s, c, k, close + 1);
        }
    } else if is_digit(d) {
        lemma_run_end_shift(s, c, k, digits());
        lemma_run_end_bounds(s, k, digits());
        let whole = run_end(s, k, digits());
        if whole + 1 < s.len() && s[whole] == '.' && is_digit(s[whole + 1]) {
            assert(t[whole + 1] == s[whole]);
            assert(t[whole + 2] == s[whole + 1]);
            lemma_run_end_shift(s, c, whole + 1, digits());
            lemma_run_end_bounds(s, whole + 1, digits());
        } else if whole < s.len() {
            assert(t[whole + 1] == s[whole]);
            if whole + 1 < s.len() {
                assert(t[whole + 2] == s[whole + 1]);
            }
        }
        lemma_subrange_shift(s, c, k, number_end(s, k));
    } else if is_alpha(d) {
        lemma_run_end_shift(s, c, k, word_chars());
        lemma_run_end_bounds(s, k, word_chars());
        lemma_subrange_shift(s, c, k, run_end(s, k, word_chars()));
    }
}

proof fn lemma_scan_from_shift(s: Seq<char>, c: char, k: int, line: nat)
    requires
        0 <= k <= s.len(),
    ensures
        scan_from(seq![c] + s, k + 1, line) == scan_from(s, k, line),
    decreases s.len() - k,
{
    if k < s.len() {
        lemma_scan_step_shift(s, c, k, line);
        lemma_scan_step_advances(s, k, line);
        let step = scan_step(s, k, line);
        lemma_scan_from_shift(s, c, step.next, step.line);
    }
}

/// Recovery: a character that cannot begin a lexeme, put in front of any
/// source, leaves that source's tokens exactly as they were and adds one
/// report, on line 1, before its reports.
pub proof fn lemma_recovery(c: char, s: Seq<char>)
    requires
        !is_recognized(c),
    ensures
        scan(seq![c] + s).0 == scan(s).0,
        scan(seq![c] + s).1 == seq![(1nat, Seq::<char>::empty(), unexpected_character_message())] + scan(s).1,
{
    let t = seq![c] + s;
    assert(t[0] == c);
    lemma_scan_from_shift(s, c, 0, 1);
}

/// A run of digits, at least one.
pub open spec fn all_digits(t: Seq<char>) -> bool {
    t.len() > 0 && forall|k: int| 0 <= k < t.len() ==> is_digit(#[trigger] t[k])
}

/// The shape of a number literal: digits, optionally followed by a `.` and
/// more digits.
pub open spec fn is_number_text(t: Seq<char>) -> bool {
    all_digits(t) || exists|d: int|
        0 < d < t.len() && t[d] == '.' && all_digits(#[trigger] t.subrange(0, d)) && all_digits(
            t.subrange(d + 1, t.len() as int),
        )
}

proof fn lemma_number_step_text(src: Seq<char>, start: int, line: nat)
    requires
        0 <= start < src.len(),
        is_digit(src[start]),
    ensures
        ({
            let t = number_step(src, start, line).token->0;
            t.literal == t.lexeme && is_number_text(t.lexeme)
        }),
{
    lemma_run_end_bounds(src, start + 1, digits());
    lemma_run_end_bounds(src, start, digits());
    let whole = run_end(src, start, digits());
    let end = number_end(src, start);
    let text = src.subrange(start, end);
    if whole + 1 < src.len() && src[whole] == '.' && is_digit(src[whole + 1]) {
        lemma_run_end_bounds(src, whole + 2, digits());
        lemma_run_end_bounds(src, whole + 1, digits());
        let d = whole - start;
        assert(text.subrange(0, d) =~= src.subrange(start, whole));
        assert(text.subrange(d + 1, text.len() as int) =~= src.subrange(whole + 1, end));
        assert(all_digits(text.subrange(0, d)));
        assert(all_digits(text.subrange(d + 1, text.len() as int)));
    } else {
        assert(all_digits(text));
    }
}

/// Every number token's literal is its lexeme, and has the shape of a
/// number literal.
pub proof fn lemma_number_tokens(src: Seq<char>, start: int, line: nat)
    requires
        0 <= start <= src.len(),
    ensures
        forall|k: int|
            0 <= k < scan_from(src, start, line).0.len() && (#[trigger] scan_from(src, start, line).0[k]).kind
                == TokenType::Number ==> scan_from(src, start, line).0[k].literal == scan_from(
                src,
                start,
                line,
            ).0[k].lexeme && is_number_text(scan_from(src, start, line).0[k].lexeme),
    decreases src.len() - start,
{
    if start < src.len() {
        let step = scan_step(src, start, line);
        lemma_scan_step_advances(src, start, line);
        lemma_number_tokens(src, step.next, step.line);
        if is_digit(src[start]) {
            lemma_number_step_text(src, start, line);
        }
        let rest = scan_from(src, step.next, step.line).0;
        let toks = scan_from(src, start, line).0;
        if let Some(t) = step.token {
            assert(toks == seq![t] + rest);
            assert forall|k: int|
                0 <= k < toks.len() && (#[trigger] toks[k]).kind == TokenType::Number implies toks[k].literal
                == toks[k].lexeme && is_number_text(toks[k].lexeme) by {
                if k > 0 {
                    assert(toks[k] == rest[k - 1]);
                }
            }
        }
    }
}

/// Scans `source` into tokens, ending with the end-of-input sentinel.
/// Each lexical error (an unexpected character, an unterminated string) is
/// reported to `lox` with its line, and scanning goes on after it.
pub fn tokenize(source: &str, lox: &mut Lox) -> (r: Vec<Token>)
    requires
        source@.len() < usize::MAX,
    ensures
        r@.map_values(|t: Token| t@) == scan(source@).0,
        final(lox).reports() == old(lox).reports() + scan(source@).1,
        final(lox).spec_had_error() == (old(lox).spec_had_error() || scan(source@).1.len() > 0),
        r@.len() > 0,
        r@.last().token_type == TokenType::Eof,
        forall|k: int|
            0 <= k < r@.len() - 1 ==> (#[trigger] r@[k]).token_type != TokenType::Eof
                && r@[k].lexeme@.len() > 0,
{
    let chars = chars_of(source);
    let ghost src = source@;
    let mut tokens: Vec<Token> = Vec::new();
    let mut i: usize = 0;
    let mut line: usize = 1;
    while i < chars.len()
        invariant
            chars@ == src,
            src == source@,
            src.len() < usize::MAX,
            i <= src.len(),
            1 <= line <= i + 1,
            tokens@.map_values(|t: Token| t@) + scan_from(src, i as int, line as nat).0 == scan(src).0,
            lox.reports() + scan_from(src, i as int, line as nat).1 == old(lox).reports() + scan(src).1,
            lox.reports().len() >= old(lox).reports().len(),
            lox.spec_had_error() == (old(lox).spec_had_error() || lox.reports().len() > old(
                lox,
            ).reports().len()),
        decreases src.len() - i,
    {
        let ghost before_tokens = tokens@.map_values(|t: Token| t@);
        let ghost before_reports = lox.reports();
        let (next, next_line, token, error) = scan_token(&chars, i, line);
        proof {
            lemma_scan_step_advances(src, i as int, line as nat);
        }
        let ghost rest = scan_from(src, next as int, next_line as nat);
        match error {
            Some(message) => {
                lox.error(next_line, String::from_str(message));
                assert(scan_from(src, i as int, line as nat).1 == seq![(next_line as nat, Seq::<char>::empty(), message@)] + rest.1);
                assert(lox.reports() + rest.1 =~= before_reports + scan_from(src, i as int, line as nat).1);
            },
            None => {
                assert(scan_from(src, i as int, line as nat).1 == rest.1);
            },
        }
        match token {
            Some(t) => {
                let ghost tv = t@;
                tokens.push(t);
                assert(scan_from(src, i as int, line as nat).0 == seq![tv] + rest.0);
                assert(tokens@.map_values(|t: Token| t@) =~= before_tokens.push(tv));
                assert(tokens@.map_values(|t: Token| t@) + rest.0 =~= before_tokens + scan_from(src, i as int, line as nat).0);
            },
            None => {
                assert(scan_from(src, i as int, line as nat).0 == rest.0);
            },
        }
        i = next;
        line = next_line;
    }
    let ghost before_tokens = tokens@.map_values(|t: Token| t@);
    tokens.push(Token::new(TokenType::Eof, String::new(), String::new(), line));
    proof {
        assert(tokens@.map_values(|t: Token| t@) =~= before_tokens + scan_from(src, i as int, line as nat).0);
        assert(lox.reports() =~= old(lox).reports() + scan(src).1);
        lemma_scan_from_shape(src, 0, 1);
        let views = tokens@.map_values(|t: Token| t@);
        assert forall|k: int| 0 <= k < tokens@.len() - 1 implies (#[trigger] tokens@[k]).token_type
            != TokenType::Eof && tokens@[k].lexeme@.len() > 0 by {
            assert(views[k] == tokens@[k]@);
        }
        assert(views[views.len() - 1] == tokens@.last()@);
    }
    tokens
}

} // verus!
