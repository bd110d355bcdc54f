//! The diagnostic context shared by the scanner and the caller: it collects
//! reported errors and the "had error" flag that decides the exit status of
//! a batch run. The caller owns it and resets it between interactive inputs.
use vstd::prelude::*;

use crate::token::Token;
use crate::token_type::TokenType;

verus! {

/// One reported error: its line, where on the line (empty when not known)
/// and the message.
#[derive(Debug)]
pub struct Diagnostic {
    pub line: usize,
    pub location: String,
    pub message: String,
}

impl View for Diagnostic {
    type V = (nat, Seq<char>, Seq<char>);

    open spec fn view(&self) -> (nat, Seq<char>, Seq<char>) {
        (self.line as nat, self.location@, self.message@)
    }
}

pub struct Lox {
    had_error: bool,
    diagnostics: Vec<Diagnostic>,
}

impl Lox {
    /// The diagnostics reported so far, oldest first.
    pub closed spec fn reports(&self) -> Seq<(nat, Seq<char>, Seq<char>)> {
        self.diagnostics@.map_values(|d: Diagnostic| d@)
    }

    pub closed spec fn spec_had_error(&self) -> bool {
        self.had_error
    }

    pub fn new() -> (r: Lox)
        ensures
            r.reports() == Seq::<(nat, Seq<char>, Seq<char>)>::empty(),
            !r.spec_had_error(),
    {
        Lox { had_error: false, diagnostics: Vec::new() }
    }

    /// Reports an error at `line` with no further location.
    pub fn error(&mut self, line: usize, message: String)
        ensures
            final(self).reports() == old(self).reports().push((line as nat, Seq::empty(), message@)),
            final(self).spec_had_error(),
    {
        self.report(line, String::new(), message);
    }

    /// Where on its line an error at `token` lies: " at end" for the
    /// end-of-input sentinel, else " at '<lexeme>'".
    pub open spec fn location_of(token: Token) -> Seq<char> {
        if token.token_type == TokenType::Eof {
            " at end"@
        } else {
            " at '"@ + token.lexeme@ + "'"@
        }
    }

    /// Reports a parse error at `token`, on the token's line.
    pub fn error_at(&mut self, token: &Token, message: String)
        ensures
            final(self).reports() == old(self).reports().push(
                (token.line as nat, Self::location_of(*token), message@),
            ),
            final(self).spec_had_error(),
    {
        let location = if token.token_type == TokenType::Eof {
            String::from_str(" at end")
        } else {
            String::from_str(" at '").concat(token.lexeme.as_str()).concat("'")
        };
        self.report(token.line, location, message);
    }

    fn report(&mut self, line: usize, where_: String, message: String)
        ensures
            final(self).reports() == old(self).reports().push((line as nat, where_@, message@)),
            final(self).spec_had_error(),
    {
        let ghost before = self.diagnostics@;
        self.diagnostics.push(Diagnostic { line, location: where_, message });
        self.had_error = true;
        assert(self.diagnostics@.map_values(|d: Diagnostic| d@) =~= before.map_values(
            |d: Diagnostic| d@,
        ).push((line as nat, where_@, message@)));
    }

    /// Whether an error has been reported since creation or the last reset.
    pub fn had_error(&self) -> (r: bool)
        ensures
            r == self.spec_had_error(),
    {
        self.had_error
    }

    /// Clears the flag and the collected diagnostics, as between two
    /// interactive inputs.
    pub fn reset(&mut self)
        ensures
            final(self).reports() == Seq::<(nat, Seq<char>, Seq<char>)>::empty(),
            !final(self).spec_had_error(),
    {
        self.had_error = false;
        self.diagnostics = Vec::new();
        assert(self.diagnostics@.map_values(|d: Diagnostic| d@) =~= Seq::empty());
    }

    /// The diagnostics reported so far, oldest first.
    pub fn diagnostics(&self) -> (r: &Vec<Diagnostic>)
        ensures
            r@.map_values(|d: Diagnostic| d@) == self.reports(),
    {
        &self.diagnostics
    }
}

} // verus!
