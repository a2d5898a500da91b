//! Error values of the assembler and the source locations they point at.

use vstd::prelude::*;
use crate::text::{chars_of, fmt_dec, push_chars, dec_digits};

verus! {

/// Source location for error reporting
#[derive(Debug, Clone)]
pub struct SourceLocation {
    pub file: String,
    pub line: usize,
    pub col: usize,
}

/// Assembler error types
#[derive(Debug, Clone)]
pub struct AsmError {
    pub location: Option<SourceLocation>,
    pub message: String,
    pub source_line: Option<String>,
}

pub type AsmResult<T> = Result<T, AsmError>;

impl SourceLocation {
    /// The `file:line:col` rendering of a location.
    pub open spec fn spec_text(&self) -> Seq<char> {
        self.file@ + seq![':'] + dec_digits(self.line as nat) + seq![':'] + dec_digits(self.col as nat)
    }

    /// `file:line:col`.
    pub fn to_text(&self) -> (r: String)
        ensures
            r@ == self.spec_text(),
    {
        let mut r = self.file.clone();
        push_chars(&mut r, &[':']);
        push_chars(&mut r, &fmt_dec(self.line as u64));
        push_chars(&mut r, &[':']);
        push_chars(&mut r, &fmt_dec(self.col as u64));
        assert(r@ =~= self.spec_text());
        r
    }
}

impl AsmError {
    /// An error with a message and nothing else.
    pub fn new(message: &str) -> (e: Self)
        ensures
            e.message@ == message@,
            e.location is None,
            e.source_line is None,
    {
        AsmError { location: None, message: String::from_str(message), source_line: None }
    }

    /// The same error at `loc`.
    pub fn with_location(self, loc: SourceLocation) -> (e: Self)
        ensures
            e.location == Some(loc),
            e.message == self.message,
            e.source_line == self.source_line,
    {
        AsmError { location: Some(loc), ..self }
    }

    /// The same error quoting the source line `line`.
    pub fn with_source_line(self, line: &str) -> (e: Self)
        ensures
            e.source_line matches Some(l) && l@ == line@,
            e.location == self.location,
            e.message == self.message,
    {
        AsmError { source_line: Some(String::from_str(line)), ..self }
    }

    /// Attach location only if one isn't already set.
    pub fn ensure_location(self, file: &str, line: usize) -> (e: Self)
        ensures
            self.location is Some ==> e.location == self.location,
            self.location is None ==> (e.location matches Some(l) && l.file@ == file@ && l.line == line
                && l.col == 0),
            e.message == self.message,
            e.source_line == self.source_line,
    {
        if self.location.is_none() {
            AsmError {
                location: Some(SourceLocation { file: String::from_str(file), line, col: 0 }),
                ..self
            }
        } else {
            self
        }
    }

    /// The text that the error displays:
    /// `error: <message>`, then `   -->   <file>:<line>` when located, then a
    /// new line and the quoted source line when there is one.
    pub open spec fn spec_display(&self) -> Seq<char> {
        let head = seq!['e', 'r', 'r', 'o', 'r', ':', ' '] + self.message@;
        let loc = match self.location {
            Some(l) => seq![' ', ' ', ' ', '-', '-', '>', ' ', ' ', ' '] + l.file@ + seq![':']
                + dec_digits(l.line as nat),
            None => Seq::empty(),
        };
        let src = match self.source_line {
            Some(s) => seq!['\n', ' ', ' '] + s@,
            None => Seq::empty(),
        };
        head + loc + src
    }

    pub fn display_text(&self) -> (r: String)
        ensures
            r@ == self.spec_display(),
    {
        let mut r = String::from_str("error: ");
        proof { reveal_strlit("error: "); }
        push_chars(&mut r, &chars_of(self.message.as_str()));
        match &self.location {
            Some(l) => {
                push_chars(&mut r, &[' ', ' ', ' ', '-', '-', '>', ' ', ' ', ' ']);
                push_chars(&mut r, &chars_of(l.file.as_str()));
                push_chars(&mut r, &[':']);
                push_chars(&mut r, &fmt_dec(l.line as u64));
            },
            None => {},
        }
        match &self.source_line {
            Some(s) => {
                push_chars(&mut r, &['\n', ' ', ' ']);
                push_chars(&mut r, &chars_of(s.as_str()));
            },
            None => {},
        }
        assert(r@ =~= self.spec_display());
        r
    }
}

} // verus!
