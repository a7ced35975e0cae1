//! Source locations and the diagnostics of each compiler stage.

use vstd::prelude::*;
use crate::text::{decimal, push_decimal, push_str, chars_to_string};

verus! {

/// Source location in characters (as the lexer counts them). Line and column are 1-based.
#[derive(Debug, Clone, Copy, PartialEq, Eq)]
pub struct Span {
    pub line: usize,
    pub column: usize,
    pub len: usize,
    /// Originating source file path, when known.
    pub file: Option<&'static str>,
}

impl Span {
    pub fn new(line: usize, column: usize, len: usize) -> (s: Self)
        ensures
            s.line == line,
            s.column == column,
            s.len == len,
            s.file is None,
    {
        Span { line, column, len, file: None }
    }

    pub fn with_file(self, file: &'static str) -> (s: Self)
        ensures
            s.line == self.line,
            s.column == self.column,
            s.len == self.len,
            s.file == Some(file),
    {
        Span { line: self.line, column: self.column, len: self.len, file: Some(file) }
    }
}

/// `<line>:<column>` of a span.
pub open spec fn line_col_text(s: Span) -> Seq<char> {
    decimal(s.line as nat) + seq![':'] + decimal(s.column as nat)
}

/// Appends `<line>:<column>` of `s`.
fn push_line_col(out: &mut Vec<char>, s: Span)
    ensures
        final(out)@ == old(out)@ + line_col_text(s),
{
    push_decimal(out, s.line);
    out.push(':');
    push_decimal(out, s.column);
    proof {
        assert(final(out)@ =~= old(out)@ + line_col_text(s));
    }
}

/// The text `<path>:<line>:<column>: <stage> <message>`.
pub open spec fn located(path: Seq<char>, s: Span, stage: Seq<char>, message: Seq<char>) -> Seq<char> {
    path + seq![':'] + line_col_text(s) + stage + message
}

pub(crate) fn render_located(path: &str, s: Span, stage: &str, message: &String) -> (r: String)
    ensures
        r@ == located(path@, s, stage@, message@),
{
    let mut out: Vec<char> = Vec::new();
    push_str(&mut out, path);
    out.push(':');
    push_line_col(&mut out, s);
    push_str(&mut out, stage);
    push_str(&mut out, message.as_str());
    assert(out@ =~= located(path@, s, stage@, message@));
    chars_to_string(out.as_slice())
}

/// `<line>:<column><stage><message>`, the display form without a path.
fn render_unlocated(s: Span, stage: &str, message: &String) -> (r: String)
    ensures
        r@ == line_col_text(s) + stage@ + message@,
{
    let mut out: Vec<char> = Vec::new();
    push_line_col(&mut out, s);
    push_str(&mut out, stage);
    push_str(&mut out, message.as_str());
    assert(out@ =~= line_col_text(s) + stage@ + message@);
    chars_to_string(out.as_slice())
}

#[derive(Debug, Clone, PartialEq, Eq)]
pub struct LexError {
    pub message: String,
    pub span: Span,
}

impl LexError {
    pub fn new(message: String, span: Span) -> (e: Self)
        ensures
            e.message == message,
            e.span == span,
    {
        LexError { message, span }
    }

    /// `<path>:<line>:<column>: lexer error: <message>`.
    pub fn format_with_file(&self, path: &str) -> (r: String)
        ensures
            r@ == located(path@, self.span, ": lexer error: "@, self.message@),
    {
        render_located(path, self.span, ": lexer error: ", &self.message)
    }

    /// `<line>:<column>: lexer error: <message>` (the display form).
    pub fn display(&self) -> (r: String)
        ensures
            r@ == line_col_text(self.span) + ": lexer error: "@ + self.message@,
    {
        render_unlocated(self.span, ": lexer error: ", &self.message)
    }
}

/// Parse failures.
#[derive(Debug, Clone, PartialEq, Eq)]
pub enum ParseError {
    UnexpectedToken { message: String, span: Option<Span> },
    UnexpectedEof { expected: &'static str },
    Message(String),
}

/// The text of a parse error, with `path: ` (or nothing) in front.
pub open spec fn parse_error_text(e: ParseError, prefix: Seq<char>, with_path: bool) -> Seq<char> {
    match e {
        ParseError::UnexpectedToken { message, span: Some(s) } =>
            if with_path {
                prefix + seq![':'] + line_col_text(s) + ": parse error: "@ + message@
            } else {
                line_col_text(s) + ": parse error: "@ + message@
            },
        ParseError::UnexpectedToken { message, span: None } =>
            prefix + "parse error: "@ + message@,
        ParseError::UnexpectedEof { expected } =>
            prefix + "parse error: unexpected end of file, expected "@ + expected@,
        ParseError::Message(msg) => prefix + "parse error: "@ + msg@,
    }
}

impl ParseError {
    /// The error prefixed with `path:` and, where known, the line and column.
    pub fn format_with_file(&self, path: &str) -> (r: String)
        ensures
            self matches ParseError::UnexpectedToken { span: Some(_), .. }
                ==> r@ == parse_error_text(*self, path@, true),
            !(self matches ParseError::UnexpectedToken { span: Some(_), .. })
                ==> r@ == parse_error_text(*self, path@ + ": "@, false),
    {
        let mut out: Vec<char> = Vec::new();
        match self {
            ParseError::UnexpectedToken { message, span: Some(s) } => {
                push_str(&mut out, path);
                out.push(':');
                push_line_col(&mut out, *s);
                push_str(&mut out, ": parse error: ");
                push_str(&mut out, message.as_str());
            },
            ParseError::UnexpectedToken { message, span: None } => {
                push_str(&mut out, path);
                push_str(&mut out, ": ");
                push_str(&mut out, "parse error: ");
                push_str(&mut out, message.as_str());
            },
            ParseError::UnexpectedEof { expected } => {
                push_str(&mut out, path);
                push_str(&mut out, ": ");
                push_str(&mut out, "parse error: unexpected end of file, expected ");
                push_str(&mut out, expected);
            },
            ParseError::Message(msg) => {
                push_str(&mut out, path);
                push_str(&mut out, ": ");
                push_str(&mut out, "parse error: ");
                push_str(&mut out, msg.as_str());
            },
        }
        proof {
            match self {
                ParseError::UnexpectedToken { span: Some(_), .. } => {
                    assert(out@ =~= parse_error_text(*self, path@, true));
                },
                _ => {
                    assert(out@ =~= parse_error_text(*self, path@ + ": "@, false));
                },
            }
        }
        chars_to_string(out.as_slice())
    }

    /// The display form: the same text without a path.
    pub fn display(&self) -> (r: String)
        ensures
            r@ == parse_error_text(*self, Seq::empty(), false),
    {
        let mut out: Vec<char> = Vec::new();
        match self {
            ParseError::UnexpectedToken { message, span: Some(s) } => {
                push_line_col(&mut out, *s);
                push_str(&mut out, ": parse error: ");
                push_str(&mut out, message.as_str());
            },
            ParseError::UnexpectedToken { message, span: None } => {
                push_str(&mut out, "parse error: ");
                push_str(&mut out, message.as_str());
            },
            ParseError::UnexpectedEof { expected } => {
                push_str(&mut out, "parse error: unexpected end of file, expected ");
                push_str(&mut out, expected);
            },
            ParseError::Message(msg) => {
                push_str(&mut out, "parse error: ");
                push_str(&mut out, msg.as_str());
            },
        }
        assert(out@ =~= parse_error_text(*self, Seq::empty(), false));
        chars_to_string(out.as_slice())
    }
}

/// Semantic / type-check diagnostic (always has a source span).
#[derive(Debug, Clone, PartialEq, Eq)]
pub struct SemanticError {
    pub message: String,
    pub span: Span,
}

impl SemanticError {
    pub fn new(message: String, span: Span) -> (e: Self)
        ensures
            e.message == message,
            e.span == span,
    {
        SemanticError { message, span }
    }

    /// `<path>:<line>:<column>: semantic error: <message>`.
    pub fn format_with_file(&self, path: &str) -> (r: String)
        ensures
            r@ == located(path@, self.span, ": semantic error: "@, self.message@),
    {
        render_located(path, self.span, ": semantic error: ", &self.message)
    }

    /// `<line>:<column>: semantic error: <message>` (the display form).
    pub fn display(&self) -> (r: String)
        ensures
            r@ == line_col_text(self.span) + ": semantic error: "@ + self.message@,
    {
        render_unlocated(self.span, ": semantic error: ", &self.message)
    }
}

/// Semantic warning diagnostic (non-fatal, with a source span).
#[derive(Debug, Clone, PartialEq, Eq)]
pub struct SemanticWarning {
    pub message: String,
    pub span: Span,
}

impl SemanticWarning {
    pub fn new(message: String, span: Span) -> (e: Self)
        ensures
            e.message == message,
            e.span == span,
    {
        SemanticWarning { message, span }
    }

    /// `<path>:<line>:<column>: semantic warning: <message>`.
    pub fn format_with_file(&self, path: &str) -> (r: String)
        ensures
            r@ == located(path@, self.span, ": semantic warning: "@, self.message@),
    {
        render_located(path, self.span, ": semantic warning: ", &self.message)
    }

    /// `<line>:<column>: semantic warning: <message>` (the display form).
    pub fn display(&self) -> (r: String)
        ensures
            r@ == line_col_text(self.span) + ": semantic warning: "@ + self.message@,
    {
        render_unlocated(self.span, ": semantic warning: ", &self.message)
    }
}

} // verus!
