//! The lexer: turns source text into tokens with character-based spans.

use vstd::prelude::*;
use crate::error::{LexError, Span};
use crate::text::{chars_to_string, str_chars, chars_eq, lit, push_str, push_hex4, hex_upper, zero_pad};

verus! {

#[derive(Debug, Clone, PartialEq)]
pub enum TokenKind {
    SingleLineComment(String),
    MultiLineComment(String),
    IntegerLiteral { value: u64, original: String, radix: u32 },
    /// `original` keeps the underscores; `cleaned` has them removed.
    FloatLiteral { original: String, cleaned: String },
    /// Decoded string value and the source lexeme (including the surrounding quotes).
    StringLiteral { value: String, original: String },
    Identifier(String),
    Let,
    Const,
    True,
    False,
    If,
    Else,
    While,
    Break,
    Continue,
    Match,
    Import,
    Export,
    As,
    From,
    Params,
    Type,
    Struct,
    Async,
    Await,
    Enum,
    /// Standalone `_`.
    Underscore,
    LParen,
    RParen,
    LBrace,
    RBrace,
    LBracket,
    RBracket,
    Colon,
    Semicolon,
    Comma,
    Plus,
    Minus,
    Star,
    Slash,
    Percent,
    Tilde,
    Eq,
    EqEq,
    FatArrow,
    Ne,
    Lt,
    Gt,
    Le,
    Ge,
    ShiftLeft,
    ShiftRight,
    ShiftLeftEq,
    ShiftRightEq,
    AndAnd,
    AndEq,
    Amp,
    OrOr,
    OrEq,
    Pipe,
    Caret,
    CaretEq,
    PlusEq,
    MinusEq,
    StarEq,
    SlashEq,
    PercentEq,
    Bang,
    Dot,
    DotDot,
    ColonColon,
    Eof,
}

/// A lexeme with its source span (1-based line/column, length in characters).
#[derive(Debug, Clone, PartialEq)]
pub struct Token {
    pub kind: TokenKind,
    pub span: Span,
}

// ---------------------------------------------------------------------------
// Character classes

pub open spec fn is_digit_spec(c: char) -> bool {
    '0' <= c && c <= '9'
}

pub open spec fn is_alpha_spec(c: char) -> bool {
    ('a' <= c && c <= 'z') || ('A' <= c && c <= 'Z')
}

pub open spec fn is_ident_start_spec(c: char) -> bool {
    is_alpha_spec(c) || c == '_'
}

pub open spec fn is_ident_continue_spec(c: char) -> bool {
    is_ident_start_spec(c) || is_digit_spec(c)
}

pub open spec fn is_hex_digit_spec(c: char) -> bool {
    is_digit_spec(c) || ('a' <= c && c <= 'f') || ('A' <= c && c <= 'F')
}

/// The Unicode `White_Space` property, which `char::is_whitespace` tests.
pub open spec fn is_whitespace_spec(c: char) -> bool {
    ('\u{9}' <= c && c <= '\u{d}') || c == ' ' || c == '\u{85}' || c == '\u{a0}'
        || c == '\u{1680}' || ('\u{2000}' <= c && c <= '\u{200a}') || c == '\u{2028}'
        || c == '\u{2029}' || c == '\u{202f}' || c == '\u{205f}' || c == '\u{3000}'
}

/// The Unicode general category `Cc`, which `char::is_control` tests.
pub open spec fn is_control_spec(c: char) -> bool {
    c <= '\u{1f}' || ('\u{7f}' <= c && c <= '\u{9f}')
}

fn is_digit(c: char) -> (r: bool)
    ensures
        r == is_digit_spec(c),
{
    '0' <= c && c <= '9'
}

fn is_hex_digit(c: char) -> (r: bool)
    ensures
        r == is_hex_digit_spec(c),
{
    ('0' <= c && c <= '9') || ('a' <= c && c <= 'f') || ('A' <= c && c <= 'F')
}

fn is_ident_start(c: char) -> (r: bool)
    ensures
        r == is_ident_start_spec(c),
{
    ('a' <= c && c <= 'z') || ('A' <= c && c <= 'Z') || c == '_'
}

fn is_ident_continue(c: char) -> (r: bool)
    ensures
        r == is_ident_continue_spec(c),
{
    is_ident_start(c) || is_digit(c)
}

fn is_whitespace(c: char) -> (r: bool)
    ensures
        r == is_whitespace_spec(c),
{
    ('\u{9}' <= c && c <= '\u{d}') || c == ' ' || c == '\u{85}' || c == '\u{a0}'
        || c == '\u{1680}' || ('\u{2000}' <= c && c <= '\u{200a}') || c == '\u{2028}'
        || c == '\u{2029}' || c == '\u{202f}' || c == '\u{205f}' || c == '\u{3000}'
}

fn is_control(c: char) -> (r: bool)
    ensures
        r == is_control_spec(c),
{
    c <= '\u{1f}' || ('\u{7f}' <= c && c <= '\u{9f}')
}

// ---------------------------------------------------------------------------
// Numeric values of digit strings

/// The value of a digit character in base 36 (`0`-`9`, `a`-`z`, `A`-`Z`).
pub open spec fn digit_value_spec(c: char) -> int {
    if is_digit_spec(c) {
        c as int - '0' as int
    } else if 'a' <= c && c <= 'z' {
        c as int - 'a' as int + 10
    } else if 'A' <= c && c <= 'Z' {
        c as int - 'A' as int + 10
    } else {
        36
    }
}

/// The number written by the digits `s` in base `radix`, most significant first.
pub open spec fn digits_value(s: Seq<char>, radix: nat) -> nat
    decreases s.len(),
{
    if s.len() == 0 {
        0
    } else {
        (digits_value(s.drop_last(), radix) * radix + digit_value_spec(s.last())) as nat
    }
}

/// Every character of `s` is a digit of base `radix`.
pub open spec fn all_digits(s: Seq<char>, radix: nat) -> bool {
    forall|i: int| 0 <= i < s.len() ==> #[trigger] digit_value_spec(s[i]) < radix
}

/// What `u64::from_str_radix(s, radix).unwrap_or(0)` gives for a digit string:
/// its value when `s` is a nonempty run of digits that fits in 64 bits, else 0.
pub open spec fn u64_of_digits(s: Seq<char>, radix: nat) -> u64 {
    if s.len() > 0 && all_digits(s, radix) && digits_value(s, radix) <= u64::MAX {
        digits_value(s, radix) as u64
    } else {
        0
    }
}

fn digit_value(c: char) -> (d: u32)
    ensures
        d == digit_value_spec(c),
{
    if '0' <= c && c <= '9' {
        (c as u32) - ('0' as u32)
    } else if 'a' <= c && c <= 'z' {
        (c as u32) - ('a' as u32) + 10
    } else if 'A' <= c && c <= 'Z' {
        (c as u32) - ('A' as u32) + 10
    } else {
        36
    }
}

proof fn lemma_digits_value_prefix_le(s: Seq<char>, radix: nat, i: int)
    requires
        0 <= i <= s.len(),
        radix >= 1,
        all_digits(s, radix),
    ensures
        digits_value(s.take(i), radix) <= digits_value(s, radix),
    decreases s.len() - i,
{
    if i < s.len() {
        lemma_digits_value_prefix_le(s, radix, i + 1);
        let t = s.take(i + 1);
        assert(t.drop_last() =~= s.take(i));
        let v = digits_value(s.take(i), radix);
        assert(digit_value_spec(s[i]) >= 0);
        assert(v * radix >= v) by (nonlinear_arith) requires radix >= 1, v >= 0;
    } else {
        assert(s.take(i) =~= s);
    }
}

/// The value of the digits `s` in base `radix` (2 to 36), or `None` when `s` is empty,
/// holds a character that is not such a digit, or does not fit in 64 bits.
pub fn parse_digits(s: &[char], radix: u32) -> (r: Option<u64>)
    requires
        2 <= radix <= 36,
    ensures
        r matches Some(v) ==> s@.len() > 0 && all_digits(s@, radix as nat)
            && v == digits_value(s@, radix as nat),
        r is None ==> !(s@.len() > 0 && all_digits(s@, radix as nat)
            && digits_value(s@, radix as nat) <= u64::MAX),
{
    if s.len() == 0 {
        return None;
    }
    let mut i: usize = 0;
    let mut value: u64 = 0;
    while i < s.len()
        invariant
            2 <= radix <= 36,
            i <= s.len(),
            all_digits(s@.take(i as int), radix as nat),
            value == digits_value(s@.take(i as int), radix as nat),
        decreases s.len() - i,
    {
        let d = digit_value(s[i]);
        proof {
            assert(s@.take(i + 1).drop_last() =~= s@.take(i as int));
        }
        if d >= radix {
            return None;
        }
        let m = value.checked_mul(radix as u64);
        match m {
            None => {
                proof {
                    assert(s@.take(i as int + 1).last() == s@[i as int]);
                    assert forall|j: int| 0 <= j < i + 1 implies #[trigger] digit_value_spec(s@.take(i as int + 1)[j]) < radix as nat by {
                        if j < i {
                            assert(s@.take(i as int + 1)[j] == s@.take(i as int)[j]);
                        }
                    }
                    if all_digits(s@, radix as nat) {
                        lemma_digits_value_prefix_le(s@, radix as nat, i + 1);
                    }
                }
                return None;
            },
            Some(m) => {
                let a = m.checked_add(d as u64);
                match a {
                    None => {
                        proof {
                            assert forall|j: int| 0 <= j < i + 1 implies #[trigger] digit_value_spec(s@.take(i as int + 1)[j]) < radix as nat by {
                                if j < i {
                                    assert(s@.take(i as int + 1)[j] == s@.take(i as int)[j]);
                                }
                            }
                            if all_digits(s@, radix as nat) {
                                lemma_digits_value_prefix_le(s@, radix as nat, i + 1);
                            }
                        }
                        return None;
                    },
                    Some(a) => {
                        proof {
                            assert forall|j: int| 0 <= j < i + 1 implies #[trigger] digit_value_spec(s@.take(i as int + 1)[j]) < radix as nat by {
                                if j < i {
                                    assert(s@.take(i as int + 1)[j] == s@.take(i as int)[j]);
                                }
                            }
                        }
                        value = a;
                        i += 1;
                    },
                }
            },
        }
    }
    assert(s@.take(s@.len() as int) =~= s@);
    Some(value)
}


// ---------------------------------------------------------------------------
// Positions

/// 1-based line and column of character index `i` in `s`.
pub open spec fn line_col(s: Seq<char>, i: int) -> (int, int)
    decreases i,
{
    if i <= 0 {
        (1, 1)
    } else {
        let (l, c) = line_col(s, i - 1);
        if s[i - 1] == '\n' {
            (l + 1, 1)
        } else {
            (l, c + 1)
        }
    }
}

proof fn lemma_line_col_bounds(s: Seq<char>, i: int)
    requires
        0 <= i,
    ensures
        1 <= line_col(s, i).0 <= i + 1,
        1 <= line_col(s, i).1 <= i + 1,
    decreases i,
{
    if i > 0 {
        lemma_line_col_bounds(s, i - 1);
    }
}

/// The span of `len` characters starting at character index `index` of `s`.
pub open spec fn span_for(s: Seq<char>, file: Option<&'static str>, index: int, len: int) -> Span {
    Span {
        line: line_col(s, index).0 as usize,
        column: line_col(s, index).1 as usize,
        len: len as usize,
        file,
    }
}

pub struct Lexer {
    input: Vec<char>,
    position: usize,
    file: Option<&'static str>,
}

impl Lexer {
    /// The source text being lexed.
    pub closed spec fn source(&self) -> Seq<char> {
        self.input@
    }

    /// The index of the next character to read.
    pub closed spec fn pos(&self) -> int {
        self.position as int
    }

    /// The file the source came from, if known.
    pub closed spec fn file_name(&self) -> Option<&'static str> {
        self.file
    }

    /// The cursor lies within the source, whose length fits in `isize`.
    pub closed spec fn wf(&self) -> bool {
        &&& self.position <= self.input@.len()
        &&& self.input@.len() <= isize::MAX
    }

    pub open spec fn span_at_spec(&self, index: int, len: int) -> Span {
        span_for(self.source(), self.file_name(), index, len)
    }

    pub fn new(input: &str) -> (l: Self)
        ensures
            l.wf(),
            l.source() == input@,
            l.pos() == 0,
            l.file_name() is None,
    {
        Lexer { input: str_chars(input), position: 0, file: None }
    }

    pub fn new_with_file(input: &str, file: &'static str) -> (l: Self)
        ensures
            l.wf(),
            l.source() == input@,
            l.pos() == 0,
            l.file_name() == Some(file),
    {
        Lexer { input: str_chars(input), position: 0, file: Some(file) }
    }

    /// 1-based line and column for character index `index` (clamped to the end).
    fn char_index_to_line_col(&self, index: usize) -> (r: (usize, usize))
        requires
            self.wf(),
            index <= self.input@.len(),
        ensures
            r.0 as int == line_col(self.input@, index as int).0,
            r.1 as int == line_col(self.input@, index as int).1,
    {
        let mut line: usize = 1;
        let mut col: usize = 1;
        let mut i: usize = 0;
        while i < index
            invariant
                self.wf(),
                index <= self.input@.len(),
                i <= index,
                line as int == line_col(self.input@, i as int).0,
                col as int == line_col(self.input@, i as int).1,
            decreases index - i,
        {
            proof {
                lemma_line_col_bounds(self.input@, i as int);
            }
            if self.input[i] == '\n' {
                line += 1;
                col = 1;
            } else {
                col += 1;
            }
            i += 1;
        }
        (line, col)
    }

    fn span_at(&self, index: usize, len: usize) -> (s: Span)
        requires
            self.wf(),
            index <= self.input@.len(),
        ensures
            s == self.span_at_spec(index as int, len as int),
    {
        let (line, col) = self.char_index_to_line_col(index);
        let span = Span::new(line, col, len);
        match self.file {
            Some(file) => span.with_file(file),
            None => span,
        }
    }

    /// The character under the cursor, or `'\0'` past the end.
    fn peek(&self) -> (c: char)
        ensures
            c == self.char_at(self.position as int),
    {
        if self.position < self.input.len() {
            self.input[self.position]
        } else {
            '\0'
        }
    }

    pub closed spec fn char_at(&self, i: int) -> char {
        if 0 <= i < self.input@.len() {
            self.input@[i]
        } else {
            '\0'
        }
    }

    /// The character after the cursor, if any.
    fn peek_next(&self) -> (c: Option<char>)
        requires
            self.wf(),
        ensures
            self.position + 1 < self.input@.len() ==> c == Some(self.input@[self.position + 1]),
            self.position + 1 >= self.input@.len() ==> c is None,
    {
        if self.position + 1 < self.input.len() {
            Some(self.input[self.position + 1])
        } else {
            None
        }
    }

    fn skip_whitespace(&mut self)
        requires
            old(self).wf(),
        ensures
            final(self).wf(),
            final(self).input == old(self).input,
            final(self).file == old(self).file,
            old(self).position <= final(self).position,
            forall|k: int| old(self).position <= k < final(self).position
                ==> is_whitespace_spec(#[trigger] final(self).input@[k]),
            final(self).position == final(self).input@.len()
                || !is_whitespace_spec(final(self).input@[final(self).position as int]),
    {
        while self.position < self.input.len() && is_whitespace(self.input[self.position])
            invariant
                self.wf(),
                self.input == old(self).input,
                self.file == old(self).file,
                old(self).position <= self.position,
                forall|k: int| old(self).position <= k < self.position
                    ==> is_whitespace_spec(#[trigger] self.input@[k]),
            decreases self.input@.len() - self.position,
        {
            self.position += 1;
        }
    }

    /// The characters of `input[a..b]` as a string.
    fn text(&self, a: usize, b: usize) -> (s: String)
        requires
            a <= b <= self.input@.len(),
        ensures
            s@ == self.input@.subrange(a as int, b as int),
    {
        let mut out: Vec<char> = Vec::new();
        let mut i = a;
        while i < b
            invariant
                a <= i <= b <= self.input@.len(),
                out@ == self.input@.subrange(a as int, i as int),
            decreases b - i,
        {
            out.push(self.input[i]);
            i += 1;
            assert(out@ =~= self.input@.subrange(a as int, i as int));
        }
        chars_to_string(out.as_slice())
    }
}


// ---------------------------------------------------------------------------
// Lexeme classification

/// The operators and punctuation of the language, by their exact text.
pub open spec fn operator_kind(t: Seq<char>) -> Option<TokenKind> {
    if t.len() == 1 { operator_kind1(t[0]) }
    else if t.len() == 2 { operator_kind2(t[0], t[1]) }
    else if t.len() == 3 { operator_kind3(t[0], t[1], t[2]) }
    else { None }
}

/// One-character operators.
pub open spec fn operator_kind1(c0: char) -> Option<TokenKind> {
    if c0 == '=' { Some(TokenKind::Eq) }
    else if c0 == '!' { Some(TokenKind::Bang) }
    else if c0 == '<' { Some(TokenKind::Lt) }
    else if c0 == '>' { Some(TokenKind::Gt) }
    else if c0 == '&' { Some(TokenKind::Amp) }
    else if c0 == '|' { Some(TokenKind::Pipe) }
    else if c0 == '^' { Some(TokenKind::Caret) }
    else if c0 == '+' { Some(TokenKind::Plus) }
    else if c0 == '-' { Some(TokenKind::Minus) }
    else if c0 == '*' { Some(TokenKind::Star) }
    else if c0 == '/' { Some(TokenKind::Slash) }
    else if c0 == '%' { Some(TokenKind::Percent) }
    else if c0 == '.' { Some(TokenKind::Dot) }
    else if c0 == '(' { Some(TokenKind::LParen) }
    else if c0 == ')' { Some(TokenKind::RParen) }
    else if c0 == '{' { Some(TokenKind::LBrace) }
    else if c0 == '}' { Some(TokenKind::RBrace) }
    else if c0 == '[' { Some(TokenKind::LBracket) }
    else if c0 == ']' { Some(TokenKind::RBracket) }
    else if c0 == ':' { Some(TokenKind::Colon) }
    else if c0 == ';' { Some(TokenKind::Semicolon) }
    else if c0 == ',' { Some(TokenKind::Comma) }
    else if c0 == '~' { Some(TokenKind::Tilde) }
    else { None }
}

/// Two-character operators.
pub open spec fn operator_kind2(c0: char, c1: char) -> Option<TokenKind> {
    if c0 == '=' && c1 == '=' { Some(TokenKind::EqEq) }
    else if c0 == '=' && c1 == '>' { Some(TokenKind::FatArrow) }
    else if c0 == '!' && c1 == '=' { Some(TokenKind::Ne) }
    else if c0 == '<' && c1 == '=' { Some(TokenKind::Le) }
    else if c0 == '<' && c1 == '<' { Some(TokenKind::ShiftLeft) }
    else if c0 == '>' && c1 == '=' { Some(TokenKind::Ge) }
    else if c0 == '>' && c1 == '>' { Some(TokenKind::ShiftRight) }
    else if c0 == '&' && c1 == '&' { Some(TokenKind::AndAnd) }
    else if c0 == '&' && c1 == '=' { Some(TokenKind::AndEq) }
    else if c0 == '|' && c1 == '|' { Some(TokenKind::OrOr) }
    else if c0 == '|' && c1 == '=' { Some(TokenKind::OrEq) }
    else if c0 == '^' && c1 == '=' { Some(TokenKind::CaretEq) }
    else if c0 == '+' && c1 == '=' { Some(TokenKind::PlusEq) }
    else if c0 == '-' && c1 == '=' { Some(TokenKind::MinusEq) }
    else if c0 == '*' && c1 == '=' { Some(TokenKind::StarEq) }
    else if c0 == '/' && c1 == '=' { Some(TokenKind::SlashEq) }
    else if c0 == '%' && c1 == '=' { Some(TokenKind::PercentEq) }
    else if c0 == '.' && c1 == '.' { Some(TokenKind::DotDot) }
    else if c0 == ':' && c1 == ':' { Some(TokenKind::ColonColon) }
    else { None }
}

/// Three-character operators.
pub open spec fn operator_kind3(c0: char, c1: char, c2: char) -> Option<TokenKind> {
    if c0 == '<' && c1 == '<' && c2 == '=' { Some(TokenKind::ShiftLeftEq) }
    else if c0 == '>' && c1 == '>' && c2 == '=' { Some(TokenKind::ShiftRightEq) }
    else { None }
}

/// The fixed source text of a keyword, operator or punctuation token; `None` for the
/// kinds that carry their text (names, literals, comments) and for the end of input.
pub open spec fn kind_spelling(k: TokenKind) -> Option<Seq<char>> {
    match k {
        TokenKind::Let => Some("let"@),
        TokenKind::Const => Some("const"@),
        TokenKind::True => Some("true"@),
        TokenKind::False => Some("false"@),
        TokenKind::If => Some("if"@),
        TokenKind::Else => Some("else"@),
        TokenKind::While => Some("while"@),
        TokenKind::Break => Some("break"@),
        TokenKind::Continue => Some("continue"@),
        TokenKind::Struct => Some("struct"@),
        TokenKind::Async => Some("async"@),
        TokenKind::Await => Some("await"@),
        TokenKind::Enum => Some("enum"@),
        TokenKind::Match => Some("match"@),
        TokenKind::Import => Some("import"@),
        TokenKind::Export => Some("export"@),
        TokenKind::From => Some("from"@),
        TokenKind::As => Some("as"@),
        TokenKind::Params => Some("params"@),
        TokenKind::Type => Some("type"@),
        TokenKind::Underscore => Some("_"@),
        TokenKind::LParen => Some("("@),
        TokenKind::RParen => Some(")"@),
        TokenKind::LBrace => Some("{"@),
        TokenKind::RBrace => Some("}"@),
        TokenKind::LBracket => Some("["@),
        TokenKind::RBracket => Some("]"@),
        TokenKind::Colon => Some(":"@),
        TokenKind::Semicolon => Some(";"@),
        TokenKind::Comma => Some(","@),
        TokenKind::Plus => Some("+"@),
        TokenKind::Minus => Some("-"@),
        TokenKind::Star => Some("*"@),
        TokenKind::Slash => Some("/"@),
        TokenKind::Percent => Some("%"@),
        TokenKind::Tilde => Some("~"@),
        TokenKind::Eq => Some("="@),
        TokenKind::EqEq => Some("=="@),
        TokenKind::FatArrow => Some("=>"@),
        TokenKind::Ne => Some("!="@),
        TokenKind::Lt => Some("<"@),
        TokenKind::Gt => Some(">"@),
        TokenKind::Le => Some("<="@),
        TokenKind::Ge => Some(">="@),
        TokenKind::ShiftLeft => Some("<<"@),
        TokenKind::ShiftRight => Some(">>"@),
        TokenKind::ShiftLeftEq => Some("<<="@),
        TokenKind::ShiftRightEq => Some(">>="@),
        TokenKind::AndAnd => Some("&&"@),
        TokenKind::AndEq => Some("&="@),
        TokenKind::Amp => Some("&"@),
        TokenKind::OrOr => Some("||"@),
        TokenKind::OrEq => Some("|="@),
        TokenKind::Pipe => Some("|"@),
        TokenKind::Caret => Some("^"@),
        TokenKind::CaretEq => Some("^="@),
        TokenKind::PlusEq => Some("+="@),
        TokenKind::MinusEq => Some("-="@),
        TokenKind::StarEq => Some("*="@),
        TokenKind::SlashEq => Some("/="@),
        TokenKind::PercentEq => Some("%="@),
        TokenKind::Bang => Some("!"@),
        TokenKind::Dot => Some("."@),
        TokenKind::DotDot => Some(".."@),
        TokenKind::ColonColon => Some("::"@),
        _ => None,
    }
}

/// Every operator text lexes to the token spelled by that very text: `<<` to `ShiftLeft`,
/// `>>` to `ShiftRight`, `!=` to `Ne`, and so on.
pub proof fn lemma_operator_kind_spelled(t: Seq<char>)
    ensures
        operator_kind(t) matches Some(k) ==> kind_spelling(k) == Some(t),
{
    reveal_strlit("(");
    reveal_strlit(")");
    reveal_strlit("{");
    reveal_strlit("}");
    reveal_strlit("[");
    reveal_strlit("]");
    reveal_strlit(":");
    reveal_strlit(";");
    reveal_strlit(",");
    reveal_strlit("+");
    reveal_strlit("-");
    reveal_strlit("*");
    reveal_strlit("/");
    reveal_strlit("%");
    reveal_strlit("~");
    reveal_strlit("=");
    reveal_strlit("==");
    reveal_strlit("=>");
    reveal_strlit("!=");
    reveal_strlit("<");
    reveal_strlit(">");
    reveal_strlit("<=");
    reveal_strlit(">=");
    reveal_strlit("<<");
    reveal_strlit(">>");
    reveal_strlit("<<=");
    reveal_strlit(">>=");
    reveal_strlit("&&");
    reveal_strlit("&=");
    reveal_strlit("&");
    reveal_strlit("||");
    reveal_strlit("|=");
    reveal_strlit("|");
    reveal_strlit("^");
    reveal_strlit("^=");
    reveal_strlit("+=");
    reveal_strlit("-=");
    reveal_strlit("*=");
    reveal_strlit("/=");
    reveal_strlit("%=");
    reveal_strlit("!");
    reveal_strlit(".");
    reveal_strlit("..");
    reveal_strlit("::");
    if t.len() == 1 {
        assert(t =~= seq![t[0]]);
    } else if t.len() == 2 {
        assert(t =~= seq![t[0], t[1]]);
    } else if t.len() == 3 {
        assert(t =~= seq![t[0], t[1], t[2]]);
    }
}

/// Every reserved word lexes to the token spelled by that very word: `while` to `While`,
/// `_` to `Underscore`, and so on.
pub proof fn lemma_keyword_kind_spelled(t: Seq<char>)
    ensures
        keyword_kind(t) matches Some(k) ==> kind_spelling(k) == Some(t),
{
    reveal_strlit("let");
    reveal_strlit("const");
    reveal_strlit("true");
    reveal_strlit("false");
    reveal_strlit("if");
    reveal_strlit("else");
    reveal_strlit("while");
    reveal_strlit("break");
    reveal_strlit("continue");
    reveal_strlit("struct");
    reveal_strlit("async");
    reveal_strlit("await");
    reveal_strlit("enum");
    reveal_strlit("match");
    reveal_strlit("import");
    reveal_strlit("export");
    reveal_strlit("from");
    reveal_strlit("as");
    reveal_strlit("params");
    reveal_strlit("type");
    reveal_strlit("_");
}

/// Two different reserved words never lex to the same token.
pub proof fn lemma_keywords_distinct(t1: Seq<char>, t2: Seq<char>)
    requires
        keyword_kind(t1) is Some,
        keyword_kind(t1) == keyword_kind(t2),
    ensures
        t1 == t2,
{
    lemma_keyword_kind_spelled(t1);
    lemma_keyword_kind_spelled(t2);
}

/// Two different operator texts never lex to the same token.
pub proof fn lemma_operator_texts_distinct(t1: Seq<char>, t2: Seq<char>)
    requires
        operator_kind(t1) is Some,
        operator_kind(t1) == operator_kind(t2),
    ensures
        t1 == t2,
{
    lemma_operator_kind_spelled(t1);
    lemma_operator_kind_spelled(t2);
}

/// `//` or `/*` stands at `a`: a comment starts there.
pub open spec fn comment_starts(src: Seq<char>, a: int) -> bool {
    0 <= a && a + 1 < src.len() && src[a] == '/' && (src[a + 1] == '/' || src[a + 1] == '*')
}

/// `src[a..b]` is an operator, and the longest one that starts at `a`, where no
/// comment starts.
pub open spec fn operator_lexeme(src: Seq<char>, a: int, b: int, kind: TokenKind) -> bool {
    &&& 0 <= a < b <= src.len()
    &&& !comment_starts(src, a)
    &&& operator_kind(src.subrange(a, b)) == Some(kind)
    &&& b < src.len() ==> operator_kind(src.subrange(a, b + 1)) is None
}

/// The reserved words, by their exact text.
pub open spec fn keyword_kind(t: Seq<char>) -> Option<TokenKind> {
    if t == "let"@ { Some(TokenKind::Let) }
    else if t == "const"@ { Some(TokenKind::Const) }
    else if t == "true"@ { Some(TokenKind::True) }
    else if t == "false"@ { Some(TokenKind::False) }
    else if t == "if"@ { Some(TokenKind::If) }
    else if t == "else"@ { Some(TokenKind::Else) }
    else if t == "while"@ { Some(TokenKind::While) }
    else if t == "break"@ { Some(TokenKind::Break) }
    else if t == "continue"@ { Some(TokenKind::Continue) }
    else if t == "struct"@ { Some(TokenKind::Struct) }
    else if t == "async"@ { Some(TokenKind::Async) }
    else if t == "await"@ { Some(TokenKind::Await) }
    else if t == "enum"@ { Some(TokenKind::Enum) }
    else if t == "match"@ { Some(TokenKind::Match) }
    else if t == "import"@ { Some(TokenKind::Import) }
    else if t == "export"@ { Some(TokenKind::Export) }
    else if t == "from"@ { Some(TokenKind::From) }
    else if t == "as"@ { Some(TokenKind::As) }
    else if t == "params"@ { Some(TokenKind::Params) }
    else if t == "type"@ { Some(TokenKind::Type) }
    else if t == "_"@ { Some(TokenKind::Underscore) }
    else { None }
}

/// `src[a..b]` is a maximal identifier-shaped word and `kind` is its keyword or identifier.
pub open spec fn word_lexeme(src: Seq<char>, a: int, b: int, kind: TokenKind) -> bool {
    &&& 0 <= a < b <= src.len()
    &&& is_ident_start_spec(src[a])
    &&& forall|k: int| a < k < b ==> is_ident_continue_spec(#[trigger] src[k])
    &&& (b == src.len() || !is_ident_continue_spec(src[b]))
    &&& match keyword_kind(src.subrange(a, b)) {
        Some(kw) => kind == kw,
        None => kind matches TokenKind::Identifier(n) && n@ == src.subrange(a, b),
    }
}

/// `src[a..b]` is `//` and the rest of its line, and `kind` holds that rest.
pub open spec fn line_comment_lexeme(src: Seq<char>, a: int, b: int, kind: TokenKind) -> bool {
    &&& 0 <= a && a + 2 <= b <= src.len()
    &&& src[a] == '/' && src[a + 1] == '/'
    &&& forall|k: int| a + 2 <= k < b ==> #[trigger] src[k] != '\n'
    &&& (b == src.len() || src[b] == '\n')
    &&& kind matches TokenKind::SingleLineComment(t) && t@ == src.subrange(a + 2, b)
}

/// `*/` starts at index `k` of `src`.
pub open spec fn closes_at(src: Seq<char>, k: int) -> bool {
    0 <= k && k + 1 < src.len() && src[k] == '*' && src[k + 1] == '/'
}

/// `src[a..b]` is `/*`, a body with no `*/`, and `*/`; `kind` holds the body.
pub open spec fn block_comment_lexeme(src: Seq<char>, a: int, b: int, kind: TokenKind) -> bool {
    &&& 0 <= a && a + 4 <= b <= src.len()
    &&& src[a] == '/' && src[a + 1] == '*'
    &&& closes_at(src, b - 2)
    &&& forall|k: int| a + 2 <= k < b - 2 ==> !#[trigger] closes_at(src, k)
    &&& kind matches TokenKind::MultiLineComment(t) && t@ == src.subrange(a + 2, b - 2)
}

/// Scans a string body from index `i`, `acc` holding what was decoded so far:
/// `Ok((end, value))` when a closing quote ends at `end`, `Err(None)` when the input
/// ends first, `Err(Some(k))` when the escape at `k` is not one of `\n \r \" \\`.
pub open spec fn scan_string(src: Seq<char>, i: int, acc: Seq<char>) -> Result<(int, Seq<char>), Option<int>>
    decreases src.len() - i,
{
    if i < 0 || i >= src.len() {
        Err(None)
    } else if src[i] == '"' {
        Ok((i + 1, acc))
    } else if src[i] == '\\' {
        if i + 1 >= src.len() {
            Err(None)
        } else {
            let e = src[i + 1];
            if e == 'n' {
                scan_string(src, i + 2, acc.push('\n'))
            } else if e == 'r' {
                scan_string(src, i + 2, acc.push('\r'))
            } else if e == '"' {
                scan_string(src, i + 2, acc.push('"'))
            } else if e == '\\' {
                scan_string(src, i + 2, acc.push('\\'))
            } else {
                Err(Some(i))
            }
        }
    } else {
        scan_string(src, i + 1, acc.push(src[i]))
    }
}

/// `src[a..b]` is a string literal and `kind` holds its decoded value and its text.
pub open spec fn string_lexeme(src: Seq<char>, a: int, b: int, kind: TokenKind) -> bool {
    &&& 0 <= a < b <= src.len()
    &&& src[a] == '"'
    &&& kind matches TokenKind::StringLiteral { value, original }
    &&& scan_string(src, a + 1, Seq::empty()) == Ok::<(int, Seq<char>), Option<int>>((b, value@))
    &&& original@ == src.subrange(a, b)
}

/// `s` without its underscores.
pub open spec fn strip_underscores(s: Seq<char>) -> Seq<char>
    decreases s.len(),
{
    if s.len() == 0 {
        s
    } else if s.last() == '_' {
        strip_underscores(s.drop_last())
    } else {
        strip_underscores(s.drop_last()).push(s.last())
    }
}

/// `src[a..b]` is a `0b`/`0o`/`0x` literal: the prefix, then a run of underscores and
/// digits (hexadecimal digits for `0x`) holding at least one digit, read up to the
/// first other character. Its value is that of the digits, or 0 when they do not
/// form a 64-bit number of that radix.
pub open spec fn prefixed_int_lexeme(src: Seq<char>, a: int, b: int, kind: TokenKind) -> bool {
    &&& 0 <= a && a + 3 <= b <= src.len()
    &&& src[a] == '0'
    &&& kind matches TokenKind::IntegerLiteral { value, original, radix }
    &&& radix == prefix_radix(src[a + 1])
    &&& radix != 0
    &&& forall|k: int| a + 2 <= k < b ==> #[trigger] prefixed_body_char(src[k], radix)
    &&& (b == src.len() || !prefixed_body_char(src[b], radix))
    &&& exists|k: int| a + 2 <= k < b && #[trigger] src[k] != '_'
    &&& original@ == src.subrange(a, b)
    &&& value == u64_of_digits(strip_underscores(src.subrange(a + 2, b)), radix as nat)
}

/// The radix a literal prefix letter selects, or 0.
pub open spec fn prefix_radix(c: char) -> u32 {
    if c == 'b' || c == 'B' { 2 }
    else if c == 'o' || c == 'O' { 8 }
    else if c == 'x' || c == 'X' { 16 }
    else { 0 }
}

/// Characters a prefixed literal reads.
pub open spec fn prefixed_body_char(c: char, radix: u32) -> bool {
    c == '_' || (if radix == 16 { is_hex_digit_spec(c) } else { is_digit_spec(c) })
}

/// A `0b`, `0o` or `0x` prefix stands at `a`.
pub open spec fn radix_prefix_at(src: Seq<char>, a: int) -> bool {
    0 <= a && a + 1 < src.len() && src[a] == '0' && prefix_radix(src[a + 1]) != 0
}

/// Where the run of digits and underscores that starts at `i` ends.
pub open spec fn digit_run_end(src: Seq<char>, i: int) -> int
    decreases src.len() - i,
{
    if 0 <= i < src.len() && (is_digit_spec(src[i]) || src[i] == '_') {
        digit_run_end(src, i + 1)
    } else {
        i
    }
}

/// Where the run of underscores that starts at `i` ends.
pub open spec fn underscore_run_end(src: Seq<char>, i: int) -> int
    decreases src.len() - i,
{
    if 0 <= i < src.len() && src[i] == '_' {
        underscore_run_end(src, i + 1)
    } else {
        i
    }
}

/// Where the run of characters a literal of `radix` reads, starting at `i`, ends.
pub open spec fn prefixed_run_end(src: Seq<char>, i: int, radix: u32) -> int
    decreases src.len() - i,
{
    if 0 <= i < src.len() && prefixed_body_char(src[i], radix) {
        prefixed_run_end(src, i + 1, radix)
    } else {
        i
    }
}

/// Some character of `src[i..j]` is a digit.
pub open spec fn has_digit_between(src: Seq<char>, i: int, j: int) -> bool {
    exists|k: int| i <= k < j && is_digit_spec(#[trigger] src[k])
}

/// Where the fraction of a number whose mantissa ends at `m` ends: after a `.` (not
/// the start of `..`) and a run of digits and underscores that holds a digit; at `m`
/// when there is no such fraction.
pub open spec fn fraction_end(src: Seq<char>, m: int) -> int {
    if 0 <= m && m + 1 < src.len() && src[m] == '.' && src[m + 1] != '.'
        && has_digit_between(src, m + 1, digit_run_end(src, m + 1)) {
        digit_run_end(src, m + 1)
    } else {
        m
    }
}

/// Where the exponent that may start at `f` ends: after `e` or `E`, underscores, an
/// optional sign, and a run of digits and underscores (read even when it holds no
/// digit); at `f` when no exponent letter stands there.
pub open spec fn exponent_end(src: Seq<char>, f: int) -> int {
    if 0 <= f < src.len() && (src[f] == 'e' || src[f] == 'E') {
        let u = underscore_run_end(src, f + 1);
        let s = if u < src.len() && (src[u] == '+' || src[u] == '-') { u + 1 } else { u };
        digit_run_end(src, s)
    } else {
        f
    }
}

/// Where a decimal number that starts at `a` ends: mantissa, fraction, exponent.
pub open spec fn decimal_end(src: Seq<char>, a: int) -> int {
    exponent_end(src, fraction_end(src, digit_run_end(src, a)))
}

/// `src[a..b]` is a decimal number starting with a digit (and no radix prefix), read
/// as far as `decimal_end`: an integer with its value (or 0 past 64 bits), or a float
/// when it has a fraction or exponent digits.
pub open spec fn decimal_lexeme(src: Seq<char>, a: int, b: int, kind: TokenKind) -> bool {
    &&& 0 <= a < b <= src.len()
    &&& is_digit_spec(src[a])
    &&& !radix_prefix_at(src, a)
    &&& b == decimal_end(src, a)
    &&& match kind {
        TokenKind::IntegerLiteral { value, original, radix } => {
            &&& radix == 10
            &&& !is_float_text(src.subrange(a, b))
            &&& original@ == src.subrange(a, b)
            &&& value == u64_of_digits(strip_underscores(src.subrange(a, b)), 10)
        },
        TokenKind::FloatLiteral { original, cleaned } => {
            &&& is_float_text(src.subrange(a, b))
            &&& original@ == src.subrange(a, b)
            &&& cleaned@ == strip_underscores(src.subrange(a, b))
        },
        _ => false,
    }
}

/// A number's text is a float when it has a `.` or an exponent letter followed by a digit.
pub open spec fn is_float_text(t: Seq<char>) -> bool {
    ||| exists|k: int| 0 <= k < t.len() && #[trigger] t[k] == '.'
    ||| exists|k: int, j: int| 0 <= k < j < t.len() && (#[trigger] t[k] == 'e' || t[k] == 'E')
            && is_digit_spec(#[trigger] t[j])
}

/// A run of digits and underscores from `i` that stops at `j` ends at `digit_run_end`.
proof fn lemma_digit_run_end(src: Seq<char>, i: int, j: int)
    requires
        0 <= i <= j <= src.len(),
        forall|k: int| i <= k < j ==> is_digit_spec(#[trigger] src[k]) || src[k] == '_',
        j == src.len() || !(is_digit_spec(src[j]) || src[j] == '_'),
    ensures
        digit_run_end(src, i) == j,
    decreases j - i,
{
    if i < j {
        lemma_digit_run_end(src, i + 1, j);
    }
}

/// A run of underscores from `i` that stops at `j` ends at `underscore_run_end`.
proof fn lemma_underscore_run_end(src: Seq<char>, i: int, j: int)
    requires
        0 <= i <= j <= src.len(),
        forall|k: int| i <= k < j ==> #[trigger] src[k] == '_',
        j == src.len() || src[j] != '_',
    ensures
        underscore_run_end(src, i) == j,
    decreases j - i,
{
    if i < j {
        lemma_underscore_run_end(src, i + 1, j);
    }
}

/// A run of characters a literal of `radix` reads, from `i` up to `j`, ends at
/// `prefixed_run_end`.
proof fn lemma_prefixed_run_end(src: Seq<char>, i: int, j: int, radix: u32)
    requires
        0 <= i <= j <= src.len(),
        forall|k: int| i <= k < j ==> #[trigger] prefixed_body_char(src[k], radix),
        j == src.len() || !prefixed_body_char(src[j], radix),
    ensures
        prefixed_run_end(src, i, radix) == j,
    decreases j - i,
{
    if i < j {
        lemma_prefixed_run_end(src, i + 1, j, radix);
    }
}

/// What a token read from `src[a..b]` may be.
#[verifier::opaque]
pub open spec fn lexeme(src: Seq<char>, a: int, b: int, kind: TokenKind) -> bool {
    ||| operator_lexeme(src, a, b, kind)
    ||| word_lexeme(src, a, b, kind)
    ||| line_comment_lexeme(src, a, b, kind)
    ||| block_comment_lexeme(src, a, b, kind)
    ||| string_lexeme(src, a, b, kind)
    ||| prefixed_int_lexeme(src, a, b, kind)
    ||| decimal_lexeme(src, a, b, kind)
}

/// `new` read one token from where `old` stood, without changing the source.
pub open spec fn read_one(old: Lexer, new: Lexer) -> bool {
    &&& new.wf()
    &&& new.source() == old.source()
    &&& new.file_name() == old.file_name()
    &&& old.pos() < new.pos()
}

/// `tok` is the token of `src[a..b]` with the span of those characters.
pub open spec fn token_at(l: Lexer, a: int, b: int, tok: Token) -> bool {
    &&& tok.span == l.span_at_spec(a, b - a)
}


impl Lexer {
    fn read_single_line_comment(&mut self) -> (r: Result<Token, LexError>)
        requires
            old(self).wf(),
            old(self).position + 1 < old(self).input@.len(),
            old(self).input@[old(self).position as int] == '/',
            old(self).input@[old(self).position + 1] == '/',
        ensures
            read_one(*old(self), *final(self)),
            r matches Ok(tok) && token_at(*old(self), old(self).pos(), final(self).pos(), tok)
                && line_comment_lexeme(old(self).source(), old(self).pos(), final(self).pos(), tok.kind),
    {
        let start = self.position;
        self.position += 2;
        let body_start = self.position;
        while self.position < self.input.len() && self.input[self.position] != '\n'
            invariant
                self.wf(),
                self.input == old(self).input,
                self.file == old(self).file,
                body_start == start + 2,
                body_start <= self.position,
                forall|k: int| body_start <= k < self.position ==> #[trigger] self.input@[k] != '\n',
            decreases self.input@.len() - self.position,
        {
            self.position += 1;
        }
        let comment_text = self.text(body_start, self.position);
        let span = self.span_at(start, self.position - start);
        Ok(Token { kind: TokenKind::SingleLineComment(comment_text), span })
    }

    fn read_multi_line_comment(&mut self) -> (r: Result<Token, LexError>)
        requires
            old(self).wf(),
            old(self).position + 1 < old(self).input@.len(),
            old(self).input@[old(self).position as int] == '/',
            old(self).input@[old(self).position + 1] == '*',
        ensures
            final(self).wf(),
            final(self).input == old(self).input,
            final(self).file == old(self).file,
            r is Ok ==> read_one(*old(self), *final(self)),
            r matches Ok(tok) ==> token_at(*old(self), old(self).pos(), final(self).pos(), tok),
            r matches Ok(tok) ==> block_comment_lexeme(old(self).source(), old(self).pos(), final(self).pos(), tok.kind),
            r matches Err(e) ==> e.message@ == "unterminated multi-line comment"@
                && e.span == old(self).span_at_spec(old(self).pos(), 2)
                && forall|k: int| old(self).pos() + 2 <= k ==> !#[trigger] closes_at(old(self).source(), k),
    {
        let open_pos = self.position;
        self.position += 2;
        let body_start = self.position;
        while self.position < self.input.len()
            invariant
                self.wf(),
                self.input == old(self).input,
                self.file == old(self).file,
                open_pos == old(self).position,
                body_start == open_pos + 2,
                body_start <= self.position,
                self.input@[open_pos as int] == '/',
                self.input@[open_pos + 1] == '*',
                forall|k: int| body_start <= k < self.position ==> !#[trigger] closes_at(self.input@, k),
            decreases self.input@.len() - self.position,
        {
            if self.peek() == '*' && self.position + 1 < self.input.len() && self.input[self.position + 1] == '/' {
                let comment_text = self.text(body_start, self.position);
                self.position += 2;
                let span = self.span_at(open_pos, self.position - open_pos);
                return Ok(Token { kind: TokenKind::MultiLineComment(comment_text), span });
            }
            self.position += 1;
        }
        proof {
            assert forall|k: int| old(self).pos() + 2 <= k implies !#[trigger] closes_at(old(self).source(), k) by {
                if k < self.position {
                } else {
                }
            }
        }
        Err(LexError::new(lit("unterminated multi-line comment"), self.span_at(open_pos, 2)))
    }

    fn read_string_literal(&mut self) -> (r: Result<Token, LexError>)
        requires
            old(self).wf(),
            old(self).position < old(self).input@.len(),
            old(self).input@[old(self).position as int] == '"',
        ensures
            final(self).wf(),
            final(self).input == old(self).input,
            final(self).file == old(self).file,
            r is Ok ==> read_one(*old(self), *final(self)),
            r matches Ok(tok) ==> token_at(*old(self), old(self).pos(), final(self).pos(), tok),
            r matches Ok(tok) ==> string_lexeme(old(self).source(), old(self).pos(), final(self).pos(), tok.kind),
            r matches Err(e) ==> match scan_string(old(self).source(), old(self).pos() + 1, Seq::empty()) {
                Ok(_) => false,
                Err(None) => e.message@ == "unterminated string literal"@
                    && e.span == old(self).span_at_spec(old(self).pos(), old(self).source().len() - old(self).pos()),
                Err(Some(k)) => e.message@ == "invalid escape sequence \\"@.push(old(self).source()[k + 1])
                    && e.span == old(self).span_at_spec(k, 2),
            },
    {
        let start = self.position;
        self.position += 1;
        let mut value: Vec<char> = Vec::new();
        while self.position < self.input.len()
            invariant
                self.wf(),
                self.input == old(self).input,
                self.file == old(self).file,
                start == old(self).position,
                start < self.position,
                self.input@[start as int] == '"',
                scan_string(self.input@, start + 1, Seq::empty())
                    == scan_string(self.input@, self.position as int, value@),
            decreases self.input@.len() - self.position,
        {
            let ch = self.peek();
            if ch == '"' {
                proof {
                    assert(scan_string(self.input@, self.position as int, value@)
                        == Ok::<(int, Seq<char>), Option<int>>((self.position + 1, value@)));
                }
                self.position += 1;
                let original = self.text(start, self.position);
                let span = self.span_at(start, self.position - start);
                let v = chars_to_string(value.as_slice());
                let tok = Token { kind: TokenKind::StringLiteral { value: v, original }, span };
                return Ok(tok);
            }
            if ch == '\\' {
                self.position += 1;
                if self.position >= self.input.len() {
                    return Err(LexError::new(lit("unterminated string literal"), self.span_at(start, self.position - start)));
                }
                let esc = self.peek();
                self.position += 1;
                if esc == 'n' {
                    value.push('\n');
                } else if esc == 'r' {
                    value.push('\r');
                } else if esc == '"' {
                    value.push('"');
                } else if esc == '\\' {
                    value.push('\\');
                } else {
                    let mut msg: Vec<char> = Vec::new();
                    push_str(&mut msg, "invalid escape sequence \\");
                    msg.push(esc);
                    return Err(LexError::new(chars_to_string(msg.as_slice()), self.span_at(self.position - 2, 2)));
                }
            } else {
                value.push(ch);
                self.position += 1;
            }
        }
        Err(LexError::new(lit("unterminated string literal"), self.span_at(start, self.input.len() - start)))
    }

    /// `kind` is the keyword spelled by `name`, or an identifier holding it.
    fn word_kind(name: &Vec<char>) -> (k: TokenKind)
        ensures
            match keyword_kind(name@) {
                Some(kw) => k == kw,
                None => k matches TokenKind::Identifier(n) && n@ == name@,
            },
    {
        let n = name.as_slice();
        if chars_eq(n, str_chars("let").as_slice()) { return TokenKind::Let; }
        if chars_eq(n, str_chars("const").as_slice()) { return TokenKind::Const; }
        if chars_eq(n, str_chars("true").as_slice()) { return TokenKind::True; }
        if chars_eq(n, str_chars("false").as_slice()) { return TokenKind::False; }
        if chars_eq(n, str_chars("if").as_slice()) { return TokenKind::If; }
        if chars_eq(n, str_chars("else").as_slice()) { return TokenKind::Else; }
        if chars_eq(n, str_chars("while").as_slice()) { return TokenKind::While; }
        if chars_eq(n, str_chars("break").as_slice()) { return TokenKind::Break; }
        if chars_eq(n, str_chars("continue").as_slice()) { return TokenKind::Continue; }
        if chars_eq(n, str_chars("struct").as_slice()) { return TokenKind::Struct; }
        if chars_eq(n, str_chars("async").as_slice()) { return TokenKind::Async; }
        if chars_eq(n, str_chars("await").as_slice()) { return TokenKind::Await; }
        if chars_eq(n, str_chars("enum").as_slice()) { return TokenKind::Enum; }
        if chars_eq(n, str_chars("match").as_slice()) { return TokenKind::Match; }
        if chars_eq(n, str_chars("import").as_slice()) { return TokenKind::Import; }
        if chars_eq(n, str_chars("export").as_slice()) { return TokenKind::Export; }
        if chars_eq(n, str_chars("from").as_slice()) { return TokenKind::From; }
        if chars_eq(n, str_chars("as").as_slice()) { return TokenKind::As; }
        if chars_eq(n, str_chars("params").as_slice()) { return TokenKind::Params; }
        if chars_eq(n, str_chars("type").as_slice()) { return TokenKind::Type; }
        if chars_eq(n, str_chars("_").as_slice()) { return TokenKind::Underscore; }
        TokenKind::Identifier(chars_to_string(n))
    }
}

impl Lexer {

    /// The one-character text at `a` and, when there is one, the two-character text.
    proof fn lemma_op1(&self, a: int, c: char)
        requires
            self.wf(),
            0 <= a < self.input@.len(),
            self.input@[a] == c,
        ensures
            self.input@.subrange(a, a + 1) == seq![c],
            a + 1 < self.input@.len() ==> self.input@.subrange(a, a + 2)
                == seq![c, self.input@[a + 1]],
    {
        assert(self.input@.subrange(a, a + 1) =~= seq![c]);
        if a + 1 < self.input@.len() {
            assert(self.input@.subrange(a, a + 2) =~= seq![c, self.input@[a + 1]]);
        }
    }

    proof fn lemma_op2(&self, a: int, c: char, d: char)
        requires
            self.wf(),
            0 <= a && a + 1 < self.input@.len(),
            self.input@[a] == c,
            self.input@[a + 1] == d,
        ensures
            self.input@.subrange(a, a + 2) == seq![c, d],
            a + 2 < self.input@.len() ==> self.input@.subrange(a, a + 3)
                == seq![c, d, self.input@[a + 2]],
    {
        assert(self.input@.subrange(a, a + 2) =~= seq![c, d]);
        if a + 2 < self.input@.len() {
            assert(self.input@.subrange(a, a + 3) =~= seq![c, d, self.input@[a + 2]]);
        }
    }

    proof fn lemma_op3(&self, a: int, c: char, d: char, e: char)
        requires
            self.wf(),
            0 <= a && a + 2 < self.input@.len(),
            self.input@[a] == c,
            self.input@[a + 1] == d,
            self.input@[a + 2] == e,
        ensures
            self.input@.subrange(a, a + 3) == seq![c, d, e],
            a + 3 < self.input@.len() ==> self.input@.subrange(a, a + 4)
                == seq![c, d, e, self.input@[a + 3]],
    {
        assert(self.input@.subrange(a, a + 3) =~= seq![c, d, e]);
        if a + 3 < self.input@.len() {
            assert(self.input@.subrange(a, a + 4) =~= seq![c, d, e, self.input@[a + 3]]);
        }
    }

    fn read_bang_or_ne(&mut self) -> (r: Result<Token, LexError>)
        requires
            old(self).wf(),
            old(self).position < old(self).input@.len(),
            old(self).input@[old(self).position as int] == '!',
        ensures
            read_one(*old(self), *final(self)),
            r matches Ok(tok) && token_at(*old(self), old(self).pos(), final(self).pos(), tok)
                && operator_lexeme(old(self).source(), old(self).pos(), final(self).pos(), tok.kind),
    {
        let start = self.position;
        self.position += 1;
        if self.peek() == '=' {
            self.position += 1;
            proof { self.lemma_op2(start as int, '!', '='); }
            Ok(Token { kind: TokenKind::Ne, span: self.span_at(start, 2) })
        } else {
            proof { self.lemma_op1(start as int, '!'); }
            Ok(Token { kind: TokenKind::Bang, span: self.span_at(start, 1) })
        }
    }

    fn read_caret(&mut self) -> (r: Result<Token, LexError>)
        requires
            old(self).wf(),
            old(self).position < old(self).input@.len(),
            old(self).input@[old(self).position as int] == '^',
        ensures
            read_one(*old(self), *final(self)),
            r matches Ok(tok) && token_at(*old(self), old(self).pos(), final(self).pos(), tok)
                && operator_lexeme(old(self).source(), old(self).pos(), final(self).pos(), tok.kind),
    {
        let start = self.position;
        self.position += 1;
        if self.peek() == '=' {
            self.position += 1;
            proof { self.lemma_op2(start as int, '^', '='); }
            Ok(Token { kind: TokenKind::CaretEq, span: self.span_at(start, 2) })
        } else {
            proof { self.lemma_op1(start as int, '^'); }
            Ok(Token { kind: TokenKind::Caret, span: self.span_at(start, 1) })
        }
    }

    fn read_plus(&mut self) -> (r: Result<Token, LexError>)
        requires
            old(self).wf(),
            old(self).position < old(self).input@.len(),
            old(self).input@[old(self).position as int] == '+',
        ensures
            read_one(*old(self), *final(self)),
            r matches Ok(tok) && token_at(*old(self), old(self).pos(), final(self).pos(), tok)
                && operator_lexeme(old(self).source(), old(self).pos(), final(self).pos(), tok.kind),
    {
        let start = self.position;
        self.position += 1;
        if self.peek() == '=' {
            self.position += 1;
            proof { self.lemma_op2(start as int, '+', '='); }
            Ok(Token { kind: TokenKind::PlusEq, span: self.span_at(start, 2) })
        } else {
            proof { self.lemma_op1(start as int, '+'); }
            Ok(Token { kind: TokenKind::Plus, span: self.span_at(start, 1) })
        }
    }

    fn read_minus(&mut self) -> (r: Result<Token, LexError>)
        requires
            old(self).wf(),
            old(self).position < old(self).input@.len(),
            old(self).input@[old(self).position as int] == '-',
        ensures
            read_one(*old(self), *final(self)),
            r matches Ok(tok) && token_at(*old(self), old(self).pos(), final(self).pos(), tok)
                && operator_lexeme(old(self).source(), old(self).pos(), final(self).pos(), tok.kind),
    {
        let start = self.position;
        self.position += 1;
        if self.peek() == '=' {
            self.position += 1;
            proof { self.lemma_op2(start as int, '-', '='); }
            Ok(Token { kind: TokenKind::MinusEq, span: self.span_at(start, 2) })
        } else {
            proof { self.lemma_op1(start as int, '-'); }
            Ok(Token { kind: TokenKind::Minus, span: self.span_at(start, 1) })
        }
    }

    fn read_star(&mut self) -> (r: Result<Token, LexError>)
        requires
            old(self).wf(),
            old(self).position < old(self).input@.len(),
            old(self).input@[old(self).position as int] == '*',
        ensures
            read_one(*old(self), *final(self)),
            r matches Ok(tok) && token_at(*old(self), old(self).pos(), final(self).pos(), tok)
                && operator_lexeme(old(self).source(), old(self).pos(), final(self).pos(), tok.kind),
    {
        let start = self.position;
        self.position += 1;
        if self.peek() == '=' {
            self.position += 1;
            proof { self.lemma_op2(start as int, '*', '='); }
            Ok(Token { kind: TokenKind::StarEq, span: self.span_at(start, 2) })
        } else {
            proof { self.lemma_op1(start as int, '*'); }
            Ok(Token { kind: TokenKind::Star, span: self.span_at(start, 1) })
        }
    }

    fn read_slash(&mut self) -> (r: Result<Token, LexError>)
        requires
            old(self).wf(),
            old(self).position < old(self).input@.len(),
            old(self).input@[old(self).position as int] == '/',
            !comment_starts(old(self).source(), old(self).pos()),
        ensures
            read_one(*old(self), *final(self)),
            r matches Ok(tok) && token_at(*old(self), old(self).pos(), final(self).pos(), tok)
                && operator_lexeme(old(self).source(), old(self).pos(), final(self).pos(), tok.kind),
    {
        let start = self.position;
        self.position += 1;
        if self.peek() == '=' {
            self.position += 1;
            proof { self.lemma_op2(start as int, '/', '='); }
            Ok(Token { kind: TokenKind::SlashEq, span: self.span_at(start, 2) })
        } else {
            proof { self.lemma_op1(start as int, '/'); }
            Ok(Token { kind: TokenKind::Slash, span: self.span_at(start, 1) })
        }
    }

    fn read_percent(&mut self) -> (r: Result<Token, LexError>)
        requires
            old(self).wf(),
            old(self).position < old(self).input@.len(),
            old(self).input@[old(self).position as int] == '%',
        ensures
            read_one(*old(self), *final(self)),
            r matches Ok(tok) && token_at(*old(self), old(self).pos(), final(self).pos(), tok)
                && operator_lexeme(old(self).source(), old(self).pos(), final(self).pos(), tok.kind),
    {
        let start = self.position;
        self.position += 1;
        if self.peek() == '=' {
            self.position += 1;
            proof { self.lemma_op2(start as int, '%', '='); }
            Ok(Token { kind: TokenKind::PercentEq, span: self.span_at(start, 2) })
        } else {
            proof { self.lemma_op1(start as int, '%'); }
            Ok(Token { kind: TokenKind::Percent, span: self.span_at(start, 1) })
        }
    }

    fn read_eq_or_eqeq(&mut self) -> (r: Result<Token, LexError>)
        requires
            old(self).wf(),
            old(self).position < old(self).input@.len(),
            old(self).input@[old(self).position as int] == '=',
        ensures
            read_one(*old(self), *final(self)),
            r matches Ok(tok) && token_at(*old(self), old(self).pos(), final(self).pos(), tok)
                && operator_lexeme(old(self).source(), old(self).pos(), final(self).pos(), tok.kind),
    {
        let start = self.position;
        self.position += 1;
        if self.peek() == '=' {
            self.position += 1;
            proof { self.lemma_op2(start as int, '=', '='); }
            Ok(Token { kind: TokenKind::EqEq, span: self.span_at(start, 2) })
        } else if self.peek() == '>' {
            self.position += 1;
            proof { self.lemma_op2(start as int, '=', '>'); }
            Ok(Token { kind: TokenKind::FatArrow, span: self.span_at(start, 2) })
        } else {
            proof { self.lemma_op1(start as int, '='); }
            Ok(Token { kind: TokenKind::Eq, span: self.span_at(start, 1) })
        }
    }

    fn read_ampersand(&mut self) -> (r: Result<Token, LexError>)
        requires
            old(self).wf(),
            old(self).position < old(self).input@.len(),
            old(self).input@[old(self).position as int] == '&',
        ensures
            read_one(*old(self), *final(self)),
            r matches Ok(tok) && token_at(*old(self), old(self).pos(), final(self).pos(), tok)
                && operator_lexeme(old(self).source(), old(self).pos(), final(self).pos(), tok.kind),
    {
        let start = self.position;
        self.position += 1;
        if self.peek() == '&' {
            self.position += 1;
            proof { self.lemma_op2(start as int, '&', '&'); }
            Ok(Token { kind: TokenKind::AndAnd, span: self.span_at(start, 2) })
        } else if self.peek() == '=' {
            self.position += 1;
            proof { self.lemma_op2(start as int, '&', '='); }
            Ok(Token { kind: TokenKind::AndEq, span: self.span_at(start, 2) })
        } else {
            proof { self.lemma_op1(start as int, '&'); }
            Ok(Token { kind: TokenKind::Amp, span: self.span_at(start, 1) })
        }
    }

    fn read_pipe(&mut self) -> (r: Result<Token, LexError>)
        requires
            old(self).wf(),
            old(self).position < old(self).input@.len(),
            old(self).input@[old(self).position as int] == '|',
        ensures
            read_one(*old(self), *final(self)),
            r matches Ok(tok) && token_at(*old(self), old(self).pos(), final(self).pos(), tok)
                && operator_lexeme(old(self).source(), old(self).pos(), final(self).pos(), tok.kind),
    {
        let start = self.position;
        self.position += 1;
        if self.peek() == '|' {
            self.position += 1;
            proof { self.lemma_op2(start as int, '|', '|'); }
            Ok(Token { kind: TokenKind::OrOr, span: self.span_at(start, 2) })
        } else if self.peek() == '=' {
            self.position += 1;
            proof { self.lemma_op2(start as int, '|', '='); }
            Ok(Token { kind: TokenKind::OrEq, span: self.span_at(start, 2) })
        } else {
            proof { self.lemma_op1(start as int, '|'); }
            Ok(Token { kind: TokenKind::Pipe, span: self.span_at(start, 1) })
        }
    }

    fn read_lt_or_le(&mut self) -> (r: Result<Token, LexError>)
        requires
            old(self).wf(),
            old(self).position < old(self).input@.len(),
            old(self).input@[old(self).position as int] == '<',
        ensures
            read_one(*old(self), *final(self)),
            r matches Ok(tok) && token_at(*old(self), old(self).pos(), final(self).pos(), tok)
                && operator_lexeme(old(self).source(), old(self).pos(), final(self).pos(), tok.kind),
    {
        let start = self.position;
        self.position += 1;
        if self.peek() == '<' {
            self.position += 1;
            if self.peek() == '=' {
                self.position += 1;
                proof { self.lemma_op3(start as int, '<', '<', '='); }
                Ok(Token { kind: TokenKind::ShiftLeftEq, span: self.span_at(start, 3) })
            } else {
                proof { self.lemma_op2(start as int, '<', '<'); }
                Ok(Token { kind: TokenKind::ShiftLeft, span: self.span_at(start, 2) })
            }
        } else if self.peek() == '=' {
            self.position += 1;
            proof { self.lemma_op2(start as int, '<', '='); }
            Ok(Token { kind: TokenKind::Le, span: self.span_at(start, 2) })
        } else {
            proof { self.lemma_op1(start as int, '<'); }
            Ok(Token { kind: TokenKind::Lt, span: self.span_at(start, 1) })
        }
    }

    fn read_gt_or_ge(&mut self) -> (r: Result<Token, LexError>)
        requires
            old(self).wf(),
            old(self).position < old(self).input@.len(),
            old(self).input@[old(self).position as int] == '>',
        ensures
            read_one(*old(self), *final(self)),
            r matches Ok(tok) && token_at(*old(self), old(self).pos(), final(self).pos(), tok)
                && operator_lexeme(old(self).source(), old(self).pos(), final(self).pos(), tok.kind),
    {
        let start = self.position;
        self.position += 1;
        if self.peek() == '>' {
            self.position += 1;
            if self.peek() == '=' {
                self.position += 1;
                proof { self.lemma_op3(start as int, '>', '>', '='); }
                Ok(Token { kind: TokenKind::ShiftRightEq, span: self.span_at(start, 3) })
            } else {
                proof { self.lemma_op2(start as int, '>', '>'); }
                Ok(Token { kind: TokenKind::ShiftRight, span: self.span_at(start, 2) })
            }
        } else if self.peek() == '=' {
            self.position += 1;
            proof { self.lemma_op2(start as int, '>', '='); }
            Ok(Token { kind: TokenKind::Ge, span: self.span_at(start, 2) })
        } else {
            proof { self.lemma_op1(start as int, '>'); }
            Ok(Token { kind: TokenKind::Gt, span: self.span_at(start, 1) })
        }
    }

    fn read_dot(&mut self) -> (r: Result<Token, LexError>)
        requires
            old(self).wf(),
            old(self).position < old(self).input@.len(),
            old(self).input@[old(self).position as int] == '.',
        ensures
            read_one(*old(self), *final(self)),
            r matches Ok(tok) && token_at(*old(self), old(self).pos(), final(self).pos(), tok)
                && operator_lexeme(old(self).source(), old(self).pos(), final(self).pos(), tok.kind),
    {
        let start = self.position;
        self.position += 1;
        if self.position < self.input.len() && self.peek() == '.' {
            self.position += 1;
            proof { self.lemma_op2(start as int, '.', '.'); }
            Ok(Token { kind: TokenKind::DotDot, span: self.span_at(start, 2) })
        } else {
            proof { self.lemma_op1(start as int, '.'); }
            Ok(Token { kind: TokenKind::Dot, span: self.span_at(start, 1) })
        }
    }

    fn read_punct(&mut self) -> (r: Result<Token, LexError>)
        requires
            old(self).wf(),
            old(self).position < old(self).input@.len(),
        ensures
            final(self).wf(),
            final(self).input == old(self).input,
            final(self).file == old(self).file,
            r is Ok ==> read_one(*old(self), *final(self)),
            r matches Ok(tok) ==> token_at(*old(self), old(self).pos(), final(self).pos(), tok)
                && final(self).pos() == old(self).pos() + 1
                && operator_kind(old(self).source().subrange(old(self).pos(), old(self).pos() + 1)) == Some(tok.kind),
            r is Err <==> !is_punct_spec(old(self).input@[old(self).position as int]),
            r matches Err(e) ==> e.message@ == "internal lexer error: read_punct"@
                && e.span == old(self).span_at_spec(old(self).pos(), 1),
    {
        let start = self.position;
        let ch = self.peek();
        let kind = if ch == '(' { TokenKind::LParen }
            else if ch == ')' { TokenKind::RParen }
            else if ch == '{' { TokenKind::LBrace }
            else if ch == '}' { TokenKind::RBrace }
            else if ch == '[' { TokenKind::LBracket }
            else if ch == ']' { TokenKind::RBracket }
            else if ch == ':' { TokenKind::Colon }
            else if ch == ';' { TokenKind::Semicolon }
            else if ch == ',' { TokenKind::Comma }
            else if ch == '~' { TokenKind::Tilde }
            else {
                return Err(LexError::new(lit("internal lexer error: read_punct"), self.span_at(start, 1)));
            };
        self.position += 1;
        proof {
            self.lemma_op1(start as int, ch);
        }
        Ok(Token { kind, span: self.span_at(start, 1) })
    }
}

/// The single-character punctuation `( ) { } [ ] : ; , ~`.
pub open spec fn is_punct_spec(c: char) -> bool {
    c == '(' || c == ')' || c == '{' || c == '}' || c == '[' || c == ']' || c == ':' || c == ';' || c == ',' || c == '~'
}


/// How an unexpected character is described in the lexer's error message.
pub open spec fn describe_char_spec(c: char) -> Seq<char> {
    if c == '\n' {
        "'\\n' (U+000A)"@
    } else if c == '\r' {
        "'\\r' (U+000D)"@
    } else if c == '\t' {
        "'\\t' (U+0009)"@
    } else if is_control_spec(c) {
        "U+"@ + zero_pad(hex_upper(c as nat), 4)
    } else {
        seq!['\''] + seq![c] + "' (U+"@ + zero_pad(hex_upper(c as nat), 4) + seq![')']
    }
}

fn describe_char(ch: char) -> (r: Vec<char>)
    ensures
        r@ == describe_char_spec(ch),
{
    let mut out: Vec<char> = Vec::new();
    if ch == '\n' {
        push_str(&mut out, "'\\n' (U+000A)");
    } else if ch == '\r' {
        push_str(&mut out, "'\\r' (U+000D)");
    } else if ch == '\t' {
        push_str(&mut out, "'\\t' (U+0009)");
    } else if is_control(ch) {
        push_str(&mut out, "U+");
        push_hex4(&mut out, ch as u32);
    } else {
        out.push('\'');
        out.push(ch);
        push_str(&mut out, "' (U+");
        push_hex4(&mut out, ch as u32);
        out.push(')');
    }
    assert(out@ =~= describe_char_spec(ch));
    out
}

impl Lexer {
    /// The characters of `input[a..b]`.
    fn chars_range(&self, a: usize, b: usize) -> (v: Vec<char>)
        requires
            a <= b <= self.input@.len(),
        ensures
            v@ == self.input@.subrange(a as int, b as int),
    {
        let mut out: Vec<char> = Vec::new();
        let mut i = a;
        while i < b
            invariant
                a <= i <= b <= self.input@.len(),
                out@ == self.input@.subrange(a as int, i as int),
            decreases b - i,
        {
            out.push(self.input[i]);
            i += 1;
            assert(out@ =~= self.input@.subrange(a as int, i as int));
        }
        out
    }

    /// The characters of `input[a..b]` without underscores.
    fn chars_without_underscores(&self, a: usize, b: usize) -> (v: Vec<char>)
        requires
            a <= b <= self.input@.len(),
        ensures
            v@ == strip_underscores(self.input@.subrange(a as int, b as int)),
    {
        let mut out: Vec<char> = Vec::new();
        let mut i = a;
        assert(self.input@.subrange(a as int, a as int) =~= Seq::<char>::empty());
        while i < b
            invariant
                a <= i <= b <= self.input@.len(),
                out@ == strip_underscores(self.input@.subrange(a as int, i as int)),
            decreases b - i,
        {
            proof {
                let t = self.input@.subrange(a as int, i + 1);
                assert(t.drop_last() =~= self.input@.subrange(a as int, i as int));
                assert(t.last() == self.input@[i as int]);
            }
            if self.input[i] != '_' {
                out.push(self.input[i]);
            }
            i += 1;
        }
        out
    }

    fn read_identifier(&mut self) -> (r: Result<Token, LexError>)
        requires
            old(self).wf(),
            old(self).position < old(self).input@.len(),
            is_ident_start_spec(old(self).input@[old(self).position as int]),
        ensures
            read_one(*old(self), *final(self)),
            r matches Ok(tok) && token_at(*old(self), old(self).pos(), final(self).pos(), tok)
                && word_lexeme(old(self).source(), old(self).pos(), final(self).pos(), tok.kind),
    {
        let start = self.position;
        self.position += 1;
        while self.position < self.input.len() && is_ident_continue(self.peek())
            invariant
                self.wf(),
                self.input == old(self).input,
                self.file == old(self).file,
                start == old(self).position,
                start < self.position,
                forall|k: int| start < k < self.position ==> is_ident_continue_spec(#[trigger] self.input@[k]),
            decreases self.input@.len() - self.position,
        {
            self.position += 1;
        }
        let name = self.chars_range(start, self.position);
        let span = self.span_at(start, self.position - start);
        let kind = Self::word_kind(&name);
        Ok(Token { kind, span })
    }

    /// Reads the digits of a `0b`/`0o`/`0x` literal after its prefix.
    fn read_prefixed_integer(&mut self, literal_type: &str, radix: u32, token_start: usize) -> (r: Result<(), LexError>)
        requires
            old(self).wf(),
            token_start + 2 == old(self).position <= old(self).input@.len(),
            radix == 2 || radix == 8 || radix == 16,
        ensures
            final(self).wf(),
            final(self).input == old(self).input,
            final(self).file == old(self).file,
            old(self).position <= final(self).position,
            forall|k: int| old(self).position <= k < final(self).position
                ==> #[trigger] prefixed_body_char(final(self).input@[k], radix),
            final(self).position == final(self).input@.len()
                || !prefixed_body_char(final(self).input@[final(self).position as int], radix),
            r is Ok <==> exists|k: int| old(self).position <= k < final(self).position
                && #[trigger] final(self).input@[k] != '_',
            r matches Err(e) ==> e.message@ == "empty "@ + literal_type@ + " literal"@
                && e.span == old(self).span_at_spec(token_start as int, final(self).pos() - token_start),
    {
        let mut has_digit = false;
        while self.position < self.input.len() && prefixed_char(self.peek(), radix)
            invariant
                self.wf(),
                self.input == old(self).input,
                self.file == old(self).file,
                radix == 2 || radix == 8 || radix == 16,
                old(self).position <= self.position,
                forall|k: int| old(self).position <= k < self.position
                    ==> #[trigger] prefixed_body_char(self.input@[k], radix),
                has_digit <==> exists|k: int| old(self).position <= k < self.position
                    && #[trigger] self.input@[k] != '_',
            decreases self.input@.len() - self.position,
        {
            let ch = self.peek();
            if ch != '_' {
                has_digit = true;
            }
            self.position += 1;
        }
        if !has_digit {
            let len = if self.position - token_start > 1 { self.position - token_start } else { 1 };
            let mut msg: Vec<char> = Vec::new();
            push_str(&mut msg, "empty ");
            push_str(&mut msg, literal_type);
            push_str(&mut msg, " literal");
            return Err(LexError::new(chars_to_string(msg.as_slice()), self.span_at(token_start, len)));
        }
        Ok(())
    }
}


/// The value `u64::from_str_radix(..).unwrap_or(0)` gives for a digit string.
fn value_of_digits(digits: &Vec<char>, radix: u32) -> (v: u64)
    requires
        2 <= radix <= 36,
    ensures
        v == u64_of_digits(digits@, radix as nat),
{
    match parse_digits(digits.as_slice(), radix) {
        Some(v) => v,
        None => 0,
    }
}

impl Lexer {
    /// Builds the integer token for `input[token_start..position]`, whose digits start
    /// after a prefix of `skip` characters.
    fn integer_token(&self, token_start: usize, skip: usize, radix: u32) -> (tok: Token)
        requires
            self.wf(),
            token_start + skip <= self.position <= self.input@.len(),
            2 <= radix <= 36,
        ensures
            tok.span == self.span_at_spec(token_start as int, self.pos() - token_start),
            tok.kind matches TokenKind::IntegerLiteral { value, original, radix: rdx }
                && rdx == radix
                && original@ == self.source().subrange(token_start as int, self.pos())
                && value == u64_of_digits(strip_underscores(
                    self.source().subrange(token_start + skip, self.pos())), radix as nat),
    {
        let original = self.text(token_start, self.position);
        let digits = self.chars_without_underscores(token_start + skip, self.position);
        let value = value_of_digits(&digits, radix);
        let span = self.span_at(token_start, self.position - token_start);
        Token { kind: TokenKind::IntegerLiteral { value, original, radix }, span }
    }

    /// Reads an integer literal at a `0`: a `0b`/`0o`/`0x` literal when such a prefix
    /// follows, else a run of decimal digits and underscores.
    fn read_integer(&mut self) -> (r: Result<Token, LexError>)
        requires
            old(self).wf(),
            old(self).position < old(self).input@.len(),
            is_digit_spec(old(self).input@[old(self).position as int]),
        ensures
            final(self).wf(),
            final(self).input == old(self).input,
            final(self).file == old(self).file,
            r is Ok ==> read_one(*old(self), *final(self)),
            r matches Ok(tok) ==> token_at(*old(self), old(self).pos(), final(self).pos(), tok),
            ({
                let src = old(self).source();
                let a = old(self).pos();
                let prefixed = radix_prefix_at(src, a);
                let radix = prefix_radix(src[a + 1]);
                &&& prefixed && r is Ok ==> prefixed_int_lexeme(src, a, final(self).pos(), r->Ok_0.kind)
                &&& prefixed ==> (r is Err <==> forall|k: int| a + 2 <= k < prefixed_run_end(src, a + 2, radix)
                    ==> #[trigger] src[k] == '_')
                &&& prefixed && r is Err ==> r->Err_0.span == span_for(src, old(self).file_name(), a,
                    prefixed_run_end(src, a + 2, radix) - a)
                &&& !prefixed ==> r is Ok && final(self).pos() == digit_run_end(src, a)
                    && (r->Ok_0.kind matches TokenKind::IntegerLiteral { value, original, radix: rdx }
                    && rdx == 10 && original@ == src.subrange(a, final(self).pos())
                    && value == u64_of_digits(strip_underscores(src.subrange(a, final(self).pos())), 10))
            }),
            r matches Err(e) ==> e.message@ == "empty "@ + radix_name(prefix_radix(old(self).source()[old(self).pos() + 1]))@ + " literal"@,
    {
        let token_start = self.position;
        if self.peek() == '0' {
            let next = self.peek_next();
            let (radix, name): (u32, &str) = match next {
                Some(c) => {
                    if c == 'b' || c == 'B' { (2, "binary") }
                    else if c == 'o' || c == 'O' { (8, "octal") }
                    else if c == 'x' || c == 'X' { (16, "hexadecimal") }
                    else { (0, "") }
                },
                None => (0, ""),
            };
            if radix != 0 {
                self.position += 2;
                let ghost mid = *self;
                let res = self.read_prefixed_integer(name, radix, token_start);
                match res {
                    Err(e) => {
                        proof {
                            lemma_prefixed_run_end(old(self).source(), token_start + 2, self.position as int, radix);
                        }
                        return Err(e);
                    },
                    Ok(()) => {},
                }
                let tok = self.integer_token(token_start, 2, radix);
                proof {
                    lemma_prefixed_run_end(old(self).source(), token_start + 2, self.position as int, radix);
                }
                return Ok(tok);
            }
        }
        self.position += 1;
        while self.position < self.input.len() && (is_digit(self.peek()) || self.peek() == '_')
            invariant
                self.wf(),
                self.input == old(self).input,
                self.file == old(self).file,
                token_start == old(self).position,
                token_start < self.position,
                is_digit_spec(self.input@[token_start as int]),
                forall|k: int| token_start <= k < self.position
                    ==> is_digit_spec(#[trigger] self.input@[k]) || self.input@[k] == '_',
            decreases self.input@.len() - self.position,
        {
            self.position += 1;
        }
        proof {
            lemma_digit_run_end(old(self).source(), token_start as int, self.position as int);
        }
        let tok = self.integer_token(token_start, 0, 10);
        Ok(tok)
    }
}

/// Whether a prefixed literal of `radix` reads `c`: an underscore, an ASCII digit,
/// or (for hexadecimal) a hexadecimal digit.
fn prefixed_char(c: char, radix: u32) -> (r: bool)
    ensures
        r == prefixed_body_char(c, radix),
{
    if c == '_' {
        true
    } else if radix == 16 {
        is_hex_digit(c)
    } else {
        is_digit(c)
    }
}

/// The word naming a literal's radix in error messages.
pub open spec fn radix_name(radix: u32) -> &'static str {
    if radix == 2 { "binary" } else if radix == 8 { "octal" } else { "hexadecimal" }
}


impl Lexer {
    fn read_number_literal(&mut self) -> (r: Result<Token, LexError>)
        requires
            old(self).wf(),
            old(self).position < old(self).input@.len(),
            is_digit_spec(old(self).input@[old(self).position as int]),
        ensures
            final(self).wf(),
            final(self).input == old(self).input,
            final(self).file == old(self).file,
            r is Ok ==> read_one(*old(self), *final(self)),
            r matches Ok(tok) ==> token_at(*old(self), old(self).pos(), final(self).pos(), tok)
                && (prefixed_int_lexeme(old(self).source(), old(self).pos(), final(self).pos(), tok.kind)
                    || decimal_lexeme(old(self).source(), old(self).pos(), final(self).pos(), tok.kind)),
            ({
                let src = old(self).source();
                let a = old(self).pos();
                let prefixed = radix_prefix_at(src, a);
                let radix = prefix_radix(src[a + 1]);
                &&& prefixed && r is Ok ==> prefixed_int_lexeme(src, a, final(self).pos(), r->Ok_0.kind)
                &&& !prefixed ==> r is Ok
                &&& prefixed ==> (r is Err <==> forall|k: int| a + 2 <= k < prefixed_run_end(src, a + 2, radix)
                    ==> #[trigger] src[k] == '_')
                &&& prefixed && r is Err ==> r->Err_0.span == span_for(src, old(self).file_name(), a,
                    prefixed_run_end(src, a + 2, radix) - a)
            }),
            r matches Err(e) ==> e.message@ == "empty "@ + radix_name(prefix_radix(old(self).source()[old(self).pos() + 1]))@ + " literal"@,
    {
        if self.peek() == '0' {
            match self.peek_next() {
                Some(next) => {
                    if next == 'b' || next == 'B' || next == 'o' || next == 'O' || next == 'x' || next == 'X' {
                        return self.read_integer();
                    }
                },
                None => {},
            }
        }
        let token_start = self.position;
        let ghost src = old(self).input@;
        assert(!radix_prefix_at(src, token_start as int));
        // Mantissa: digits and underscores.
        self.position += 1;
        while self.position < self.input.len() && (is_digit(self.peek()) || self.peek() == '_')
            invariant
                self.wf(),
                self.input == old(self).input,
                self.file == old(self).file,
                token_start == old(self).position,
                token_start < self.position,
                is_digit_spec(self.input@[token_start as int]),
                forall|k: int| token_start <= k < self.position
                    ==> is_digit_spec(#[trigger] self.input@[k]) || self.input@[k] == '_',
            decreases self.input@.len() - self.position,
        {
            self.position += 1;
        }
        let mantissa_end = self.position;
        proof {
            lemma_digit_run_end(src, token_start as int, mantissa_end as int);
        }
        assert(forall|k: int| token_start <= k < mantissa_end
            ==> is_digit_spec(#[trigger] src[k]) || src[k] == '_');
        let mut saw_dot = false;
        let mut saw_exp = false;
        // Optional fraction: `.` followed by digits.
        if self.peek() == '.' && self.position + 1 < self.input.len() && self.input[self.position + 1] != '.' {
            let dot_start = self.position;
            self.position += 1;
            saw_dot = true;
            let mut has_frac_digit = false;
            while self.position < self.input.len() && (is_digit(self.peek()) || self.peek() == '_')
                invariant
                    self.wf(),
                    self.input == old(self).input,
                    self.file == old(self).file,
                    dot_start == mantissa_end,
                    dot_start < self.position,
                    forall|k: int| dot_start < k < self.position
                        ==> is_digit_spec(#[trigger] self.input@[k]) || self.input@[k] == '_',
                    has_frac_digit <==> has_digit_between(self.input@, dot_start + 1, self.position as int),
                decreases self.input@.len() - self.position,
            {
                let ghost p = self.position as int;
                if is_digit(self.peek()) {
                    has_frac_digit = true;
                }
                self.position += 1;
                proof {
                    if is_digit_spec(self.input@[p]) {
                        assert(dot_start < p < self.position);
                    }
                    assert forall|k: int| dot_start + 1 <= k < self.position && is_digit_spec(#[trigger] self.input@[k])
                        implies has_frac_digit by {
                        if k < p {
                        } else {
                            assert(k == p);
                        }
                    }
                }
            }
            proof {
                lemma_digit_run_end(src, dot_start + 1, self.position as int);
            }
            if !has_frac_digit {
                self.position = dot_start;
                saw_dot = false;
            }
        }
        let exp_start = self.position;
        assert(exp_start == fraction_end(src, mantissa_end as int));
        assert(saw_dot ==> self.input@[mantissa_end as int] == '.');
        assert(!saw_dot ==> exp_start == mantissa_end);
        // Optional exponent: `e`, optional sign, digits (underscores allowed throughout).
        let ghost e_entered = false;
        if self.peek() == 'e' || self.peek() == 'E' {
            proof { e_entered = true; }
            saw_exp = true;
            self.position += 1;
            while self.position < self.input.len() && self.peek() == '_'
                invariant
                    self.wf(),
                    self.input == old(self).input,
                    self.file == old(self).file,
                    exp_start < self.position,
                    forall|k: int| exp_start < k < self.position ==> #[trigger] self.input@[k] == '_',
                decreases self.input@.len() - self.position,
            {
                self.position += 1;
            }
            proof {
                lemma_underscore_run_end(src, exp_start + 1, self.position as int);
            }
            if self.peek() == '+' || self.peek() == '-' {
                self.position += 1;
            }
            let sign_end = self.position;
            while self.position < self.input.len() && self.peek() == '_'
                invariant
                    self.wf(),
                    self.input == old(self).input,
                    self.file == old(self).file,
                    exp_start < sign_end <= self.position,
                    forall|k: int| sign_end <= k < self.position ==> #[trigger] self.input@[k] == '_',
                decreases self.input@.len() - self.position,
            {
                self.position += 1;
            }
            let digits_start = self.position;
            let mut has_exp_digit = false;
            while self.position < self.input.len() && (is_digit(self.peek()) || self.peek() == '_')
                invariant
                    self.wf(),
                    self.input == old(self).input,
                    self.file == old(self).file,
                    sign_end <= digits_start <= self.position,
                    forall|k: int| sign_end <= k < digits_start ==> #[trigger] self.input@[k] == '_',
                    forall|k: int| digits_start <= k < self.position
                        ==> is_digit_spec(#[trigger] self.input@[k]) || self.input@[k] == '_',
                    has_exp_digit <==> (exists|k: int| digits_start <= k < self.position
                        && is_digit_spec(#[trigger] self.input@[k])),
                decreases self.input@.len() - self.position,
            {
                let ghost p = self.position as int;
                if is_digit(self.peek()) {
                    has_exp_digit = true;
                }
                self.position += 1;
                proof {
                    if is_digit_spec(self.input@[p]) {
                        assert(digits_start <= p < self.position);
                    }
                    assert forall|k: int| digits_start <= k < self.position && is_digit_spec(#[trigger] self.input@[k])
                        implies has_exp_digit by {
                        if k < p {
                        } else {
                            assert(k == p);
                        }
                    }
                }
            }
            proof {
                assert forall|k: int| sign_end <= k < self.position
                    implies is_digit_spec(#[trigger] src[k]) || src[k] == '_' by {
                    if k < digits_start {
                        assert(src[k] == '_');
                    }
                }
                lemma_digit_run_end(src, sign_end as int, self.position as int);
                assert(self.position == exponent_end(src, exp_start as int));
            }
            if !has_exp_digit {
                saw_exp = false;
            }
            assert(forall|k: int| exp_start < k < sign_end ==> !is_digit_spec(#[trigger] src[k]) && src[k] != '.');
            assert(forall|k: int| exp_start < k < digits_start ==> !is_digit_spec(#[trigger] src[k]) && src[k] != '.');
            assert(!has_exp_digit ==> forall|k: int| digits_start <= k < self.position ==> #[trigger] src[k] == '_');
            proof {
                if has_exp_digit {
                    let j = choose|k: int| digits_start <= k < self.position && is_digit_spec(#[trigger] self.input@[k]);
                    let t = self.input@.subrange(token_start as int, self.position as int);
                    assert(t[exp_start - token_start] == self.input@[exp_start as int]);
                    assert(t[j - token_start] == self.input@[j]);
                    assert(is_float_text(t));
                } else {
                }
            }
        }
        assert(self.position == decimal_end(src, token_start as int));
        let span = self.span_at(token_start, self.position - token_start);
        let original = self.text(token_start, self.position);
        let cleaned_chars = self.chars_without_underscores(token_start, self.position);
        let ghost t = self.input@.subrange(token_start as int, self.position as int);
        if saw_dot || saw_exp {
            proof {
                if saw_dot {
                    assert(t[mantissa_end - token_start] == '.');
                }
            }
            let cleaned = chars_to_string(cleaned_chars.as_slice());
            Ok(Token { kind: TokenKind::FloatLiteral { original, cleaned }, span })
        } else {
            proof {
                assert(exp_start == mantissa_end);
                assert(!e_entered ==> self.position == exp_start);
                assert(e_entered ==> src[exp_start as int] == 'e' || src[exp_start as int] == 'E');
                assert forall|k: int| 0 <= k < t.len() implies #[trigger] t[k] != '.' by {
                    assert(t[k] == src[token_start + k]);
                }
                assert forall|k: int, j: int| 0 <= k < j < t.len() && (#[trigger] t[k] == 'e' || t[k] == 'E')
                    implies !is_digit_spec(#[trigger] t[j]) by {
                    assert(t[k] == src[token_start + k]);
                    assert(t[j] == src[token_start + j]);
                }
            }
            let value = value_of_digits(&cleaned_chars, 10);
            Ok(Token { kind: TokenKind::IntegerLiteral { value, original, radix: 10 }, span })
        }
    }
}


/// Where the whitespace before token `i` starts.
pub open spec fn gap_start(from: int, ends: Seq<int>, i: int) -> int {
    if i == 0 { from } else { ends[i - 1] }
}

/// Where the last token read so far ends (`from` when none was read).
pub open spec fn last_end(from: int, ends: Seq<int>) -> int {
    if ends.len() == 0 { from } else { ends.last() }
}

/// `toks` were read from `src[from..upto]`: token `i` is the lexeme `src[starts[i]..ends[i]]`
/// with its span, the tokens come in order, and every other character is whitespace.
pub open spec fn lexed(src: Seq<char>, file: Option<&'static str>, from: int, toks: Seq<Token>,
    starts: Seq<int>, ends: Seq<int>, upto: int) -> bool
{
    &&& toks.len() == starts.len()
    &&& toks.len() == ends.len()
    &&& from <= last_end(from, ends) <= upto <= src.len()
    &&& forall|i: int| 0 <= i < toks.len() ==> {
        &&& gap_start(from, ends, i) <= #[trigger] starts[i] < ends[i]
        &&& toks[i].span == span_for(src, file, starts[i], ends[i] - starts[i])
        &&& lexeme(src, starts[i], ends[i], toks[i].kind)
        &&& forall|k: int| gap_start(from, ends, i) <= k < starts[i] ==> is_whitespace_spec(#[trigger] src[k])
    }
    &&& forall|i: int| 0 < i < toks.len() ==> ends[i - 1] <= #[trigger] starts[i]
    &&& forall|k: int| last_end(from, ends) <= k < upto ==> is_whitespace_spec(#[trigger] src[k])
}

/// In a lexing, each keyword, operator or punctuation token stands on exactly its own text
/// in the source: a `ShiftLeft` token covers `<<`, an `Ne` token `!=`, a `While` token `while`.
pub proof fn lemma_lexed_operator_text(src: Seq<char>, file: Option<&'static str>, from: int, toks: Seq<Token>,
    starts: Seq<int>, ends: Seq<int>, upto: int, i: int)
    requires
        lexed(src, file, from, toks, starts, ends, upto),
        0 <= i < toks.len(),
        kind_spelling(toks[i].kind) is Some,
    ensures
        kind_spelling(toks[i].kind) == Some(src.subrange(starts[i], ends[i])),
{
    let k = toks[i].kind;
    assert(lexeme(src, starts[i], ends[i], k));
    reveal(lexeme);
    if operator_lexeme(src, starts[i], ends[i], k) {
        lemma_operator_kind_spelled(src.subrange(starts[i], ends[i]));
    } else if word_lexeme(src, starts[i], ends[i], k) {
        lemma_keyword_kind_spelled(src.subrange(starts[i], ends[i]));
    } else {
        assert(!line_comment_lexeme(src, starts[i], ends[i], k));
        assert(!block_comment_lexeme(src, starts[i], ends[i], k));
        assert(!string_lexeme(src, starts[i], ends[i], k));
        assert(!prefixed_int_lexeme(src, starts[i], ends[i], k));
        assert(!decimal_lexeme(src, starts[i], ends[i], k));
    }
}

/// `a` starts before `b`: on an earlier line, or on the same line at an earlier column.
pub open spec fn span_before(a: Span, b: Span) -> bool {
    a.line < b.line || (a.line == b.line && a.column < b.column)
}

/// Every token covers at least one character at line and column 1 or later, and each
/// starts before the next.
pub open spec fn spans_ordered(toks: Seq<Token>) -> bool {
    &&& forall|i: int| 0 <= i < toks.len() ==> {
        &&& (#[trigger] toks[i]).span.len >= 1
        &&& toks[i].span.line >= 1
        &&& toks[i].span.column >= 1
    }
    &&& forall|i: int, j: int| 0 <= i < j < toks.len() ==> span_before(#[trigger] toks[i].span, #[trigger] toks[j].span)
}

/// A later position of the source has a later line, or the same line and a later column.
proof fn lemma_line_col_increases(s: Seq<char>, a: int, b: int)
    requires
        0 <= a < b,
    ensures
        line_col(s, a).0 < line_col(s, b).0
            || (line_col(s, a).0 == line_col(s, b).0 && line_col(s, a).1 < line_col(s, b).1),
    decreases b - a,
{
    if b > a + 1 {
        lemma_line_col_increases(s, a, b - 1);
    }
}

/// Where each token ends before the next one starts, token `i` ends before token `j`
/// starts for every later `j`.
proof fn lemma_ends_before_starts(starts: Seq<int>, ends: Seq<int>, i: int, j: int)
    requires
        starts.len() == ends.len(),
        0 <= i < j < starts.len(),
        forall|k: int| 0 <= k < starts.len() ==> #[trigger] starts[k] < ends[k],
        forall|k: int| 0 < k < starts.len() ==> ends[k - 1] <= #[trigger] starts[k],
    ensures
        ends[i] <= starts[j],
    decreases j - i,
{
    if j > i + 1 {
        lemma_ends_before_starts(starts, ends, i, j - 1);
        assert(starts[j - 1] < ends[j - 1]);
    }
}

/// In a lexing, each token ends before any later one starts, and no token ends past the
/// end of what was read.
proof fn lemma_lexed_order(src: Seq<char>, file: Option<&'static str>, from: int, toks: Seq<Token>,
    starts: Seq<int>, ends: Seq<int>, upto: int)
    requires
        lexed(src, file, from, toks, starts, ends, upto),
    ensures
        forall|i: int, j: int| #![trigger ends[i], starts[j]] 0 <= i < j < toks.len() ==> ends[i] <= starts[j],
        forall|i: int, j: int| #![trigger starts[i], starts[j]] 0 <= i < j < toks.len() ==> starts[i] < starts[j],
        forall|i: int| 0 <= i < toks.len() ==> from <= #[trigger] starts[i] < ends[i] <= upto,
{
    assert forall|k: int| 0 <= k < starts.len() implies #[trigger] starts[k] < ends[k] by {
        assert(gap_start(from, ends, k) <= starts[k] < ends[k]);
    }
    assert forall|i: int, j: int| #![trigger ends[i], starts[j]] 0 <= i < j < toks.len() implies ends[i] <= starts[j] by {
        lemma_ends_before_starts(starts, ends, i, j);
    }
    assert forall|i: int, j: int| #![trigger starts[i], starts[j]] 0 <= i < j < toks.len() implies starts[i] < starts[j] by {
        lemma_ends_before_starts(starts, ends, i, j);
        assert(starts[i] < ends[i]);
    }
    assert forall|i: int| 0 <= i < toks.len() implies from <= #[trigger] starts[i] < ends[i] <= upto by {
        assert(gap_start(from, ends, i) <= starts[i] < ends[i]);
        if i > 0 {
            assert(ends[i - 1] <= starts[i]);
            lemma_gap_start_at_least(from, starts, ends, i);
        }
        let n = toks.len() - 1;
        if i < n {
            lemma_ends_before_starts(starts, ends, i, n);
            assert(starts[n] < ends[n]);
        }
    }
}

/// Token `i` of a lexing starts no earlier than `from`.
proof fn lemma_gap_start_at_least(from: int, starts: Seq<int>, ends: Seq<int>, i: int)
    requires
        starts.len() == ends.len(),
        0 <= i < starts.len(),
        forall|k: int| 0 <= k < starts.len() ==> gap_start(from, ends, k) <= #[trigger] starts[k] && starts[k] < ends[k],
    ensures
        from <= starts[i],
    decreases i,
{
    if i > 0 {
        lemma_gap_start_at_least(from, starts, ends, i - 1);
    }
}

/// The tokens of a lexing of a source that fits in memory cover at least one character
/// each, start at line and column 1 or later, and come in strictly increasing (line,
/// column) order.
pub proof fn lemma_lexed_spans_ordered(src: Seq<char>, file: Option<&'static str>, from: int, toks: Seq<Token>,
    starts: Seq<int>, ends: Seq<int>, upto: int)
    requires
        0 <= from,
        src.len() <= isize::MAX,
        lexed(src, file, from, toks, starts, ends, upto),
    ensures
        spans_ordered(toks),
{
    lemma_lexed_order(src, file, from, toks, starts, ends, upto);
    assert forall|i: int| 0 <= i < toks.len() implies {
        &&& (#[trigger] toks[i]).span.len >= 1
        &&& toks[i].span.line >= 1
        &&& toks[i].span.column >= 1
    } by {
        assert(from <= starts[i]);
        lemma_line_col_bounds(src, starts[i]);
    }
    assert forall|i: int, j: int| 0 <= i < j < toks.len() implies span_before(#[trigger] toks[i].span, #[trigger] toks[j].span) by {
        assert(starts[i] < starts[j]);
        lemma_line_col_bounds(src, starts[i]);
        lemma_line_col_bounds(src, starts[j]);
        lemma_line_col_increases(src, starts[i], starts[j]);
    }
}

/// The tokens `toks` with every span's file set to `file`.
pub open spec fn with_file_all(toks: Seq<Token>, file: Option<&'static str>) -> Seq<Token> {
    toks.map_values(|t: Token| Token { kind: t.kind, span: Span { line: t.span.line, column: t.span.column, len: t.span.len, file } })
}

/// The file a lexing is read from only shows in its spans: a lexing of `src` read as
/// `file` becomes one read as `other` when each span names `other` instead.
proof fn lemma_lexed_refile(src: Seq<char>, file: Option<&'static str>, other: Option<&'static str>, from: int,
    toks: Seq<Token>, starts: Seq<int>, ends: Seq<int>, upto: int)
    requires
        lexed(src, file, from, toks, starts, ends, upto),
    ensures
        lexed(src, other, from, with_file_all(toks, other), starts, ends, upto),
{
    let t2 = with_file_all(toks, other);
    assert forall|i: int| 0 <= i < t2.len() implies {
        &&& gap_start(from, ends, i) <= #[trigger] starts[i] < ends[i]
        &&& t2[i].span == span_for(src, other, starts[i], ends[i] - starts[i])
        &&& lexeme(src, starts[i], ends[i], t2[i].kind)
        &&& forall|k: int| gap_start(from, ends, i) <= k < starts[i] ==> is_whitespace_spec(#[trigger] src[k])
    } by {
        assert(toks[i].span == span_for(src, file, starts[i], ends[i] - starts[i]));
    }
}

/// Reading the same source with and without a file name gives tokens at the same places:
/// as many tokens, each with the same line, column and length, the file named only by
/// the first.
pub proof fn lemma_file_only_in_spans(src: Seq<char>, f: &'static str, from: int,
    t1: Seq<Token>, s1: Seq<int>, e1: Seq<int>, t2: Seq<Token>, s2: Seq<int>, e2: Seq<int>)
    requires
        lexed(src, Some(f), from, t1, s1, e1, src.len() as int),
        lexed(src, None, from, t2, s2, e2, src.len() as int),
    ensures
        t1.len() == t2.len(),
        forall|i: int| 0 <= i < t1.len() ==> {
            &&& (#[trigger] t1[i]).span.line == t2[i].span.line
            &&& t1[i].span.column == t2[i].span.column
            &&& t1[i].span.len == t2[i].span.len
            &&& t1[i].span.file == Some(f)
            &&& t2[i].span.file == None::<&'static str>
        },
{
    lemma_lexed_refile(src, Some(f), None, from, t1, s1, e1, src.len() as int);
    let u = with_file_all(t1, None);
    lemma_lexing_unique(src, None, from, u, s1, e1, t2, s2, e2);
    assert forall|i: int| 0 <= i < t1.len() implies {
        &&& (#[trigger] t1[i]).span.line == t2[i].span.line
        &&& t1[i].span.column == t2[i].span.column
        &&& t1[i].span.len == t2[i].span.len
        &&& t1[i].span.file == Some(f)
        &&& t2[i].span.file == None::<&'static str>
    } by {
        assert(u[i].span == t2[i].span);
        assert(t1[i].span == span_for(src, Some(f), s1[i], e1[i] - s1[i]));
        assert(t2[i].span == span_for(src, None, s2[i], e2[i] - s2[i]));
    }
}

/// A character that can start a token.
pub open spec fn starts_token(c: char) -> bool {
    ||| c == '/' || c == '"' || c == '.' || c == '=' || c == '!' || c == '<' || c == '>'
    ||| c == '&' || c == '|' || c == '^' || c == '+' || c == '-' || c == '*' || c == '%'
    ||| c == ':' || is_punct_spec(c) || is_ident_start_spec(c) || is_digit_spec(c)
}

/// No token can start at `p`, and `msg` and `span` are the error the lexer reports
/// there: a `/*` that is never closed, a string literal that is not closed or holds
/// an unknown escape, a `0b`/`0o`/`0x` prefix with no digit after it, or a character
/// that starts no token.
pub open spec fn lex_fails_at(src: Seq<char>, file: Option<&'static str>, p: int, msg: Seq<char>,
    span: Span) -> bool
{
    &&& 0 <= p < src.len()
    &&& {
        ||| {
            &&& src[p] == '/' && p + 1 < src.len() && src[p + 1] == '*'
            &&& forall|k: int| p + 2 <= k ==> !#[trigger] closes_at(src, k)
            &&& msg == "unterminated multi-line comment"@
            &&& span == span_for(src, file, p, 2)
        }
        ||| {
            &&& src[p] == '"'
            &&& match scan_string(src, p + 1, Seq::empty()) {
                Ok(_) => false,
                Err(None) => msg == "unterminated string literal"@
                    && span == span_for(src, file, p, src.len() - p),
                Err(Some(k)) => msg == "invalid escape sequence \\"@.push(src[k + 1])
                    && span == span_for(src, file, k, 2),
            }
        }
        ||| {
            &&& radix_prefix_at(src, p)
            &&& forall|k: int| p + 2 <= k < prefixed_run_end(src, p + 2, prefix_radix(src[p + 1]))
                ==> #[trigger] src[k] == '_'
            &&& msg == "empty "@ + radix_name(prefix_radix(src[p + 1]))@ + " literal"@
            &&& span == span_for(src, file, p, prefixed_run_end(src, p + 2, prefix_radix(src[p + 1])) - p)
        }
        ||| {
            &&& !starts_token(src[p])
            &&& !is_whitespace_spec(src[p])
            &&& msg == "unexpected character "@ + describe_char_spec(src[p])
            &&& span == span_for(src, file, p, 1)
        }
    }
}

/// Lexing `src` from `from` fails with `msg` at `span`: the tokens read from `from`
/// reach a place where no token can start.
pub open spec fn lex_failure(src: Seq<char>, file: Option<&'static str>, from: int, msg: Seq<char>,
    span: Span) -> bool
{
    exists|toks: Seq<Token>, starts: Seq<int>, ends: Seq<int>, p: int|
        #[trigger] lexed(src, file, from, toks, starts, ends, p) && lex_fails_at(src, file, p, msg, span)
}

proof fn lemma_lexed_skip(src: Seq<char>, file: Option<&'static str>, from: int, toks: Seq<Token>,
    starts: Seq<int>, ends: Seq<int>, upto: int, p: int)
    requires
        lexed(src, file, from, toks, starts, ends, upto),
        upto <= p <= src.len(),
        forall|k: int| upto <= k < p ==> is_whitespace_spec(#[trigger] src[k]),
    ensures
        lexed(src, file, from, toks, starts, ends, p),
{
}

proof fn lemma_lexed_push(src: Seq<char>, file: Option<&'static str>, from: int, toks: Seq<Token>,
    starts: Seq<int>, ends: Seq<int>, a: int, b: int, tok: Token)
    requires
        lexed(src, file, from, toks, starts, ends, a),
        a < b <= src.len(),
        tok.span == span_for(src, file, a, b - a),
        lexeme(src, a, b, tok.kind),
    ensures
        lexed(src, file, from, toks.push(tok), starts.push(a), ends.push(b), b),
{
    let t2 = toks.push(tok);
    let s2 = starts.push(a);
    let e2 = ends.push(b);
    let n = toks.len() as int;
    assert forall|i: int| 0 <= i < t2.len() implies {
        &&& gap_start(from, e2, i) <= #[trigger] s2[i] < e2[i]
        &&& t2[i].span == span_for(src, file, s2[i], e2[i] - s2[i])
        &&& lexeme(src, s2[i], e2[i], t2[i].kind)
        &&& forall|k: int| gap_start(from, e2, i) <= k < s2[i] ==> is_whitespace_spec(#[trigger] src[k])
    } by {
        if i < n {
            assert(s2[i] == starts[i]);
            assert(e2[i] == ends[i]);
            assert(t2[i] == toks[i]);
            assert(gap_start(from, e2, i) == gap_start(from, ends, i));
        } else {
            assert(gap_start(from, e2, i) == last_end(from, ends));
        }
    }
    assert forall|i: int| 0 < i < t2.len() implies e2[i - 1] <= #[trigger] s2[i] by {
        if i < n {
            assert(s2[i] == starts[i]);
            assert(e2[i - 1] == ends[i - 1]);
        } else {
            assert(e2[i - 1] == last_end(from, ends));
        }
    }
}

impl Lexer {
    /// Splits the source, from the cursor on, into tokens followed by an end-of-file token.
    pub fn tokenize(&mut self) -> (r: Result<Vec<Token>, LexError>)
        requires
            old(self).wf(),
        ensures
            final(self).wf(),
            final(self).source() == old(self).source(),
            r matches Ok(toks) ==> {
                &&& toks@.len() >= 1
                &&& toks@.last().kind == TokenKind::Eof
                &&& toks@.last().span == old(self).span_at_spec(old(self).source().len() as int, 0)
                &&& exists|starts: Seq<int>, ends: Seq<int>| lexed(old(self).source(), old(self).file_name(),
                    old(self).pos(), toks@.drop_last(), starts, ends, old(self).source().len() as int)
            },
            r matches Ok(toks) ==> valid_radices(toks@),
            r matches Ok(toks) ==> spans_ordered(toks@.drop_last())
                && forall|i: int| 0 <= i < toks@.len() - 1 ==> span_before(#[trigger] toks@[i].span, toks@.last().span),
            r matches Err(e) ==> lex_failure(old(self).source(), old(self).file_name(), old(self).pos(),
                e.message@, e.span),
    {
        let mut tokens: Vec<Token> = Vec::new();
        let ghost src = self.input@;
        let ghost file = self.file;
        let ghost from = self.position as int;
        let ghost mut starts: Seq<int> = Seq::empty();
        let ghost mut ends: Seq<int> = Seq::empty();
        while self.position < self.input.len()
            invariant
                self.wf(),
                self.input@ == src,
                self.file == file,
                src == old(self).input@,
                file == old(self).file,
                from == old(self).position,
                lexed(src, file, from, tokens@, starts, ends, self.position as int),
            ensures
                self.position == self.input@.len(),
            decreases self.input@.len() - self.position,
        {
            let ghost before_ws = self.position as int;
            self.skip_whitespace();
            proof {
                lemma_lexed_skip(src, file, from, tokens@, starts, ends, before_ws, self.position as int);
            }
            if self.position >= self.input.len() {
                break;
            }
            let ghost a = self.position as int;
            let c = self.peek();
            let next_is_slash = self.position + 1 < self.input.len() && self.input[self.position + 1] == '/';
            let next_is_star = self.position + 1 < self.input.len() && self.input[self.position + 1] == '*';
            let next_is_colon = self.position + 1 < self.input.len() && self.input[self.position + 1] == ':';
            let res = if c == '/' && next_is_slash {
                self.read_single_line_comment()
            } else if c == '/' && next_is_star {
                self.read_multi_line_comment()
            } else if c == '"' {
                self.read_string_literal()
            } else if is_ident_start(c) {
                self.read_identifier()
            } else if c == '.' {
                self.read_dot()
            } else if c == '=' {
                self.read_eq_or_eqeq()
            } else if c == '!' {
                self.read_bang_or_ne()
            } else if c == '<' {
                self.read_lt_or_le()
            } else if c == '>' {
                self.read_gt_or_ge()
            } else if c == '&' {
                self.read_ampersand()
            } else if c == '|' {
                self.read_pipe()
            } else if c == '^' {
                self.read_caret()
            } else if c == '+' {
                self.read_plus()
            } else if c == '-' {
                self.read_minus()
            } else if c == '*' {
                self.read_star()
            } else if c == '/' {
                self.read_slash()
            } else if c == '%' {
                self.read_percent()
            } else if c == ':' && next_is_colon {
                let start = self.position;
                self.position += 2;
                proof { self.lemma_op2(start as int, ':', ':'); }
                Ok(Token { kind: TokenKind::ColonColon, span: self.span_at(start, 2) })
            } else if c == '(' || c == ')' || c == '{' || c == '}' || c == ':' || c == ';' || c == ','
                || c == '~' || c == '[' || c == ']' {
                self.read_punct()
            } else if is_digit(c) {
                self.read_number_literal()
            } else {
                let span = self.span_at(self.position, 1);
                let mut msg: Vec<char> = Vec::new();
                push_str(&mut msg, "unexpected character ");
                let d = describe_char(c);
                let mut d2 = d;
                msg.append(&mut d2);
                let e = LexError::new(chars_to_string(msg.as_slice()), span);
                proof {
                    assert(!starts_token(src[a]));
                    assert(lex_fails_at(src, file, a, e.message@, e.span));
                    assert(lexed(src, file, from, tokens@, starts, ends, a));
                    assert(old(self).source() == src && old(self).file_name() == file && old(self).pos() == from);
                    assert(lex_failure(src, file, from, e.message@, e.span));
                }
                return Err(e);
            };
            match res {
                Ok(tok) => {
                    proof {
                        reveal(lexeme);
                        lemma_lexed_push(src, file, from, tokens@, starts, ends, a, self.position as int, tok);
                        starts = starts.push(a);
                        ends = ends.push(self.position as int);
                    }
                    tokens.push(tok);
                },
                Err(e) => {
                    proof {
                        if c == '/' && next_is_star {
                            assert(lex_fails_at(src, file, a, e.message@, e.span));
                        } else if c == '"' {
                            assert(lex_fails_at(src, file, a, e.message@, e.span));
                        } else {
                            assert(is_digit_spec(c));
                            assert(radix_prefix_at(src, a));
                            assert(lex_fails_at(src, file, a, e.message@, e.span));
                        }
                        assert(lexed(src, file, from, tokens@, starts, ends, a));
                    assert(old(self).source() == src && old(self).file_name() == file && old(self).pos() == from);
                        assert(lex_failure(src, file, from, e.message@, e.span));
                    }
                    return Err(e);
                },
            }
        }
        let eof_span = self.span_at(self.input.len(), 0);
        let ghost body = tokens@;
        tokens.push(Token { kind: TokenKind::Eof, span: eof_span });
        proof {
            assert(tokens@.drop_last() =~= body);
            assert(lexed(old(self).source(), old(self).file_name(), old(self).pos(), tokens@.drop_last(),
                starts, ends, old(self).source().len() as int));
            lemma_lexed_radices(old(self).source(), old(self).file_name(), old(self).pos(), body,
                starts, ends, old(self).source().len() as int, tokens@.last());
            assert(body.push(tokens@.last()) == tokens@);
            lemma_lexed_spans_ordered(old(self).source(), old(self).file_name(), old(self).pos(), body,
                starts, ends, old(self).source().len() as int);
            lemma_lexed_order(old(self).source(), old(self).file_name(), old(self).pos(), body,
                starts, ends, old(self).source().len() as int);
            let n = old(self).source().len() as int;
            assert forall|i: int| 0 <= i < tokens@.len() - 1 implies span_before(#[trigger] tokens@[i].span, tokens@.last().span) by {
                assert(tokens@[i] == body[i]);
                lemma_line_col_bounds(src, starts[i]);
                lemma_line_col_bounds(src, n);
                lemma_line_col_increases(src, starts[i], n);
            }
        }
        Ok(tokens)
    }
}


/// Every integer token has a radix `from_str_radix` accepts (2 to 36).
pub open spec fn valid_radices(toks: Seq<Token>) -> bool {
    forall|i: int| 0 <= i < toks.len() ==>
        ((#[trigger] toks[i]).kind matches TokenKind::IntegerLiteral { radix, .. } ==> 2 <= radix <= 36)
}

/// A lexeme is an integer literal only in base 2, 8, 10 or 16.
proof fn lemma_lexeme_radix(src: Seq<char>, a: int, b: int, kind: TokenKind)
    requires
        lexeme(src, a, b, kind),
    ensures
        kind matches TokenKind::IntegerLiteral { radix, .. } ==> 2 <= radix <= 36,
{
    reveal(lexeme);
    let t = src.subrange(a, b);
    if operator_lexeme(src, a, b, kind) {
        assert(!(kind is IntegerLiteral));
    } else if word_lexeme(src, a, b, kind) {
        assert(!(kind is IntegerLiteral));
    }
}

/// Every integer token that the lexer produces has a radix in `2..=36`.
proof fn lemma_lexed_radices(src: Seq<char>, file: Option<&'static str>, from: int, toks: Seq<Token>,
    starts: Seq<int>, ends: Seq<int>, upto: int, last: Token)
    requires
        lexed(src, file, from, toks, starts, ends, upto),
        last.kind == TokenKind::Eof,
    ensures
        valid_radices(toks.push(last)),
{
    assert forall|i: int| 0 <= i < toks.push(last).len() implies
        ((#[trigger] toks.push(last)[i]).kind matches TokenKind::IntegerLiteral { radix, .. } ==> 2 <= radix <= 36) by {
        if i < toks.len() {
            lemma_lexeme_radix(src, starts[i], ends[i], toks[i].kind);
        }
    }
}

// ---------------------------------------------------------------------------
// A source has at most one lexing, and none where the lexer fails

/// An operator's first character is itself an operator.
proof fn lemma_operator_first_char(t: Seq<char>)
    requires
        operator_kind(t) is Some,
    ensures
        1 <= t.len() <= 3,
        operator_kind1(t[0]) is Some,
{
}

/// Which kind of lexeme can start at `a` is decided by the characters there.
proof fn lemma_lexeme_by_start(src: Seq<char>, a: int, b: int, kind: TokenKind)
    requires
        lexeme(src, a, b, kind),
    ensures
        0 <= a < b <= src.len(),
        starts_token(src[a]),
        !is_whitespace_spec(src[a]),
        is_ident_start_spec(src[a]) ==> word_lexeme(src, a, b, kind),
        src[a] == '"' ==> string_lexeme(src, a, b, kind),
        comment_starts(src, a) && src[a + 1] == '/' ==> line_comment_lexeme(src, a, b, kind),
        comment_starts(src, a) && src[a + 1] == '*' ==> block_comment_lexeme(src, a, b, kind),
        radix_prefix_at(src, a) ==> prefixed_int_lexeme(src, a, b, kind),
        is_digit_spec(src[a]) && !radix_prefix_at(src, a) ==> decimal_lexeme(src, a, b, kind),
        operator_kind1(src[a]) is Some && !comment_starts(src, a) ==> operator_lexeme(src, a, b, kind),
{
    reveal(lexeme);
    if operator_lexeme(src, a, b, kind) {
        let t = src.subrange(a, b);
        lemma_operator_first_char(t);
        assert(t[0] == src[a]);
    }
}

/// Two operators read at the same place have the same length.
proof fn lemma_operator_end_unique(src: Seq<char>, a: int, b1: int, k1: TokenKind, b2: int, k2: TokenKind)
    requires
        operator_lexeme(src, a, b1, k1),
        operator_lexeme(src, a, b2, k2),
    ensures
        b1 == b2,
{
    if b1 != b2 {
        let (lo, hi) = if b1 < b2 { (b1, b2) } else { (b2, b1) };
        let th = src.subrange(a, hi);
        lemma_operator_first_char(th);
        if hi != lo + 1 {
            assert(lo == a + 1 && hi == a + 3);
            let tm = src.subrange(a, lo + 1);
            assert(tm[0] == th[0] && tm[1] == th[1]);
            assert(operator_kind(tm) is Some);
        }
    }
}

/// Two lexemes read at the same place end at the same place.
#[verifier::spinoff_prover]
proof fn lemma_lexeme_end_unique(src: Seq<char>, a: int, b1: int, k1: TokenKind, b2: int, k2: TokenKind)
    requires
        lexeme(src, a, b1, k1),
        lexeme(src, a, b2, k2),
    ensures
        b1 == b2,
{
    lemma_lexeme_by_start(src, a, b1, k1);
    lemma_lexeme_by_start(src, a, b2, k2);
    if b1 != b2 {
        let (lo, hi) = if b1 < b2 { (b1, b2) } else { (b2, b1) };
        let c = src[a];
        if is_ident_start_spec(c) {
            assert(is_ident_continue_spec(src[lo]));
        } else if c == '"' {
        } else if comment_starts(src, a) && src[a + 1] == '/' {
            assert(src[lo] != '\n');
        } else if comment_starts(src, a) && src[a + 1] == '*' {
            assert(closes_at(src, lo - 2));
        } else if radix_prefix_at(src, a) {
            assert(prefixed_body_char(src[lo], prefix_radix(src[a + 1])));
        } else if is_digit_spec(c) {
        } else {
            lemma_operator_end_unique(src, a, b1, k1, b2, k2);
        }
    }
}

/// No lexeme starts where the lexer fails.
#[verifier::spinoff_prover]
proof fn lemma_no_lexeme_where_lexing_fails(src: Seq<char>, file: Option<&'static str>, p: int,
    msg: Seq<char>, span: Span, b: int, kind: TokenKind)
    requires
        lex_fails_at(src, file, p, msg, span),
    ensures
        !lexeme(src, p, b, kind),
{
    if !lexeme(src, p, b, kind) {
        return;
    }
    lemma_lexeme_by_start(src, p, b, kind);
    if radix_prefix_at(src, p) && src[p] == '0' {
        let radix = prefix_radix(src[p + 1]);
        lemma_prefixed_run_end(src, p + 2, b, radix);
        let k = choose|k: int| p + 2 <= k < b && #[trigger] src[k] != '_';
        assert(src[k] == '_');
    } else if src[p] == '/' && p + 1 < src.len() && src[p + 1] == '*' {
        assert(!closes_at(src, b - 2));
    }
}

/// What a lexing says of its `i`-th token.
proof fn lemma_lexed_token(src: Seq<char>, file: Option<&'static str>, from: int, toks: Seq<Token>,
    starts: Seq<int>, ends: Seq<int>, upto: int, i: int)
    requires
        lexed(src, file, from, toks, starts, ends, upto),
        0 <= i < toks.len(),
    ensures
        gap_start(from, ends, i) <= starts[i] < ends[i],
        lexeme(src, starts[i], ends[i], toks[i].kind),
        forall|k: int| gap_start(from, ends, i) <= k < starts[i] ==> is_whitespace_spec(#[trigger] src[k]),
{
}

/// Two tokens read after whitespace from the same place start and end together.
proof fn lemma_token_after_gap(src: Seq<char>, g: int, a1: int, b1: int, k1: TokenKind,
    a2: int, b2: int, k2: TokenKind)
    requires
        g <= a1,
        g <= a2,
        lexeme(src, a1, b1, k1),
        lexeme(src, a2, b2, k2),
        forall|k: int| g <= k < a1 ==> is_whitespace_spec(#[trigger] src[k]),
        forall|k: int| g <= k < a2 ==> is_whitespace_spec(#[trigger] src[k]),
    ensures
        a1 == a2,
        b1 == b2,
{
    lemma_lexeme_by_start(src, a1, b1, k1);
    lemma_lexeme_by_start(src, a2, b2, k2);
    if a1 < a2 {
        assert(is_whitespace_spec(src[a1]));
    } else if a2 < a1 {
        assert(is_whitespace_spec(src[a2]));
    }
    lemma_lexeme_end_unique(src, a1, b1, k1, b2, k2);
}

/// The `i`-th tokens of two lexings of the same source from the same place start
/// and end at the same characters, as far as both go.
proof fn lemma_lexings_agree(src: Seq<char>, file: Option<&'static str>, from: int,
    t1: Seq<Token>, s1: Seq<int>, e1: Seq<int>, u1: int,
    t2: Seq<Token>, s2: Seq<int>, e2: Seq<int>, u2: int, i: int)
    requires
        lexed(src, file, from, t1, s1, e1, u1),
        lexed(src, file, from, t2, s2, e2, u2),
        0 <= i < t1.len(),
        i < t2.len(),
    ensures
        forall|j: int| 0 <= j <= i ==> s1[j] == s2[j] && e1[j] == e2[j],
    decreases i,
{
    if i > 0 {
        lemma_lexings_agree(src, file, from, t1, s1, e1, u1, t2, s2, e2, u2, i - 1);
        assert(e1[i - 1] == e2[i - 1]);
    }
    assert(gap_start(from, e1, i) == gap_start(from, e2, i));
    lemma_lexed_token(src, file, from, t1, s1, e1, u1, i);
    lemma_lexed_token(src, file, from, t2, s2, e2, u2, i);
    lemma_token_after_gap(src, gap_start(from, e1, i), s1[i], e1[i], t1[i].kind, s2[i], e2[i], t2[i].kind);
}

/// When one lexing stops at a non-whitespace `p` and another goes further, the next
/// token of the longer one starts exactly at `p`.
#[verifier::spinoff_prover]
proof fn lemma_next_token_at(src: Seq<char>, file: Option<&'static str>, from: int,
    t1: Seq<Token>, s1: Seq<int>, e1: Seq<int>, u1: int,
    t2: Seq<Token>, s2: Seq<int>, e2: Seq<int>, p: int)
    requires
        lexed(src, file, from, t1, s1, e1, u1),
        lexed(src, file, from, t2, s2, e2, p),
        t2.len() < t1.len(),
        p < src.len(),
        !is_whitespace_spec(src[p]),
    ensures
        s1[t2.len() as int] == p,
{
    let n = t2.len() as int;
    if n > 0 {
        lemma_lexings_agree(src, file, from, t1, s1, e1, u1, t2, s2, e2, p, n - 1);
    }
    let g = gap_start(from, e1, n);
    assert(g == last_end(from, e2));
    lemma_lexeme_by_start(src, s1[n], e1[n], t1[n].kind);
    if s1[n] < p {
        assert(is_whitespace_spec(src[s1[n]]));
    } else if p < s1[n] {
        assert(is_whitespace_spec(src[p]));
    }
}

/// A lexing of the whole source has no fewer tokens than another one.
#[verifier::spinoff_prover]
proof fn lemma_lexing_not_shorter(src: Seq<char>, file: Option<&'static str>, from: int,
    ta: Seq<Token>, sa: Seq<int>, ea: Seq<int>, tb: Seq<Token>, sb: Seq<int>, eb: Seq<int>)
    requires
        lexed(src, file, from, ta, sa, ea, src.len() as int),
        lexed(src, file, from, tb, sb, eb, src.len() as int),
    ensures
        ta.len() >= tb.len(),
{
    if ta.len() < tb.len() {
        let n = ta.len() as int;
        if n > 0 {
            lemma_lexings_agree(src, file, from, tb, sb, eb, src.len() as int, ta, sa, ea, src.len() as int, n - 1);
        }
        assert(gap_start(from, eb, n) == last_end(from, ea));
        lemma_lexeme_by_start(src, sb[n], eb[n], tb[n].kind);
        assert(is_whitespace_spec(src[sb[n]]));
    }
}

/// A source has at most one lexing: two sequences of tokens that both cover the
/// source from the same place have the same number of tokens, each starting and
/// ending at the same characters and carrying the same span.
#[verifier::spinoff_prover]
pub proof fn lemma_lexing_unique(src: Seq<char>, file: Option<&'static str>, from: int,
    t1: Seq<Token>, s1: Seq<int>, e1: Seq<int>, t2: Seq<Token>, s2: Seq<int>, e2: Seq<int>)
    requires
        lexed(src, file, from, t1, s1, e1, src.len() as int),
        lexed(src, file, from, t2, s2, e2, src.len() as int),
    ensures
        t1.len() == t2.len(),
        s1 == s2,
        e1 == e2,
        forall|i: int| 0 <= i < t1.len() ==> (#[trigger] t1[i]).span == t2[i].span,
{
    lemma_lexing_not_shorter(src, file, from, t1, s1, e1, t2, s2, e2);
    lemma_lexing_not_shorter(src, file, from, t2, s2, e2, t1, s1, e1);
    if t1.len() > 0 {
        lemma_lexings_agree(src, file, from, t1, s1, e1, src.len() as int, t2, s2, e2, src.len() as int,
            t1.len() - 1);
    }
    assert(s1 =~= s2);
    assert(e1 =~= e2);
    assert forall|i: int| 0 <= i < t1.len() implies (#[trigger] t1[i]).span == t2[i].span by {
        assert(t1[i].span == span_for(src, file, s1[i], e1[i] - s1[i]));
        assert(t2[i].span == span_for(src, file, s2[i], e2[i] - s2[i]));
    }
}

/// Where the lexer fails, the source has no lexing: when the tokens read from `from`
/// reach a place where no token can start, no sequence of tokens covers the source
/// from `from`.
pub proof fn lemma_failure_has_no_lexing(src: Seq<char>, file: Option<&'static str>, from: int,
    msg: Seq<char>, span: Span)
    requires
        lex_failure(src, file, from, msg, span),
    ensures
        forall|t1: Seq<Token>, s1: Seq<int>, e1: Seq<int>|
            !#[trigger] lexed(src, file, from, t1, s1, e1, src.len() as int),
{
    let (t2, s2, e2, p) = choose|toks: Seq<Token>, starts: Seq<int>, ends: Seq<int>, p: int|
        #[trigger] lexed(src, file, from, toks, starts, ends, p) && lex_fails_at(src, file, p, msg, span);
    assert forall|t1: Seq<Token>, s1: Seq<int>, e1: Seq<int>|
        !#[trigger] lexed(src, file, from, t1, s1, e1, src.len() as int) by {
        if lexed(src, file, from, t1, s1, e1, src.len() as int) {
            lemma_no_full_lexing(src, file, from, t1, s1, e1, t2, s2, e2, p, msg, span);
        }
    }
}

#[verifier::spinoff_prover]
proof fn lemma_no_full_lexing(src: Seq<char>, file: Option<&'static str>, from: int,
    t1: Seq<Token>, s1: Seq<int>, e1: Seq<int>, t2: Seq<Token>, s2: Seq<int>, e2: Seq<int>, p: int,
    msg: Seq<char>, span: Span)
    requires
        lexed(src, file, from, t2, s2, e2, p),
        lex_fails_at(src, file, p, msg, span),
    ensures
        !lexed(src, file, from, t1, s1, e1, src.len() as int),
{
    if !lexed(src, file, from, t1, s1, e1, src.len() as int) {
        return;
    }
    assert(!is_whitespace_spec(src[p]));
    if t2.len() < t1.len() {
        lemma_next_token_at(src, file, from, t1, s1, e1, src.len() as int, t2, s2, e2, p);
        let n = t2.len() as int;
        lemma_no_lexeme_where_lexing_fails(src, file, p, msg, span, e1[n], t1[n].kind);
    } else {
        let n = t1.len() as int;
        if n > 0 {
            lemma_lexings_agree(src, file, from, t1, s1, e1, src.len() as int, t2, s2, e2, p, n - 1);
        }
        if t2.len() > t1.len() {
            assert(gap_start(from, e2, n) == last_end(from, e1));
            lemma_lexeme_by_start(src, s2[n], e2[n], t2[n].kind);
            assert(is_whitespace_spec(src[s2[n]]));
        } else {
            assert(last_end(from, e2) == last_end(from, e1));
            assert(is_whitespace_spec(src[p]));
        }
    }
}

} // verus!
