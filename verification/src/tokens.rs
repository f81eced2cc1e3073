//! The token model: a classification tag plus the exact source span it was
//! scanned from, and the error taxonomy for failed scans.

use crate::keywords::Keyword;
use vstd::prelude::*;

verus! {

/// Symbolic tokens: the closed set of punctuation and operator spellings.
#[derive(Debug, Clone, Copy, PartialEq, Eq, Structural)]
pub enum Symbol {
    /// `+`
    Plus,
    /// `-`
    Minus,
    /// `*`
    Times,
    /// `/`
    Slash,
    /// `%`
    Percent,
    /// `^`
    Caret,
    /// `#`
    Hash,
    /// `==`
    Eq,
    /// `~=`
    NotEq,
    /// `<=`
    LtEq,
    /// `>=`
    GtEq,
    /// `<`
    Lt,
    /// `>`
    Gt,
    /// `=`
    Assign,
    /// `(`
    ParenL,
    /// `)`
    ParenR,
    /// `{`
    BraceL,
    /// `}`
    BraceR,
    /// `[`
    BracketL,
    /// `]`
    BracketR,
    /// `;`
    Semicolon,
    /// `:`
    Colon,
    /// `,`
    Comma,
    /// `.`
    Dot,
    /// `..`
    Dot2,
    /// `...`
    Dot3,
}

/// Output of the lexer: what kind of lexical unit a token is.
#[derive(Debug, Clone, Copy, PartialEq, Eq, Structural)]
pub enum TokenKind {
    /// A maximal run of whitespace characters
    Whitespace,
    /// A reserved name
    Keyword(Keyword),
    /// An identifier (Unicode identifier rules, plus `_` as a start)
    Name,
    /// A symbolic token
    Symbol(Symbol),
    /// A line comment or a level-matched block comment
    Comment,
    /// A quoted string, escape sequences validated but not decoded
    String,
    /// A hexadecimal integer literal with its value
    Hex(u32),
    /// A decimal numeral, optional fraction and exponent; the span gives the
    /// exact text, turning it into a machine value is the consumer's concern
    Number,
    /// End of input; requesting further tokens keeps yielding this
    Eof,
}

/// Why a scan call failed, detected at the point of the scan.
#[derive(Debug, Clone, Copy, PartialEq, Eq, Structural)]
pub enum ErrorKind {
    /// A block comment reached end of input before a closer of its level
    UnterminatedComment,
    /// A quoted string reached end of input before its closing quote
    UnterminatedString,
    /// An unrecognized character follows a backslash inside a quoted string
    InvalidEscape,
    /// The characters after a leading digit form no valid numeral
    MalformedNumber,
    /// A long-bracket literal opener, which this lexer does not accept
    LongBracket,
    /// A character that starts no token class
    Unrecognized,
}

/// The position of one token inside the decoded input: the half-open range
/// `[start, end)` of character-stream offsets the token was scanned from.
/// For the single-byte decoder these offsets are byte offsets.
#[derive(Debug, Clone, Copy, PartialEq, Eq, Structural)]
pub struct Span {
    pub start: usize,
    pub end: usize,
}

/// An immutable pair of a source span and a classification tag.
#[derive(Debug, Clone, Copy, PartialEq, Eq, Structural)]
pub struct Token {
    pub span: Span,
    pub kind: TokenKind,
}

impl Token {
    pub fn new(span: Span, kind: TokenKind) -> (t: Token)
        ensures
            t.span == span,
            t.kind == kind,
    {
        Token { span, kind }
    }

    pub fn kind(&self) -> (k: TokenKind)
        ensures
            k == self.kind,
    {
        self.kind
    }

    pub fn span(&self) -> (s: Span)
        ensures
            s == self.span,
    {
        self.span
    }
}

} // verus!
