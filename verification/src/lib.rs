//! A lexical analyzer for a small scripting language.
//!
//! Raw input is walked one character at a time through a pluggable
//! decoder (a single-byte code-page decoder or a full-Unicode decoder)
//! and classified into typed tokens with exact source spans.

mod chars;
mod encoding;
mod keywords;
mod lexer;
mod scan;
mod tokens;

pub use chars::{is_unicode_whitespace, is_xid_continue_char, is_xid_start_char, win1252_char_decode};
pub use encoding::{Decoder, Latin1Decoded, Latin1Decoder, Utf8Decoder};
pub use keywords::{keyword_of, Keyword};
pub use lexer::{is_string_block, Error, Lexer};
pub use scan::{
    concat_spans, lemma_eof_idempotent, lemma_scan_ascii_equivalence,
    lemma_scan_spans_exact, lemma_scan_spec_bounds, lemma_span_exactness, scan_spans, scan_spec,
    scans_to_eof, ScanStep,
};
pub use tokens::{ErrorKind, Span, Symbol, Token, TokenKind};
