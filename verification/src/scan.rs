//! The specification of scanning: which token starts at a position of a
//! decoded character stream, where it ends, or why the scan fails — and
//! the stream-level laws the lexer obeys.

use crate::chars::{
    hex_digit_val, is_digit_char, is_escape_char, is_hex_digit_char, unicode_ws, xid_continue,
    xid_start,
};
use crate::encoding::decode_latin1;
use crate::keywords::keyword_of;
use crate::tokens::{ErrorKind, Span, Symbol, TokenKind};
use vstd::prelude::*;

verus! {

/// The outcome of scanning one token at a position of a character stream:
/// a token kind with the position just past its text, or the reason the
/// scan fails. Spec-level only.
pub enum ScanStep {
    Tok { kind: TokenKind, end: nat },
    Fail { err: ErrorKind },
}

/// The whitespace run predicate.
pub open spec fn ws_pred() -> spec_fn(char) -> bool {
    |c: char| unicode_ws(c)
}

/// The identifier-continuation predicate.
pub open spec fn xid_pred() -> spec_fn(char) -> bool {
    |c: char| xid_continue(c)
}

/// The decimal digit predicate.
pub open spec fn digit_pred() -> spec_fn(char) -> bool {
    |c: char| is_digit_char(c)
}

/// The hexadecimal digit predicate.
pub open spec fn hex_pred() -> spec_fn(char) -> bool {
    |c: char| is_hex_digit_char(c)
}

/// The line-comment content predicate: anything but a line terminator.
pub open spec fn line_pred() -> spec_fn(char) -> bool {
    |c: char| c != '\n' && c != '\r'
}

/// The level-marker predicate of long brackets.
pub open spec fn eq_pred() -> spec_fn(char) -> bool {
    |c: char| c == '='
}

/// The end of the maximal run of characters satisfying `p` starting at `i`.
pub open spec fn run_end(s: Seq<char>, i: nat, p: spec_fn(char) -> bool) -> nat
    decreases s.len() - i,
{
    if i < s.len() && p(s[i as int]) {
        run_end(s, (i + 1) as nat, p)
    } else {
        i
    }
}

/// A maximal run stays inside the stream, satisfies its predicate
/// throughout, and ends at the stream's end or at a failing character.
pub proof fn lemma_run_end_bounds(s: Seq<char>, i: nat, p: spec_fn(char) -> bool)
    requires
        i <= s.len(),
    ensures
        i <= run_end(s, i, p) <= s.len(),
        forall|k: int| i <= k < run_end(s, i, p) ==> p(s[k]),
        run_end(s, i, p) == s.len() || !p(s[run_end(s, i, p) as int]),
    decreases s.len() - i,
{
    if i < s.len() && p(s[i as int]) {
        lemma_run_end_bounds(s, (i + 1) as nat, p);
    }
}

/// A position bounding a run from above with a failing character (or the
/// stream's end) is exactly where the run ends.
pub proof fn lemma_run_end_is(s: Seq<char>, i: nat, j: nat, p: spec_fn(char) -> bool)
    requires
        i <= j <= s.len(),
        forall|k: int| i <= k < j ==> p(s[k]),
        j == s.len() || !p(s[j as int]),
    ensures
        run_end(s, i, p) == j,
    decreases j - i,
{
    if i < j {
        lemma_run_end_is(s, (i + 1) as nat, j, p);
    }
}

/// The value of the hexadecimal digits `s[i..j]`, most significant first.
pub open spec fn hex_val(s: Seq<char>, i: nat, j: nat) -> nat
    decreases j - i,
{
    if j <= i {
        0
    } else {
        hex_val(s, i, (j - 1) as nat) * 16 + hex_digit_val(s[j - 1])
    }
}

/// Scanning the rest of a quoted string from `i`: the string ends just
/// past its closing quote; a backslash must carry a recognized escape
/// designator; reaching the stream's end first is a failure.
pub open spec fn quoted_scan(s: Seq<char>, i: nat, quote: char) -> ScanStep
    decreases s.len() - i,
{
    if i >= s.len() {
        ScanStep::Fail { err: ErrorKind::UnterminatedString }
    } else if s[i as int] == quote {
        ScanStep::Tok { kind: TokenKind::String, end: (i + 1) as nat }
    } else if s[i as int] == '\\' {
        if i + 1 < s.len() && is_escape_char(s[i + 1 as int]) {
            quoted_scan(s, (i + 2) as nat, quote)
        } else {
            ScanStep::Fail { err: ErrorKind::InvalidEscape }
        }
    } else {
        quoted_scan(s, (i + 1) as nat, quote)
    }
}

/// Ordinary characters (neither the quote nor a backslash) do not change
/// where a quoted string scan ends.
pub proof fn lemma_quoted_scan_skip(s: Seq<char>, i: nat, j: nat, quote: char)
    requires
        i <= j <= s.len(),
        forall|k: int| i <= k < j ==> s[k] != quote && s[k] != '\\',
    ensures
        quoted_scan(s, i, quote) == quoted_scan(s, j, quote),
    decreases j - i,
{
    if i < j {
        lemma_quoted_scan_skip(s, (i + 1) as nat, j, quote);
    }
}

/// A quoted string token never ends past the stream.
pub proof fn lemma_quoted_scan_bounds(s: Seq<char>, i: nat, quote: char)
    requires
        i <= s.len(),
    ensures
        match quoted_scan(s, i, quote) {
            ScanStep::Tok { kind, end } => kind == TokenKind::String && i < end <= s.len(),
            ScanStep::Fail { err } => err == ErrorKind::UnterminatedString || err
                == ErrorKind::InvalidEscape,
        },
    decreases s.len() - i,
{
    if i < s.len() {
        if s[i as int] == quote {
        } else if s[i as int] == '\\' {
            if i + 1 < s.len() && is_escape_char(s[i + 1 as int]) {
                lemma_quoted_scan_bounds(s, (i + 2) as nat, quote);
            }
        } else {
            lemma_quoted_scan_bounds(s, (i + 1) as nat, quote);
        }
    }
}

/// Whether a long-bracket closer of the given level stands at `j`.
pub open spec fn closer_at(s: Seq<char>, j: nat, level: nat) -> bool {
    &&& j + level + 2 <= s.len()
    &&& s[j as int] == ']'
    &&& forall|k: int| j + 1 <= k < j + 1 + level ==> s[k] == '='
    &&& s[j + level + 1 as int] == ']'
}

/// The position just past the first closer of the given level at or after
/// `i`, if the stream holds one.
pub open spec fn block_end(s: Seq<char>, i: nat, level: nat) -> Option<nat>
    decreases s.len() - i,
{
    if i + level + 2 > s.len() {
        None
    } else if closer_at(s, i, level) {
        Some((i + level + 2) as nat)
    } else {
        block_end(s, (i + 1) as nat, level)
    }
}

/// Positions before the next `]` hold no closer, so skipping them does not
/// change where the block ends.
pub proof fn lemma_block_end_skip(s: Seq<char>, i: nat, j: nat, level: nat)
    requires
        i <= j <= s.len(),
        forall|k: int| i <= k < j ==> s[k] != ']',
    ensures
        block_end(s, i, level) == block_end(s, j, level),
    decreases j - i,
{
    if i < j {
        lemma_block_end_skip(s, (i + 1) as nat, j, level);
    }
}

/// A found block end lies within the stream, past its search start.
pub proof fn lemma_block_end_bounds(s: Seq<char>, i: nat, level: nat)
    ensures
        match block_end(s, i, level) {
            Some(e) => i + level + 2 <= e <= s.len(),
            None => true,
        },
    decreases s.len() - i,
{
    if i + level + 2 <= s.len() && !closer_at(s, i, level) {
        lemma_block_end_bounds(s, (i + 1) as nat, level);
    }
}

/// The long-bracket opener at `i`, if any: `[`, a run of `=`, `[` — giving
/// the level (the count of `=`) and the position just past the opener.
pub open spec fn block_opener(s: Seq<char>, i: nat) -> Option<(nat, nat)> {
    if i < s.len() && s[i as int] == '[' {
        let e = run_end(s, (i + 1) as nat, eq_pred());
        if e < s.len() && s[e as int] == '[' {
            Some((((e - (i + 1)) as nat, (e + 1) as nat)))
        } else {
            None
        }
    } else {
        None
    }
}

/// Scanning a comment whose `--` introducer ends at `i`: a long-bracket
/// opener commits to a level-matched block comment; otherwise the comment
/// runs to (and excludes) the next line terminator or the stream's end.
pub open spec fn comment_scan(s: Seq<char>, i: nat) -> ScanStep {
    match block_opener(s, i) {
        Some((level, cstart)) => match block_end(s, cstart, level) {
            Some(e) => ScanStep::Tok { kind: TokenKind::Comment, end: e },
            None => ScanStep::Fail { err: ErrorKind::UnterminatedComment },
        },
        None => ScanStep::Tok { kind: TokenKind::Comment, end: run_end(s, i, line_pred()) },
    }
}

/// The end of the exponent part starting at `m`, if `m` holds one: `e` or
/// `E`, an optional sign, and at least one digit; otherwise `m` itself.
pub open spec fn exp_end(s: Seq<char>, m: nat) -> nat {
    if m < s.len() && (s[m as int] == 'e' || s[m as int] == 'E') {
        let dstart = if m + 1 < s.len() && (s[m + 1 as int] == '+' || s[m + 1 as int] == '-') {
            (m + 2) as nat
        } else {
            (m + 1) as nat
        };
        let dend = run_end(s, dstart, digit_pred());
        if dend > dstart {
            dend
        } else {
            m
        }
    } else {
        m
    }
}

/// The end of the decimal numeral whose first digit stands at `p`: digits,
/// one optional fraction (`.` and digits), one optional exponent.
pub open spec fn float_end(s: Seq<char>, p: nat) -> nat {
    let int_end = run_end(s, (p + 1) as nat, digit_pred());
    let frac_end = if int_end < s.len() && s[int_end as int] == '.' {
        run_end(s, (int_end + 1) as nat, digit_pred())
    } else {
        int_end
    };
    exp_end(s, frac_end)
}

/// A numeral never ends past the stream, and covers at least its first
/// digit.
pub proof fn lemma_float_end_bounds(s: Seq<char>, p: nat)
    requires
        p < s.len(),
    ensures
        p < float_end(s, p) <= s.len(),
{
    lemma_run_end_bounds(s, (p + 1) as nat, digit_pred());
    let int_end = run_end(s, (p + 1) as nat, digit_pred());
    if int_end < s.len() && s[int_end as int] == '.' {
        lemma_run_end_bounds(s, (int_end + 1) as nat, digit_pred());
    }
    let frac_end = if int_end < s.len() && s[int_end as int] == '.' {
        run_end(s, (int_end + 1) as nat, digit_pred())
    } else {
        int_end
    };
    if frac_end < s.len() && (s[frac_end as int] == 'e' || s[frac_end as int] == 'E') {
        let dstart = if frac_end + 1 < s.len() && (s[frac_end + 1 as int] == '+' || s[frac_end + 1 as int]
            == '-') {
            (frac_end + 2) as nat
        } else {
            (frac_end + 1) as nat
        };
        lemma_run_end_bounds(s, dstart, digit_pred());
    }
}

/// Scanning a numeral whose first digit stands at `p`: a following `x`
/// commits to a hexadecimal integer (at least one digit, value within 32
/// bits); anything else is a decimal numeral.
pub open spec fn number_scan(s: Seq<char>, p: nat) -> ScanStep {
    if p + 1 < s.len() && s[p + 1 as int] == 'x' {
        let dstart = (p + 2) as nat;
        let dend = run_end(s, dstart, hex_pred());
        if dend == dstart {
            ScanStep::Fail { err: ErrorKind::MalformedNumber }
        } else if hex_val(s, dstart, dend) > u32::MAX {
            ScanStep::Fail { err: ErrorKind::MalformedNumber }
        } else {
            ScanStep::Tok { kind: TokenKind::Hex(hex_val(s, dstart, dend) as u32), end: dend }
        }
    } else {
        ScanStep::Tok { kind: TokenKind::Number, end: float_end(s, p) }
    }
}

/// A symbol token reaching to `e`.
pub open spec fn sym(y: Symbol, e: nat) -> ScanStep {
    ScanStep::Tok { kind: TokenKind::Symbol(y), end: e }
}

/// What scanning one token at position `p` of the stream `s` yields.
///
/// Dispatch is on the character at `p`: symbols take the longest match by
/// one or two characters of lookahead; `--` opens a comment; quotes open a
/// string; whitespace, identifier and digit classes each open their token;
/// the stream's end yields Eof at `p` itself; anything else fails.
pub open spec fn scan_spec(s: Seq<char>, p: nat) -> ScanStep {
    if p >= s.len() {
        ScanStep::Tok { kind: TokenKind::Eof, end: p }
    } else {
        let c = s[p as int];
        if c == '+' {
            sym(Symbol::Plus, (p + 1) as nat)
        } else if c == '-' {
            if p + 1 < s.len() && s[p + 1 as int] == '-' {
                comment_scan(s, (p + 2) as nat)
            } else {
                sym(Symbol::Minus, (p + 1) as nat)
            }
        } else if c == '*' {
            sym(Symbol::Times, (p + 1) as nat)
        } else if c == '/' {
            sym(Symbol::Slash, (p + 1) as nat)
        } else if c == '%' {
            sym(Symbol::Percent, (p + 1) as nat)
        } else if c == '^' {
            sym(Symbol::Caret, (p + 1) as nat)
        } else if c == '#' {
            sym(Symbol::Hash, (p + 1) as nat)
        } else if c == '=' {
            if p + 1 < s.len() && s[p + 1 as int] == '=' {
                sym(Symbol::Eq, (p + 2) as nat)
            } else {
                sym(Symbol::Assign, (p + 1) as nat)
            }
        } else if c == '~' {
            if p + 1 < s.len() && s[p + 1 as int] == '=' {
                sym(Symbol::NotEq, (p + 2) as nat)
            } else {
                ScanStep::Fail { err: ErrorKind::Unrecognized }
            }
        } else if c == '<' {
            if p + 1 < s.len() && s[p + 1 as int] == '=' {
                sym(Symbol::LtEq, (p + 2) as nat)
            } else {
                sym(Symbol::Lt, (p + 1) as nat)
            }
        } else if c == '>' {
            if p + 1 < s.len() && s[p + 1 as int] == '=' {
                sym(Symbol::GtEq, (p + 2) as nat)
            } else {
                sym(Symbol::Gt, (p + 1) as nat)
            }
        } else if c == '(' {
            sym(Symbol::ParenL, (p + 1) as nat)
        } else if c == ')' {
            sym(Symbol::ParenR, (p + 1) as nat)
        } else if c == '{' {
            sym(Symbol::BraceL, (p + 1) as nat)
        } else if c == '}' {
            sym(Symbol::BraceR, (p + 1) as nat)
        } else if c == '[' {
            if p + 1 < s.len() && (s[p + 1 as int] == '[' || s[p + 1 as int] == '=') {
                ScanStep::Fail { err: ErrorKind::LongBracket }
            } else {
                sym(Symbol::BracketL, (p + 1) as nat)
            }
        } else if c == ']' {
            sym(Symbol::BracketR, (p + 1) as nat)
        } else if c == ';' {
            sym(Symbol::Semicolon, (p + 1) as nat)
        } else if c == ':' {
            sym(Symbol::Colon, (p + 1) as nat)
        } else if c == ',' {
            sym(Symbol::Comma, (p + 1) as nat)
        } else if c == '.' {
            if p + 1 < s.len() && s[p + 1 as int] == '.' {
                if p + 2 < s.len() && s[p + 2 as int] == '.' {
                    sym(Symbol::Dot3, (p + 3) as nat)
                } else {
                    sym(Symbol::Dot2, (p + 2) as nat)
                }
            } else {
                sym(Symbol::Dot, (p + 1) as nat)
            }
        } else if c == '\'' || c == '"' {
            quoted_scan(s, (p + 1) as nat, c)
        } else if is_digit_char(c) {
            number_scan(s, p)
        } else if unicode_ws(c) {
            ScanStep::Tok { kind: TokenKind::Whitespace, end: run_end(s, (p + 1) as nat, ws_pred()) }
        } else if xid_start(c) || c == '_' {
            let e = run_end(s, (p + 1) as nat, xid_pred());
            match keyword_of(s.subrange(p as int, e as int)) {
                Some(k) => ScanStep::Tok { kind: TokenKind::Keyword(k), end: e },
                None => ScanStep::Tok { kind: TokenKind::Name, end: e },
            }
        } else {
            ScanStep::Fail { err: ErrorKind::Unrecognized }
        }
    }
}

/// Every token a scan yields starts at the scanned position and ends at or
/// before the stream's end; only Eof is empty, and it ends where it began.
pub proof fn lemma_scan_spec_bounds(s: Seq<char>, p: nat)
    requires
        p <= s.len(),
    ensures
        match scan_spec(s, p) {
            ScanStep::Tok { kind, end } => p <= end <= s.len() && (kind == TokenKind::Eof <==> end
                == p) && (kind == TokenKind::Eof ==> p == s.len()),
            ScanStep::Fail { err } => true,
        },
{
    if p < s.len() {
        let c = s[p as int];
        if c == '\'' || c == '"' {
            lemma_quoted_scan_bounds(s, (p + 1) as nat, c);
        } else if c == '-' && p + 1 < s.len() && s[p + 1 as int] == '-' {
            match block_opener(s, (p + 2) as nat) {
                Some((level, cstart)) => {
                    lemma_run_end_bounds(s, (p + 3) as nat, eq_pred());
                    lemma_block_end_bounds(s, cstart, level);
                },
                None => {
                    lemma_run_end_bounds(s, (p + 2) as nat, line_pred());
                },
            }
        } else if is_digit_char(c) {
            if p + 1 < s.len() && s[p + 1 as int] == 'x' {
                lemma_run_end_bounds(s, (p + 2) as nat, hex_pred());
            } else {
                lemma_float_end_bounds(s, p);
            }
        } else if unicode_ws(c) {
            lemma_run_end_bounds(s, (p + 1) as nat, ws_pred());
        } else if xid_start(c) || c == '_' {
            lemma_run_end_bounds(s, (p + 1) as nat, xid_pred());
        }
    }
}

/// Law: once the cursor is exhausted, scanning yields Eof exactly there,
/// without error; since the position does not advance, repeated scans keep
/// yielding Eof.
pub proof fn lemma_eof_idempotent(s: Seq<char>, p: nat)
    requires
        p >= s.len(),
    ensures
        scan_spec(s, p) == (ScanStep::Tok { kind: TokenKind::Eof, end: p }),
{
}

/// The concatenation of the pieces of `s` the spans point at, in order.
pub open spec fn concat_spans(s: Seq<char>, spans: Seq<Span>) -> Seq<char>
    decreases spans.len(),
{
    if spans.len() == 0 {
        Seq::empty()
    } else {
        s.subrange(spans[0].start as int, spans[0].end as int) + concat_spans(
            s,
            spans.drop_first(),
        )
    }
}

/// Chained spans concatenate to the stretch they jointly cover.
proof fn lemma_concat_spans_chain(s: Seq<char>, spans: Seq<Span>)
    requires
        spans.len() > 0,
        forall|i: int| 0 <= i < spans.len() ==> (#[trigger] spans[i]).start <= spans[i].end <= s.len(),
        forall|i: int| 0 <= i < spans.len() - 1 ==> spans[i].end == spans[i + 1 as int].start,
    ensures
        spans[0].start <= spans[spans.len() - 1].end,
        concat_spans(s, spans) == s.subrange(
            spans[0].start as int,
            spans[spans.len() - 1].end as int,
        ),
    decreases spans.len(),
{
    let rest = spans.drop_first();
    if spans.len() == 1 {
        assert(concat_spans(s, rest) =~= Seq::<char>::empty());
        assert(concat_spans(s, spans) =~= s.subrange(
            spans[0].start as int,
            spans[0].end as int,
        ));
    } else {
        lemma_concat_spans_chain(s, rest);
        assert(rest[0] == spans[1]);
        assert(rest[rest.len() - 1] == spans[spans.len() - 1]);
        assert(spans[0].end == spans[1].start);
        assert(concat_spans(s, spans) == s.subrange(spans[0].start as int, spans[0].end as int)
            + s.subrange(spans[1].start as int, spans[spans.len() - 1].end as int));
        assert(concat_spans(s, spans) =~= s.subrange(
            spans[0].start as int,
            spans[spans.len() - 1].end as int,
        ));
    }
}

/// Law: span exactness — tokens scanned consecutively carry spans that
/// chain (each starts where the one before ended), so concatenating all
/// their spans from the start of the input to its end reproduces the
/// input exactly: no characters dropped or duplicated.
pub proof fn lemma_span_exactness(s: Seq<char>, spans: Seq<Span>)
    requires
        spans.len() > 0,
        spans[0].start == 0,
        spans[spans.len() - 1].end == s.len(),
        forall|i: int| 0 <= i < spans.len() ==> (#[trigger] spans[i]).start <= spans[i].end <= s.len(),
        forall|i: int| 0 <= i < spans.len() - 1 ==> spans[i].end == spans[i + 1 as int].start,
    ensures
        concat_spans(s, spans) == s,
{
    lemma_concat_spans_chain(s, spans);
    assert(s.subrange(0, s.len() as int) =~= s);
}

/// Whether scanning from `p` keeps succeeding until it reaches Eof.
pub open spec fn scans_to_eof(s: Seq<char>, p: nat) -> bool
    decreases s.len() - p,
{
    match scan_spec(s, p) {
        ScanStep::Tok { kind, end } => kind == TokenKind::Eof || (p < end <= s.len()
            && scans_to_eof(s, end)),
        ScanStep::Fail { err } => false,
    }
}

/// The spans of all tokens scanned from `p` on, up to (and excluding) Eof.
pub open spec fn scan_spans(s: Seq<char>, p: nat) -> Seq<Span>
    decreases s.len() - p,
{
    match scan_spec(s, p) {
        ScanStep::Tok { kind, end } => if kind == TokenKind::Eof || !(p < end <= s.len()) {
            Seq::empty()
        } else {
            seq![Span { start: p as usize, end: end as usize }] + scan_spans(s, end)
        },
        ScanStep::Fail { err } => Seq::empty(),
    }
}

/// Law: span exactness — when scanning succeeds through to Eof, the spans
/// of the tokens produced, concatenated in order, reproduce the scanned
/// input exactly: no characters dropped or duplicated.
pub proof fn lemma_scan_spans_exact(s: Seq<char>, p: nat)
    requires
        p <= s.len() <= usize::MAX,
        scans_to_eof(s, p),
    ensures
        concat_spans(s, scan_spans(s, p)) == s.subrange(p as int, s.len() as int),
    decreases s.len() - p,
{
    lemma_scan_spec_bounds(s, p);
    match scan_spec(s, p) {
        ScanStep::Tok { kind, end } => {
            if kind == TokenKind::Eof {
                assert(p == s.len());
                assert(concat_spans(s, scan_spans(s, p)) =~= s.subrange(
                    p as int,
                    s.len() as int,
                ));
            } else {
                lemma_scan_spans_exact(s, end);
                assert(scan_spans(s, p) == seq![Span { start: p as usize, end: end as usize }]
                    + scan_spans(s, end));
                assert(scan_spans(s, p).drop_first() =~= scan_spans(s, end));
                assert(concat_spans(s, scan_spans(s, p)) =~= s.subrange(p as int, s.len() as int));
            }
        },
        ScanStep::Fail { err } => {
            assert(false);
        },
    }
}

/// Law: decoder equivalence for ASCII — a byte buffer of ASCII bytes and
/// the text of the same characters decode to the same stream, so scanning
/// yields the same outcome at every position under either decoder.
pub proof fn lemma_scan_ascii_equivalence(bytes: Seq<u8>, text: Seq<char>, p: nat)
    requires
        text.len() == bytes.len(),
        forall|i: int| 0 <= i < bytes.len() ==> (#[trigger] bytes[i]) < 128 && text[i] == bytes[i] as char,
    ensures
        decode_latin1(bytes) == text,
        scan_spec(decode_latin1(bytes), p) == scan_spec(text, p),
{
    assert forall|i: int| 0 <= i < bytes.len() implies decode_latin1(bytes)[i] == text[i] by {
        assert(bytes[i] < 128 && text[i] == bytes[i] as char);
        assert(crate::chars::win1252(bytes[i]) == bytes[i] as char);
    }
    assert(decode_latin1(bytes) =~= text);
}

} // verus!
