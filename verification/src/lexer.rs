//! The lexer engine: a scanning state machine that consumes a decoder and
//! produces one token per call, with the exact span it was scanned from.

use crate::chars::{digit_char, escape_char, hex_digit_char, hex_digit_val, hex_digit_value,
    is_unicode_whitespace,
    is_xid_continue_char, is_xid_start_char};
use crate::encoding::Decoder;
use crate::keywords::keyword_from_chars;
use crate::scan::{block_end, block_opener, closer_at, comment_scan, digit_pred, eq_pred, exp_end,
    float_end, hex_pred, hex_val, lemma_block_end_skip, lemma_run_end_bounds, lemma_run_end_is,
    lemma_quoted_scan_skip, line_pred, number_scan, quoted_scan, run_end, scan_spec, ws_pred,
    xid_pred, ScanStep};
use crate::tokens::{ErrorKind, Span, Symbol, Token, TokenKind};
use vstd::prelude::*;

verus! {

/// A failed scan, with the reason the scan failed.
#[derive(Debug, Clone, Copy, PartialEq, Eq, Structural)]
pub struct Error {
    pub kind: ErrorKind,
}

/// Whether a long-bracket opener (`[`, a run of `=`, `[`) stands at the
/// decoder's cursor; if so, its level and the position just past it.
pub fn is_string_block<D: Decoder>(decoder: &D) -> (r: Option<(usize, usize)>)
    requires
        decoder.wf(),
    ensures
        match r {
            Some(lc) => block_opener(decoder.stream(), decoder.pos()) == Some(
                ((lc.0 as nat, lc.1 as nat)),
            ) && lc.0 + 2 <= lc.1 <= decoder.stream().len(),
            None => block_opener(decoder.stream(), decoder.pos()) is None,
        },
{
    proof {
        decoder.lemma_wf();
    }
    let ghost s = decoder.stream();
    let ghost p = decoder.pos();
    let first = decoder.peek_char();
    let opens = match first {
        Some(c) => c == '[',
        None => false,
    };
    if !opens {
        return None;
    }
    let mut k: usize = 1;
    loop
        invariant
            decoder.wf(),
            s == decoder.stream(),
            p == decoder.pos(),
            p < s.len(),
            s.len() <= usize::MAX,
            s[p as int] == '[',
            1 <= k,
            p + k <= s.len(),
            forall|j: int| p + 1 <= j < p + k ==> s[j] == '=',
        ensures
            1 <= k,
            p + k <= s.len(),
            forall|j: int| p + 1 <= j < p + k ==> s[j] == '=',
            p + k == s.len() || s[p + k] != '=',
        decreases s.len() - (p + k),
    {
        let pk = decoder.peek_ahead(k);
        let is_eq = match pk {
            Some(cc) => cc == '=',
            None => false,
        };
        if is_eq {
            k = k + 1;
        } else {
            break;
        }
    }
    proof {
        lemma_run_end_is(s, (p + 1) as nat, (p + k) as nat, eq_pred());
    }
    let pb = decoder.peek_ahead(k);
    let closes = match pb {
        Some(cc) => cc == '[',
        None => false,
    };
    if closes {
        let level = k - 1;
        let pos = decoder.position();
        Some((level, pos + k + 1))
    } else {
        None
    }
}

/// The lexer: a token-level cursor over a decoder. Each call of `token`
/// or `token_kind` scans exactly one token starting at the cursor and
/// advances past its text.
pub struct Lexer<D> {
    decoder: D,
}

impl<D: Decoder> Lexer<D> {
    /// The whole decoded input the lexer walks.
    pub closed spec fn stream(&self) -> Seq<char> {
        self.decoder.stream()
    }

    /// The position of the token-level cursor.
    pub closed spec fn pos(&self) -> nat {
        self.decoder.pos()
    }

    /// The lexer's internal invariant.
    pub closed spec fn wf(&self) -> bool {
        self.decoder.wf()
    }

    /// The cursor never stands past the stream's end.
    pub proof fn lemma_wf(&self)
        requires
            self.wf(),
        ensures
            self.pos() <= self.stream().len() <= usize::MAX,
    {
        self.decoder.lemma_wf();
    }

    pub fn new(decoder: D) -> (l: Lexer<D>)
        requires
            decoder.wf(),
        ensures
            l.wf(),
            l.stream() == decoder.stream(),
            l.pos() == decoder.pos(),
    {
        Lexer { decoder }
    }

    /// Consume the maximal run of decimal digits at the cursor.
    fn skip_digits(&mut self)
        requires
            old(self).wf(),
        ensures
            final(self).wf(),
            final(self).stream() == old(self).stream(),
            final(self).pos() == run_end(old(self).stream(), old(self).pos(), digit_pred()),
            old(self).pos() <= final(self).pos() <= final(self).stream().len(),
    {
        proof {
            self.decoder.lemma_wf();
        }
        let ghost s = self.decoder.stream();
        let ghost p0 = self.decoder.pos();
        loop
            invariant
                self.decoder.wf(),
                s == self.decoder.stream(),
                s == old(self).stream(),
                p0 == old(self).pos(),
                p0 <= self.decoder.pos() <= s.len(),
                forall|j: int| p0 <= j < self.decoder.pos() ==> digit_pred()(s[j]),
            ensures
                self.decoder.wf(),
                s == self.decoder.stream(),
                self.decoder.pos() == run_end(s, p0, digit_pred()),
                p0 <= self.decoder.pos() <= s.len(),
            decreases s.len() - self.decoder.pos(),
        {
            let nx = self.decoder.peek_char();
            let go = match nx {
                Some(c) => digit_char(c),
                None => false,
            };
            if go {
                let _ = self.decoder.next_char();
            } else {
                proof {
                    lemma_run_end_is(s, p0, self.decoder.pos(), digit_pred());
                }
                break;
            }
        }
    }

    /// Consume the maximal run of whitespace characters at the cursor.
    fn skip_whitespace(&mut self)
        requires
            old(self).wf(),
        ensures
            final(self).wf(),
            final(self).stream() == old(self).stream(),
            final(self).pos() == run_end(old(self).stream(), old(self).pos(), ws_pred()),
            old(self).pos() <= final(self).pos() <= final(self).stream().len(),
    {
        proof {
            self.decoder.lemma_wf();
        }
        let ghost s = self.decoder.stream();
        let ghost p0 = self.decoder.pos();
        loop
            invariant
                self.decoder.wf(),
                s == self.decoder.stream(),
                s == old(self).stream(),
                p0 == old(self).pos(),
                p0 <= self.decoder.pos() <= s.len(),
                forall|j: int| p0 <= j < self.decoder.pos() ==> ws_pred()(s[j]),
            ensures
                self.decoder.wf(),
                s == self.decoder.stream(),
                self.decoder.pos() == run_end(s, p0, ws_pred()),
                p0 <= self.decoder.pos() <= s.len(),
            decreases s.len() - self.decoder.pos(),
        {
            let nx = self.decoder.peek_char();
            let go = match nx {
                Some(c) => is_unicode_whitespace(c),
                None => false,
            };
            if go {
                let _ = self.decoder.next_char();
            } else {
                proof {
                    lemma_run_end_is(s, p0, self.decoder.pos(), ws_pred());
                }
                break;
            }
        }
    }

    /// Scan the rest of a name whose first character `c0` was just
    /// consumed, and classify the whole span against the keyword table.
    fn scan_name(&mut self, c0: char) -> (r: TokenKind)
        requires
            old(self).wf(),
            old(self).pos() >= 1,
            old(self).stream()[old(self).pos() - 1] == c0,
        ensures
            final(self).wf(),
            final(self).stream() == old(self).stream(),
            final(self).pos() == run_end(old(self).stream(), old(self).pos(), xid_pred()),
            old(self).pos() <= final(self).pos() <= final(self).stream().len(),
            r == (match crate::keywords::keyword_of(
                old(self).stream().subrange(
                    old(self).pos() - 1,
                    run_end(old(self).stream(), old(self).pos(), xid_pred()) as int,
                ),
            ) {
                Some(k) => TokenKind::Keyword(k),
                None => TokenKind::Name,
            }),
    {
        proof {
            self.decoder.lemma_wf();
        }
        let ghost s = self.decoder.stream();
        let ghost p0 = self.decoder.pos();
        let mut buf: Vec<char> = Vec::new();
        buf.push(c0);
        loop
            invariant
                self.decoder.wf(),
                s == self.decoder.stream(),
                s == old(self).stream(),
                p0 == old(self).pos(),
                p0 <= self.decoder.pos() <= s.len(),
                p0 >= 1,
                forall|j: int| p0 <= j < self.decoder.pos() ==> xid_pred()(s[j]),
                buf@ =~= s.subrange(p0 - 1, self.decoder.pos() as int),
            ensures
                self.decoder.wf(),
                s == self.decoder.stream(),
                self.decoder.pos() == run_end(s, p0, xid_pred()),
                p0 <= self.decoder.pos() <= s.len(),
                buf@ =~= s.subrange(p0 - 1, self.decoder.pos() as int),
            decreases s.len() - self.decoder.pos(),
        {
            let nx = self.decoder.peek_char();
            let go = match nx {
                Some(c) => is_xid_continue_char(c),
                None => false,
            };
            if go {
                match self.decoder.next_char() {
                    Some(c) => {
                        buf.push(c);
                        proof {
                            assert(buf@ =~= s.subrange(p0 - 1, self.decoder.pos() as int));
                        }
                    },
                    None => {
                        proof {
                            assert(false);
                        }
                    },
                }
            } else {
                proof {
                    lemma_run_end_is(s, p0, self.decoder.pos(), xid_pred());
                }
                break;
            }
        }
        match keyword_from_chars(buf.as_slice()) {
            Some(k) => TokenKind::Keyword(k),
            None => TokenKind::Name,
        }
    }

    /// Scan the rest of a quoted string whose opening quote was just
    /// consumed: search for the closing quote or a backslash, validating
    /// each escape designator on the way.
    fn scan_string(&mut self, quote: char) -> (r: Result<TokenKind, Error>)
        requires
            old(self).wf(),
            (quote as u32) < 128,
        ensures
            final(self).wf(),
            final(self).stream() == old(self).stream(),
            old(self).pos() <= final(self).pos() <= final(self).stream().len(),
            match quoted_scan(old(self).stream(), old(self).pos(), quote) {
                ScanStep::Tok { kind, end } => r == Ok::<TokenKind, Error>(kind) && final(self).pos() == end,
                ScanStep::Fail { err } => r == Err::<TokenKind, Error>((Error { kind: err })),
            },
    {
        proof {
            self.decoder.lemma_wf();
        }
        let ghost s = self.decoder.stream();
        let ghost p0 = self.decoder.pos();
        loop
            invariant
                self.decoder.wf(),
                s == self.decoder.stream(),
                s == old(self).stream(),
                p0 == old(self).pos(),
                p0 <= self.decoder.pos() <= s.len(),
                (quote as u32) < 128,
                quoted_scan(s, p0, quote) == quoted_scan(s, self.decoder.pos(), quote),
            decreases s.len() - self.decoder.pos(),
        {
            match self.decoder.find_char2(quote, '\\') {
                None => {
                    proof {
                        lemma_quoted_scan_skip(s, self.decoder.pos(), s.len(), quote);
                    }
                    return Err(Error { kind: ErrorKind::UnterminatedString });
                },
                Some(j) => {
                    proof {
                        lemma_quoted_scan_skip(s, self.decoder.pos(), j as nat, quote);
                    }
                    self.decoder.advance_to(j);
                    let cj = match self.decoder.next_char() {
                        Some(cc) => cc,
                        None => {
                            proof {
                                assert(false);
                            }
                            quote
                        },
                    };
                    if cj == quote {
                        return Ok(TokenKind::String);
                    } else {
                        match self.decoder.next_char() {
                            None => {
                                return Err(Error { kind: ErrorKind::InvalidEscape });
                            },
                            Some(ec) => {
                                if !escape_char(ec) {
                                    return Err(Error { kind: ErrorKind::InvalidEscape });
                                }
                            },
                        }
                    }
                },
            }
        }
    }

    /// Scan the rest of a comment whose `--` introducer was just consumed:
    /// a long-bracket opener commits to a block comment closed at its own
    /// level; otherwise the comment runs to the next line terminator,
    /// which stays unconsumed.
    fn scan_comment(&mut self) -> (r: Result<TokenKind, Error>)
        requires
            old(self).wf(),
        ensures
            final(self).wf(),
            final(self).stream() == old(self).stream(),
            old(self).pos() <= final(self).pos() <= final(self).stream().len(),
            match comment_scan(old(self).stream(), old(self).pos()) {
                ScanStep::Tok { kind, end } => r == Ok::<TokenKind, Error>(kind) && final(self).pos() == end,
                ScanStep::Fail { err } => r == Err::<TokenKind, Error>((Error { kind: err })),
            },
    {
        proof {
            self.decoder.lemma_wf();
        }
        let ghost s = self.decoder.stream();
        let ghost p0 = self.decoder.pos();
        match is_string_block(&self.decoder) {
            Some((level, cstart)) => {
                proof {
                    lemma_run_end_bounds(s, (p0 + 1) as nat, eq_pred());
                    assert(p0 + 2 <= cstart);
                }
                self.decoder.advance_to(cstart);
                loop
                    invariant
                        self.decoder.wf(),
                        s == self.decoder.stream(),
                        s == old(self).stream(),
                        p0 == old(self).pos(),
                        p0 + 2 <= cstart,
                        s.len() <= usize::MAX,
                        cstart <= self.decoder.pos() <= s.len(),
                        level + 2 <= cstart,
                        block_opener(s, p0) == Some(((level as nat, cstart as nat))),
                        block_end(s, cstart as nat, level as nat) == block_end(
                            s,
                            self.decoder.pos(),
                            level as nat,
                        ),
                        comment_scan(s, p0) == (match block_end(s, cstart as nat, level as nat) {
                            Some(e) => ScanStep::Tok { kind: TokenKind::Comment, end: e },
                            None => ScanStep::Fail { err: ErrorKind::UnterminatedComment },
                        }),
                    decreases s.len() - self.decoder.pos(),
                {
                    match self.decoder.find_char(']') {
                        None => {
                            proof {
                                lemma_block_end_skip(s, self.decoder.pos(), s.len(), level as nat);
                            }
                            return Err(Error { kind: ErrorKind::UnterminatedComment });
                        },
                        Some(j) => {
                            proof {
                                lemma_block_end_skip(s, self.decoder.pos(), j as nat, level as nat);
                            }
                            self.decoder.advance_to(j);
                            let mut m: usize = 0;
                            let mut matched = true;
                            while m < level
                                invariant
                                    self.decoder.wf(),
                                    s == self.decoder.stream(),
                                    self.decoder.pos() == j,
                                    j < s.len(),
                                    s.len() <= usize::MAX,
                                    m <= level,
                                    level + 2 <= cstart <= s.len(),
                                    matched ==> forall|t: int| j + 1 <= t < j + 1 + m ==> s[t] == '=',
                                    !matched ==> !closer_at(s, j as nat, level as nat),
                                ensures
                                    matched ==> forall|t: int|
                                        j + 1 <= t < j + 1 + level ==> s[t] == '=',
                                    !matched ==> !closer_at(s, j as nat, level as nat),
                                decreases level - m,
                            {
                                let pm = self.decoder.peek_ahead(1 + m);
                                let okm = match pm {
                                    Some(cc) => cc == '=',
                                    None => false,
                                };
                                if okm {
                                    m = m + 1;
                                } else {
                                    matched = false;
                                    proof {
                                        assert(!closer_at(s, j as nat, level as nat));
                                    }
                                    break;
                                }
                            }
                            if matched {
                                let pb = self.decoder.peek_ahead(1 + level);
                                let okb = match pb {
                                    Some(cc) => cc == ']',
                                    None => false,
                                };
                                if okb {
                                    proof {
                                        assert(closer_at(s, j as nat, level as nat));
                                        assert(block_end(s, j as nat, level as nat) == Some(
                                            (j + level + 2) as nat,
                                        ));
                                    }
                                    self.decoder.advance_to(j + level + 2);
                                    return Ok(TokenKind::Comment);
                                } else {
                                    proof {
                                        assert(!closer_at(s, j as nat, level as nat));
                                    }
                                }
                            }
                            proof {
                                assert(block_end(s, j as nat, level as nat) == block_end(
                                    s,
                                    (j + 1) as nat,
                                    level as nat,
                                ));
                            }
                            self.decoder.advance_to(j + 1);
                        },
                    }
                }
            },
            None => {
                match self.decoder.find_char2('\n', '\r') {
                    Some(j) => {
                        proof {
                            lemma_run_end_is(s, p0, j as nat, line_pred());
                        }
                        self.decoder.advance_to(j);
                        Ok(TokenKind::Comment)
                    },
                    None => {
                        proof {
                            lemma_run_end_is(s, p0, s.len(), line_pred());
                        }
                        let n = self.decoder.stream_len();
                        self.decoder.advance_to(n);
                        Ok(TokenKind::Comment)
                    },
                }
            },
        }
    }

    /// Scan the rest of a numeral whose first digit was just consumed: an
    /// `x` commits to a hexadecimal integer; anything else is a decimal
    /// numeral with optional fraction and exponent.
    fn scan_number(&mut self) -> (r: Result<TokenKind, Error>)
        requires
            old(self).wf(),
            old(self).pos() >= 1,
        ensures
            final(self).wf(),
            final(self).stream() == old(self).stream(),
            old(self).pos() <= final(self).pos() <= final(self).stream().len(),
            match number_scan(old(self).stream(), (old(self).pos() - 1) as nat) {
                ScanStep::Tok { kind, end } => r == Ok::<TokenKind, Error>(kind) && final(self).pos() == end,
                ScanStep::Fail { err } => r == Err::<TokenKind, Error>((Error { kind: err })),
            },
    {
        proof {
            self.decoder.lemma_wf();
        }
        let ghost s = self.decoder.stream();
        let ghost p0 = self.decoder.pos();
        let nx = self.decoder.peek_char();
        let isx = match nx {
            Some(c) => c == 'x',
            None => false,
        };
        if isx {
            let _ = self.decoder.next_char();
            let ghost dstart = self.decoder.pos();
            let mut val: u32 = 0;
            let mut any = false;
            let mut ovf = false;
            loop
                invariant
                    self.decoder.wf(),
                    s == self.decoder.stream(),
                    s == old(self).stream(),
                    p0 == old(self).pos(),
                    dstart == p0 + 1,
                    dstart <= self.decoder.pos() <= s.len(),
                    forall|j: int| dstart <= j < self.decoder.pos() ==> hex_pred()(s[j]),
                    any == (self.decoder.pos() > dstart),
                    !ovf ==> val == hex_val(s, dstart, self.decoder.pos()),
                    ovf ==> hex_val(s, dstart, self.decoder.pos()) > u32::MAX,
                ensures
                    self.decoder.wf(),
                    s == self.decoder.stream(),
                    dstart <= self.decoder.pos() <= s.len(),
                    self.decoder.pos() == run_end(s, dstart, hex_pred()),
                    any == (self.decoder.pos() > dstart),
                    !ovf ==> val == hex_val(s, dstart, self.decoder.pos()),
                    ovf ==> hex_val(s, dstart, self.decoder.pos()) > u32::MAX,
                decreases s.len() - self.decoder.pos(),
            {
                let nx2 = self.decoder.peek_char();
                let go = match nx2 {
                    Some(c2) => hex_digit_char(c2),
                    None => false,
                };
                if !go {
                    proof {
                        lemma_run_end_is(s, dstart, self.decoder.pos(), hex_pred());
                    }
                    break;
                }
                let ghost prev = self.decoder.pos();
                let c2 = match self.decoder.next_char() {
                    Some(cc) => cc,
                    None => {
                        proof {
                            assert(false);
                        }
                        'x'
                    },
                };
                let dv = hex_digit_value(c2);
                proof {
                    assert(hex_val(s, dstart, self.decoder.pos()) == hex_val(s, dstart, prev) * 16
                        + hex_digit_val(s[prev as int]));
                }
                if !ovf {
                    if val >= 0x1000_0000 {
                        ovf = true;
                        proof {
                            assert(hex_val(s, dstart, prev) * 16 >= 0x1000_0000 * 16);
                        }
                    } else {
                        val = val * 16 + dv;
                    }
                } else {
                    proof {
                        assert(hex_val(s, dstart, prev) * 16 >= hex_val(s, dstart, prev));
                    }
                }
                any = true;
            }
            if !any {
                return Err(Error { kind: ErrorKind::MalformedNumber });
            }
            if ovf {
                return Err(Error { kind: ErrorKind::MalformedNumber });
            }
            Ok(TokenKind::Hex(val))
        } else {
            self.skip_digits();
            let ghost int_end = self.decoder.pos();
            let nx2 = self.decoder.peek_char();
            let isdot = match nx2 {
                Some(c2) => c2 == '.',
                None => false,
            };
            if isdot {
                let _ = self.decoder.next_char();
                self.skip_digits();
            }
            let ghost frac_end = self.decoder.pos();
            let nx3 = self.decoder.peek_char();
            let ise = match nx3 {
                Some(c3) => c3 == 'e' || c3 == 'E',
                None => false,
            };
            if ise {
                let p1 = self.decoder.peek_ahead(1);
                let sign = match p1 {
                    Some(c4) => c4 == '+' || c4 == '-',
                    None => false,
                };
                let doff: usize = if sign {
                    2
                } else {
                    1
                };
                let pd = self.decoder.peek_ahead(doff);
                let hasdig = match pd {
                    Some(c5) => digit_char(c5),
                    None => false,
                };
                if hasdig {
                    let cur = self.decoder.position();
                    self.decoder.advance_to(cur + doff);
                    self.skip_digits();
                    proof {
                        lemma_run_end_bounds(s, (frac_end + doff) as nat, digit_pred());
                        assert(self.decoder.pos() == exp_end(s, frac_end));
                    }
                } else {
                    proof {
                        lemma_run_end_bounds(s, (frac_end + doff) as nat, digit_pred());
                        assert(run_end(s, (frac_end + doff) as nat, digit_pred()) == frac_end
                            + doff);
                        assert(self.decoder.pos() == exp_end(s, frac_end));
                    }
                }
            } else {
                proof {
                    assert(self.decoder.pos() == exp_end(s, frac_end));
                }
            }
            proof {
                assert(self.decoder.pos() == float_end(s, (p0 - 1) as nat));
            }
            Ok(TokenKind::Number)
        }
    }

    /// Scan exactly one token starting at the cursor and return its
    /// classification, advancing the cursor past the scanned text; at the
    /// stream's end this yields Eof, repeatably, without advancing.
    pub fn token_kind(&mut self) -> (r: Result<TokenKind, Error>)
        requires
            old(self).wf(),
        ensures
            final(self).wf(),
            final(self).stream() == old(self).stream(),
            old(self).pos() <= final(self).pos() <= final(self).stream().len(),
            match scan_spec(old(self).stream(), old(self).pos()) {
                ScanStep::Tok { kind, end } => r == Ok::<TokenKind, Error>(kind) && final(self).pos() == end,
                ScanStep::Fail { err } => r == Err::<TokenKind, Error>((Error { kind: err })),
            },
    {
        proof {
            self.decoder.lemma_wf();
        }
        let ghost s = self.decoder.stream();
        let ghost p = self.decoder.pos();
        let c = match self.decoder.next_char() {
            None => {
                return Ok(TokenKind::Eof);
            },
            Some(c) => c,
        };
        if c == '+' {
            Ok(TokenKind::Symbol(Symbol::Plus))
        } else if c == '-' {
            let nx = self.decoder.peek_char();
            let dash2 = match nx {
                Some(c2) => c2 == '-',
                None => false,
            };
            if dash2 {
                let _ = self.decoder.next_char();
                self.scan_comment()
            } else {
                Ok(TokenKind::Symbol(Symbol::Minus))
            }
        } else if c == '*' {
            Ok(TokenKind::Symbol(Symbol::Times))
        } else if c == '/' {
            Ok(TokenKind::Symbol(Symbol::Slash))
        } else if c == '%' {
            Ok(TokenKind::Symbol(Symbol::Percent))
        } else if c == '^' {
            Ok(TokenKind::Symbol(Symbol::Caret))
        } else if c == '#' {
            Ok(TokenKind::Symbol(Symbol::Hash))
        } else if c == '=' {
            let nx = self.decoder.peek_char();
            let eq2 = match nx {
                Some(c2) => c2 == '=',
                None => false,
            };
            if eq2 {
                let _ = self.decoder.next_char();
                Ok(TokenKind::Symbol(Symbol::Eq))
            } else {
                Ok(TokenKind::Symbol(Symbol::Assign))
            }
        } else if c == '~' {
            match self.decoder.next_char() {
                Some(c2) => {
                    if c2 == '=' {
                        Ok(TokenKind::Symbol(Symbol::NotEq))
                    } else {
                        Err(Error { kind: ErrorKind::Unrecognized })
                    }
                },
                None => Err(Error { kind: ErrorKind::Unrecognized }),
            }
        } else if c == '<' {
            let nx = self.decoder.peek_char();
            let eq2 = match nx {
                Some(c2) => c2 == '=',
                None => false,
            };
            if eq2 {
                let _ = self.decoder.next_char();
                Ok(TokenKind::Symbol(Symbol::LtEq))
            } else {
                Ok(TokenKind::Symbol(Symbol::Lt))
            }
        } else if c == '>' {
            let nx = self.decoder.peek_char();
            let eq2 = match nx {
                Some(c2) => c2 == '=',
                None => false,
            };
            if eq2 {
                let _ = self.decoder.next_char();
                Ok(TokenKind::Symbol(Symbol::GtEq))
            } else {
                Ok(TokenKind::Symbol(Symbol::Gt))
            }
        } else if c == '(' {
            Ok(TokenKind::Symbol(Symbol::ParenL))
        } else if c == ')' {
            Ok(TokenKind::Symbol(Symbol::ParenR))
        } else if c == '{' {
            Ok(TokenKind::Symbol(Symbol::BraceL))
        } else if c == '}' {
            Ok(TokenKind::Symbol(Symbol::BraceR))
        } else if c == '[' {
            let nx = self.decoder.peek_char();
            let longb = match nx {
                Some(c2) => c2 == '[' || c2 == '=',
                None => false,
            };
            if longb {
                Err(Error { kind: ErrorKind::LongBracket })
            } else {
                Ok(TokenKind::Symbol(Symbol::BracketL))
            }
        } else if c == ']' {
            Ok(TokenKind::Symbol(Symbol::BracketR))
        } else if c == ';' {
            Ok(TokenKind::Symbol(Symbol::Semicolon))
        } else if c == ':' {
            Ok(TokenKind::Symbol(Symbol::Colon))
        } else if c == ',' {
            Ok(TokenKind::Symbol(Symbol::Comma))
        } else if c == '.' {
            let nx = self.decoder.peek_char();
            let dot2 = match nx {
                Some(c2) => c2 == '.',
                None => false,
            };
            if dot2 {
                let _ = self.decoder.next_char();
                let nx2 = self.decoder.peek_char();
                let dot3 = match nx2 {
                    Some(c3) => c3 == '.',
                    None => false,
                };
                if dot3 {
                    let _ = self.decoder.next_char();
                    Ok(TokenKind::Symbol(Symbol::Dot3))
                } else {
                    Ok(TokenKind::Symbol(Symbol::Dot2))
                }
            } else {
                Ok(TokenKind::Symbol(Symbol::Dot))
            }
        } else if c == '\'' || c == '"' {
            self.scan_string(c)
        } else if digit_char(c) {
            self.scan_number()
        } else if is_unicode_whitespace(c) {
            self.skip_whitespace();
            Ok(TokenKind::Whitespace)
        } else if is_xid_start_char(c) || c == '_' {
            Ok(self.scan_name(c))
        } else {
            Err(Error { kind: ErrorKind::Unrecognized })
        }
    }

    /// Scan exactly one token and return it together with the exact span
    /// it was scanned from: the half-open offset range from the cursor's
    /// position before the call to its position after it.
    pub fn token(&mut self) -> (r: Result<Token, Error>)
        requires
            old(self).wf(),
        ensures
            final(self).wf(),
            final(self).stream() == old(self).stream(),
            old(self).pos() <= final(self).pos() <= final(self).stream().len(),
            match scan_spec(old(self).stream(), old(self).pos()) {
                ScanStep::Tok { kind, end } => r matches Ok(t) && t.kind == kind && t.span.start
                    == old(self).pos() && t.span.end == end && final(self).pos() == end,
                ScanStep::Fail { err } => r == Err::<Token, Error>((Error { kind: err })),
            },
    {
        proof {
            self.decoder.lemma_wf();
        }
        let start = self.decoder.position();
        let kind = match self.token_kind() {
            Ok(k) => k,
            Err(e) => {
                return Err(e);
            },
        };
        let end = self.decoder.position();
        Ok(Token::new(Span { start, end }, kind))
    }
}

} // verus!
