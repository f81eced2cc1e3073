//! Input decoding: a character-at-a-time cursor abstraction over an
//! immutable input buffer, with a single-byte code-page decoder and a
//! full-Unicode decoder behind one interface.

use crate::chars::win1252;
use vstd::prelude::*;
use vstd::slice::{slice_subrange, slice_to_vec};
use vstd::string::StrSliceExecFns;

verus! {

/// A whole byte buffer decoded through the single-byte code page.
pub open spec fn decode_latin1(bytes: Seq<u8>) -> Seq<char> {
    bytes.map_values(|b: u8| win1252(b))
}

/// An ASCII character comes out of the code-page decoding exactly at the
/// bytes holding its own value: the substituted range maps to code points
/// above 0x80, and every other byte maps to the code point of its value.
pub proof fn lemma_win1252_ascii(b: u8, a: char)
    requires
        (a as u32) < 128,
    ensures
        (win1252(b) == a) == (b == a as u8),
{
    broadcast use vstd::utf8::char_u32_cast;

    if b < 0x80 {
        assert(win1252(b) == b as char);
        assert((b as char) as u32 == b as u32);
    } else {
        assert(win1252(b) as u32 >= 0x80);
    }
}

/// Relies on memchr::memchr: returns the index of the first occurrence of
/// `needle` in `haystack`, or None if there is none.
#[verifier::external_body]
fn memchr_first(needle: u8, haystack: &[u8]) -> (r: Option<usize>)
    ensures
        match r {
            Some(j) => j < haystack@.len() && haystack@[j as int] == needle && forall|k: int|
                0 <= k < j ==> haystack@[k] != needle,
            None => forall|k: int| 0 <= k < haystack@.len() ==> haystack@[k] != needle,
        },
{
    memchr::memchr(needle, haystack)
}

/// Relies on memchr::memchr2: returns the index of the first occurrence of
/// either needle in `haystack`, or None if neither occurs.
#[verifier::external_body]
fn memchr2_first(needle1: u8, needle2: u8, haystack: &[u8]) -> (r: Option<usize>)
    ensures
        match r {
            Some(j) => j < haystack@.len() && (haystack@[j as int] == needle1
                || haystack@[j as int] == needle2) && forall|k: int|
                0 <= k < j ==> haystack@[k] != needle1 && haystack@[k] != needle2,
            None => forall|k: int|
                0 <= k < haystack@.len() ==> haystack@[k] != needle1 && haystack@[k] != needle2,
        },
{
    memchr::memchr2(needle1, needle2, haystack)
}

/// An infallible character-at-a-time cursor over a decoded input.
///
/// `stream()` is the whole decoded input, fixed for the life of the value;
/// `pos()` counts the characters already consumed. The cursor never moves
/// backward; speculative lookahead goes through the non-consuming `peek`
/// methods.
pub trait Decoder: Sized {
    /// The whole decoded input.
    spec fn stream(&self) -> Seq<char>;

    /// The number of characters already consumed.
    spec fn pos(&self) -> nat;

    /// The cursor's internal invariant.
    spec fn wf(&self) -> bool;

    proof fn lemma_wf(&self)
        requires
            self.wf(),
        ensures
            self.pos() <= self.stream().len() <= usize::MAX,
    ;

    /// The current position, as a stream offset.
    fn position(&self) -> (p: usize)
        requires
            self.wf(),
        ensures
            p == self.pos(),
    ;

    /// The length of the whole decoded input.
    fn stream_len(&self) -> (n: usize)
        requires
            self.wf(),
        ensures
            n == self.stream().len(),
    ;

    /// Consume and return the next character, or signal exhaustion.
    fn next_char(&mut self) -> (r: Option<char>)
        requires
            old(self).wf(),
        ensures
            final(self).wf(),
            final(self).stream() == old(self).stream(),
            match r {
                Some(c) => old(self).pos() < old(self).stream().len()
                    && c == old(self).stream()[old(self).pos() as int]
                    && final(self).pos() == old(self).pos() + 1,
                None => old(self).pos() == old(self).stream().len()
                    && final(self).pos() == old(self).pos(),
            },
    ;

    /// Return the next character without consuming it; idempotent and
    /// side-effect-free.
    fn peek_char(&self) -> (r: Option<char>)
        requires
            self.wf(),
        ensures
            r == (if self.pos() < self.stream().len() {
                Some(self.stream()[self.pos() as int])
            } else {
                None::<char>
            }),
    ;

    /// Look `k` characters past the cursor without consuming anything.
    fn peek_ahead(&self, k: usize) -> (r: Option<char>)
        requires
            self.wf(),
        ensures
            r == (if self.pos() + k < self.stream().len() {
                Some(self.stream()[self.pos() + k])
            } else {
                None::<char>
            }),
    ;

    /// Advance the cursor to an absolute position at or past the current
    /// one; the position must come from the character-aware scan itself.
    fn advance_to(&mut self, p: usize)
        requires
            old(self).wf(),
            old(self).pos() <= p <= old(self).stream().len(),
        ensures
            final(self).wf(),
            final(self).stream() == old(self).stream(),
            final(self).pos() == p,
    ;

    /// The first position at or after the cursor holding the ASCII
    /// character `a`, without moving the cursor.
    fn find_char(&self, a: char) -> (r: Option<usize>)
        requires
            self.wf(),
            (a as u32) < 128,
        ensures
            match r {
                Some(j) => self.pos() <= j < self.stream().len() && self.stream()[j as int] == a
                    && forall|k: int| self.pos() <= k < j ==> self.stream()[k] != a,
                None => forall|k: int|
                    self.pos() <= k < self.stream().len() ==> self.stream()[k] != a,
            },
    ;

    /// The first position at or after the cursor holding either of the
    /// ASCII characters `a` and `b`, without moving the cursor.
    fn find_char2(&self, a: char, b: char) -> (r: Option<usize>)
        requires
            self.wf(),
            (a as u32) < 128,
            (b as u32) < 128,
        ensures
            match r {
                Some(j) => self.pos() <= j < self.stream().len() && (self.stream()[j as int] == a
                    || self.stream()[j as int] == b) && forall|k: int|
                    self.pos() <= k < j ==> self.stream()[k] != a && self.stream()[k] != b,
                None => forall|k: int|
                    self.pos() <= k < self.stream().len() ==> self.stream()[k] != a
                        && self.stream()[k] != b,
            },
    ;
}

/// The single-byte code-page decoder: each input byte is one character,
/// mapped through the fixed substitution table for the 0x80–0x9F range and
/// directly to the code point of its value everywhere else.
pub struct Latin1Decoder {
    bytes: Vec<u8>,
    pos: usize,
}

impl Latin1Decoder {
    pub fn new(bytes: &[u8]) -> (d: Latin1Decoder)
        ensures
            d.wf(),
            d.stream() == decode_latin1(bytes@),
            d.pos() == 0,
    {
        let owned = slice_to_vec(bytes);
        Latin1Decoder { bytes: owned, pos: 0 }
    }
}

impl Decoder for Latin1Decoder {
    closed spec fn stream(&self) -> Seq<char> {
        decode_latin1(self.bytes@)
    }

    closed spec fn pos(&self) -> nat {
        self.pos as nat
    }

    closed spec fn wf(&self) -> bool {
        self.pos <= self.bytes@.len()
    }

    proof fn lemma_wf(&self) {
        broadcast use vstd::std_specs::vec::axiom_spec_len;

        assert(self.bytes.len() == self.bytes@.len());
    }

    fn position(&self) -> (p: usize) {
        self.pos
    }

    fn stream_len(&self) -> (n: usize) {
        self.bytes.len()
    }

    fn next_char(&mut self) -> (r: Option<char>) {
        if self.pos < self.bytes.len() {
            let b = self.bytes[self.pos];
            self.pos = self.pos + 1;
            Some(crate::chars::win1252_char_decode(b))
        } else {
            None
        }
    }

    fn peek_char(&self) -> (r: Option<char>) {
        if self.pos < self.bytes.len() {
            Some(crate::chars::win1252_char_decode(self.bytes[self.pos]))
        } else {
            None
        }
    }

    fn peek_ahead(&self, k: usize) -> (r: Option<char>) {
        if k < self.bytes.len() - self.pos {
            Some(crate::chars::win1252_char_decode(self.bytes[self.pos + k]))
        } else {
            None
        }
    }

    fn advance_to(&mut self, p: usize) {
        self.pos = p;
    }

    fn find_char(&self, a: char) -> (r: Option<usize>) {
        let sub = slice_subrange(self.bytes.as_slice(), self.pos, self.bytes.len());
        match memchr_first(a as u8, sub) {
            Some(i) => {
                let j = self.pos + i;
                proof {
                    lemma_win1252_ascii(self.bytes@[j as int], a);
                    assert forall|k: int| self.pos() <= k < j implies self.stream()[k] != a by {
                        assert(sub@[k - self.pos()] == self.bytes@[k]);
                        lemma_win1252_ascii(self.bytes@[k], a);
                    }
                }
                Some(j)
            },
            None => {
                proof {
                    assert forall|k: int|
                        self.pos() <= k < self.stream().len() implies self.stream()[k] != a by {
                        assert(sub@[k - self.pos()] == self.bytes@[k]);
                        lemma_win1252_ascii(self.bytes@[k], a);
                    }
                }
                None
            },
        }
    }

    fn find_char2(&self, a: char, b: char) -> (r: Option<usize>) {
        let sub = slice_subrange(self.bytes.as_slice(), self.pos, self.bytes.len());
        match memchr2_first(a as u8, b as u8, sub) {
            Some(i) => {
                let j = self.pos + i;
                proof {
                    lemma_win1252_ascii(self.bytes@[j as int], a);
                    lemma_win1252_ascii(self.bytes@[j as int], b);
                    assert forall|k: int|
                        self.pos() <= k < j implies self.stream()[k] != a && self.stream()[k]
                        != b by {
                        assert(sub@[k - self.pos()] == self.bytes@[k]);
                        lemma_win1252_ascii(self.bytes@[k], a);
                        lemma_win1252_ascii(self.bytes@[k], b);
                    }
                }
                Some(j)
            },
            None => {
                proof {
                    assert forall|k: int|
                        self.pos() <= k < self.stream().len() implies self.stream()[k] != a
                        && self.stream()[k] != b by {
                        assert(sub@[k - self.pos()] == self.bytes@[k]);
                        lemma_win1252_ascii(self.bytes@[k], a);
                        lemma_win1252_ascii(self.bytes@[k], b);
                    }
                }
                None
            },
        }
    }
}

/// The full-Unicode text decoder: the characters of a text, one by one.
pub struct Utf8Decoder {
    chars: Vec<char>,
    pos: usize,
}

impl Utf8Decoder {
    pub fn new(input: &str) -> (d: Utf8Decoder)
        ensures
            d.wf(),
            d.stream() == input@,
            d.pos() == 0,
    {
        let n = input.unicode_len();
        let mut cs: Vec<char> = Vec::new();
        let mut i: usize = 0;
        while i < n
            invariant
                n == input@.len(),
                i <= n,
                cs@ =~= input@.take(i as int),
            decreases n - i,
        {
            let c = input.get_char(i);
            cs.push(c);
            i = i + 1;
        }
        proof {
            assert(cs@ =~= input@);
        }
        Utf8Decoder { chars: cs, pos: 0 }
    }
}

impl Decoder for Utf8Decoder {
    closed spec fn stream(&self) -> Seq<char> {
        self.chars@
    }

    closed spec fn pos(&self) -> nat {
        self.pos as nat
    }

    closed spec fn wf(&self) -> bool {
        self.pos <= self.chars@.len()
    }

    proof fn lemma_wf(&self) {
        broadcast use vstd::std_specs::vec::axiom_spec_len;

        assert(self.chars.len() == self.chars@.len());
    }

    fn position(&self) -> (p: usize) {
        self.pos
    }

    fn stream_len(&self) -> (n: usize) {
        self.chars.len()
    }

    fn next_char(&mut self) -> (r: Option<char>) {
        if self.pos < self.chars.len() {
            let c = self.chars[self.pos];
            self.pos = self.pos + 1;
            Some(c)
        } else {
            None
        }
    }

    fn peek_char(&self) -> (r: Option<char>) {
        if self.pos < self.chars.len() {
            Some(self.chars[self.pos])
        } else {
            None
        }
    }

    fn peek_ahead(&self, k: usize) -> (r: Option<char>) {
        if k < self.chars.len() - self.pos {
            Some(self.chars[self.pos + k])
        } else {
            None
        }
    }

    fn advance_to(&mut self, p: usize) {
        self.pos = p;
    }

    fn find_char(&self, a: char) -> (r: Option<usize>) {
        let n = self.chars.len();
        let mut j: usize = self.pos;
        while j < n
            invariant
                self.wf(),
                n == self.chars@.len(),
                self.pos <= j <= n,
                forall|k: int| self.pos() <= k < j ==> self.stream()[k] != a,
            decreases n - j,
        {
            if self.chars[j] == a {
                return Some(j);
            }
            j = j + 1;
        }
        None
    }

    fn find_char2(&self, a: char, b: char) -> (r: Option<usize>) {
        let n = self.chars.len();
        let mut j: usize = self.pos;
        while j < n
            invariant
                self.wf(),
                n == self.chars@.len(),
                self.pos <= j <= n,
                forall|k: int| self.pos() <= k < j ==> self.stream()[k] != a && self.stream()[k] != b,
            decreases n - j,
        {
            let c = self.chars[j];
            if c == a || c == b {
                return Some(j);
            }
            j = j + 1;
        }
        None
    }
}

/// A byte buffer read whole through the single-byte code page, for
/// presenting legacy text: `decoded` yields the characters it denotes.
pub struct Latin1Decoded<'a>(pub &'a [u8]);

impl<'a> Latin1Decoded<'a> {
    pub fn decoded(&self) -> (r: Vec<char>)
        ensures
            r@ == decode_latin1(self.0@),
    {
        let n = self.0.len();
        let mut out: Vec<char> = Vec::new();
        let mut i: usize = 0;
        while i < n
            invariant
                n == self.0@.len(),
                i <= n,
                out@ =~= decode_latin1(self.0@).take(i as int),
            decreases n - i,
        {
            out.push(crate::chars::win1252_char_decode(self.0[i]));
            proof {
                assert(out@ =~= decode_latin1(self.0@).take(i + 1 as int));
            }
            i = i + 1;
        }
        proof {
            assert(out@ =~= decode_latin1(self.0@));
        }
        out
    }
}

} // verus!
