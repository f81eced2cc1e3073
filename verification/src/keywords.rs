//! Reserved identifiers and their exact-match classification.

use vstd::prelude::*;

verus! {

/// Reserved identifiers.
///
/// These identifiers have a special syntactic meaning. The derived order
/// sorts keywords lexicographically over their spellings.
#[derive(Debug, Clone, Copy, PartialEq, Eq, PartialOrd, Ord, Structural)]
pub enum Keyword {
    /// `and`
    And,
    /// `break`
    Break,
    /// `do`
    Do,
    /// `else`
    Else,
    /// `elseif`
    ElseIf,
    /// `end`
    End,
    /// `false`
    False,
    /// `for`
    For,
    /// `function`
    Function,
    /// `if`
    If,
    /// `in`
    In,
    /// `local`
    Local,
    /// `nil`
    Nil,
    /// `not`
    Not,
    /// `or`
    Or,
    /// `repeat`
    Repeat,
    /// `return`
    Return,
    /// `then`
    Then,
    /// `true`
    True,
    /// `until`
    Until,
    /// `while`
    While,
}

/// The spelling of a reserved identifier, as a character sequence.
pub open spec fn spelling(k: Keyword) -> Seq<char> {
    match k {
        Keyword::And => seq!['a', 'n', 'd'],
        Keyword::Break => seq!['b', 'r', 'e', 'a', 'k'],
        Keyword::Do => seq!['d', 'o'],
        Keyword::Else => seq!['e', 'l', 's', 'e'],
        Keyword::ElseIf => seq!['e', 'l', 's', 'e', 'i', 'f'],
        Keyword::End => seq!['e', 'n', 'd'],
        Keyword::False => seq!['f', 'a', 'l', 's', 'e'],
        Keyword::For => seq!['f', 'o', 'r'],
        Keyword::Function => seq!['f', 'u', 'n', 'c', 't', 'i', 'o', 'n'],
        Keyword::If => seq!['i', 'f'],
        Keyword::In => seq!['i', 'n'],
        Keyword::Local => seq!['l', 'o', 'c', 'a', 'l'],
        Keyword::Nil => seq!['n', 'i', 'l'],
        Keyword::Not => seq!['n', 'o', 't'],
        Keyword::Or => seq!['o', 'r'],
        Keyword::Repeat => seq!['r', 'e', 'p', 'e', 'a', 't'],
        Keyword::Return => seq!['r', 'e', 't', 'u', 'r', 'n'],
        Keyword::Then => seq!['t', 'h', 'e', 'n'],
        Keyword::True => seq!['t', 'r', 'u', 'e'],
        Keyword::Until => seq!['u', 'n', 't', 'i', 'l'],
        Keyword::While => seq!['w', 'h', 'i', 'l', 'e'],
    }
}

/// Exact-match classification of a character sequence against the 21
/// reserved spellings; anything else is not a keyword.
pub open spec fn keyword_of(s: Seq<char>) -> Option<Keyword> {
    if s == spelling(Keyword::And) {
        Some(Keyword::And)
    } else if s == spelling(Keyword::Break) {
        Some(Keyword::Break)
    } else if s == spelling(Keyword::Do) {
        Some(Keyword::Do)
    } else if s == spelling(Keyword::Else) {
        Some(Keyword::Else)
    } else if s == spelling(Keyword::ElseIf) {
        Some(Keyword::ElseIf)
    } else if s == spelling(Keyword::End) {
        Some(Keyword::End)
    } else if s == spelling(Keyword::False) {
        Some(Keyword::False)
    } else if s == spelling(Keyword::For) {
        Some(Keyword::For)
    } else if s == spelling(Keyword::Function) {
        Some(Keyword::Function)
    } else if s == spelling(Keyword::If) {
        Some(Keyword::If)
    } else if s == spelling(Keyword::In) {
        Some(Keyword::In)
    } else if s == spelling(Keyword::Local) {
        Some(Keyword::Local)
    } else if s == spelling(Keyword::Nil) {
        Some(Keyword::Nil)
    } else if s == spelling(Keyword::Not) {
        Some(Keyword::Not)
    } else if s == spelling(Keyword::Or) {
        Some(Keyword::Or)
    } else if s == spelling(Keyword::Repeat) {
        Some(Keyword::Repeat)
    } else if s == spelling(Keyword::Return) {
        Some(Keyword::Return)
    } else if s == spelling(Keyword::Then) {
        Some(Keyword::Then)
    } else if s == spelling(Keyword::True) {
        Some(Keyword::True)
    } else if s == spelling(Keyword::Until) {
        Some(Keyword::Until)
    } else if s == spelling(Keyword::While) {
        Some(Keyword::While)
    } else {
        None
    }
}

/// A byte sequence read as a character sequence, one character per byte.
pub open spec fn chars_of_bytes(s: Seq<u8>) -> Seq<char> {
    s.map_values(|b: u8| b as char)
}

/// Classify a character slice against the reserved spellings.
pub(crate) fn keyword_from_chars(s: &[char]) -> (r: Option<Keyword>)
    ensures
        r == keyword_of(s@),
{
    let n = s.len();
    let r = if n == 2 {
        if s[0] == 'd' && s[1] == 'o' {
            Some(Keyword::Do)
        } else if s[0] == 'i' && s[1] == 'f' {
            Some(Keyword::If)
        } else if s[0] == 'i' && s[1] == 'n' {
            Some(Keyword::In)
        } else if s[0] == 'o' && s[1] == 'r' {
            Some(Keyword::Or)
        } else {
            None
        }
    } else if n == 3 {
        if s[0] == 'a' && s[1] == 'n' && s[2] == 'd' {
            Some(Keyword::And)
        } else if s[0] == 'e' && s[1] == 'n' && s[2] == 'd' {
            Some(Keyword::End)
        } else if s[0] == 'f' && s[1] == 'o' && s[2] == 'r' {
            Some(Keyword::For)
        } else if s[0] == 'n' && s[1] == 'i' && s[2] == 'l' {
            Some(Keyword::Nil)
        } else if s[0] == 'n' && s[1] == 'o' && s[2] == 't' {
            Some(Keyword::Not)
        } else {
            None
        }
    } else if n == 4 {
        if s[0] == 'e' && s[1] == 'l' && s[2] == 's' && s[3] == 'e' {
            Some(Keyword::Else)
        } else if s[0] == 't' && s[1] == 'h' && s[2] == 'e' && s[3] == 'n' {
            Some(Keyword::Then)
        } else if s[0] == 't' && s[1] == 'r' && s[2] == 'u' && s[3] == 'e' {
            Some(Keyword::True)
        } else {
            None
        }
    } else if n == 5 {
        if s[0] == 'b' && s[1] == 'r' && s[2] == 'e' && s[3] == 'a' && s[4] == 'k' {
            Some(Keyword::Break)
        } else if s[0] == 'f' && s[1] == 'a' && s[2] == 'l' && s[3] == 's' && s[4] == 'e' {
            Some(Keyword::False)
        } else if s[0] == 'l' && s[1] == 'o' && s[2] == 'c' && s[3] == 'a' && s[4] == 'l' {
            Some(Keyword::Local)
        } else if s[0] == 'u' && s[1] == 'n' && s[2] == 't' && s[3] == 'i' && s[4] == 'l' {
            Some(Keyword::Until)
        } else if s[0] == 'w' && s[1] == 'h' && s[2] == 'i' && s[3] == 'l' && s[4] == 'e' {
            Some(Keyword::While)
        } else {
            None
        }
    } else if n == 6 {
        if s[0] == 'e' && s[1] == 'l' && s[2] == 's' && s[3] == 'e' && s[4] == 'i' && s[5] == 'f' {
            Some(Keyword::ElseIf)
        } else if s[0] == 'r' && s[1] == 'e' && s[2] == 'p' && s[3] == 'e' && s[4] == 'a' && s[5]
            == 't' {
            Some(Keyword::Repeat)
        } else if s[0] == 'r' && s[1] == 'e' && s[2] == 't' && s[3] == 'u' && s[4] == 'r' && s[5]
            == 'n' {
            Some(Keyword::Return)
        } else {
            None
        }
    } else if n == 8 {
        if s[0] == 'f' && s[1] == 'u' && s[2] == 'n' && s[3] == 'c' && s[4] == 't' && s[5] == 'i'
            && s[6] == 'o' && s[7] == 'n' {
            Some(Keyword::Function)
        } else {
            None
        }
    } else {
        None
    };
    proof {
        if r is Some {
            assert(s@ =~= spelling(r->0));
        }
    }
    r
}

impl Keyword {
    /// Exact byte-for-byte match of a span against the reserved spellings;
    /// each byte is read as the character of the same value, so near-misses
    /// and all non-ASCII spans are not keywords.
    pub fn from_bytes(bytes: &[u8]) -> (r: Option<Keyword>)
        ensures
            r == keyword_of(chars_of_bytes(bytes@)),
    {
        let mut cs: Vec<char> = Vec::new();
        let mut i: usize = 0;
        while i < bytes.len()
            invariant
                i <= bytes@.len(),
                cs@ =~= chars_of_bytes(bytes@.take(i as int)),
            decreases bytes@.len() - i,
        {
            let b = bytes[i];
            cs.push(b as char);
            proof {
                assert(cs@ =~= chars_of_bytes(bytes@.take(i + 1 as int)));
            }
            i += 1;
        }
        proof {
            assert(cs@ =~= chars_of_bytes(bytes@));
        }
        keyword_from_chars(cs.as_slice())
    }
}

} // verus!
