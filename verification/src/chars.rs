//! Character classes and runs of characters.
//!
//! Every terminal of the grammar is an ASCII character, so a position that a
//! scan has reached is a byte offset as well as a character index.

use crate::ascii::ascii_between;
use vstd::prelude::*;

verus! {

/// The sets of characters that the grammar's terminals are drawn from.
#[derive(Clone, Copy, Debug, PartialEq, Eq, Structural)]
pub enum CharClass {
    /// Space, tab, line feed and carriage return.
    Whitespace,
    /// `0` to `9`.
    Digit,
    /// `0` to `9`, `a` to `f` and `A` to `F`.
    HexDigit,
    /// What an identifier may begin with: an ASCII letter or `_`.
    IdentStart,
    /// What an identifier may go on with: an ASCII letter, a digit, `_` or `-`.
    IdentPart,
}

impl CharClass {
    /// Whether `c` belongs to the class.
    pub open spec fn holds(self, c: char) -> bool {
        match self {
            CharClass::Whitespace => c == ' ' || c == '\t' || c == '\n' || c == '\r',
            CharClass::Digit => '0' <= c <= '9',
            CharClass::HexDigit => ('0' <= c <= '9') || ('a' <= c <= 'f') || ('A' <= c <= 'F'),
            CharClass::IdentStart => ('a' <= c <= 'z') || ('A' <= c <= 'Z') || c == '_',
            CharClass::IdentPart => ('a' <= c <= 'z') || ('A' <= c <= 'Z') || ('0' <= c <= '9')
                || c == '_' || c == '-',
        }
    }

    /// Tests whether `c` belongs to the class.
    pub fn contains(self, c: char) -> (b: bool)
        ensures
            b == self.holds(c),
    {
        match self {
            CharClass::Whitespace => c == ' ' || c == '\t' || c == '\n' || c == '\r',
            CharClass::Digit => '0' <= c && c <= '9',
            CharClass::HexDigit => ('0' <= c && c <= '9') || ('a' <= c && c <= 'f') || ('A' <= c
                && c <= 'F'),
            CharClass::IdentStart => ('a' <= c && c <= 'z') || ('A' <= c && c <= 'Z') || c == '_',
            CharClass::IdentPart => ('a' <= c && c <= 'z') || ('A' <= c && c <= 'Z') || ('0' <= c
                && c <= '9') || c == '_' || c == '-',
        }
    }
}

/// Whether `s` holds the character `c` at position `p`.
pub open spec fn at(s: Seq<char>, p: int, c: char) -> bool {
    0 <= p < s.len() && s[p] == c
}

/// Whether `s` holds a character of `class` at position `p`.
pub open spec fn class_at(s: Seq<char>, p: int, class: CharClass) -> bool {
    0 <= p < s.len() && class.holds(s[p])
}

/// Whether every character of `s` from `from` up to `to` belongs to `class`.
pub open spec fn all_in(s: Seq<char>, from: int, to: int, class: CharClass) -> bool {
    forall|i: int| from <= i < to ==> class.holds(#[trigger] s[i])
}

/// The first position at or after `p` at which `s` holds no character of
/// `class`: the end of the longest run of the class that starts at `p`.
pub open spec fn run_end(s: Seq<char>, p: int, class: CharClass) -> int
    decreases s.len() - p,
{
    if class_at(s, p, class) {
        run_end(s, p + 1, class)
    } else {
        p
    }
}

/// A run ends inside the input, holds only characters of its class, and
/// stops at the first character outside it.
pub proof fn lemma_run_end(s: Seq<char>, p: int, class: CharClass)
    requires
        0 <= p <= s.len(),
    ensures
        p <= run_end(s, p, class) <= s.len(),
        all_in(s, p, run_end(s, p, class), class),
        ascii_between(s, p, run_end(s, p, class)),
        !class_at(s, run_end(s, p, class), class),
    decreases s.len() - p,
{
    if class_at(s, p, class) {
        lemma_run_end(s, p + 1, class);
    }
}

/// The only place where a run from `p` can end is the first position that
/// holds no character of the class.
pub proof fn lemma_run_end_is(s: Seq<char>, p: int, e: int, class: CharClass)
    requires
        0 <= p <= e <= s.len(),
        all_in(s, p, e, class),
        !class_at(s, e, class),
    ensures
        run_end(s, p, class) == e,
    decreases e - p,
{
    if p < e {
        lemma_run_end_is(s, p + 1, e, class);
    }
}

/// Walks over the run of `class` that starts at `p` and returns where it ends.
pub fn scan_run(chars: &Vec<char>, p: usize, class: CharClass) -> (e: usize)
    ensures
        e == run_end(chars@, p as int, class),
        p <= e,
        e <= chars.len() || e == p,
        ascii_between(chars@, p as int, e as int),
{
    let mut e: usize = p;
    while e < chars.len() && class.contains(chars[e])
        invariant
            p <= e,
            e <= chars.len() || e == p,
            run_end(chars@, p as int, class) == run_end(chars@, e as int, class),
            ascii_between(chars@, p as int, e as int),
        decreases chars.len() - e,
    {
        e += 1;
    }
    e
}

/// Whether one of the units `px`, `em`, `pt` and `%` stands at `p`, as the
/// number of characters it takes; 0 where none does.
pub open spec fn unit_len(s: Seq<char>, p: int) -> int {
    if at(s, p, '%') {
        1
    } else if (at(s, p, 'p') && (at(s, p + 1, 'x') || at(s, p + 1, 't'))) || (at(s, p, 'e') && at(
        s,
        p + 1,
        'm',
    )) {
        2
    } else {
        0
    }
}

/// Measures the unit that stands at `p`.
pub fn scan_unit(chars: &Vec<char>, p: usize) -> (n: usize)
    ensures
        n == unit_len(chars@, p as int),
        n == 0 || p + n <= chars.len(),
        ascii_between(chars@, p as int, p + n),
{
    if p >= chars.len() {
        return 0;
    }
    let first = chars[p];
    if first == '%' {
        return 1;
    }
    if p + 1 >= chars.len() {
        return 0;
    }
    let second = chars[p + 1];
    if (first == 'p' && (second == 'x' || second == 't')) || (first == 'e' && second == 'm') {
        2
    } else {
        0
    }
}

} // verus!
