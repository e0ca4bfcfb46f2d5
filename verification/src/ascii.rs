//! ASCII stretches of a text and their UTF-8 encoding.
//!
//! Up to the position that a scan has reached, an input is ASCII, so that
//! the position counts bytes as well as characters: a piece of the input up
//! to there can be cut out by its byte offsets.

use vstd::prelude::*;
use vstd::string::{StrSliceExecFns, StringSliceAdditionalSpecFns};
use vstd::utf8::{
    encode_scalar, encode_utf8, encode_utf8_decode_utf8, encode_utf8_first_scalar,
    encode_utf8_valid_utf8, has_width_1_encoding, is_ascii_chars, is_char_boundary,
    pop_first_scalar,
};

verus! {

/// Whether every character of `s` from `from` up to `to` is ASCII.
pub open spec fn ascii_between(s: Seq<char>, from: int, to: int) -> bool {
    forall|i: int| from <= i < to ==> #[trigger] s[i] <= '\u{7f}'
}

/// No character comes before the character of code 0.
proof fn lemma_first_character(c: char)
    ensures
        '\0' <= c,
{
}

/// An ASCII character is encoded in one byte.
proof fn lemma_ascii_takes_one_byte(c: char)
    requires
        c <= '\u{7f}',
    ensures
        has_width_1_encoding(c as u32),
        encode_scalar(c as u32).len() == 1,
{
}

/// Where an input is ASCII up to a position, the position is a character
/// boundary of its UTF-8 encoding, and the bytes before it are the encoding
/// of the characters before it: each of them takes one byte.
pub proof fn lemma_ascii_prefix(s: Seq<char>, p: int)
    requires
        0 <= p <= s.len(),
        ascii_between(s, 0, p),
    ensures
        p <= encode_utf8(s).len(),
        is_char_boundary(encode_utf8(s), p),
        encode_utf8(s).subrange(0, p) == encode_utf8(s.take(p)),
    decreases p,
{
    encode_utf8_valid_utf8(s);
    if p > 0 {
        let bytes = encode_utf8(s);
        let rest = s.drop_first();
        encode_utf8_first_scalar(s);
        lemma_ascii_takes_one_byte(s[0]);
        assert(pop_first_scalar(bytes) =~= encode_utf8(rest));
        assert forall|i: int| 0 <= i < p - 1 implies #[trigger] rest[i] <= '\u{7f}' by {
            assert(rest[i] == s[i + 1]);
        }
        lemma_ascii_prefix(rest, p - 1);
        assert(s.take(p).drop_first() =~= rest.take(p - 1));
        assert(bytes.subrange(0, p) =~= encode_scalar(s[0] as u32) + encode_utf8(rest).subrange(
            0,
            p - 1,
        ));
    } else {
        assert(encode_utf8(s).subrange(0, 0) =~= encode_utf8(s.take(0)));
    }
}

/// Cuts the characters from `start` up to `end` out of an input that is
/// ASCII up to `end`.
pub(crate) fn cut<'a>(input: &'a str, start: usize, end: usize) -> (text: &'a str)
    requires
        start <= end <= input@.len(),
        ascii_between(input@, 0, end as int),
    ensures
        text@ == input@.subrange(start as int, end as int),
{
    proof {
        lemma_ascii_prefix(input@, end as int);
    }
    let (head, _) = input.split_at(end);
    proof {
        let before = input@.take(end as int);
        assert(head.spec_bytes() == encode_utf8(before));
        encode_utf8_decode_utf8(head@);
        encode_utf8_decode_utf8(before);
        assert(head@ == before);
        assert forall|i: int| 0 <= i < before.len() implies '\0' <= #[trigger] before[i]
            <= '\u{7f}' by {
            lemma_first_character(before[i]);
            assert(before[i] == input@[i]);
        }
        assert(is_ascii_chars(head@));
        assert(before.subrange(start as int, end as int) =~= input@.subrange(
            start as int,
            end as int,
        ));
    }
    head.substring_ascii(start, end)
}

} // verus!
