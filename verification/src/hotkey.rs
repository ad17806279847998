//! Telling a single word from other text on the clipboard.

use crate::text::byte_len;
use crate::text::char_is_whitespace;
use crate::text::is_whitespace_char;
use crate::text::text_bytes;
use vstd::prelude::*;

verus! {

/// Whether `c` is a letter in the sense of `char::is_alphabetic`: whether it
/// has Unicode's Alphabetic property.
pub uninterp spec fn is_alphabetic_char(c: char) -> bool;

/// Tests a character for being a letter.
///
/// Trusted: this is `char::is_alphabetic`, a function of the character
/// alone. Its result is named, not spelled out.
#[verifier::external_body]
fn char_is_alphabetic(c: char) -> (letter: bool)
    ensures
        letter == is_alphabetic_char(c),
{
    c.is_alphabetic()
}

/// The position of the first character of `s` that is not white space, or
/// the length of `s` when there is none.
pub open spec fn solid_start(s: Seq<char>) -> int
    decreases s.len(),
{
    if s.len() == 0 || !is_whitespace_char(s[0]) {
        0
    } else {
        1 + solid_start(s.drop_first())
    }
}

/// The position after the last character of `s` that is not white space, or
/// 0 when there is none.
pub open spec fn solid_end(s: Seq<char>) -> int
    decreases s.len(),
{
    if s.len() == 0 || !is_whitespace_char(s.last()) {
        s.len() as int
    } else {
        solid_end(s.drop_last())
    }
}

/// `s` without the white space at its ends.
pub open spec fn trimmed(s: Seq<char>) -> Seq<char> {
    if solid_start(s) >= solid_end(s) {
        Seq::empty()
    } else {
        s.subrange(solid_start(s), solid_end(s))
    }
}

/// Whether `c` may stand in a word: a letter, a hyphen or an apostrophe, and
/// no white space.
pub open spec fn is_word_char(c: char) -> bool {
    (is_alphabetic_char(c) || c == '-' || c == '\'') && !is_whitespace_char(c)
}

/// Whether `s` is one word once trimmed: not empty, shorter than 50 bytes,
/// and made of letters, hyphens and apostrophes alone.
pub open spec fn single_word(s: Seq<char>) -> bool {
    let t = trimmed(s);
    &&& t.len() > 0
    &&& text_bytes(t) < 50
    &&& forall|i: int| 0 <= i < t.len() ==> is_word_char(#[trigger] t[i])
}

/// A position before which all is white space and at which there is none is
/// the start of the solid part.
proof fn lemma_solid_start_is(s: Seq<char>, at: int)
    requires
        0 <= at <= s.len(),
        forall|j: int| 0 <= j < at ==> is_whitespace_char(#[trigger] s[j]),
        at < s.len() ==> !is_whitespace_char(s[at]),
    ensures
        solid_start(s) == at,
    decreases s.len(),
{
    if s.len() > 0 && at > 0 {
        assert(is_whitespace_char(s[0]));
        let rest = s.drop_first();
        assert forall|j: int| 0 <= j < at - 1 implies is_whitespace_char(#[trigger] rest[j]) by {
            assert(rest[j] == s[j + 1]);
        }
        lemma_solid_start_is(rest, at - 1);
    }
}

/// A position from which all is white space and before which there is none
/// is the end of the solid part.
proof fn lemma_solid_end_is(s: Seq<char>, at: int)
    requires
        0 <= at <= s.len(),
        forall|j: int| at <= j < s.len() ==> is_whitespace_char(#[trigger] s[j]),
        at > 0 ==> !is_whitespace_char(s[at - 1]),
    ensures
        solid_end(s) == at,
    decreases s.len(),
{
    if s.len() > 0 && at < s.len() {
        assert(is_whitespace_char(s[s.len() - 1]));
        let rest = s.drop_last();
        assert forall|j: int| at <= j < rest.len() implies is_whitespace_char(#[trigger] rest[j]) by {
            assert(rest[j] == s[j]);
        }
        lemma_solid_end_is(rest, at);
    }
}

/// Whether `text`, once trimmed, is a single word that can be looked up.
pub fn is_single_word(text: &str) -> (single: bool)
    ensures
        single == single_word(text@),
{
    let n = text.unicode_len();
    let mut from: usize = 0;
    while from < n && char_is_whitespace(text.get_char(from))
        invariant
            n == text@.len(),
            from <= n,
            forall|j: int| 0 <= j < from ==> is_whitespace_char(#[trigger] text@[j]),
        decreases n - from,
    {
        from += 1;
    }
    let mut to: usize = n;
    while to > 0 && char_is_whitespace(text.get_char(to - 1))
        invariant
            n == text@.len(),
            to <= n,
            forall|j: int| to <= j < n ==> is_whitespace_char(#[trigger] text@[j]),
        decreases to,
    {
        to -= 1;
    }
    proof {
        lemma_solid_start_is(text@, from as int);
        lemma_solid_end_is(text@, to as int);
    }
    if from >= to {
        return false;
    }
    let word = text.substring_char(from, to);
    assert(word@ == trimmed(text@));
    if byte_len(word) >= 50 {
        return false;
    }
    let mut i: usize = from;
    while i < to
        invariant
            n == text@.len(),
            from <= i <= to <= n,
            word@ == text@.subrange(from as int, to as int),
            word@ == trimmed(text@),
            forall|j: int| 0 <= j < i - from ==> is_word_char(#[trigger] word@[j]),
        decreases to - i,
    {
        let c = text.get_char(i);
        assert(word@[i - from] == c);
        let allowed = (char_is_alphabetic(c) || c == '-' || c == '\'') && !char_is_whitespace(c);
        if !allowed {
            assert(!is_word_char(trimmed(text@)[i - from]));
            return false;
        }
        i += 1;
    }
    true
}

} // verus!
