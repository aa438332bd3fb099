//! Character boundaries in UTF-8 text.
//!
//! A token may start and end only where a character starts or ends. The
//! lemmas here derive such boundaries from the bytes around a position.

use vstd::prelude::*;
use vstd::utf8::*;

verus! {

/// The number of bytes of a character whose encoding starts with `b`.
pub open spec fn scalar_width(b: u8) -> int {
    if b < 0x80 {
        1
    } else if b < 0xE0 {
        2
    } else if b < 0xF0 {
        3
    } else {
        4
    }
}

/// A character boundary lies within the text.
pub proof fn lemma_boundary_in_range(s: Seq<u8>, k: int)
    requires
        valid_utf8(s),
        is_char_boundary(s, k),
    ensures
        0 <= k <= s.len(),
{
}

/// The character that starts at a boundary ends at a boundary.
pub proof fn lemma_next_boundary(s: Seq<u8>, i: int)
    requires
        valid_utf8(s),
        is_char_boundary(s, i),
        0 <= i < s.len(),
    ensures
        i + scalar_width(s[i]) <= s.len(),
        is_char_boundary(s, i + scalar_width(s[i])),
    decreases s.len(),
{
    let first = length_of_first_scalar(s);
    let rest = pop_first_scalar(s);
    assert(valid_first_scalar(s) && valid_utf8(rest));
    assert(1 <= first <= s.len());
    if i == 0 {
        assert(first == scalar_width(s[0]));
        assert(is_char_boundary(rest, 0));
    } else {
        assert(is_char_boundary(rest, i - first));
        lemma_boundary_in_range(rest, i - first);
        lemma_next_boundary(rest, i - first);
        assert(rest[i - first] == s[i]);
        let w = scalar_width(s[i]);
        assert(is_char_boundary(rest, i - first + w));
        assert(i + w <= s.len());
    }
}

/// The position behind an ASCII byte is a boundary.
pub proof fn lemma_boundary_after_ascii(s: Seq<u8>, e: int)
    requires
        valid_utf8(s),
        0 < e <= s.len(),
        s[e - 1] < 0x80,
    ensures
        is_char_boundary(s, e),
{
    is_char_boundary_iff_not_is_continuation_byte(s, e - 1);
    lemma_next_boundary(s, e - 1);
}

/// A position that holds no continuation byte, and the end of the text,
/// are boundaries.
pub proof fn lemma_boundary_before_leading_byte(s: Seq<u8>, e: int)
    requires
        valid_utf8(s),
        0 <= e <= s.len(),
        e < s.len() ==> !is_continuation_byte(s[e]),
    ensures
        is_char_boundary(s, e),
{
    if e < s.len() {
        is_char_boundary_iff_not_is_continuation_byte(s, e);
    } else {
        is_char_boundary_start_end_of_seq(s);
    }
}

/// A boundary of the text is a boundary of each prefix that reaches it,
/// if the prefix itself ends on a boundary.
pub proof fn lemma_boundary_of_prefix(s: Seq<u8>, start: int, end: int)
    requires
        valid_utf8(s),
        is_char_boundary(s, start),
        is_char_boundary(s, end),
        start <= end,
    ensures
        valid_utf8(s.subrange(0, end)),
        is_char_boundary(s.subrange(0, end), start),
{
    lemma_boundary_in_range(s, start);
    lemma_boundary_in_range(s, end);
    valid_utf8_split(s, end);
    let prefix = s.subrange(0, end);
    if start == end {
        is_char_boundary_start_end_of_seq(prefix);
    } else {
        is_char_boundary_iff_not_is_continuation_byte(s, start);
        is_char_boundary_iff_not_is_continuation_byte(prefix, start);
    }
}

} // verus!
