//! Pieces of valid UTF-8 text cut at ASCII delimiters are valid UTF-8.

use vstd::prelude::*;
use vstd::utf8::*;

verus! {

/// In valid UTF-8, the byte after an ASCII byte starts a character.
pub proof fn lemma_after_ascii(s: Seq<u8>, i: int)
    requires
        valid_utf8(s),
        0 <= i,
        i + 1 < s.len(),
        s[i] < 128,
    ensures
        !is_continuation_byte(s[i + 1]),
    decreases s.len(),
{
    assert(valid_first_scalar(s));
    let w = length_of_first_scalar(s);
    let t = pop_first_scalar(s);
    assert(valid_utf8(t));
    if i == 0 {
        assert(w == 1);
        assert(t.len() > 0);
        assert(valid_first_scalar(t));
        assert(t[0] == s[1]);
    } else if i < w {
        assert(is_continuation_byte(s[i]));
    } else {
        assert(t[i - w] == s[i]);
        assert(t[i - w + 1] == s[i + 1]);
        lemma_after_ascii(t, i - w);
    }
}

/// Text between two positions that each sit at an ASCII-bounded cut (the
/// ends of the text, an ASCII byte, or just after an ASCII byte) is valid UTF-8.
pub proof fn lemma_valid_piece(s: Seq<u8>, a: int, b: int)
    requires
        valid_utf8(s),
        0 <= a <= b <= s.len(),
        a == s.len() || !is_continuation_byte(s[a]),
        b == s.len() || !is_continuation_byte(s[b]),
    ensures
        valid_utf8(s.subrange(a, b)),
{
    is_char_boundary_start_end_of_seq(s);
    if a < s.len() {
        is_char_boundary_iff_not_is_continuation_byte(s, a);
    }
    assert(is_char_boundary(s, a));
    valid_utf8_split(s, a);
    let rest = s.subrange(a, s.len() as int);
    assert(valid_utf8(rest));
    if b == s.len() {
        assert(rest =~= s.subrange(a, b));
    } else {
        assert(rest[b - a] == s[b]);
        is_char_boundary_iff_not_is_continuation_byte(rest, b - a);
        valid_utf8_split(rest, b - a);
        assert(rest.subrange(0, b - a) =~= s.subrange(a, b));
    }
}

/// The start of a piece that begins just after an ASCII byte is a cut.
pub proof fn lemma_cut_after_ascii(s: Seq<u8>, i: int)
    requires
        valid_utf8(s),
        0 <= i < s.len(),
        s[i] < 128,
    ensures
        i + 1 == s.len() || !is_continuation_byte(s[i + 1]),
        !is_continuation_byte(s[i]),
{
    if i + 1 < s.len() {
        lemma_after_ascii(s, i);
    }
}

} // verus!
