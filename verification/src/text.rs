//! Byte-level text primitives with the meaning of the `str` methods the
//! protocol code relies on: `find`, `rfind`, `split`, `trim`, `starts_with`,
//! `contains`, `lines` and `join`, on the UTF-8 bytes of a string.

use vstd::prelude::*;

verus! {

/// ASCII line feed.
pub const LF: u8 = 10;
/// ASCII carriage return.
pub const CR: u8 = 13;

// ---------------------------------------------------------------------
// Searching
// ---------------------------------------------------------------------

/// Index of the first `b` in `s`.
pub open spec fn find_byte(s: Seq<u8>, b: u8) -> Option<nat>
    decreases s.len(),
{
    if s.len() == 0 {
        None
    } else if s[0] == b {
        Some(0)
    } else {
        match find_byte(s.drop_first(), b) {
            Some(i) => Some(i + 1),
            None => None,
        }
    }
}

/// Index of the last `b` in `s`.
pub open spec fn rfind_byte(s: Seq<u8>, b: u8) -> Option<nat>
    decreases s.len(),
{
    if s.len() == 0 {
        None
    } else if s.last() == b {
        Some((s.len() - 1) as nat)
    } else {
        rfind_byte(s.drop_last(), b)
    }
}

/// `find_byte` is the first occurrence.
pub proof fn lemma_find_byte(s: Seq<u8>, b: u8)
    ensures
        find_byte(s, b) matches Some(i) ==> i < s.len() && s[i as int] == b && forall|j: int|
            0 <= j < i ==> s[j] != b,
        find_byte(s, b) is None ==> forall|j: int| 0 <= j < s.len() ==> s[j] != b,
    decreases s.len(),
{
    if s.len() > 0 && s[0] != b {
        lemma_find_byte(s.drop_first(), b);
        if let Some(i) = find_byte(s.drop_first(), b) {
            assert forall|j: int| 0 <= j < i + 1 implies s[j] != b by {
                if j > 0 {
                    assert(s[j] == s.drop_first()[j - 1]);
                }
            }
        } else {
            assert forall|j: int| 0 <= j < s.len() implies s[j] != b by {
                if j > 0 {
                    assert(s[j] == s.drop_first()[j - 1]);
                }
            }
        }
    }
}

/// A first occurrence found by scanning is what `find_byte` names.
pub proof fn lemma_find_byte_at(s: Seq<u8>, b: u8, k: int)
    requires
        0 <= k <= s.len(),
        forall|j: int| 0 <= j < k ==> s[j] != b,
        k < s.len() ==> s[k] == b,
    ensures
        k < s.len() ==> find_byte(s, b) == Some(k as nat),
        k == s.len() ==> find_byte(s, b) is None,
    decreases k,
{
    if k > 0 {
        assert forall|j: int| 0 <= j < k - 1 implies s.drop_first()[j] != b by {
            assert(s.drop_first()[j] == s[j + 1]);
        }
        if k < s.len() {
            assert(s.drop_first()[k - 1] == s[k]);
        }
        lemma_find_byte_at(s.drop_first(), b, k - 1);
    }
}

/// `rfind_byte` is the last occurrence.
pub proof fn lemma_rfind_byte(s: Seq<u8>, b: u8)
    ensures
        rfind_byte(s, b) matches Some(i) ==> i < s.len() && s[i as int] == b && forall|j: int|
            i < j < s.len() ==> s[j] != b,
        rfind_byte(s, b) is None ==> forall|j: int| 0 <= j < s.len() ==> s[j] != b,
    decreases s.len(),
{
    if s.len() > 0 && s.last() != b {
        let t = s.drop_last();
        lemma_rfind_byte(t, b);
        if let Some(i) = rfind_byte(t, b) {
            assert(s[i as int] == t[i as int]);
            assert forall|j: int| i < j < s.len() implies s[j] != b by {
                if j < s.len() - 1 {
                    assert(s[j] == t[j]);
                }
            }
        } else {
            assert forall|j: int| 0 <= j < s.len() implies s[j] != b by {
                if j < s.len() - 1 {
                    assert(s[j] == t[j]);
                }
            }
        }
    }
}

/// A last occurrence found by scanning backwards is what `rfind_byte` names.
pub proof fn lemma_rfind_byte_at(s: Seq<u8>, b: u8, k: int)
    requires
        -1 <= k < s.len(),
        forall|j: int| k < j < s.len() ==> s[j] != b,
        k >= 0 ==> s[k] == b,
    ensures
        k >= 0 ==> rfind_byte(s, b) == Some(k as nat),
        k == -1 ==> rfind_byte(s, b) is None,
    decreases s.len(),
{
    if s.len() > 0 && k < s.len() - 1 {
        assert forall|j: int| k < j < s.len() - 1 implies s.drop_last()[j] != b by {
            assert(s.drop_last()[j] == s[j]);
        }
        if k >= 0 {
            assert(s.drop_last()[k] == s[k]);
        }
        lemma_rfind_byte_at(s.drop_last(), b, k);
    }
}

/// Index of the first `b` in `s[lo..hi]`, as an index into `s`.
pub fn find_byte_in(s: &[u8], lo: usize, hi: usize, b: u8) -> (r: Option<usize>)
    requires
        lo <= hi <= s@.len(),
    ensures
        r matches Some(i) ==> lo <= i < hi && find_byte(s@.subrange(lo as int, hi as int), b) == Some((i - lo) as nat),
        r is None ==> find_byte(s@.subrange(lo as int, hi as int), b) is None,
{
    let ghost sub = s@.subrange(lo as int, hi as int);
    let mut i = lo;
    while i < hi
        invariant
            lo <= i <= hi <= s@.len(),
            sub == s@.subrange(lo as int, hi as int),
            forall|j: int| 0 <= j < i - lo ==> sub[j] != b,
        decreases hi - i,
    {
        if s[i] == b {
            proof {
                assert(sub[i - lo] == s@[i as int]);
                lemma_find_byte_at(sub, b, i - lo);
            }
            return Some(i);
        }
        assert(sub[i - lo] == s@[i as int]);
        i = i + 1;
    }
    proof {
        lemma_find_byte_at(sub, b, sub.len() as int);
    }
    None
}

/// Index of the last `b` in `s[lo..hi]`, as an index into `s`.
pub fn rfind_byte_in(s: &[u8], lo: usize, hi: usize, b: u8) -> (r: Option<usize>)
    requires
        lo <= hi <= s@.len(),
    ensures
        r matches Some(i) ==> lo <= i < hi && rfind_byte(s@.subrange(lo as int, hi as int), b) == Some((i - lo) as nat),
        r is None ==> rfind_byte(s@.subrange(lo as int, hi as int), b) is None,
{
    let ghost sub = s@.subrange(lo as int, hi as int);
    let mut i = hi;
    while i > lo
        invariant
            lo <= i <= hi <= s@.len(),
            sub == s@.subrange(lo as int, hi as int),
            forall|j: int| i - lo <= j < sub.len() ==> sub[j] != b,
        decreases i - lo,
    {
        if s[i - 1] == b {
            proof {
                assert(sub[i - 1 - lo] == s@[i - 1]);
                lemma_rfind_byte_at(sub, b, i - 1 - lo);
            }
            return Some(i - 1);
        }
        assert(sub[i - 1 - lo] == s@[i - 1]);
        i = i - 1;
    }
    proof {
        lemma_rfind_byte_at(sub, b, -1);
    }
    None
}

/// `s` begins with `p`.
pub open spec fn starts_with(s: Seq<u8>, p: Seq<u8>) -> bool {
    p.len() <= s.len() && s.subrange(0, p.len() as int) == p
}

/// Whether `s[lo..hi]` begins with `p`.
pub fn starts_with_in(s: &[u8], lo: usize, hi: usize, p: &[u8]) -> (r: bool)
    requires
        lo <= hi <= s@.len(),
    ensures
        r == starts_with(s@.subrange(lo as int, hi as int), p@),
{
    let ghost sub = s@.subrange(lo as int, hi as int);
    if p.len() > hi - lo {
        return false;
    }
    let mut i: usize = 0;
    while i < p.len()
        invariant
            lo <= hi <= s@.len(),
            p@.len() <= hi - lo,
            sub == s@.subrange(lo as int, hi as int),
            0 <= i <= p@.len(),
            forall|j: int| 0 <= j < i ==> sub[j] == p@[j],
        decreases p@.len() - i,
    {
        if s[lo + i] != p[i] {
            assert(sub[i as int] == s@[lo + i]);
            assert(sub.subrange(0, p@.len() as int)[i as int] != p@[i as int]);
            return false;
        }
        assert(sub[i as int] == s@[lo + i]);
        i = i + 1;
    }
    assert(sub.subrange(0, p@.len() as int) =~= p@);
    true
}

/// Index of the first occurrence of `p` in `s`.
pub open spec fn find_seq(s: Seq<u8>, p: Seq<u8>) -> Option<nat>
    decreases s.len(),
{
    if s.len() < p.len() {
        None
    } else if starts_with(s, p) {
        Some(0)
    } else if s.len() == 0 {
        None
    } else {
        match find_seq(s.drop_first(), p) {
            Some(i) => Some(i + 1),
            None => None,
        }
    }
}

/// `s` contains `p` somewhere.
pub open spec fn contains_seq(s: Seq<u8>, p: Seq<u8>) -> bool {
    find_seq(s, p) is Some
}

proof fn lemma_find_seq_step(s: Seq<u8>, p: Seq<u8>, k: int)
    requires
        0 <= k,
        k + p.len() <= s.len(),
        forall|j: int| 0 <= j < k ==> !starts_with(#[trigger] s.subrange(j, s.len() as int), p),
        starts_with(s.subrange(k, s.len() as int), p),
    ensures
        find_seq(s, p) == Some(k as nat),
    decreases k,
{
    if k == 0 {
        assert(s.subrange(0, s.len() as int) =~= s);
    } else {
        assert(s.subrange(0, s.len() as int) =~= s);
        assert(!starts_with(s.subrange(0, s.len() as int), p));
        let t = s.drop_first();
        assert forall|j: int| 0 <= j < k - 1 implies !starts_with(#[trigger] t.subrange(j, t.len() as int), p) by {
            assert(t.subrange(j, t.len() as int) =~= s.subrange(j + 1, s.len() as int));
        }
        assert(t.subrange(k - 1, t.len() as int) =~= s.subrange(k, s.len() as int));
        lemma_find_seq_step(t, p, k - 1);
    }
}

proof fn lemma_find_seq_none(s: Seq<u8>, p: Seq<u8>)
    requires
        forall|j: int| 0 <= j <= s.len() - p.len() ==> !starts_with(#[trigger] s.subrange(j, s.len() as int), p),
    ensures
        find_seq(s, p) is None,
    decreases s.len(),
{
    if s.len() >= p.len() {
        assert(s.subrange(0, s.len() as int) =~= s);
        assert(!starts_with(s.subrange(0, s.len() as int), p));
        if s.len() > 0 {
            let t = s.drop_first();
            assert forall|j: int| 0 <= j <= t.len() - p.len() implies !starts_with(#[trigger] t.subrange(j, t.len() as int), p) by {
                assert(t.subrange(j, t.len() as int) =~= s.subrange(j + 1, s.len() as int));
            }
            lemma_find_seq_none(t, p);
        }
    }
}

/// Index of the first occurrence of `p` in `s[lo..hi]`, as an index into `s`.
pub fn find_seq_in(s: &[u8], lo: usize, hi: usize, p: &[u8]) -> (r: Option<usize>)
    requires
        lo <= hi <= s@.len(),
    ensures
        r matches Some(i) ==> lo <= i && i + p@.len() <= hi && find_seq(s@.subrange(lo as int, hi as int), p@) == Some((i - lo) as nat),
        r is None ==> find_seq(s@.subrange(lo as int, hi as int), p@) is None,
{
    let ghost sub = s@.subrange(lo as int, hi as int);
    if p.len() > hi - lo {
        proof {
            lemma_find_seq_none(sub, p@);
        }
        return None;
    }
    let last = hi - p.len();
    let mut i = lo;
    loop
        invariant
            lo <= i <= last,
            last + p@.len() == hi,
            hi <= s@.len(),
            sub == s@.subrange(lo as int, hi as int),
            forall|j: int| 0 <= j < i - lo ==> !starts_with(#[trigger] sub.subrange(j, sub.len() as int), p@),
        decreases last - i,
    {
        let found = starts_with_in(s, i, hi, p);
        assert(s@.subrange(i as int, hi as int) =~= sub.subrange(i - lo, sub.len() as int));
        if found {
            proof {
                lemma_find_seq_step(sub, p@, i - lo);
            }
            return Some(i);
        }
        if i == last {
            proof {
                lemma_find_seq_none(sub, p@);
            }
            return None;
        }
        i = i + 1;
    }
}

// ---------------------------------------------------------------------
// Splitting
// ---------------------------------------------------------------------

/// The pieces of `s` between occurrences of `sep`, as `str::split` yields
/// them (n separators give n + 1 pieces; the empty text gives one empty piece).
pub open spec fn split_bytes(s: Seq<u8>, sep: u8) -> Seq<Seq<u8>>
    decreases s.len(),
{
    match find_byte(s, sep) {
        None => seq![s],
        Some(i) => {
            if i < s.len() {
                seq![s.take(i as int)] + split_bytes(s.skip(i as int + 1), sep)
            } else {
                seq![s]
            }
        },
    }
}

/// The contents of each byte vector in `v`.
pub open spec fn views(v: Seq<Vec<u8>>) -> Seq<Seq<u8>> {
    v.map_values(|x: Vec<u8>| x@)
}

/// Splits `s[lo..hi]` at every `sep`.
pub fn split_in(s: &[u8], lo: usize, hi: usize, sep: u8) -> (parts: Vec<Vec<u8>>)
    requires
        lo <= hi <= s@.len(),
    ensures
        views(parts@) == split_bytes(s@.subrange(lo as int, hi as int), sep),
{
    let ghost whole = s@.subrange(lo as int, hi as int);
    let mut parts: Vec<Vec<u8>> = Vec::new();
    let mut start = lo;
    loop
        invariant
            lo <= start <= hi <= s@.len(),
            whole == s@.subrange(lo as int, hi as int),
            views(parts@) + split_bytes(s@.subrange(start as int, hi as int), sep) == split_bytes(whole, sep),
        decreases hi - start,
    {
        let ghost rest = s@.subrange(start as int, hi as int);
        match find_byte_in(s, start, hi, sep) {
            None => {
                let piece = copy_range(s, start, hi);
                let ghost before = views(parts@);
                parts.push(piece);
                assert(views(parts@) =~= before.push(rest));
                assert(split_bytes(rest, sep) == seq![rest]);
                assert(views(parts@) =~= before + split_bytes(rest, sep));
                return parts;
            },
            Some(i) => {
                let piece = copy_range(s, start, i);
                let ghost before = views(parts@);
                parts.push(piece);
                proof {
                    lemma_find_byte(rest, sep);
                    let k = (i - start) as nat;
                    assert(rest.take(k as int) =~= s@.subrange(start as int, i as int));
                    assert(rest.skip(k as int + 1) =~= s@.subrange(i + 1, hi as int));
                    assert(split_bytes(rest, sep) == seq![rest.take(k as int)] + split_bytes(rest.skip(k as int + 1), sep));
                    assert(views(parts@) =~= before.push(rest.take(k as int)));
                    assert(views(parts@) + split_bytes(s@.subrange(i + 1, hi as int), sep) =~= before + split_bytes(rest, sep));
                }
                start = i + 1;
            },
        }
    }
}

/// A copy of `s[lo..hi]`.
pub fn copy_range(s: &[u8], lo: usize, hi: usize) -> (v: Vec<u8>)
    requires
        lo <= hi <= s@.len(),
    ensures
        v@ == s@.subrange(lo as int, hi as int),
{
    let mut v: Vec<u8> = Vec::new();
    let mut i = lo;
    while i < hi
        invariant
            lo <= i <= hi <= s@.len(),
            v@ == s@.subrange(lo as int, i as int),
        decreases hi - i,
    {
        v.push(s[i]);
        assert(v@ =~= s@.subrange(lo as int, i + 1));
        i = i + 1;
    }
    v
}

/// Whether `a` and `b` hold the same bytes.
pub fn bytes_eq(a: &[u8], b: &[u8]) -> (r: bool)
    ensures
        r == (a@ == b@),
{
    if a.len() != b.len() {
        return false;
    }
    let mut i: usize = 0;
    while i < a.len()
        invariant
            a@.len() == b@.len(),
            0 <= i <= a@.len(),
            forall|j: int| 0 <= j < i ==> a@[j] == b@[j],
        decreases a@.len() - i,
    {
        if a[i] != b[i] {
            return false;
        }
        i = i + 1;
    }
    assert(a@ =~= b@);
    true
}

// ---------------------------------------------------------------------
// Whitespace trimming
// ---------------------------------------------------------------------

/// Length of the UTF-8 encoding of a Unicode `White_Space` character at the
/// start of `s` (what `char::is_whitespace` accepts), or 0 if `s` does not
/// start with one.
pub open spec fn ws_prefix_len(s: Seq<u8>) -> nat {
    if s.len() >= 1 && (9 <= s[0] <= 13 || s[0] == 32) {
        1
    } else if s.len() >= 2 && s[0] == 0xC2 && (s[1] == 0x85 || s[1] == 0xA0) {
        2
    } else if s.len() >= 3 && ((s[0] == 0xE1 && s[1] == 0x9A && s[2] == 0x80) || (s[0] == 0xE2
        && s[1] == 0x80 && (s[2] <= 0x8A && s[2] >= 0x80 || s[2] == 0xA8 || s[2] == 0xA9 || s[2]
        == 0xAF)) || (s[0] == 0xE2 && s[1] == 0x81 && s[2] == 0x9F) || (s[0] == 0xE3 && s[1]
        == 0x80 && s[2] == 0x80)) {
        3
    } else {
        0
    }
}

/// Length of the UTF-8 encoding of a Unicode `White_Space` character at the
/// end of `s`, or 0 if `s` does not end with one.
pub open spec fn ws_suffix_len(s: Seq<u8>) -> nat {
    let n = s.len() as int;
    if n >= 1 && (9 <= s[n - 1] <= 13 || s[n - 1] == 32) {
        1
    } else if n >= 2 && s[n - 2] == 0xC2 && (s[n - 1] == 0x85 || s[n - 1] == 0xA0) {
        2
    } else if n >= 3 && ws_prefix_len(s.subrange(n - 3, n)) == 3 {
        3
    } else {
        0
    }
}

/// `s` without its leading whitespace.
pub open spec fn trim_start(s: Seq<u8>) -> Seq<u8>
    decreases s.len(),
{
    if ws_prefix_len(s) == 0 {
        s
    } else {
        trim_start(s.skip(ws_prefix_len(s) as int))
    }
}

/// `s` without its trailing whitespace.
pub open spec fn trim_end(s: Seq<u8>) -> Seq<u8>
    decreases s.len(),
{
    if ws_suffix_len(s) == 0 {
        s
    } else {
        trim_end(s.take(s.len() - ws_suffix_len(s)))
    }
}

/// `s` without leading and trailing whitespace, as `str::trim` gives it.
pub open spec fn trim(s: Seq<u8>) -> Seq<u8> {
    trim_end(trim_start(s))
}

/// Length of a whitespace character encoding at the start of `s[i..hi]`.
fn ws_prefix_at(s: &[u8], i: usize, hi: usize) -> (k: usize)
    requires
        i <= hi <= s@.len(),
    ensures
        k as nat == ws_prefix_len(s@.subrange(i as int, hi as int)),
{
    let ghost t = s@.subrange(i as int, hi as int);
    let n = hi - i;
    if n >= 1 {
        assert(t[0] == s@[i as int]);
    }
    if n >= 2 {
        assert(t[1] == s@[i + 1]);
    }
    if n >= 3 {
        assert(t[2] == s@[i + 2]);
    }
    if n >= 1 && ((9 <= s[i] && s[i] <= 13) || s[i] == 32) {
        1
    } else if n >= 2 && s[i] == 0xC2 && (s[i + 1] == 0x85 || s[i + 1] == 0xA0) {
        2
    } else if n >= 3 && ((s[i] == 0xE1 && s[i + 1] == 0x9A && s[i + 2] == 0x80) || (s[i] == 0xE2
        && s[i + 1] == 0x80 && ((s[i + 2] <= 0x8A && s[i + 2] >= 0x80) || s[i + 2] == 0xA8 || s[i
        + 2] == 0xA9 || s[i + 2] == 0xAF)) || (s[i] == 0xE2 && s[i + 1] == 0x81 && s[i + 2]
        == 0x9F) || (s[i] == 0xE3 && s[i + 1] == 0x80 && s[i + 2] == 0x80)) {
        3
    } else {
        0
    }
}

/// Length of a whitespace character encoding at the end of `s[lo..j]`.
fn ws_suffix_at(s: &[u8], lo: usize, j: usize) -> (k: usize)
    requires
        lo <= j <= s@.len(),
    ensures
        k as nat == ws_suffix_len(s@.subrange(lo as int, j as int)),
{
    let ghost t = s@.subrange(lo as int, j as int);
    let n = j - lo;
    if n >= 1 {
        assert(t[n - 1] == s@[j - 1]);
    }
    if n >= 2 {
        assert(t[n - 2] == s@[j - 2]);
    }
    if n >= 1 && ((9 <= s[j - 1] && s[j - 1] <= 13) || s[j - 1] == 32) {
        1
    } else if n >= 2 && s[j - 2] == 0xC2 && (s[j - 1] == 0x85 || s[j - 1] == 0xA0) {
        2
    } else if n >= 3 {
        let w = ws_prefix_at(s, j - 3, j);
        assert(s@.subrange(j - 3, j as int) =~= t.subrange(n - 3, n as int));
        if w == 3 {
            3
        } else {
            0
        }
    } else {
        0
    }
}

/// The bounds `(a, b)` of `trim(s[lo..hi])` inside `s`.
pub fn trim_bounds(s: &[u8], lo: usize, hi: usize) -> (r: (usize, usize))
    requires
        lo <= hi <= s@.len(),
    ensures
        lo <= r.0 <= r.1 <= hi,
        s@.subrange(r.0 as int, r.1 as int) == trim(s@.subrange(lo as int, hi as int)),
{
    let ghost whole = s@.subrange(lo as int, hi as int);
    let mut a = lo;
    loop
        invariant
            lo <= a <= hi <= s@.len(),
            trim_start(s@.subrange(a as int, hi as int)) == trim_start(whole),
        ensures
            lo <= a <= hi,
            trim_start(s@.subrange(a as int, hi as int)) == trim_start(whole),
            ws_prefix_len(s@.subrange(a as int, hi as int)) == 0,
        decreases hi - a,
    {
        let k = ws_prefix_at(s, a, hi);
        if k == 0 {
            break;
        }
        assert(s@.subrange(a as int, hi as int).skip(k as int) =~= s@.subrange(a + k, hi as int));
        a = a + k;
    }
    assert(trim_start(whole) == s@.subrange(a as int, hi as int));
    let mut b = hi;
    loop
        invariant
            lo <= a <= b <= hi <= s@.len(),
            trim_end(s@.subrange(a as int, b as int)) == trim(whole),
        ensures
            lo <= a <= b <= hi,
            trim_end(s@.subrange(a as int, b as int)) == trim(whole),
            ws_suffix_len(s@.subrange(a as int, b as int)) == 0,
        decreases b - a,
    {
        let k = ws_suffix_at(s, a, b);
        if k == 0 {
            break;
        }
        assert(s@.subrange(a as int, b as int).take(b - a - k) =~= s@.subrange(a as int, b - k));
        b = b - k;
    }
    (a, b)
}

// ---------------------------------------------------------------------
// Lines and joining
// ---------------------------------------------------------------------

/// A line without its trailing carriage return, if any.
pub open spec fn strip_cr(l: Seq<u8>) -> Seq<u8> {
    if l.len() > 0 && l.last() == CR {
        l.drop_last()
    } else {
        l
    }
}

/// The lines of `s`, as `str::lines` yields them: split after each line
/// feed, the line feed and a carriage return just before it removed; a final
/// line feed does not start another line.
pub open spec fn lines(s: Seq<u8>) -> Seq<Seq<u8>>
    decreases s.len(),
{
    if s.len() == 0 {
        seq![]
    } else {
        match find_byte(s, LF) {
            None => seq![s],
            Some(i) => {
                if i < s.len() {
                    seq![strip_cr(s.take(i as int))] + lines(s.skip(i as int + 1))
                } else {
                    seq![s]
                }
            },
        }
    }
}

/// There are no more lines than bytes.
pub proof fn lemma_lines_len(s: Seq<u8>)
    ensures
        lines(s).len() <= s.len(),
    decreases s.len(),
{
    if s.len() > 0 {
        lemma_find_byte(s, LF);
        if let Some(i) = find_byte(s, LF) {
            lemma_lines_len(s.skip(i as int + 1));
        }
    }
}

/// The pieces of `parts` joined by `sep`, as `join` concatenates them.
pub open spec fn join(parts: Seq<Seq<u8>>, sep: Seq<u8>) -> Seq<u8>
    decreases parts.len(),
{
    if parts.len() == 0 {
        seq![]
    } else if parts.len() == 1 {
        parts[0]
    } else {
        join(parts.drop_last(), sep) + sep + parts.last()
    }
}

/// The bounds of the lines of `s[lo..hi]` (at most `limit` of them), each
/// given as a start and an end index into `s`.
pub fn line_bounds(s: &[u8], lo: usize, hi: usize, limit: usize) -> (r: Vec<(usize, usize)>)
    requires
        lo <= hi <= s@.len(),
    ensures
        r@.len() == if lines(s@.subrange(lo as int, hi as int)).len() < limit {
            lines(s@.subrange(lo as int, hi as int)).len() as int
        } else {
            limit as int
        },
        forall|k: int|
            0 <= k < r@.len() ==> lo <= (#[trigger] r@[k]).0 <= r@[k].1 <= hi && s@.subrange(
                r@[k].0 as int,
                r@[k].1 as int,
            ) == lines(s@.subrange(lo as int, hi as int))[k],
        forall|k: int|
            0 <= k < r@.len() ==> ((#[trigger] r@[k]).0 == lo || s@[r@[k].0 - 1] == LF) && (r@[k].1
                == hi || s@[r@[k].1 as int] == LF || s@[r@[k].1 as int] == CR),
{
    let ghost whole = lines(s@.subrange(lo as int, hi as int));
    let mut r: Vec<(usize, usize)> = Vec::new();
    let mut start = lo;
    while start < hi && r.len() < limit
        invariant
            lo <= start <= hi <= s@.len(),
            r@.len() <= limit,
            r@.len() + lines(s@.subrange(start as int, hi as int)).len() == whole.len(),
            forall|k: int|
                0 <= k < r@.len() ==> lo <= (#[trigger] r@[k]).0 <= r@[k].1 <= hi && s@.subrange(
                    r@[k].0 as int,
                    r@[k].1 as int,
                ) == whole[k],
            forall|k: int|
                0 <= k < r@.len() ==> ((#[trigger] r@[k]).0 == lo || s@[r@[k].0 - 1] == LF) && (
                r@[k].1 == hi || s@[r@[k].1 as int] == LF || s@[r@[k].1 as int] == CR),
            start == lo || start == hi || s@[start - 1] == LF,
            forall|k: int|
                0 <= k < lines(s@.subrange(start as int, hi as int)).len() ==> #[trigger] lines(
                    s@.subrange(start as int, hi as int),
                )[k] == whole[r@.len() + k],
        decreases hi - start,
    {
        let ghost rest = s@.subrange(start as int, hi as int);
        match find_byte_in(s, start, hi, LF) {
            None => {
                assert(lines(rest) == seq![rest]);
                assert(lines(rest)[0] == whole[r@.len() as int]);
                r.push((start, hi));
                start = hi;
                assert(lines(s@.subrange(start as int, hi as int)) =~= Seq::<Seq<u8>>::empty());
            },
            Some(i) => {
                let mut end = i;
                if end > start && s[end - 1] == CR {
                    end = end - 1;
                }
                proof {
                    lemma_find_byte(rest, LF);
                    let k = (i - start) as int;
                    assert(rest.take(k) =~= s@.subrange(start as int, i as int));
                    assert(rest.skip(k as int + 1) =~= s@.subrange(i + 1, hi as int));
                    assert(strip_cr(rest.take(k)) =~= s@.subrange(start as int, end as int));
                    let tail = lines(s@.subrange(i + 1, hi as int));
                    assert(lines(rest) == seq![strip_cr(rest.take(k))] + tail);
                    assert forall|m: int| 0 <= m < tail.len() implies #[trigger] tail[m] == whole[r@.len() + 1 + m] by {
                        assert(lines(rest)[m + 1] == tail[m]);
                    }
                    assert(lines(rest)[0] == s@.subrange(start as int, end as int));
                    assert(lines(rest)[0] == whole[r@.len() as int]);
                    assert(rest[k] == s@[i as int]);
                }
                r.push((start, end));
                start = i + 1;
            },
        }
    }
    proof {
        if start >= hi {
            assert(s@.subrange(start as int, hi as int).len() == 0);
        }
    }
    r
}

} // verus!
