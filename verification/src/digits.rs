//! Decimal and hexadecimal text for integers: formatting as Rust's `{}` and
//! `{:02X}` print them, and parsing as `str::parse` / `from_str_radix` read them.

use vstd::prelude::*;

verus! {

/// ASCII `'+'`.
pub const PLUS: u8 = 43;
/// ASCII `'-'`.
pub const MINUS: u8 = 45;

/// Value of an ASCII digit character in any radix up to 36
/// (`'0'..='9'`, `'a'..='z'`, `'A'..='Z'`); 36 marks a non-digit.
pub open spec fn digit_val(b: u8) -> nat {
    if 48 <= b <= 57 {
        (b - 48) as nat
    } else if 97 <= b <= 122 {
        (b - 87) as nat
    } else if 65 <= b <= 90 {
        (b - 55) as nat
    } else {
        36
    }
}

/// True when `b` is a digit of the given radix.
pub open spec fn is_digit(b: u8, radix: nat) -> bool {
    digit_val(b) < radix
}

/// Every byte of `s` is a digit of the given radix.
pub open spec fn all_digits(s: Seq<u8>, radix: nat) -> bool {
    forall|i: int| 0 <= i < s.len() ==> #[trigger] is_digit(s[i], radix)
}

/// The number that the digit string `s` denotes, most significant digit first.
pub open spec fn digits_value(s: Seq<u8>, radix: nat) -> nat
    decreases s.len(),
{
    if s.len() == 0 {
        0
    } else {
        digits_value(s.drop_last(), radix) * radix + digit_val(s.last())
    }
}

/// What `from_str_radix` / `parse` of an unsigned integer type whose largest
/// value is `max` gives for the text `s`: an optional leading `'+'`, then at
/// least one digit, and a value no larger than `max`.
pub open spec fn parse_unsigned(s: Seq<u8>, radix: nat, max: nat) -> Option<nat> {
    let digits = if s.len() > 0 && s[0] == PLUS {
        s.drop_first()
    } else {
        s
    };
    if digits.len() == 0 || !all_digits(digits, radix) || digits_value(digits, radix) > max {
        None
    } else {
        Some(digits_value(digits, radix))
    }
}

/// What `parse` of a signed integer type with range `min..=max` gives for the
/// decimal text `s`: an optional sign, at least one digit, a value in range.
pub open spec fn parse_signed(s: Seq<u8>, min: int, max: int) -> Option<int> {
    let negative = s.len() > 0 && s[0] == MINUS;
    let digits = if s.len() > 0 && (s[0] == PLUS || s[0] == MINUS) {
        s.drop_first()
    } else {
        s
    };
    let v: int = if negative {
        -digits_value(digits, 10)
    } else {
        digits_value(digits, 10) as int
    };
    if digits.len() == 0 || !all_digits(digits, 10) || v < min || v > max {
        None
    } else {
        Some(v)
    }
}

/// Decimal digits of `n` without sign or leading zeros, as `{}` prints them.
pub open spec fn dec_digits(n: nat) -> Seq<u8>
    decreases n,
{
    if n < 10 {
        seq![(48 + n) as u8]
    } else {
        dec_digits(n / 10).push((48 + n % 10) as u8)
    }
}

/// Decimal text of a signed value, as `{}` prints it.
pub open spec fn signed_dec(v: int) -> Seq<u8> {
    if v < 0 {
        seq![MINUS] + dec_digits((-v) as nat)
    } else {
        dec_digits(v as nat)
    }
}

/// Upper-case hexadecimal digit character for `d < 16`.
pub open spec fn hex_char(d: nat) -> u8 {
    if d < 10 {
        (48 + d) as u8
    } else {
        (55 + d) as u8
    }
}

/// The two upper-case hexadecimal digits of a byte, as `{:02X}` prints it.
pub open spec fn hex_pair(c: u8) -> Seq<u8> {
    seq![hex_char(c as nat / 16), hex_char(c as nat % 16)]
}

// ---------------------------------------------------------------------
// Lemmas
// ---------------------------------------------------------------------

proof fn lemma_saturate_step(v: nat, cap: nat, radix: nat, d: nat)
    by (nonlinear_arith)
    requires
        radix >= 1,
    ensures
        (if v <= cap { v } else { cap }) * radix + d >= cap ==> v * radix + d >= cap,
        v > cap ==> v * radix + d > cap,
        v > cap ==> cap * radix + d >= cap,
{
}

/// The digits of `dec_digits(n)` read back as `n`.
pub proof fn lemma_dec_digits(n: nat)
    ensures
        dec_digits(n).len() >= 1,
        all_digits(dec_digits(n), 10),
        digits_value(dec_digits(n), 10) == n,
        dec_digits(n)[0] != PLUS,
        dec_digits(n)[0] != MINUS,
        forall|i: int| 0 <= i < dec_digits(n).len() ==> 48 <= #[trigger] dec_digits(n)[i] <= 57,
    decreases n,
{
    if n >= 10 {
        lemma_dec_digits(n / 10);
        let s = dec_digits(n);
        assert(s.drop_last() =~= dec_digits(n / 10));
        assert forall|i: int| 0 <= i < s.len() implies 48 <= #[trigger] s[i] <= 57 by {
            if i < s.len() - 1 {
                assert(s[i] == dec_digits(n / 10)[i]);
            }
        }
        assert forall|i: int| 0 <= i < s.len() implies #[trigger] is_digit(s[i], 10) by {
            assert(48 <= s[i] <= 57);
        }
        assert(digit_val(s.last()) == n % 10);
        assert((n / 10) * 10 + n % 10 == n) by (nonlinear_arith);
        assert(digits_value(s, 10) == digits_value(dec_digits(n / 10), 10) * 10 + n % 10);
    } else {
        let s = dec_digits(n);
        assert(s.drop_last() =~= Seq::<u8>::empty());
        assert(digits_value(s.drop_last(), 10) == 0);
        assert(digit_val(s.last()) == n);
    }
}

/// Reading back `dec_digits(n)` as a bounded unsigned value.
pub proof fn lemma_parse_unsigned_dec(n: nat, max: nat)
    requires
        n <= max,
    ensures
        parse_unsigned(dec_digits(n), 10, max) == Some(n),
{
    lemma_dec_digits(n);
}

/// Reading back `signed_dec(v)` as a bounded signed value.
pub proof fn lemma_parse_signed_dec(v: int, min: int, max: int)
    requires
        min <= v <= max,
    ensures
        parse_signed(signed_dec(v), min, max) == Some(v),
{
    if v < 0 {
        let n = (-v) as nat;
        lemma_dec_digits(n);
        let s = signed_dec(v);
        assert(s.drop_first() =~= dec_digits(n));
    } else {
        lemma_dec_digits(v as nat);
    }
}

/// The characters of `hex_pair(c)` are upper-case hexadecimal digits.
pub proof fn lemma_hex_pair_chars(c: u8)
    ensures
        hex_pair(c).len() == 2,
        forall|i: int|
            0 <= i < 2 ==> (48 <= #[trigger] hex_pair(c)[i] <= 57 || 65 <= hex_pair(c)[i] <= 70),
{
}

/// Reading back `hex_pair(c)` in radix 16 gives `c`.
pub proof fn lemma_parse_hex_pair(c: u8)
    ensures
        parse_unsigned(hex_pair(c), 16, 255) == Some(c as nat),
{
    let s = hex_pair(c);
    let hi = c as nat / 16;
    let lo = c as nat % 16;
    assert(digit_val(hex_char(hi)) == hi);
    assert(digit_val(hex_char(lo)) == lo);
    assert(s.drop_last() =~= seq![hex_char(hi)]);
    assert(s.drop_last().drop_last() =~= Seq::<u8>::empty());
    assert(all_digits(s, 16)) by {
        assert forall|i: int| 0 <= i < s.len() implies #[trigger] is_digit(s[i], 16) by {
            if i == 0 {
            } else {
            }
        }
    }
    assert(digits_value(s.drop_last().drop_last(), 16) == 0);
    assert(digits_value(s.drop_last(), 16) == hi);
    assert(digits_value(s, 16) == hi * 16 + lo);
    assert(hi * 16 + lo == c as nat) by (nonlinear_arith)
        requires hi == c as nat / 16, lo == c as nat % 16;
}

// ---------------------------------------------------------------------
// Formatting
// ---------------------------------------------------------------------

/// Appends the decimal digits of `v` to `out`.
pub fn push_decimal(out: &mut Vec<u8>, v: u64)
    ensures
        final(out)@ == old(out)@ + dec_digits(v as nat),
    decreases v,
{
    if v >= 10 {
        push_decimal(out, v / 10);
    }
    let d: u8 = (v % 10) as u8;
    out.push(48 + d);
    proof {
        if v >= 10 {
            assert(dec_digits(v as nat) == dec_digits((v / 10) as nat).push((48 + v % 10) as u8));
        }
    }
    assert(final(out)@ =~= old(out)@ + dec_digits(v as nat)) by {
        if v < 10 {
        } else {
        }
    }
}

/// Appends the decimal text of a signed value (with a leading `'-'` when
/// negative) to `out`.
pub fn push_signed_decimal(out: &mut Vec<u8>, v: i64)
    ensures
        final(out)@ == old(out)@ + signed_dec(v as int),
{
    if v < 0 {
        out.push(MINUS);
        let mag: u64 = if v == i64::MIN {
            9223372036854775808u64
        } else {
            (-v) as u64
        };
        push_decimal(out, mag);
        assert(final(out)@ =~= old(out)@ + signed_dec(v as int));
    } else {
        push_decimal(out, v as u64);
    }
}

/// Upper-case hexadecimal digit character for `d < 16`.
pub fn hex_digit(d: u8) -> (c: u8)
    requires
        d < 16,
    ensures
        c == hex_char(d as nat),
{
    if d < 10 {
        48 + d
    } else {
        55 + d
    }
}

/// Appends the two upper-case hexadecimal digits of `c` to `out`.
pub fn push_hex_pair(out: &mut Vec<u8>, c: u8)
    ensures
        final(out)@ == old(out)@ + hex_pair(c),
{
    let hi = hex_digit(c / 16);
    let lo = hex_digit(c % 16);
    out.push(hi);
    out.push(lo);
    assert(final(out)@ =~= old(out)@ + hex_pair(c));
}

// ---------------------------------------------------------------------
// Parsing
// ---------------------------------------------------------------------

/// Value of the ASCII digit `b` (36 for a non-digit).
pub fn digit_value(b: u8) -> (d: u8)
    ensures
        d as nat == digit_val(b),
{
    if 48 <= b && b <= 57 {
        b - 48
    } else if 97 <= b && b <= 122 {
        b - 87
    } else if 65 <= b && b <= 90 {
        b - 55
    } else {
        36
    }
}

/// Reads the digits `s[lo..hi]` in the given radix. `None` when some byte is
/// not a digit; otherwise the value, capped at `cap`.
pub fn read_digits(s: &[u8], lo: usize, hi: usize, radix: u8, cap: u128) -> (r: Option<u128>)
    requires
        lo <= hi <= s@.len(),
        2 <= radix <= 36,
        cap <= 0x1_0000_0000_0000_0000u128,
    ensures
        r is Some <==> all_digits(s@.subrange(lo as int, hi as int), radix as nat),
        r matches Some(v) ==> v == (if digits_value(s@.subrange(lo as int, hi as int), radix as nat)
            <= cap {
            digits_value(s@.subrange(lo as int, hi as int), radix as nat) as int
        } else {
            cap as int
        }),
{
    let mut acc: u128 = 0;
    let mut i: usize = lo;
    while i < hi
        invariant
            lo <= i <= hi <= s@.len(),
            2 <= radix <= 36,
            cap <= 0x1_0000_0000_0000_0000u128,
            all_digits(s@.subrange(lo as int, i as int), radix as nat),
            acc == (if digits_value(s@.subrange(lo as int, i as int), radix as nat) <= cap {
                digits_value(s@.subrange(lo as int, i as int), radix as nat) as int
            } else {
                cap as int
            }),
        decreases hi - i,
    {
        let d = digit_value(s[i]);
        if d >= radix {
            proof {
                let sub = s@.subrange(lo as int, hi as int);
                assert(sub[i - lo] == s@[i as int]);
                assert(!is_digit(sub[i - lo], radix as nat));
            }
            return None;
        }
        let ghost prev = s@.subrange(lo as int, i as int);
        let ghost next = s@.subrange(lo as int, i + 1);
        assert(next.drop_last() =~= prev);
        assert(next.last() == s@[i as int]);
        proof {
            lemma_saturate_step(digits_value(prev, radix as nat), cap as nat, radix as nat, d as nat);
            assert forall|k: int| 0 <= k < next.len() implies #[trigger] is_digit(next[k], radix as nat) by {
                if k < prev.len() {
                    assert(next[k] == prev[k]);
                }
            }
        }
        assert(acc <= cap);
        assert(acc * (radix as u128) <= 0x1_0000_0000_0000_0000u128 * 36) by (nonlinear_arith)
            requires acc <= 0x1_0000_0000_0000_0000u128, radix <= 36;
        let t: u128 = acc * (radix as u128) + (d as u128);
        acc = if t <= cap { t } else { cap };
        i = i + 1;
    }
    Some(acc)
}

/// Parses `s[lo..hi]` as `from_str_radix` does for an unsigned type whose
/// largest value is `max`.
pub fn parse_unsigned_range(s: &[u8], lo: usize, hi: usize, radix: u8, max: u64) -> (r: Option<u64>)
    requires
        lo <= hi <= s@.len(),
        2 <= radix <= 36,
    ensures
        r matches Some(v) ==> parse_unsigned(s@.subrange(lo as int, hi as int), radix as nat, max as nat) == Some(v as nat),
        r is None ==> parse_unsigned(s@.subrange(lo as int, hi as int), radix as nat, max as nat) is None,
{
    let ghost text = s@.subrange(lo as int, hi as int);
    let mut start = lo;
    if lo < hi && s[lo] == PLUS {
        start = lo + 1;
        assert(s@.subrange(start as int, hi as int) =~= text.drop_first());
    } else {
        assert(s@.subrange(start as int, hi as int) =~= text);
    }
    if start == hi {
        return None;
    }
    let cap: u128 = (max as u128) + 1;
    match read_digits(s, start, hi, radix, cap) {
        None => None,
        Some(v) => {
            if v > max as u128 {
                None
            } else {
                Some(v as u64)
            }
        },
    }
}

/// Parses `s[lo..hi]` as decimal text for a signed type with range
/// `min..=max`, as `str::parse` does.
pub fn parse_signed_range(s: &[u8], lo: usize, hi: usize, min: i64, max: i64) -> (r: Option<i64>)
    requires
        lo <= hi <= s@.len(),
        min <= 0 <= max,
    ensures
        r matches Some(v) ==> parse_signed(s@.subrange(lo as int, hi as int), min as int, max as int) == Some(v as int),
        r is None ==> parse_signed(s@.subrange(lo as int, hi as int), min as int, max as int) is None,
{
    let ghost text = s@.subrange(lo as int, hi as int);
    let mut start = lo;
    let mut negative = false;
    if lo < hi && (s[lo] == PLUS || s[lo] == MINUS) {
        negative = s[lo] == MINUS;
        start = lo + 1;
        assert(s@.subrange(start as int, hi as int) =~= text.drop_first());
    } else {
        assert(s@.subrange(start as int, hi as int) =~= text);
    }
    if start == hi {
        return None;
    }
    let cap: u128 = 0x1_0000_0000_0000_0000u128;
    match read_digits(s, start, hi, 10, cap) {
        None => None,
        Some(mag) => {
            if negative {
                if mag > (-(min as i128)) as u128 {
                    None
                } else {
                    Some((-(mag as i128)) as i64)
                }
            } else {
                if mag > max as u128 {
                    None
                } else {
                    Some(mag as i64)
                }
            }
        },
    }
}

} // verus!
