//! The FINN serial sentence protocol between the PC and the motor ESP32.
//!
//! Every sentence uses NMEA-style framing: `$<body>*<checksum>\r\n`, where
//! the checksum is the XOR of the body's bytes, printed as two upper-case
//! hexadecimal digits.
//!
//! PC to motor ESP32:
//! - `$FINNSTEER,<desired_angle_x100>*<checksum>`
//! - `$FINNCFG,WAS,<centre>,<left>,<right>*<checksum>`
//! - `$FINNCFG,PID,<kp_x100>,<min_pwm>,<max_pwm>*<checksum>`
//! - `$FINNCFG,INVERT,<0|1>*<checksum>`
//! - `$FINNCFG,WASF,<ema_alpha_x100>,<deadzone_x100>,<curve_exp_x100>*<checksum>`
//!
//! Motor ESP32 to PC:
//! - `$FINNMTR,<pwm>,<was_raw>,<angle_x100>,<enabled>,<uptime_ms>*<checksum>`
//! - `$FINNACK,<param>,<OK|ERR>*<checksum>`

use vstd::prelude::*;
use vstd::utf8::*;
use vstd::string::*;
use crate::digits::{
    dec_digits, hex_pair, lemma_dec_digits, lemma_hex_pair_chars, push_decimal, push_hex_pair,
    push_signed_decimal, signed_dec,
};
use crate::strings::{bytes_to_string, is_ascii_bytes, lemma_ascii_valid_utf8, lemma_str_valid_utf8};
use crate::text::{CR, LF};

verus! {

/// ASCII `'$'`, which opens every sentence.
pub const DOLLAR: u8 = 36;
/// ASCII `'*'`, which separates the body from the checksum.
pub const STAR: u8 = 42;
/// ASCII `','`, which separates fields.
pub const COMMA: u8 = 44;

/// Serial baud rate of the GPS module and the motor ESP32.
pub const SERIAL_BAUD_RATE: u32 = 115200;

// ---------------------------------------------------------------------
// Checksum and framing
// ---------------------------------------------------------------------

/// XOR of all bytes of `s`, folded from the first byte to the last.
pub open spec fn xor_checksum(s: Seq<u8>) -> u8
    decreases s.len(),
{
    if s.len() == 0 {
        0
    } else {
        xor_checksum(s.drop_last()) ^ s.last()
    }
}

/// The complete sentence for a body: `$`, the body, `*`, the checksum in two
/// upper-case hexadecimal digits, and `\r\n`.
pub open spec fn finn_frame(body: Seq<u8>) -> Seq<u8> {
    seq![DOLLAR] + body + seq![STAR] + hex_pair(xor_checksum(body)) + seq![CR, LF]
}

/// XOR checksum of `s[lo..hi]`.
pub fn checksum_range(s: &[u8], lo: usize, hi: usize) -> (c: u8)
    requires
        lo <= hi <= s@.len(),
    ensures
        c == xor_checksum(s@.subrange(lo as int, hi as int)),
{
    let mut acc: u8 = 0;
    let mut i = lo;
    while i < hi
        invariant
            lo <= i <= hi <= s@.len(),
            acc == xor_checksum(s@.subrange(lo as int, i as int)),
        decreases hi - i,
    {
        assert(s@.subrange(lo as int, i + 1).drop_last() =~= s@.subrange(lo as int, i as int));
        acc = acc ^ s[i];
        i = i + 1;
    }
    acc
}

/// NMEA-style XOR checksum over a message body (the text between `$` and `*`).
pub fn nmea_checksum(body: &str) -> (c: u8)
    ensures
        c == xor_checksum(body.spec_bytes()),
{
    let b = body.as_bytes();
    let c = checksum_range(b, 0, b.len());
    assert(b@.subrange(0, b@.len() as int) =~= b@);
    c
}

/// Appends all of `p` to `out`.
pub fn extend_bytes(out: &mut Vec<u8>, p: &[u8])
    ensures
        final(out)@ == old(out)@ + p@,
{
    let mut i: usize = 0;
    while i < p.len()
        invariant
            0 <= i <= p@.len(),
            out@ == old(out)@ + p@.subrange(0, i as int),
        decreases p@.len() - i,
    {
        out.push(p[i]);
        assert(out@ =~= old(out)@ + p@.subrange(0, i + 1));
        i = i + 1;
    }
    assert(p@.subrange(0, p@.len() as int) =~= p@);
}

/// The framed sentence bytes for a body.
pub fn frame_bytes(body: &[u8]) -> (v: Vec<u8>)
    ensures
        v@ == finn_frame(body@),
{
    let mut v: Vec<u8> = Vec::new();
    v.push(DOLLAR);
    extend_bytes(&mut v, body);
    v.push(STAR);
    let cs = checksum_range(body, 0, body.len());
    assert(body@.subrange(0, body@.len() as int) =~= body@);
    push_hex_pair(&mut v, cs);
    v.push(CR);
    v.push(LF);
    assert(v@ =~= finn_frame(body@));
    v
}

/// The framing added around a valid UTF-8 body keeps it valid UTF-8.
pub proof fn lemma_frame_valid_utf8(body: Seq<u8>)
    requires
        valid_utf8(body),
    ensures
        valid_utf8(finn_frame(body)),
{
    let c = xor_checksum(body);
    let open = seq![DOLLAR];
    let close = seq![STAR] + hex_pair(c) + seq![CR, LF];
    lemma_hex_pair_chars(c);
    assert(is_ascii_bytes(open));
    assert(is_ascii_bytes(close)) by {
        assert forall|i: int| 0 <= i < close.len() implies #[trigger] close[i] < 128 by {
            if 1 <= i < 3 {
                assert(close[i] == hex_pair(c)[i - 1]);
            }
        }
    }
    lemma_ascii_valid_utf8(open);
    lemma_ascii_valid_utf8(close);
    valid_utf8_concat(open, body);
    valid_utf8_concat(open + body, close);
    assert(finn_frame(body) =~= (open + body) + close);
}

/// The sentence for an ASCII body, as a string.
pub fn frame_ascii(body: &[u8]) -> (r: String)
    requires
        is_ascii_bytes(body@),
    ensures
        encode_utf8(r@) == finn_frame(body@),
{
    let v = frame_bytes(body);
    proof {
        lemma_ascii_valid_utf8(body@);
        lemma_frame_valid_utf8(body@);
    }
    bytes_to_string(v.as_slice())
}

/// Format a complete FINN sentence from a body string: adds `$`, `*`, the
/// checksum and `\r\n`.
pub fn format_finn_sentence(body: &str) -> (r: String)
    ensures
        encode_utf8(r@) == finn_frame(body.spec_bytes()),
{
    let b = body.as_bytes();
    let v = frame_bytes(b);
    proof {
        lemma_str_valid_utf8(body);
        lemma_frame_valid_utf8(b@);
    }
    bytes_to_string(v.as_slice())
}

// ---------------------------------------------------------------------
// Outgoing command bodies
// ---------------------------------------------------------------------

/// `FINNSTEER,`
pub open spec fn steer_tag() -> Seq<u8> {
    seq!['F' as u8, 'I' as u8, 'N' as u8, 'N' as u8, 'S' as u8, 'T' as u8, 'E' as u8, 'E' as u8, 'R' as u8, ',' as u8]
}

/// `FINNCFG,`
pub open spec fn cfg_tag() -> Seq<u8> {
    seq!['F' as u8, 'I' as u8, 'N' as u8, 'N' as u8, 'C' as u8, 'F' as u8, 'G' as u8, ',' as u8]
}

/// `WAS,`
pub open spec fn was_tag() -> Seq<u8> {
    seq!['W' as u8, 'A' as u8, 'S' as u8, ',' as u8]
}

/// `PID,`
pub open spec fn pid_tag() -> Seq<u8> {
    seq!['P' as u8, 'I' as u8, 'D' as u8, ',' as u8]
}

/// `INVERT,`
pub open spec fn invert_tag() -> Seq<u8> {
    seq!['I' as u8, 'N' as u8, 'V' as u8, 'E' as u8, 'R' as u8, 'T' as u8, ',' as u8]
}

/// `WASF,`
pub open spec fn wasf_tag() -> Seq<u8> {
    seq!['W' as u8, 'A' as u8, 'S' as u8, 'F' as u8, ',' as u8]
}

/// Body of a steer command: `FINNSTEER,<angle_x100>`.
pub open spec fn steer_body(angle_x100: int) -> Seq<u8> {
    steer_tag() + signed_dec(angle_x100)
}

/// Three decimal values separated by commas.
pub open spec fn three_values(a: nat, b: nat, c: nat) -> Seq<u8> {
    dec_digits(a) + seq![COMMA] + dec_digits(b) + seq![COMMA] + dec_digits(c)
}

/// Body of a WAS calibration command: `FINNCFG,WAS,<centre>,<left>,<right>`.
pub open spec fn was_config_body(centre: nat, left: nat, right: nat) -> Seq<u8> {
    cfg_tag() + was_tag() + three_values(centre, left, right)
}

/// Body of a PID command: `FINNCFG,PID,<kp_x100>,<min_pwm>,<max_pwm>`.
pub open spec fn pid_config_body(kp_x100: nat, min_pwm: nat, max_pwm: nat) -> Seq<u8> {
    cfg_tag() + pid_tag() + three_values(kp_x100, min_pwm, max_pwm)
}

/// Body of a motor-invert command: `FINNCFG,INVERT,<1|0>`.
pub open spec fn invert_config_body(invert: bool) -> Seq<u8> {
    cfg_tag() + invert_tag() + seq![if invert { '1' as u8 } else { '0' as u8 }]
}

/// Body of a WAS filtering command:
/// `FINNCFG,WASF,<ema_alpha_x100>,<deadzone_x100>,<curve_exp_x100>`.
pub open spec fn wasf_config_body(ema: nat, deadzone: nat, curve: nat) -> Seq<u8> {
    cfg_tag() + wasf_tag() + three_values(ema, deadzone, curve)
}

/// The decimal digits of a value are ASCII.
pub proof fn lemma_dec_ascii(n: nat)
    ensures
        is_ascii_bytes(dec_digits(n)),
{
    lemma_dec_digits(n);
}

/// Signed decimal text is ASCII.
pub proof fn lemma_signed_dec_ascii(v: int)
    ensures
        is_ascii_bytes(signed_dec(v)),
{
    if v < 0 {
        lemma_dec_digits((-v) as nat);
        let s = signed_dec(v);
        assert forall|i: int| 0 <= i < s.len() implies #[trigger] s[i] < 128 by {
            if i > 0 {
                assert(s[i] == dec_digits((-v) as nat)[i - 1]);
            }
        }
    } else {
        lemma_dec_digits(v as nat);
    }
}

/// Concatenated ASCII texts are ASCII.
pub proof fn lemma_ascii_concat(a: Seq<u8>, b: Seq<u8>)
    requires
        is_ascii_bytes(a),
        is_ascii_bytes(b),
    ensures
        is_ascii_bytes(a + b),
{
    assert forall|i: int| 0 <= i < (a + b).len() implies #[trigger] (a + b)[i] < 128 by {
        if i >= a.len() {
            assert((a + b)[i] == b[i - a.len()]);
        }
    }
}

fn cfg_tag_bytes() -> (v: Vec<u8>)
    ensures
        v@ == cfg_tag(),
{
    vec!['F' as u8, 'I' as u8, 'N' as u8, 'N' as u8, 'C' as u8, 'F' as u8, 'G' as u8, ',' as u8]
}

fn push_three_values(out: &mut Vec<u8>, a: u64, b: u64, c: u64)
    ensures
        final(out)@ == old(out)@ + three_values(a as nat, b as nat, c as nat),
        is_ascii_bytes(three_values(a as nat, b as nat, c as nat)),
{
    push_decimal(out, a);
    out.push(COMMA);
    push_decimal(out, b);
    out.push(COMMA);
    push_decimal(out, c);
    assert(final(out)@ =~= old(out)@ + three_values(a as nat, b as nat, c as nat));
    proof {
        lemma_dec_ascii(a as nat);
        lemma_dec_ascii(b as nat);
        lemma_dec_ascii(c as nat);
        lemma_ascii_concat(dec_digits(a as nat), seq![COMMA]);
        lemma_ascii_concat(dec_digits(a as nat) + seq![COMMA], dec_digits(b as nat));
        lemma_ascii_concat(dec_digits(a as nat) + seq![COMMA] + dec_digits(b as nat), seq![COMMA]);
        lemma_ascii_concat(dec_digits(a as nat) + seq![COMMA] + dec_digits(b as nat) + seq![COMMA], dec_digits(c as nat));
    }
}

/// Body of a steer command.
pub fn steer_body_bytes(angle_x100: i16) -> (v: Vec<u8>)
    ensures
        v@ == steer_body(angle_x100 as int),
        is_ascii_bytes(v@),
{
    let mut v: Vec<u8> = vec!['F' as u8, 'I' as u8, 'N' as u8, 'N' as u8, 'S' as u8, 'T' as u8, 'E' as u8, 'E' as u8, 'R' as u8, ',' as u8];
    assert(v@ =~= steer_tag());
    push_signed_decimal(&mut v, angle_x100 as i64);
    proof {
        lemma_signed_dec_ascii(angle_x100 as int);
        lemma_ascii_concat(steer_tag(), signed_dec(angle_x100 as int));
    }
    v
}

/// Format a steer command for the motor ESP32. The value is the desired
/// steering angle multiplied by 100 (-5.23 degrees is -523).
pub fn format_steer_command(angle_x100: i16) -> (r: String)
    ensures
        encode_utf8(r@) == finn_frame(steer_body(angle_x100 as int)),
{
    let body = steer_body_bytes(angle_x100);
    frame_ascii(body.as_slice())
}

/// Format a WAS calibration command (three-point calibration in raw ADC
/// counts).
pub fn format_was_config(centre: u16, left: u16, right: u16) -> (r: String)
    ensures
        encode_utf8(r@) == finn_frame(was_config_body(centre as nat, left as nat, right as nat)),
{
    let mut v = cfg_tag_bytes();
    v.push('W' as u8);
    v.push('A' as u8);
    v.push('S' as u8);
    v.push(COMMA);
    assert(v@ =~= cfg_tag() + was_tag());
    push_three_values(&mut v, centre as u64, left as u64, right as u64);
    assert(v@ =~= was_config_body(centre as nat, left as nat, right as nat));
    proof {
        lemma_ascii_concat(cfg_tag() + was_tag(), three_values(centre as nat, left as nat, right as nat));
    }
    frame_ascii(v.as_slice())
}

/// Format a PID config command (`kp_x100` is the gain times 100).
pub fn format_pid_config(kp_x100: u16, min_pwm: u16, max_pwm: u16) -> (r: String)
    ensures
        encode_utf8(r@) == finn_frame(pid_config_body(kp_x100 as nat, min_pwm as nat, max_pwm as nat)),
{
    let mut v = cfg_tag_bytes();
    v.push('P' as u8);
    v.push('I' as u8);
    v.push('D' as u8);
    v.push(COMMA);
    assert(v@ =~= cfg_tag() + pid_tag());
    push_three_values(&mut v, kp_x100 as u64, min_pwm as u64, max_pwm as u64);
    assert(v@ =~= pid_config_body(kp_x100 as nat, min_pwm as nat, max_pwm as nat));
    proof {
        lemma_ascii_concat(cfg_tag() + pid_tag(), three_values(kp_x100 as nat, min_pwm as nat, max_pwm as nat));
    }
    frame_ascii(v.as_slice())
}

/// Format a motor invert config command.
pub fn format_invert_config(invert: bool) -> (r: String)
    ensures
        encode_utf8(r@) == finn_frame(invert_config_body(invert)),
{
    let mut v = cfg_tag_bytes();
    v.push('I' as u8);
    v.push('N' as u8);
    v.push('V' as u8);
    v.push('E' as u8);
    v.push('R' as u8);
    v.push('T' as u8);
    v.push(COMMA);
    if invert {
        v.push('1' as u8);
    } else {
        v.push('0' as u8);
    }
    assert(v@ =~= invert_config_body(invert));
    frame_ascii(v.as_slice())
}

/// Format a WAS filtering config command; all values are times 100.
pub fn format_wasf_config(ema_alpha_x100: u16, deadzone_x100: u16, curve_exp_x100: u16) -> (r: String)
    ensures
        encode_utf8(r@) == finn_frame(wasf_config_body(ema_alpha_x100 as nat, deadzone_x100 as nat, curve_exp_x100 as nat)),
{
    let mut v = cfg_tag_bytes();
    v.push('W' as u8);
    v.push('A' as u8);
    v.push('S' as u8);
    v.push('F' as u8);
    v.push(COMMA);
    assert(v@ =~= cfg_tag() + wasf_tag());
    push_three_values(&mut v, ema_alpha_x100 as u64, deadzone_x100 as u64, curve_exp_x100 as u64);
    assert(v@ =~= wasf_config_body(ema_alpha_x100 as nat, deadzone_x100 as nat, curve_exp_x100 as nat));
    proof {
        lemma_ascii_concat(cfg_tag() + wasf_tag(), three_values(ema_alpha_x100 as nat, deadzone_x100 as nat, curve_exp_x100 as nat));
    }
    frame_ascii(v.as_slice())
}

} // verus!
