//! Parser for the FINN sentences that the motor ESP32 sends to the PC.
//!
//! Only `$FINNMTR` (motor status) and `$FINNACK` (configuration
//! acknowledgement) sentences are recognised. Standard NMEA sentences from the
//! GPS module are not FINN sentences and give `None`, as do sentences whose
//! checksum does not match or whose fields are malformed.

use vstd::prelude::*;
use vstd::utf8::*;
use vstd::string::*;
use crate::digits::{
    dec_digits, hex_pair, lemma_dec_digits, lemma_hex_pair_chars, lemma_parse_hex_pair,
    lemma_parse_signed_dec, lemma_parse_unsigned_dec, parse_signed, parse_signed_range,
    parse_unsigned, parse_unsigned_range, signed_dec,
};
use crate::protocol::{checksum_range, finn_frame, xor_checksum, COMMA, DOLLAR, STAR};
use crate::strings::{bytes_to_string, lemma_str_valid_utf8};
use crate::text::{
    bytes_eq, copy_range, find_byte, find_byte_in, lemma_find_byte, rfind_byte, rfind_byte_in,
    lemma_find_byte_at, lemma_rfind_byte_at, split_bytes, split_in, starts_with, starts_with_in,
    trim, trim_bounds, trim_end, trim_start, views, ws_prefix_len, ws_suffix_len, CR, LF,
};
use crate::types::{ConfigAck, FinnMessage, MotorStatus};
use crate::utf8_pieces::{lemma_cut_after_ascii, lemma_valid_piece};

verus! {

/// `$FINN`, the start of every FINN sentence.
pub open spec fn finn_start() -> Seq<u8> {
    seq!['$' as u8, 'F' as u8, 'I' as u8, 'N' as u8, 'N' as u8]
}

/// `FINNMTR,`
pub open spec fn mtr_tag() -> Seq<u8> {
    seq!['F' as u8, 'I' as u8, 'N' as u8, 'N' as u8, 'M' as u8, 'T' as u8, 'R' as u8, ',' as u8]
}

/// `FINNACK,`
pub open spec fn ack_tag() -> Seq<u8> {
    seq!['F' as u8, 'I' as u8, 'N' as u8, 'N' as u8, 'A' as u8, 'C' as u8, 'K' as u8, ',' as u8]
}

/// `OK`
pub open spec fn ok_text() -> Seq<u8> {
    seq!['O' as u8, 'K' as u8]
}

/// `1`
pub open spec fn one_text() -> Seq<u8> {
    seq!['1' as u8]
}

/// The abstract content of a parsed sentence; a configuration acknowledgement
/// carries the UTF-8 bytes of its parameter name.
pub enum FinnMessageView {
    MotorStatus(MotorStatus),
    ConfigAck { param: Seq<u8>, success: bool },
}

/// The abstract content of a message.
pub open spec fn message_view(m: FinnMessage) -> FinnMessageView {
    match m {
        FinnMessage::MotorStatus(s) => FinnMessageView::MotorStatus(s),
        FinnMessage::ConfigAck(a) => FinnMessageView::ConfigAck {
            param: encode_utf8(a.param@),
            success: a.success,
        },
    }
}

/// "BODY*HH" split into the body before the last `*` and the checksum that
/// follows it, read as hexadecimal.
pub open spec fn split_checksum_spec(s: Seq<u8>) -> Option<(Seq<u8>, u8)> {
    match rfind_byte(s, STAR) {
        None => None,
        Some(i) => match parse_unsigned(s.skip(i as int + 1), 16, 255) {
            None => None,
            Some(c) => Some((s.take(i as int), c as u8)),
        },
    }
}

/// The fields `<pwm>,<was_raw>,<angle_x100>,<enabled>,<uptime_ms>` of a
/// motor status sentence. Enabled is exactly the text `1`.
pub open spec fn parse_motor_fields(f: Seq<u8>) -> Option<MotorStatus> {
    let p = split_bytes(f, COMMA);
    if p.len() != 5 {
        None
    } else {
        match (
            parse_signed(p[0], -32768, 32767),
            parse_unsigned(p[1], 10, 65535),
            parse_signed(p[2], -32768, 32767),
            parse_unsigned(p[4], 10, 18446744073709551615),
        ) {
            (Some(pwm), Some(was), Some(angle), Some(up)) => Some(
                MotorStatus {
                    current_pwm: pwm as i16,
                    was_raw: was as u16,
                    actual_angle_x100: angle as i16,
                    enabled: p[3] == one_text(),
                    uptime_ms: up as u64,
                },
            ),
            _ => None,
        }
    }
}

/// The fields `<param>,<OK|ERR>` of a configuration acknowledgement;
/// success is exactly the text `OK`.
pub open spec fn parse_ack_fields(f: Seq<u8>) -> Option<FinnMessageView> {
    let p = split_bytes(f, COMMA);
    if p.len() != 2 {
        None
    } else {
        Some(FinnMessageView::ConfigAck { param: p[0], success: p[1] == ok_text() })
    }
}

/// Routing of a checked body by its sentence tag.
pub open spec fn parse_finn_body(body: Seq<u8>) -> Option<FinnMessageView> {
    if starts_with(body, mtr_tag()) {
        match parse_motor_fields(body.skip(8)) {
            Some(m) => Some(FinnMessageView::MotorStatus(m)),
            None => None,
        }
    } else if starts_with(body, ack_tag()) {
        parse_ack_fields(body.skip(8))
    } else {
        None
    }
}

/// What a line of the motor serial stream parses to: the line trimmed of
/// whitespace must start with `$FINN`, the text after `$` must split into a
/// body and a checksum that matches the body, and the body must be a well
/// formed motor status or acknowledgement.
pub open spec fn parse_finn_spec(line: Seq<u8>) -> Option<FinnMessageView> {
    let t = trim(line);
    if !starts_with(t, finn_start()) {
        None
    } else {
        match split_checksum_spec(t.drop_first()) {
            None => None,
            Some((body, cs)) => {
                if xor_checksum(body) != cs {
                    None
                } else {
                    parse_finn_body(body)
                }
            },
        }
    }
}

// ---------------------------------------------------------------------
// Executable parser
// ---------------------------------------------------------------------

/// Split `s[lo..hi]` ("BODY*HH") at its last `*`: the index of that `*` and
/// the checksum after it. `None` if there is no `*` or the checksum is not a
/// hexadecimal byte.
pub fn split_checksum(s: &[u8], lo: usize, hi: usize) -> (r: Option<(usize, u8)>)
    requires
        lo <= hi <= s@.len(),
    ensures
        r matches Some((star, cs)) ==> lo <= star < hi && s@[star as int] == STAR
            && split_checksum_spec(s@.subrange(lo as int, hi as int)) == Some(
            (s@.subrange(lo as int, star as int), cs),
        ),
        r is None ==> split_checksum_spec(s@.subrange(lo as int, hi as int)) is None,
{
    let ghost sub = s@.subrange(lo as int, hi as int);
    match rfind_byte_in(s, lo, hi, STAR) {
        None => None,
        Some(star) => {
            proof {
                crate::text::lemma_rfind_byte(sub, STAR);
                assert(sub[star - lo] == s@[star as int]);
                assert(sub.skip(star - lo + 1) =~= s@.subrange(star + 1, hi as int));
                assert(sub.take(star - lo) =~= s@.subrange(lo as int, star as int));
            }
            match parse_unsigned_range(s, star + 1, hi, 16, 255) {
                None => None,
                Some(cs) => Some((star, cs as u8)),
            }
        },
    }
}

fn parse_motor_status_fields(s: &[u8], lo: usize, hi: usize) -> (r: Option<MotorStatus>)
    requires
        lo <= hi <= s@.len(),
    ensures
        r == parse_motor_fields(s@.subrange(lo as int, hi as int)),
{
    let parts = split_in(s, lo, hi, COMMA);
    let ghost p = split_bytes(s@.subrange(lo as int, hi as int), COMMA);
    if parts.len() != 5 {
        return None;
    }
    assert(parts@[0]@ == p[0]);
    assert(parts@[1]@ == p[1]);
    assert(parts@[2]@ == p[2]);
    assert(parts@[3]@ == p[3]);
    assert(parts@[4]@ == p[4]);
    let f0 = parts[0].as_slice();
    let f1 = parts[1].as_slice();
    let f2 = parts[2].as_slice();
    let f3 = parts[3].as_slice();
    let f4 = parts[4].as_slice();
    assert(f0@.subrange(0, f0@.len() as int) =~= f0@);
    assert(f1@.subrange(0, f1@.len() as int) =~= f1@);
    assert(f2@.subrange(0, f2@.len() as int) =~= f2@);
    assert(f4@.subrange(0, f4@.len() as int) =~= f4@);
    let pwm = parse_signed_range(f0, 0, f0.len(), -32768, 32767);
    let was = parse_unsigned_range(f1, 0, f1.len(), 10, 65535);
    let angle = parse_signed_range(f2, 0, f2.len(), -32768, 32767);
    let up = parse_unsigned_range(f4, 0, f4.len(), 10, 18446744073709551615);
    let one: Vec<u8> = vec!['1' as u8];
    assert(one@ == one_text());
    let enabled = bytes_eq(f3, one.as_slice());
    match (pwm, was, angle, up) {
        (Some(pwm), Some(was), Some(angle), Some(up)) => Some(
            MotorStatus {
                current_pwm: pwm as i16,
                was_raw: was as u16,
                actual_angle_x100: angle as i16,
                enabled,
                uptime_ms: up,
            },
        ),
        _ => None,
    }
}

/// Exactly two comma-separated fields in `s[lo..hi]`: the index of the comma.
fn two_fields(s: &[u8], lo: usize, hi: usize) -> (r: Option<usize>)
    requires
        lo <= hi <= s@.len(),
    ensures
        r matches Some(c) ==> lo <= c < hi && s@[c as int] == COMMA && split_bytes(
            s@.subrange(lo as int, hi as int),
            COMMA,
        ) == seq![s@.subrange(lo as int, c as int), s@.subrange(c + 1, hi as int)],
        r is None ==> split_bytes(s@.subrange(lo as int, hi as int), COMMA).len() != 2,
{
    let ghost sub = s@.subrange(lo as int, hi as int);
    match find_byte_in(s, lo, hi, COMMA) {
        None => {
            assert(split_bytes(sub, COMMA) == seq![sub]);
            None
        },
        Some(c) => {
            let ghost rest = s@.subrange(c + 1, hi as int);
            proof {
                lemma_find_byte(sub, COMMA);
                assert(sub[c - lo] == s@[c as int]);
                assert(sub.take(c - lo) =~= s@.subrange(lo as int, c as int));
                assert(sub.skip(c - lo + 1) =~= rest);
                assert(split_bytes(sub, COMMA) == seq![s@.subrange(lo as int, c as int)] + split_bytes(rest, COMMA));
            }
            match find_byte_in(s, c + 1, hi, COMMA) {
                None => {
                    assert(split_bytes(rest, COMMA) == seq![rest]);
                    assert(split_bytes(sub, COMMA) =~= seq![s@.subrange(lo as int, c as int), rest]);
                    Some(c)
                },
                Some(d) => {
                    proof {
                        lemma_find_byte(rest, COMMA);
                        lemma_split_len(rest.skip(d - c), COMMA);
                        assert(split_bytes(rest, COMMA) == seq![rest.take(d - c - 1)] + split_bytes(rest.skip(d - c - 1 + 1), COMMA));
                    }
                    None
                },
            }
        },
    }
}

/// The acknowledgement fields in `s[lo..hi]`, where `s` is valid UTF-8 and
/// ASCII bytes stand just before `lo` and at `hi`.
fn parse_config_ack(s: &[u8], lo: usize, hi: usize) -> (r: Option<FinnMessage>)
    requires
        1 <= lo <= hi < s@.len(),
        valid_utf8(s@),
        s@[lo - 1] < 128,
        s@[hi as int] < 128,
    ensures
        match r {
            None => parse_ack_fields(s@.subrange(lo as int, hi as int)) is None,
            Some(m) => parse_ack_fields(s@.subrange(lo as int, hi as int)) == Some(message_view(m)),
        },
{
    match two_fields(s, lo, hi) {
        None => None,
        Some(c) => {
            proof {
                lemma_cut_after_ascii(s@, lo - 1);
                lemma_cut_after_ascii(s@, c as int);
                lemma_valid_piece(s@, lo as int, c as int);
            }
            let param_bytes = copy_range(s, lo, c);
            let status = copy_range(s, c + 1, hi);
            let ok: Vec<u8> = vec!['O' as u8, 'K' as u8];
            assert(ok@ == ok_text());
            let success = bytes_eq(status.as_slice(), ok.as_slice());
            let param = bytes_to_string(param_bytes.as_slice());
            Some(FinnMessage::ConfigAck(ConfigAck { param, success }))
        },
    }
}

/// `split_bytes` yields at least one piece.
pub proof fn lemma_split_len(s: Seq<u8>, sep: u8)
    ensures
        split_bytes(s, sep).len() >= 1,
    decreases s.len(),
{
    lemma_find_byte(s, sep);
    if let Some(i) = find_byte(s, sep) {
        lemma_split_len(s.skip(i as int + 1), sep);
    }
}

/// Try to parse one line of the motor serial stream as a FINN sentence.
///
/// Returns `None` if the line is not a FINN sentence (for example standard
/// NMEA), if the checksum fails, or if the fields are malformed.
pub fn parse_finn_sentence(line: &str) -> (r: Option<FinnMessage>)
    ensures
        match r {
            None => parse_finn_spec(line.spec_bytes()) is None,
            Some(m) => parse_finn_spec(line.spec_bytes()) == Some(message_view(m)),
        },
{
    let s = line.as_bytes();
    let ghost full = s@;
    let (a, b) = trim_bounds(s, 0, s.len());
    assert(s@.subrange(0, s@.len() as int) =~= s@);
    let ghost t = s@.subrange(a as int, b as int);
    let start: Vec<u8> = vec!['$' as u8, 'F' as u8, 'I' as u8, 'N' as u8, 'N' as u8];
    assert(start@ == finn_start());
    if !starts_with_in(s, a, b, start.as_slice()) {
        return None;
    }
    assert(t.drop_first() =~= s@.subrange(a + 1, b as int));
    assert(t[0] == s@[a as int]);
    let (star, cs) = match split_checksum(s, a + 1, b) {
        None => {
            return None;
        },
        Some(x) => x,
    };
    let ghost body = s@.subrange(a + 1, star as int);
    let actual = checksum_range(s, a + 1, star);
    if actual != cs {
        return None;
    }
    let body_lo = a + 1;
    let mtr: Vec<u8> = vec!['F' as u8, 'I' as u8, 'N' as u8, 'N' as u8, 'M' as u8, 'T' as u8, 'R' as u8, ',' as u8];
    let ack: Vec<u8> = vec!['F' as u8, 'I' as u8, 'N' as u8, 'N' as u8, 'A' as u8, 'C' as u8, 'K' as u8, ',' as u8];
    assert(mtr@ == mtr_tag());
    assert(ack@ == ack_tag());
    if starts_with_in(s, body_lo, star, mtr.as_slice()) {
        assert(body.skip(8) =~= s@.subrange(body_lo + 8, star as int));
        match parse_motor_status_fields(s, body_lo + 8, star) {
            Some(m) => Some(FinnMessage::MotorStatus(m)),
            None => None,
        }
    } else if starts_with_in(s, body_lo, star, ack.as_slice()) {
        let f_lo = body_lo + 8;
        assert(body.skip(8) =~= s@.subrange(f_lo as int, star as int));
        proof {
            lemma_str_valid_utf8(line);
            assert(s@[f_lo - 1] == body[7]);
            assert(body.subrange(0, 8)[7] == ',' as u8);
        }
        parse_config_ack(s, f_lo, star)
    } else {
        None
    }
}

// ---------------------------------------------------------------------
// Laws of the sentence format
// ---------------------------------------------------------------------

/// `s` holds no byte `b`.
pub open spec fn lacks(s: Seq<u8>, b: u8) -> bool {
    forall|i: int| 0 <= i < s.len() ==> s[i] != b
}

/// The text of a motor status sentence body as the motor ESP32 sends it:
/// `FINNMTR,<pwm>,<was_raw>,<angle_x100>,<1|0>,<uptime_ms>`.
pub open spec fn motor_status_body(m: MotorStatus) -> Seq<u8> {
    mtr_tag() + motor_fields(m)
}

/// The field text `<pwm>,<was_raw>,<angle_x100>,<1|0>,<uptime_ms>`.
pub open spec fn motor_fields(m: MotorStatus) -> Seq<u8> {
    (signed_dec(m.current_pwm as int) + (seq![COMMA] + (dec_digits(m.was_raw as nat) + (
    seq![COMMA] + (signed_dec(m.actual_angle_x100 as int) + (seq![COMMA] + (seq![
        if m.enabled {
            '1' as u8
        } else {
            '0' as u8
        },
    ] + (seq![COMMA] + dec_digits(m.uptime_ms as nat)))))))))
}

/// The text of an acknowledgement body: `FINNACK,<param>,<status>`.
pub open spec fn ack_body(param: Seq<u8>, status: Seq<u8>) -> Seq<u8> {
    ack_tag() + (param + (seq![COMMA] + status))
}

/// Trimming a framed sentence removes exactly its closing `\r\n`.
pub proof fn lemma_trim_frame(body: Seq<u8>)
    ensures
        trim(finn_frame(body)) == seq![DOLLAR] + body + seq![STAR] + hex_pair(xor_checksum(body)),
{
    let c = xor_checksum(body);
    let core = seq![DOLLAR] + body + seq![STAR] + hex_pair(c);
    let f = finn_frame(body);
    lemma_hex_pair_chars(c);
    assert(f[0] == DOLLAR);
    assert(ws_prefix_len(f) == 0);
    assert(trim_start(f) == f);
    let n = f.len() as int;
    assert(f[n - 1] == LF);
    assert(ws_suffix_len(f) == 1);
    let f1 = f.take(n - 1);
    assert(f1[n - 2] == CR);
    assert(ws_suffix_len(f1) == 1);
    let f2 = f1.take(n - 2);
    assert(f2 =~= core);
    assert(core[core.len() - 1] == hex_pair(c)[1]);
    assert(core.subrange(core.len() - 3, core.len() as int)[2] == core[core.len() - 1]);
    assert(ws_suffix_len(core) == 0);
    assert(trim_end(core) == core);
    assert(trim_end(f1) == trim_end(f2));
    assert(trim_end(f) == trim_end(f1));
}

/// Splitting the text after `$` of a framed body at its last `*` recovers the
/// body and its checksum (the checksum digits hold no `*`).
pub proof fn lemma_split_checksum_of(body: Seq<u8>, c: u8)
    ensures
        split_checksum_spec(body + seq![STAR] + hex_pair(c)) == Some((body, c)),
{
    let s = body + seq![STAR] + hex_pair(c);
    lemma_hex_pair_chars(c);
    let k = body.len() as int;
    assert(s[k] == STAR);
    assert forall|j: int| k < j < s.len() implies s[j] != STAR by {
        assert(s[j] == hex_pair(c)[j - k - 1]);
    }
    lemma_rfind_byte_at(s, STAR, k);
    assert(s.skip(k + 1) =~= hex_pair(c));
    assert(s.take(k) =~= body);
    lemma_parse_hex_pair(c);
}

/// A framed body that starts with `FINN` parses exactly as its body does:
/// the framing, whitespace trimming and checksum check let it through
/// unchanged (the split is at the last `*`, so a `*` inside the body stays
/// in it).
pub proof fn law_frame_round_trip(body: Seq<u8>)
    requires
        starts_with(body, seq!['F' as u8, 'I' as u8, 'N' as u8, 'N' as u8]),
    ensures
        parse_finn_spec(finn_frame(body)) == parse_finn_body(body),
{
    let c = xor_checksum(body);
    let t = seq![DOLLAR] + body + seq![STAR] + hex_pair(c);
    lemma_trim_frame(body);
    assert(t.subrange(0, 5) =~= finn_start()) by {
        assert(body.subrange(0, 4) =~= seq!['F' as u8, 'I' as u8, 'N' as u8, 'N' as u8]);
        assert forall|i: int| 1 <= i < 5 implies t[i] == body[i - 1] by {}
    }
    assert(t.drop_first() =~= body + seq![STAR] + hex_pair(c));
    lemma_split_checksum_of(body, c);
}

/// A sentence whose stated checksum is not the XOR of its body is rejected.
pub proof fn law_checksum_mismatch_rejected(body: Seq<u8>, c: u8)
    requires
        c != xor_checksum(body),
    ensures
        parse_finn_spec(seq![DOLLAR] + body + seq![STAR] + hex_pair(c)) is None,
{
    let t = seq![DOLLAR] + body + seq![STAR] + hex_pair(c);
    lemma_hex_pair_chars(c);
    assert(t[0] == DOLLAR);
    assert(ws_prefix_len(t) == 0);
    assert(t[t.len() - 1] == hex_pair(c)[1]);
    assert(t.subrange(t.len() - 3, t.len() as int)[2] == t[t.len() - 1]);
    assert(ws_suffix_len(t) == 0);
    assert(trim(t) == t);
    assert(t.drop_first() =~= body + seq![STAR] + hex_pair(c));
    lemma_split_checksum_of(body, c);
}

/// Splitting a piece without the separator, followed by the separator.
pub proof fn lemma_split_cons(a: Seq<u8>, rest: Seq<u8>, sep: u8)
    requires
        lacks(a, sep),
    ensures
        split_bytes(a + (seq![sep] + rest), sep) == seq![a] + split_bytes(rest, sep),
{
    let s = a + (seq![sep] + rest);
    let k = a.len() as int;
    assert(s[k] == sep);
    assert forall|j: int| 0 <= j < k implies s[j] != sep by {
        assert(s[j] == a[j]);
    }
    lemma_find_byte_at(s, sep, k);
    assert(s.take(k) =~= a);
    assert(s.skip(k + 1) =~= rest);
}

/// A piece without the separator splits into itself.
pub proof fn lemma_split_single(a: Seq<u8>, sep: u8)
    requires
        lacks(a, sep),
    ensures
        split_bytes(a, sep) == seq![a],
{
    lemma_find_byte_at(a, sep, a.len() as int);
}

/// Decimal text holds neither commas nor `*`.
pub proof fn lemma_dec_lacks(n: nat)
    ensures
        lacks(dec_digits(n), COMMA),
        lacks(dec_digits(n), STAR),
{
    lemma_dec_digits(n);
}

/// Signed decimal text holds neither commas nor `*`.
pub proof fn lemma_signed_dec_lacks(v: int)
    ensures
        lacks(signed_dec(v), COMMA),
        lacks(signed_dec(v), STAR),
{
    if v < 0 {
        let n = (-v) as nat;
        lemma_dec_digits(n);
        let s = signed_dec(v);
        assert forall|i: int| 0 <= i < s.len() implies s[i] != COMMA && s[i] != STAR by {
            if i > 0 {
                assert(s[i] == dec_digits(n)[i - 1]);
            }
        }
    } else {
        lemma_dec_digits(v as nat);
    }
}

/// The motor field text splits into its five texts.
proof fn lemma_motor_fields_split(m: MotorStatus)
    ensures
        split_bytes(motor_fields(m), COMMA) == seq![
            signed_dec(m.current_pwm as int),
            dec_digits(m.was_raw as nat),
            signed_dec(m.actual_angle_x100 as int),
            seq![if m.enabled { '1' as u8 } else { '0' as u8 }],
            dec_digits(m.uptime_ms as nat),
        ],
{
    let a = signed_dec(m.current_pwm as int);
    let b = dec_digits(m.was_raw as nat);
    let c = signed_dec(m.actual_angle_x100 as int);
    let e = seq![if m.enabled { '1' as u8 } else { '0' as u8 }];
    let u = dec_digits(m.uptime_ms as nat);
    let cm = seq![COMMA];
    assert(motor_fields(m) == a + (cm + (b + (cm + (c + (cm + (e + (cm + u))))))));
    lemma_signed_dec_lacks(m.current_pwm as int);
    lemma_dec_lacks(m.was_raw as nat);
    lemma_signed_dec_lacks(m.actual_angle_x100 as int);
    lemma_dec_lacks(m.uptime_ms as nat);
    assert(lacks(e, COMMA));
    lemma_split_single(u, COMMA);
    lemma_split_cons(e, u, COMMA);
    lemma_split_cons(c, e + (cm + u), COMMA);
    lemma_split_cons(b, c + (cm + (e + (cm + u))), COMMA);
    lemma_split_cons(a, b + (cm + (c + (cm + (e + (cm + u))))), COMMA);
    assert(split_bytes(motor_fields(m), COMMA) =~= seq![a, b, c, e, u]);
}

/// The motor field text reads back as the status it was written from.
proof fn lemma_motor_fields_parse(m: MotorStatus)
    ensures
        parse_motor_fields(motor_fields(m)) == Some(m),
{
    lemma_motor_fields_split(m);
    let e = seq![if m.enabled { '1' as u8 } else { '0' as u8 }];
    lemma_parse_signed_dec(m.current_pwm as int, -32768, 32767);
    lemma_parse_unsigned_dec(m.was_raw as nat, 65535);
    lemma_parse_signed_dec(m.actual_angle_x100 as int, -32768, 32767);
    lemma_parse_unsigned_dec(m.uptime_ms as nat, 18446744073709551615);
    assert((e == one_text()) == m.enabled) by {
        if !m.enabled {
            assert(e[0] != one_text()[0]);
        }
    }
}

/// A motor status sentence as the motor ESP32 frames it parses back to the
/// same status on the PC.
pub proof fn law_motor_status_round_trip(m: MotorStatus)
    ensures
        parse_finn_spec(finn_frame(motor_status_body(m))) == Some(FinnMessageView::MotorStatus(m)),
{
    let body = motor_status_body(m);
    assert(starts_with(body, seq!['F' as u8, 'I' as u8, 'N' as u8, 'N' as u8])) by {
        assert(body.subrange(0, 4) =~= seq!['F' as u8, 'I' as u8, 'N' as u8, 'N' as u8]);
    }
    law_frame_round_trip(body);
    assert(starts_with(body, mtr_tag())) by {
        assert(body.subrange(0, 8) =~= mtr_tag());
    }
    assert(body.skip(8) =~= motor_fields(m));
    lemma_motor_fields_parse(m);
}

/// An acknowledgement sentence parses back to its parameter, with success
/// exactly when the status text is `OK`.
pub proof fn law_ack_round_trip(param: Seq<u8>, status: Seq<u8>)
    requires
        lacks(param, COMMA),
        lacks(status, COMMA),
    ensures
        parse_finn_spec(finn_frame(ack_body(param, status))) == Some(
            FinnMessageView::ConfigAck { param: param, success: status == ok_text() },
        ),
{
    let cm = seq![COMMA];
    let body = ack_body(param, status);
    assert(starts_with(body, seq!['F' as u8, 'I' as u8, 'N' as u8, 'N' as u8])) by {
        assert(body.subrange(0, 4) =~= seq!['F' as u8, 'I' as u8, 'N' as u8, 'N' as u8]);
    }
    law_frame_round_trip(body);
    assert(!starts_with(body, mtr_tag())) by {
        assert(body.subrange(0, 8)[4] == 'A' as u8);
    }
    assert(starts_with(body, ack_tag())) by {
        assert(body.subrange(0, 8) =~= ack_tag());
    }
    assert(body.skip(8) =~= param + (cm + status));
    lemma_split_single(status, COMMA);
    lemma_split_cons(param, status, COMMA);
    assert(split_bytes(param + (cm + status), COMMA) =~= seq![param, status]);
}

} // verus!
