//! Decision logic of the sensor ESP32 firmware: forwarding GPS NMEA lines
//! received on its UART, the 20 Hz sensor and 0.5 Hz heartbeat schedule,
//! the wheel angle sensor and heartbeat sentences, and the decoding of the
//! BNO055 IMU registers.

use vstd::prelude::*;
use vstd::string::*;
use vstd::utf8::*;
use crate::digits::{dec_digits, hex_pair, lemma_hex_pair_chars, push_decimal, push_hex_pair};
use crate::protocol::{
    checksum_range, extend_bytes, lemma_ascii_concat, lemma_dec_ascii, xor_checksum, COMMA,
    DOLLAR, STAR,
};
use crate::strings::{bytes_to_string, is_ascii_bytes, lemma_ascii_valid_utf8, str_from_utf8};
use crate::text::{CR, LF};
use crate::utf8_pieces::lemma_valid_piece;

verus! {

/// Interval of the wheel angle sensor and IMU reports (20 Hz).
pub const SENSOR_INTERVAL_MS: u32 = 50;
/// Interval of the heartbeat.
pub const HEARTBEAT_INTERVAL_MS: u32 = 2000;
/// Capacity of the GPS line buffer.
pub const GPS_LINE_CAPACITY: usize = 256;

/// An unterminated sentence: `$<body>*<checksum>` (the line ending is added
/// when printed).
pub open spec fn sentence(body: Seq<u8>) -> Seq<u8> {
    seq![DOLLAR] + body + seq![STAR] + hex_pair(xor_checksum(body))
}

/// The sentence for an ASCII body, as a string.
fn sentence_string(body: &[u8]) -> (r: String)
    requires
        is_ascii_bytes(body@),
    ensures
        encode_utf8(r@) == sentence(body@),
{
    let mut out: Vec<u8> = Vec::new();
    out.push(DOLLAR);
    extend_bytes(&mut out, body);
    out.push(STAR);
    let cs = checksum_range(body, 0, body.len());
    assert(body@.subrange(0, body@.len() as int) =~= body@);
    push_hex_pair(&mut out, cs);
    assert(out@ =~= sentence(body@));
    proof {
        lemma_hex_pair_chars(cs);
        assert(is_ascii_bytes(seq![DOLLAR]));
        lemma_ascii_concat(seq![DOLLAR], body@);
        assert(is_ascii_bytes(seq![STAR]));
        lemma_ascii_concat(seq![DOLLAR] + body@, seq![STAR]);
        assert(is_ascii_bytes(hex_pair(cs)));
        lemma_ascii_concat(seq![DOLLAR] + body@ + seq![STAR], hex_pair(cs));
        lemma_ascii_valid_utf8(out@);
    }
    bytes_to_string(out.as_slice())
}

// ---------------------------------------------------------------------
// Wheel angle sensor and heartbeat sentences
// ---------------------------------------------------------------------

/// Millivolts of a raw 12-bit ADC reading on the 3.3 V scale.
pub open spec fn millivolts(raw: u16) -> nat {
    (raw as nat * 3300) / 4095
}

/// The millivolts of a raw wheel angle sensor reading.
pub fn was_millivolts(raw: u16) -> (mv: u32)
    ensures
        mv == millivolts(raw),
{
    ((raw as u32) * 3300) / 4095
}

/// `FINNWAS,`
pub open spec fn was_tag() -> Seq<u8> {
    seq!['F' as u8, 'I' as u8, 'N' as u8, 'N' as u8, 'W' as u8, 'A' as u8, 'S' as u8, ',' as u8]
}

/// Body of the wheel angle sensor report: `FINNWAS,<raw>,<millivolts>`.
pub open spec fn was_body(raw: u16) -> Seq<u8> {
    was_tag() + dec_digits(raw as nat) + seq![COMMA] + dec_digits(millivolts(raw))
}

/// The wheel angle sensor report for a raw reading.
pub fn format_was_sentence(raw: u16) -> (r: String)
    ensures
        encode_utf8(r@) == sentence(was_body(raw)),
{
    let mut body: Vec<u8> = vec!['F' as u8, 'I' as u8, 'N' as u8, 'N' as u8, 'W' as u8, 'A' as u8, 'S' as u8, ',' as u8];
    assert(body@ == was_tag());
    push_decimal(&mut body, raw as u64);
    body.push(COMMA);
    let mv = was_millivolts(raw);
    push_decimal(&mut body, mv as u64);
    assert(body@ =~= was_body(raw));
    proof {
        lemma_dec_ascii(raw as nat);
        lemma_dec_ascii(millivolts(raw));
        assert(is_ascii_bytes(was_tag()));
        lemma_ascii_concat(was_tag(), dec_digits(raw as nat));
        assert(is_ascii_bytes(seq![COMMA]));
        lemma_ascii_concat(was_tag() + dec_digits(raw as nat), seq![COMMA]);
        lemma_ascii_concat(
            was_tag() + dec_digits(raw as nat) + seq![COMMA],
            dec_digits(millivolts(raw)),
        );
    }
    sentence_string(body.as_slice())
}

/// `FINNHB,`
pub open spec fn heartbeat_tag() -> Seq<u8> {
    seq!['F' as u8, 'I' as u8, 'N' as u8, 'N' as u8, 'H' as u8, 'B' as u8, ',' as u8]
}

/// The heartbeat for an uptime: `$FINNHB,<uptime_ms>*<checksum>`.
pub fn format_heartbeat(now: u32) -> (r: String)
    ensures
        encode_utf8(r@) == sentence(heartbeat_tag() + dec_digits(now as nat)),
{
    let mut body: Vec<u8> = vec!['F' as u8, 'I' as u8, 'N' as u8, 'N' as u8, 'H' as u8, 'B' as u8, ',' as u8];
    assert(body@ == heartbeat_tag());
    push_decimal(&mut body, now as u64);
    proof {
        lemma_dec_ascii(now as nat);
        assert(is_ascii_bytes(heartbeat_tag()));
        lemma_ascii_concat(heartbeat_tag(), dec_digits(now as nat));
    }
    sentence_string(body.as_slice())
}

// ---------------------------------------------------------------------
// Schedule
// ---------------------------------------------------------------------

/// Milliseconds from `last` to `now` on the wrapping 32-bit uptime clock.
pub open spec fn wrap_elapsed(now: u32, last: u32) -> int {
    (now as int - last as int + 0x1_0000_0000) % 0x1_0000_0000
}

/// When the sensors were last read and the heartbeat last sent.
#[derive(Debug, Clone, Copy, PartialEq, Eq, Structural)]
pub struct SensorSchedule {
    pub last_sensor_ms: u32,
    pub last_heartbeat_ms: u32,
}

impl SensorSchedule {
    /// Nothing sent yet: both count from uptime 0.
    pub fn new() -> (s: Self)
        ensures
            s.last_sensor_ms == 0,
            s.last_heartbeat_ms == 0,
    {
        SensorSchedule { last_sensor_ms: 0, last_heartbeat_ms: 0 }
    }

    /// What is due at uptime `now`: `(sensors, heartbeat)`. Each is due once
    /// its interval has passed (on the wrapping clock), and then counts
    /// from `now`.
    pub fn tick(&mut self, now: u32) -> (r: (bool, bool))
        ensures
            r.0 == (wrap_elapsed(now, old(self).last_sensor_ms) >= SENSOR_INTERVAL_MS),
            r.1 == (wrap_elapsed(now, old(self).last_heartbeat_ms) >= HEARTBEAT_INTERVAL_MS),
            final(self).last_sensor_ms == (if r.0 {
                now
            } else {
                old(self).last_sensor_ms
            }),
            final(self).last_heartbeat_ms == (if r.1 {
                now
            } else {
                old(self).last_heartbeat_ms
            }),
    {
        let e1 = now.wrapping_sub(self.last_sensor_ms);
        assert(e1 as int == wrap_elapsed(now, self.last_sensor_ms));
        let sensors = e1 >= SENSOR_INTERVAL_MS;
        if sensors {
            self.last_sensor_ms = now;
        }
        let e2 = now.wrapping_sub(self.last_heartbeat_ms);
        assert(e2 as int == wrap_elapsed(now, self.last_heartbeat_ms));
        let heartbeat = e2 >= HEARTBEAT_INTERVAL_MS;
        if heartbeat {
            self.last_heartbeat_ms = now;
        }
        (sensors, heartbeat)
    }
}

// ---------------------------------------------------------------------
// BNO055 registers
// ---------------------------------------------------------------------

/// The calibration levels `(system, gyroscope, accelerometer,
/// magnetometer)` packed two bits each, system highest, in the calibration
/// status register.
pub open spec fn calibration_spec(c: u8) -> (u8, u8, u8, u8) {
    (((c / 64) % 4) as u8, ((c / 16) % 4) as u8, ((c / 4) % 4) as u8, (c % 4) as u8)
}

/// Unpack the calibration status register.
pub fn calibration_levels(c: u8) -> (r: (u8, u8, u8, u8))
    ensures
        r == calibration_spec(c),
{
    ((c / 64) % 4, (c / 16) % 4, (c / 4) % 4, c % 4)
}

/// The signed 16-bit value of a little-endian register pair.
pub open spec fn le_i16(lo: u8, hi: u8) -> int {
    let v = lo as int + 256 * hi as int;
    if v >= 32768 {
        v - 65536
    } else {
        v
    }
}

/// Read a signed 16-bit register pair (Euler angles are in 1/16 degree).
pub fn euler_raw(lo: u8, hi: u8) -> (r: i16)
    ensures
        r == le_i16(lo, hi),
{
    let v: i32 = (lo as i32) + 256 * (hi as i32);
    let w: i32 = if v >= 32768 {
        v - 65536
    } else {
        v
    };
    w as i16
}

// ---------------------------------------------------------------------
// GPS line forwarding
// ---------------------------------------------------------------------

/// A line without its trailing carriage returns.
pub open spec fn strip_trailing_cr(l: Seq<u8>) -> Seq<u8>
    decreases l.len(),
{
    if l.len() > 0 && l.last() == CR {
        strip_trailing_cr(l.drop_last())
    } else {
        l
    }
}

/// What is forwarded of a complete received line: the line without its
/// trailing carriage returns, when the line is valid UTF-8 and that starts
/// with `$`.
pub open spec fn forwarded(line: Seq<u8>) -> Option<Seq<u8>> {
    let t = strip_trailing_cr(line);
    if valid_utf8(line) && t.len() > 0 && t[0] == DOLLAR {
        Some(t)
    } else {
        None
    }
}

/// Stripping carriage returns keeps a prefix, which ends at the end of
/// the line or at a carriage return.
proof fn lemma_strip_prefix(l: Seq<u8>)
    ensures
        strip_trailing_cr(l).len() <= l.len(),
        strip_trailing_cr(l) == l.take(strip_trailing_cr(l).len() as int),
        strip_trailing_cr(l).len() < l.len() ==> l[strip_trailing_cr(l).len() as int] == CR,
    decreases l.len(),
{
    if l.len() > 0 && l.last() == CR {
        lemma_strip_prefix(l.drop_last());
        let t = strip_trailing_cr(l.drop_last());
        assert(l.drop_last().take(t.len() as int) =~= l.take(t.len() as int));
        if t.len() < l.drop_last().len() {
            assert(l.drop_last()[t.len() as int] == l[t.len() as int]);
        }
    } else {
        assert(l.take(l.len() as int) =~= l);
    }
}

/// The GPS sentence being received on the UART.
pub struct GpsLineForwarder {
    buf: Vec<u8>,
}

impl View for GpsLineForwarder {
    type V = Seq<u8>;

    closed spec fn view(&self) -> Seq<u8> {
        self.buf@
    }
}

impl GpsLineForwarder {
    /// The buffer never exceeds its capacity.
    pub open spec fn wf(&self) -> bool {
        self@.len() <= GPS_LINE_CAPACITY
    }

    /// An empty buffer.
    pub fn new() -> (f: Self)
        ensures
            f.wf(),
            f@ == Seq::<u8>::empty(),
    {
        GpsLineForwarder { buf: Vec::new() }
    }

    /// Take one received byte. A line feed completes a non-empty line,
    /// which is forwarded when it is a sentence; other bytes are kept
    /// while there is room, and a line that overflows is discarded.
    pub fn push_byte(&mut self, b: u8) -> (out: Option<String>)
        requires
            old(self).wf(),
        ensures
            final(self).wf(),
            b == LF && old(self)@.len() > 0 ==> final(self)@ == Seq::<u8>::empty() && (match (
                out,
                forwarded(old(self)@),
            ) {
                (Some(s), Some(t)) => encode_utf8(s@) == t,
                (None, None) => true,
                _ => false,
            }),
            b == LF && old(self)@.len() == 0 ==> out is None && final(self)@ == old(self)@,
            b != LF && old(self)@.len() < GPS_LINE_CAPACITY ==> out is None && final(self)@ == old(
                self,
            )@.push(b),
            b != LF && old(self)@.len() >= GPS_LINE_CAPACITY ==> out is None && final(self)@
                == Seq::<u8>::empty(),
    {
        if b == LF {
            if self.buf.len() == 0 {
                return None;
            }
            let mut line: Vec<u8> = Vec::new();
            std::mem::swap(&mut line, &mut self.buf);
            let ghost l = line@;
            let mut k: usize = line.len();
            assert(l.take(k as int) =~= l);
            while k > 0 && line[k - 1] == CR
                invariant
                    k <= l.len(),
                    line@ == l,
                    strip_trailing_cr(l) == strip_trailing_cr(l.take(k as int)),
                decreases k,
            {
                assert(l.take(k as int).drop_last() =~= l.take(k - 1));
                k = k - 1;
            }
            proof {
                assert(!(k > 0 && l[k - 1] == CR));
                assert(strip_trailing_cr(l.take(k as int)) == l.take(k as int));
                assert(l.take(l.len() as int) =~= l);
                lemma_strip_prefix(l);
            }
            let valid = match str_from_utf8(line.as_slice()) {
                Ok(_) => true,
                Err(_) => false,
            };
            if valid && k > 0 && line[0] == DOLLAR {
                proof {
                    lemma_valid_piece(l, 0, k as int);
                    assert(l.subrange(0, k as int) =~= l.take(k as int));
                }
                let piece = crate::text::copy_range(line.as_slice(), 0, k);
                Some(bytes_to_string(piece.as_slice()))
            } else {
                None
            }
        } else if self.buf.len() < GPS_LINE_CAPACITY {
            self.buf.push(b);
            None
        } else {
            self.buf.clear();
            None
        }
    }
}

} // verus!
