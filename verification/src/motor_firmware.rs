//! Decision logic of the motor ESP32 firmware: reading steer commands from
//! the serial line, the command watchdog, the periodic status report, and the
//! split of a signed PWM value onto the two H-bridge inputs.
//!
//! Safety rules: the motor stops when no valid command arrived within 500 ms,
//! PWM is clamped to +-255, and the enable lines stay low until the first
//! valid command.

use vstd::prelude::*;
use vstd::string::*;
use vstd::utf8::*;
use crate::digits::{
    dec_digits, hex_pair, lemma_dec_digits, lemma_hex_pair_chars, lemma_parse_hex_pair,
    lemma_parse_signed_dec, parse_signed, parse_signed_range, parse_unsigned, parse_unsigned_range,
    push_decimal, push_hex_pair, push_signed_decimal, signed_dec,
};
use crate::finn_parser::{lacks, lemma_signed_dec_lacks, lemma_trim_frame};
use crate::protocol::{
    checksum_range, finn_frame, lemma_ascii_concat, lemma_dec_ascii, lemma_signed_dec_ascii,
    steer_body, steer_tag, xor_checksum, COMMA, DOLLAR, STAR,
};
use crate::strings::{bytes_to_string, is_ascii_bytes, lemma_ascii_valid_utf8, str_from_utf8};
use crate::text::{
    lemma_rfind_byte, lemma_rfind_byte_at, rfind_byte, rfind_byte_in, starts_with,
    starts_with_in, trim, trim_bounds, trim_end, trim_start, ws_prefix_len, ws_suffix_len, CR, LF,
};

verus! {

/// Milliseconds without a valid command after which the motor is stopped.
pub const WATCHDOG_TIMEOUT_MS: u32 = 500;
/// Interval between status reports (5 Hz).
pub const STATUS_INTERVAL_MS: u32 = 200;
/// Capacity of the serial command line buffer.
pub const LINE_CAPACITY: usize = 128;

/// PWM clamped to the valid range -255..=255.
pub open spec fn clamp_pwm(v: int) -> i16 {
    if v < -255 {
        -255i16
    } else if v > 255 {
        255i16
    } else {
        v as i16
    }
}

/// What a (trimmed) serial line means as a steer command: `$`, then a body
/// and a checksum split at the last `*`, the checksum text (trimmed) read as a
/// hexadecimal byte that equals the XOR of the body, the body starting with
/// `FINNSTEER,` and the rest (trimmed) a decimal `i16`, clamped to +-255.
pub open spec fn parse_steer_spec(line: Seq<u8>) -> Option<i16> {
    if line.len() == 0 || line[0] != DOLLAR {
        None
    } else {
        let rest = line.drop_first();
        match rfind_byte(rest, STAR) {
            None => None,
            Some(i) => {
                let body = rest.take(i as int);
                match parse_unsigned(trim(rest.skip(i as int + 1)), 16, 255) {
                    None => None,
                    Some(c) => {
                        if xor_checksum(body) != c as u8 {
                            None
                        } else if !starts_with(body, steer_tag()) {
                            None
                        } else {
                            match parse_signed(trim(body.skip(10)), -32768, 32767) {
                                None => None,
                                Some(v) => Some(clamp_pwm(v)),
                            }
                        }
                    },
                }
            },
        }
    }
}

/// Parses the steer command in `s[lo..hi]`.
pub fn parse_steer_range(s: &[u8], lo: usize, hi: usize) -> (r: Option<i16>)
    requires
        lo <= hi <= s@.len(),
    ensures
        r == parse_steer_spec(s@.subrange(lo as int, hi as int)),
{
    let ghost line = s@.subrange(lo as int, hi as int);
    if lo == hi || s[lo] != DOLLAR {
        proof {
            if lo < hi {
                assert(line[0] == s@[lo as int]);
            }
        }
        return None;
    }
    assert(line[0] == s@[lo as int]);
    let ghost rest = line.drop_first();
    assert(rest =~= s@.subrange(lo + 1, hi as int));
    let star = match rfind_byte_in(s, lo + 1, hi, STAR) {
        None => {
            return None;
        },
        Some(i) => i,
    };
    let ghost k = (star - lo - 1) as int;
    let ghost body = rest.take(k);
    assert(body =~= s@.subrange(lo + 1, star as int));
    assert(rest.skip(k + 1) =~= s@.subrange(star + 1, hi as int));
    let (ca, cb) = trim_bounds(s, star + 1, hi);
    let expected = match parse_unsigned_range(s, ca, cb, 16, 255) {
        None => {
            return None;
        },
        Some(c) => c as u8,
    };
    let actual = checksum_range(s, lo + 1, star);
    if actual != expected {
        return None;
    }
    let tag: Vec<u8> = vec!['F' as u8, 'I' as u8, 'N' as u8, 'N' as u8, 'S' as u8, 'T' as u8, 'E' as u8, 'E' as u8, 'R' as u8, ',' as u8];
    assert(tag@ == steer_tag());
    if !starts_with_in(s, lo + 1, star, tag.as_slice()) {
        return None;
    }
    assert(body.skip(10) =~= s@.subrange(lo + 11, star as int));
    let (va, vb) = trim_bounds(s, lo + 11, star);
    match parse_signed_range(s, va, vb, -32768, 32767) {
        None => None,
        Some(v) => {
            let c: i16 = if v < -255 {
                -255
            } else if v > 255 {
                255
            } else {
                v as i16
            };
            Some(c)
        },
    }
}

/// Parse `$FINNSTEER,<pwm>*<checksum>` (the line already trimmed) into the
/// PWM command, clamped to +-255. `None` on a missing `$`, a missing or
/// mismatching checksum, another sentence, or a malformed value.
pub fn parse_steer_command(line: &str) -> (r: Option<i16>)
    ensures
        r == parse_steer_spec(line.spec_bytes()),
{
    let s = line.as_bytes();
    assert(s@.subrange(0, s@.len() as int) =~= s@);
    parse_steer_range(s, 0, s.len())
}

/// The steer command carried by a received serial line: the line must be
/// valid UTF-8; it is trimmed, then parsed.
pub fn command_from_line(line: &[u8]) -> (r: Option<i16>)
    ensures
        r == if valid_utf8(line@) {
            parse_steer_spec(trim(line@))
        } else {
            None
        },
{
    match str_from_utf8(line) {
        Err(_) => None,
        Ok(_) => {
            let (a, b) = trim_bounds(line, 0, line.len());
            assert(line@.subrange(0, line@.len() as int) =~= line@);
            parse_steer_range(line, a, b)
        },
    }
}

// ---------------------------------------------------------------------
// The PC-to-firmware steer protocol law
// ---------------------------------------------------------------------

/// Trimming decimal text leaves it unchanged.
proof fn lemma_trim_signed_dec(v: int)
    ensures
        trim(signed_dec(v)) == signed_dec(v),
{
    let s = signed_dec(v);
    let n = if v < 0 { (-v) as nat } else { v as nat };
    lemma_dec_digits(n);
    let d = dec_digits(n);
    assert(s.len() >= 1);
    if v < 0 {
        assert(s[s.len() - 1] == d[d.len() - 1]);
    }
    assert(48 <= s[s.len() - 1] <= 57);
    assert(ws_prefix_len(s) == 0);
    assert(trim_start(s) == s);
    if s.len() >= 3 {
        assert(s.subrange(s.len() - 3, s.len() as int)[2] == s[s.len() - 1]);
    }
    assert(ws_suffix_len(s) == 0);
}

/// Every steer command the PC formats is read back by the motor firmware as
/// the same value, clamped to the PWM range: the frame survives trimming,
/// its checksum matches, and the decimal angle parses back.
pub proof fn law_steer_command_round_trip(angle_x100: i16)
    ensures
        parse_steer_spec(trim(finn_frame(steer_body(angle_x100 as int)))) == Some(
            clamp_pwm(angle_x100 as int),
        ),
{
    let body = steer_body(angle_x100 as int);
    let c = xor_checksum(body);
    lemma_trim_frame(body);
    let t = seq![DOLLAR] + body + seq![STAR] + hex_pair(c);
    let rest = t.drop_first();
    assert(rest =~= body + seq![STAR] + hex_pair(c));
    lemma_signed_dec_lacks(angle_x100 as int);
    assert(lacks(body, STAR)) by {
        assert forall|i: int| 0 <= i < body.len() implies body[i] != STAR by {
            if i >= 10 {
                assert(body[i] == signed_dec(angle_x100 as int)[i - 10]);
            }
        }
    }
    lemma_hex_pair_chars(c);
    let k = body.len() as int;
    assert(rest[k] == STAR);
    assert forall|j: int| k < j < rest.len() implies rest[j] != STAR by {
        assert(rest[j] == hex_pair(c)[j - k - 1]);
    }
    lemma_rfind_byte_at(rest, STAR, k);
    assert(rest.take(k) =~= body);
    assert(rest.skip(k + 1) =~= hex_pair(c));
    let h = hex_pair(c);
    assert(ws_prefix_len(h) == 0);
    assert(trim_start(h) == h);
    assert(ws_suffix_len(h) == 0);
    assert(trim(h) == h);
    lemma_parse_hex_pair(c);
    assert(starts_with(body, steer_tag())) by {
        assert(body.subrange(0, 10) =~= steer_tag());
    }
    assert(body.skip(10) =~= signed_dec(angle_x100 as int));
    lemma_trim_signed_dec(angle_x100 as int);
    lemma_parse_signed_dec(angle_x100 as int, -32768, 32767);
}

// ---------------------------------------------------------------------
// Serial line assembly
// ---------------------------------------------------------------------

/// Bytes of the command line being received over the serial port.
pub struct CommandLineBuffer {
    buf: Vec<u8>,
}

impl View for CommandLineBuffer {
    type V = Seq<u8>;

    closed spec fn view(&self) -> Seq<u8> {
        self.buf@
    }
}

impl CommandLineBuffer {
    /// The buffer never exceeds its capacity and never holds a line ending.
    pub open spec fn wf(&self) -> bool {
        &&& self@.len() <= LINE_CAPACITY
        &&& lacks(self@, CR)
        &&& lacks(self@, LF)
    }

    /// An empty buffer.
    pub fn new() -> (b: Self)
        ensures
            b.wf(),
            b@ == Seq::<u8>::empty(),
    {
        CommandLineBuffer { buf: Vec::new() }
    }

    /// Takes one received byte. A line feed completes the line and hands it
    /// out (an empty line is ignored); a carriage return is dropped; other
    /// bytes are kept while there is room and dropped when the buffer is full.
    pub fn push_byte(&mut self, b: u8) -> (line: Option<Vec<u8>>)
        requires
            old(self).wf(),
        ensures
            final(self).wf(),
            b == LF && old(self)@.len() > 0 ==> (line matches Some(l) && l@ == old(self)@
                && final(self)@ == Seq::<u8>::empty()),
            b == LF && old(self)@.len() == 0 ==> line is None && final(self)@ == old(self)@,
            b != LF && b != CR && old(self)@.len() < LINE_CAPACITY ==> line is None
                && final(self)@ == old(self)@.push(b),
            b != LF && (b == CR || old(self)@.len() >= LINE_CAPACITY) ==> line is None
                && final(self)@ == old(self)@,
    {
        if b == LF {
            if self.buf.len() > 0 {
                let mut line: Vec<u8> = Vec::new();
                std::mem::swap(&mut line, &mut self.buf);
                Some(line)
            } else {
                None
            }
        } else if b != CR && self.buf.len() < LINE_CAPACITY {
            self.buf.push(b);
            assert(lacks(self@, CR) && lacks(self@, LF)) by {
                assert forall|i: int| 0 <= i < self@.len() implies self@[i] != CR && self@[i] != LF by {
                    if i < old(self)@.len() {
                        assert(self@[i] == old(self)@[i]);
                    }
                }
            }
            None
        } else {
            None
        }
    }
}

// ---------------------------------------------------------------------
// Motor state: watchdog and status reports
// ---------------------------------------------------------------------

/// What the firmware does about the motor after a check.
pub struct MotorState {
    /// PWM currently applied, -255..=255.
    pub current_pwm: i16,
    /// Whether the H-bridge enable lines are high.
    pub motor_enabled: bool,
    /// Uptime of the last valid command.
    pub last_command_ms: u32,
    /// Uptime of the last status report.
    pub last_status_ms: u32,
}

impl MotorState {
    /// Start-up state: motor disabled, no PWM, the watchdog counting from `now`.
    pub fn new(now: u32) -> (s: Self)
        ensures
            s.current_pwm == 0,
            !s.motor_enabled,
            s.last_command_ms == now,
            s.last_status_ms == 0,
    {
        MotorState { current_pwm: 0, motor_enabled: false, last_command_ms: now, last_status_ms: 0 }
    }

    /// A valid command arrived: apply its PWM and restart the watchdog.
    /// Returns true when this command enabled the motor (the first after
    /// start-up or after a watchdog stop).
    pub fn on_command(&mut self, pwm: i16, now: u32) -> (enabled_now: bool)
        ensures
            final(self).current_pwm == pwm,
            final(self).last_command_ms == now,
            final(self).motor_enabled,
            final(self).last_status_ms == old(self).last_status_ms,
            enabled_now == !old(self).motor_enabled,
    {
        self.current_pwm = pwm;
        self.last_command_ms = now;
        if !self.motor_enabled {
            self.motor_enabled = true;
            true
        } else {
            false
        }
    }

    /// Watchdog check: when the motor is enabled and more than 500 ms (by
    /// wrapping uptime arithmetic) passed since the last command, stop it.
    /// Returns true when the motor was stopped by this check.
    pub fn check_watchdog(&mut self, now: u32) -> (tripped: bool)
        ensures
            tripped == (old(self).motor_enabled && (now as int - old(self).last_command_ms as int
                + 0x1_0000_0000) % 0x1_0000_0000 > WATCHDOG_TIMEOUT_MS as int),
            tripped ==> final(self).current_pwm == 0 && !final(self).motor_enabled,
            !tripped ==> final(self).current_pwm == old(self).current_pwm && final(self).motor_enabled == old(self).motor_enabled,
            final(self).last_command_ms == old(self).last_command_ms,
            final(self).last_status_ms == old(self).last_status_ms,
    {
        let elapsed = now.wrapping_sub(self.last_command_ms);
        assert(elapsed as int == (now as int - self.last_command_ms as int + 0x1_0000_0000) % 0x1_0000_0000);
        if self.motor_enabled && elapsed > WATCHDOG_TIMEOUT_MS {
            self.current_pwm = 0;
            self.motor_enabled = false;
            true
        } else {
            false
        }
    }

    /// When at least 200 ms (wrapping) passed since the last report, record
    /// `now` as the report time and return the status sentence
    /// `$FINNMTR,<pwm>,<1|0>,<now>*<checksum>`.
    pub fn status_report(&mut self, now: u32) -> (r: Option<String>)
        ensures
            ((now as int - old(self).last_status_ms as int + 0x1_0000_0000) % 0x1_0000_0000
                >= STATUS_INTERVAL_MS as int) == (r is Some),
            r matches Some(s) ==> encode_utf8(s@) == status_sentence(old(self).current_pwm as int, old(self).motor_enabled, now as nat),
            r is Some ==> final(self).last_status_ms == now,
            r is None ==> final(self).last_status_ms == old(self).last_status_ms,
            final(self).current_pwm == old(self).current_pwm,
            final(self).motor_enabled == old(self).motor_enabled,
            final(self).last_command_ms == old(self).last_command_ms,
    {
        let elapsed = now.wrapping_sub(self.last_status_ms);
        assert(elapsed as int == (now as int - self.last_status_ms as int + 0x1_0000_0000) % 0x1_0000_0000);
        if elapsed >= STATUS_INTERVAL_MS {
            self.last_status_ms = now;
            Some(format_status(self.current_pwm, self.motor_enabled, now))
        } else {
            None
        }
    }
}

/// `FINNMTR,`
pub open spec fn status_tag() -> Seq<u8> {
    seq!['F' as u8, 'I' as u8, 'N' as u8, 'N' as u8, 'M' as u8, 'T' as u8, 'R' as u8, ',' as u8]
}

/// Body of the firmware's status report: `FINNMTR,<pwm>,<1|0>,<uptime>`.
pub open spec fn status_body(pwm: int, enabled: bool, now: nat) -> Seq<u8> {
    status_tag() + signed_dec(pwm) + seq![COMMA] + seq![if enabled { '1' as u8 } else { '0' as u8 }]
        + seq![COMMA] + dec_digits(now)
}

/// The status report line: `$<body>*<checksum>` (the line ending is added
/// when printed).
pub open spec fn status_sentence(pwm: int, enabled: bool, now: nat) -> Seq<u8> {
    seq![DOLLAR] + status_body(pwm, enabled, now) + seq![STAR] + hex_pair(
        xor_checksum(status_body(pwm, enabled, now)),
    )
}

/// The status report line for the given state.
pub fn format_status(pwm: i16, enabled: bool, now: u32) -> (r: String)
    ensures
        encode_utf8(r@) == status_sentence(pwm as int, enabled, now as nat),
{
    let mut body: Vec<u8> = vec!['F' as u8, 'I' as u8, 'N' as u8, 'N' as u8, 'M' as u8, 'T' as u8, 'R' as u8, ',' as u8];
    assert(body@ == status_tag());
    push_signed_decimal(&mut body, pwm as i64);
    body.push(COMMA);
    body.push(if enabled { '1' as u8 } else { '0' as u8 });
    body.push(COMMA);
    push_decimal(&mut body, now as u64);
    assert(body@ =~= status_body(pwm as int, enabled, now as nat));
    let cs = checksum_range(body.as_slice(), 0, body.len());
    assert(body@.subrange(0, body@.len() as int) =~= body@);
    let mut out: Vec<u8> = Vec::new();
    out.push(DOLLAR);
    let mut i: usize = 0;
    while i < body.len()
        invariant
            0 <= i <= body@.len(),
            out@ == seq![DOLLAR] + body@.subrange(0, i as int),
        decreases body@.len() - i,
    {
        out.push(body[i]);
        assert(out@ =~= seq![DOLLAR] + body@.subrange(0, i + 1));
        i = i + 1;
    }
    out.push(STAR);
    push_hex_pair(&mut out, cs);
    assert(out@ =~= status_sentence(pwm as int, enabled, now as nat));
    proof {
        let s = status_sentence(pwm as int, enabled, now as nat);
        lemma_signed_dec_ascii(pwm as int);
        lemma_dec_ascii(now as nat);
        lemma_hex_pair_chars(cs);
        let sd = signed_dec(pwm as int);
        let dd = dec_digits(now as nat);
        assert forall|j: int| 0 <= j < s.len() implies #[trigger] s[j] < 128 by {
            let n1 = 9 + sd.len();
            let n2 = n1 + 3;
            if 9 <= j < n1 {
                assert(s[j] == sd[j - 9]);
            } else if n2 <= j < n2 + dd.len() {
                assert(s[j] == dd[j - n2]);
            } else if j >= n2 + dd.len() + 1 {
                assert(s[j] == hex_pair(cs)[j - n2 - dd.len() - 1]);
            }
        }
        lemma_ascii_valid_utf8(s);
    }
    bytes_to_string(out.as_slice())
}

// ---------------------------------------------------------------------
// H-bridge drive
// ---------------------------------------------------------------------

/// Duty cycles `(right, left)` of the two H-bridge PWM inputs for a signed
/// PWM value: positive steers right, negative left, zero stops; the duty is
/// the magnitude capped at 255.
pub open spec fn duties(pwm: int) -> (u32, u32) {
    let mag: int = if pwm < 0 { -pwm } else { pwm };
    let duty: u32 = if mag > 255 { 255 } else { mag as u32 };
    if pwm > 0 {
        (duty, 0)
    } else if pwm < 0 {
        (0, duty)
    } else {
        (0, 0)
    }
}

/// The H-bridge duty cycles `(right, left)` for a signed PWM value.
pub fn pwm_duties(pwm: i16) -> (r: (u32, u32))
    ensures
        r == duties(pwm as int),
{
    let mag: u32 = if pwm < 0 {
        (-(pwm as i32)) as u32
    } else {
        pwm as u32
    };
    let duty: u32 = if mag > 255 { 255 } else { mag };
    if pwm > 0 {
        (duty, 0)
    } else if pwm < 0 {
        (0, duty)
    } else {
        (0, 0)
    }
}

/// The H-bridge is driven at exactly the commanded magnitude: for a PWM of
/// magnitude up to 255 the active input (right for positive, left for
/// negative) gets the magnitude as its duty and the other input nothing;
/// only larger magnitudes saturate at 255, and zero stops both.
pub proof fn law_duty_is_magnitude(pwm: int)
    ensures
        0 < pwm <= 255 ==> duties(pwm) == (pwm as u32, 0u32),
        -255 <= pwm < 0 ==> duties(pwm) == (0u32, (-pwm) as u32),
        pwm > 255 ==> duties(pwm) == (255u32, 0u32),
        pwm < -255 ==> duties(pwm) == (0u32, 255u32),
        pwm == 0 ==> duties(pwm) == (0u32, 0u32),
{
}

} // verus!
