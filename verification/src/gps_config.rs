//! The configuration dialogue with the LC29H GPS module: PAIR command
//! framing, the fix-rate negotiation (try the requested rate, fall back to
//! slower ones), reading the module's acknowledgements, and recognising
//! which serial port carries the GPS module.

use vstd::prelude::*;
use vstd::string::*;
use vstd::utf8::*;
use crate::digits::{dec_digits, lemma_dec_digits, lemma_parse_unsigned_dec, parse_unsigned, push_decimal};
use crate::protocol::{
    finn_frame, frame_ascii, frame_bytes, lemma_ascii_concat, lemma_dec_ascii,
    lemma_frame_valid_utf8, COMMA,
};
use crate::strings::{
    bytes_to_string, is_ascii_bytes, lemma_ascii_valid_utf8, lemma_str_valid_utf8,
};
use crate::text::{
    contains_seq, find_seq, find_seq_in, join, lemma_lines_len, line_bounds, lines, starts_with,
    starts_with_in, trim, trim_bounds, CR, LF,
};
use crate::utf8_pieces::{lemma_cut_after_ascii, lemma_valid_piece};

verus! {

/// Format a PAIR/PQTM command with its NMEA checksum: `$<body>*<HH>\r\n`.
pub fn format_pair_command(body: &str) -> (r: String)
    ensures
        encode_utf8(r@) == finn_frame(body.spec_bytes()),
{
    let b = body.as_bytes();
    let v = frame_bytes(b);
    proof {
        lemma_str_valid_utf8(body);
        lemma_frame_valid_utf8(b@);
    }
    bytes_to_string(v.as_slice())
}

// ---------------------------------------------------------------------
// Fix-rate negotiation
// ---------------------------------------------------------------------

/// The fix intervals the module is asked for, in order: the requested rate,
/// then each of 10, 5, 2 and 1 Hz that is slower than it.
pub open spec fn rates_spec(fix_rate_hz: u8) -> Seq<u8> {
    seq![fix_rate_hz] + (if 10 < fix_rate_hz { seq![10u8] } else { Seq::<u8>::empty() }) + (if 5
        < fix_rate_hz {
        seq![5u8]
    } else {
        Seq::<u8>::empty()
    }) + (if 2 < fix_rate_hz { seq![2u8] } else { Seq::<u8>::empty() }) + (if 1 < fix_rate_hz {
        seq![1u8]
    } else {
        Seq::<u8>::empty()
    })
}

/// The fix rates to try, fastest first: the requested rate, then the
/// standard fallbacks (10, 5, 2, 1 Hz) that are slower than it and not yet
/// in the list.
pub fn rates_to_try(fix_rate_hz: u8) -> (rates: Vec<u8>)
    ensures
        rates@ == rates_spec(fix_rate_hz),
{
    let mut rates: Vec<u8> = Vec::new();
    rates.push(fix_rate_hz);
    push_fallback(&mut rates, 10, fix_rate_hz);
    push_fallback(&mut rates, 5, fix_rate_hz);
    push_fallback(&mut rates, 2, fix_rate_hz);
    push_fallback(&mut rates, 1, fix_rate_hz);
    assert(rates@ =~= rates_spec(fix_rate_hz));
    rates
}

/// The negotiation starts at the requested rate and only ever falls back
/// to slower rates: the list is strictly decreasing, ends at 1 Hz, and
/// every rate in it is at least 1 Hz when the request is.
pub proof fn law_rates_fall_back_slower(fix_rate_hz: u8)
    ensures
        rates_spec(fix_rate_hz)[0] == fix_rate_hz,
        rates_spec(fix_rate_hz).len() <= 5,
        forall|i: int, j: int|
            0 <= i < j < rates_spec(fix_rate_hz).len() ==> #[trigger] rates_spec(fix_rate_hz)[i]
                > #[trigger] rates_spec(fix_rate_hz)[j],
        fix_rate_hz >= 1 ==> rates_spec(fix_rate_hz).last() == 1,
        fix_rate_hz >= 1 ==> forall|i: int|
            0 <= i < rates_spec(fix_rate_hz).len() ==> #[trigger] rates_spec(fix_rate_hz)[i] >= 1,
{
    let s = rates_spec(fix_rate_hz);
    let e = Seq::<u8>::empty();
    let a = seq![fix_rate_hz];
    let b = if 10 < fix_rate_hz { seq![10u8] } else { e };
    let c = if 5 < fix_rate_hz { seq![5u8] } else { e };
    let d = if 2 < fix_rate_hz { seq![2u8] } else { e };
    let f = if 1 < fix_rate_hz { seq![1u8] } else { e };
    assert(s == a + b + c + d + f);
    // Every element after the first is a fallback below the request, and
    // the fallbacks appear in decreasing order.
    let w = a + b + c + d + f;
    assert forall|i: int, j: int| 0 <= i < j < w.len() implies #[trigger] w[i] > #[trigger] w[j] by {
        let n1 = 1 + b.len();
        let n2 = n1 + c.len();
        let n3 = n2 + d.len();
        assert(w[0] == fix_rate_hz);
        if 1 <= i < n1 { assert(w[i] == 10); }
        if n1 <= i < n2 { assert(w[i] == 5); }
        if n2 <= i < n3 { assert(w[i] == 2); }
        if 1 <= j < n1 { assert(w[j] == 10); }
        if n1 <= j < n2 { assert(w[j] == 5); }
        if n2 <= j < n3 { assert(w[j] == 2); }
        if n3 <= j { assert(w[j] == 1); }
        if n3 <= i { assert(w[i] == 1); }
    }
}

/// Appends the fallback rate `r` when it is slower than the requested rate
/// and not yet listed; the list so far holds the requested rate and faster
/// fallbacks only.
fn push_fallback(rates: &mut Vec<u8>, r: u8, fix_rate_hz: u8)
    requires
        old(rates)@.len() >= 1,
        old(rates)@[0] == fix_rate_hz,
        forall|i: int| 1 <= i < old(rates)@.len() ==> #[trigger] old(rates)@[i] > r,
    ensures
        final(rates)@ == if r < fix_rate_hz { old(rates)@.push(r) } else { old(rates)@ },
{
    if r < fix_rate_hz && !contains_u8(rates, r) {
        rates.push(r);
    } else {
        proof {
            if r < fix_rate_hz {
                let i = choose|i: int| 0 <= i < old(rates)@.len() && old(rates)@[i] == r;
                assert(old(rates)@[i] == r);
            }
        }
    }
}

fn contains_u8(v: &Vec<u8>, x: u8) -> (r: bool)
    ensures
        r == v@.contains(x),
{
    let mut i: usize = 0;
    while i < v.len()
        invariant
            0 <= i <= v@.len(),
            forall|j: int| 0 <= j < i ==> v@[j] != x,
        decreases v@.len() - i,
    {
        if v[i] == x {
            return true;
        }
        i = i + 1;
    }
    false
}

/// Fix interval in milliseconds for a rate in Hz (integer division, as the
/// module's PAIR050 command takes it).
pub fn fix_interval_ms(rate_hz: u8) -> (ms: u16)
    requires
        rate_hz >= 1,
    ensures
        ms as int == 1000int / (rate_hz as int),
{
    1000u16 / (rate_hz as u16)
}

/// `PAIR050,`
pub open spec fn pair050_tag() -> Seq<u8> {
    seq!['P' as u8, 'A' as u8, 'I' as u8, 'R' as u8, '0' as u8, '5' as u8, '0' as u8, ',' as u8]
}

/// Body of the fix-rate command: `PAIR050,<interval_ms>`.
pub open spec fn rate_command_body(rate_hz: u8) -> Seq<u8> {
    pair050_tag() + dec_digits((1000int / (rate_hz as int)) as nat)
}

/// The complete fix-rate command for a rate in Hz.
pub fn format_rate_command(rate_hz: u8) -> (r: String)
    requires
        rate_hz >= 1,
    ensures
        encode_utf8(r@) == finn_frame(rate_command_body(rate_hz)),
{
    let mut body: Vec<u8> = vec!['P' as u8, 'A' as u8, 'I' as u8, 'R' as u8, '0' as u8, '5' as u8, '0' as u8, ',' as u8];
    assert(body@ == pair050_tag());
    let interval = fix_interval_ms(rate_hz);
    push_decimal(&mut body, interval as u64);
    proof {
        lemma_dec_ascii(interval as nat);
        lemma_ascii_concat(pair050_tag(), dec_digits(interval as nat));
    }
    frame_ascii(body.as_slice())
}

/// The module's answer to a fix-rate command.
#[derive(Debug, Clone, Copy, PartialEq, Eq, Structural)]
pub enum RateAck {
    /// `PAIR001,050,0`: the rate was accepted.
    Accepted,
    /// `PAIR001,050,1`: this module variant does not support the rate.
    Unsupported,
    /// `PAIR001,050,2`: the parameter was rejected.
    Invalid,
    /// `PAIR001,050,` followed by another code.
    Unknown(u8),
    /// `PAIR001,050,` with nothing after it.
    Truncated,
    /// No acknowledgement in the response (the rate may still be applied).
    NoAck,
}

/// `PAIR001,050,`
pub open spec fn ack_prefix() -> Seq<u8> {
    seq!['P' as u8, 'A' as u8, 'I' as u8, 'R' as u8, '0' as u8, '0' as u8, '1' as u8, ',' as u8, '0' as u8, '5' as u8, '0' as u8, ',' as u8]
}

/// Reading of the fix-rate acknowledgement in a response: the code byte just
/// after the first `PAIR001,050,`.
pub open spec fn rate_ack_spec(response: Seq<u8>) -> RateAck {
    match find_seq(response, ack_prefix()) {
        None => RateAck::NoAck,
        Some(p) => {
            if p + 12 >= response.len() {
                RateAck::Truncated
            } else {
                let c = response[p + 12int];
                if c == '0' as u8 {
                    RateAck::Accepted
                } else if c == '1' as u8 {
                    RateAck::Unsupported
                } else if c == '2' as u8 {
                    RateAck::Invalid
                } else {
                    RateAck::Unknown(c)
                }
            }
        },
    }
}

/// Reads the module's answer to a fix-rate command from the collected
/// response text.
pub fn classify_rate_ack(response: &str) -> (a: RateAck)
    ensures
        a == rate_ack_spec(response.spec_bytes()),
{
    let s = response.as_bytes();
    let p: Vec<u8> = vec!['P' as u8, 'A' as u8, 'I' as u8, 'R' as u8, '0' as u8, '0' as u8, '1' as u8, ',' as u8, '0' as u8, '5' as u8, '0' as u8, ',' as u8];
    assert(p@ == ack_prefix());
    assert(s@.subrange(0, s@.len() as int) =~= s@);
    match find_seq_in(s, 0, s.len(), p.as_slice()) {
        None => RateAck::NoAck,
        Some(pos) => {
            if pos + 12 >= s.len() {
                RateAck::Truncated
            } else {
                let c = s[pos + 12];
                if c == '0' as u8 {
                    RateAck::Accepted
                } else if c == '1' as u8 {
                    RateAck::Unsupported
                } else if c == '2' as u8 {
                    RateAck::Invalid
                } else {
                    RateAck::Unknown(c)
                }
            }
        },
    }
}

/// `PAIR001,050`
pub open spec fn ack_marker() -> Seq<u8> {
    seq!['P' as u8, 'A' as u8, 'I' as u8, 'R' as u8, '0' as u8, '0' as u8, '1' as u8, ',' as u8, '0' as u8, '5' as u8, '0' as u8]
}

/// Whether the response collected so far already holds the fix-rate
/// acknowledgement marker `PAIR001,050` (reading can stop).
pub fn rate_ack_seen(response: &str) -> (r: bool)
    ensures
        r == contains_seq(response.spec_bytes(), ack_marker()),
{
    let s = response.as_bytes();
    let p: Vec<u8> = vec!['P' as u8, 'A' as u8, 'I' as u8, 'R' as u8, '0' as u8, '0' as u8, '1' as u8, ',' as u8, '0' as u8, '5' as u8, '0' as u8];
    assert(p@ == ack_marker());
    assert(s@.subrange(0, s@.len() as int) =~= s@);
    find_seq_in(s, 0, s.len(), p.as_slice()).is_some()
}

/// Progress of the fix-rate negotiation: the rates to try, how many have
/// been tried, and whether a rate was set.
pub struct RateNegotiation {
    rates: Vec<u8>,
    tried: usize,
    rate_set: bool,
    done: bool,
}

impl RateNegotiation {
    /// The rates this negotiation tries, in order.
    pub closed spec fn rates(&self) -> Seq<u8> {
        self.rates@
    }

    /// How many rates have been given up on or settled.
    pub closed spec fn tried(&self) -> nat {
        self.tried as nat
    }

    /// Whether the negotiation has settled on a rate.
    pub closed spec fn settled(&self) -> bool {
        self.done
    }

    /// Whether the module is taken to run at the tried rate.
    pub closed spec fn is_set(&self) -> bool {
        self.rate_set
    }

    /// The negotiation's internal consistency.
    pub closed spec fn wf(&self) -> bool {
        &&& self.tried <= self.rates@.len() <= 5
        &&& self.done ==> self.rate_set && self.tried < self.rates@.len()
        &&& !self.done ==> !self.rate_set
        &&& forall|i: int| 0 <= i < self.rates@.len() ==> #[trigger] self.rates@[i] >= 1
    }

    /// Start negotiating for the requested rate.
    pub fn new(fix_rate_hz: u8) -> (n: Self)
        requires
            fix_rate_hz >= 1,
        ensures
            n.wf(),
            n.rates() == rates_spec(fix_rate_hz),
            n.tried() == 0,
            !n.settled(),
            !n.is_set(),
    {
        let rates = rates_to_try(fix_rate_hz);
        assert(rates@.len() <= 5);
        RateNegotiation { rates, tried: 0, rate_set: false, done: false }
    }

    /// The next rate to command, if the negotiation goes on.
    pub fn next_rate(&self) -> (r: Option<u8>)
        requires
            self.wf(),
        ensures
            r is None <==> (self.settled() || self.tried() >= self.rates().len()),
            r matches Some(x) ==> x == self.rates()[self.tried() as int] && x >= 1,
    {
        if self.done || self.tried >= self.rates.len() {
            None
        } else {
            Some(self.rates[self.tried])
        }
    }

    /// The command for the current rate could not be written: move on.
    pub fn on_write_failed(&mut self)
        requires
            old(self).wf(),
            !old(self).settled(),
            old(self).tried() < old(self).rates().len(),
        ensures
            final(self).wf(),
            final(self).rates() == old(self).rates(),
            final(self).tried() == old(self).tried() + 1,
            !final(self).settled(),
            !final(self).is_set(),
    {
        self.tried = self.tried + 1;
    }

    /// The module's answer to the current rate: an acceptance, or no
    /// acknowledgement at all, settles the negotiation with the rate set;
    /// any other answer moves on to the next rate.
    pub fn on_ack(&mut self, ack: RateAck)
        requires
            old(self).wf(),
            !old(self).settled(),
            old(self).tried() < old(self).rates().len(),
        ensures
            final(self).wf(),
            final(self).rates() == old(self).rates(),
            (ack == RateAck::Accepted || ack == RateAck::NoAck) ==> final(self).settled()
                && final(self).is_set() && final(self).tried() == old(self).tried(),
            !(ack == RateAck::Accepted || ack == RateAck::NoAck) ==> !final(self).settled()
                && !final(self).is_set() && final(self).tried() == old(self).tried() + 1,
    {
        match ack {
            RateAck::Accepted | RateAck::NoAck => {
                self.rate_set = true;
                self.done = true;
            },
            _ => {
                self.tried = self.tried + 1;
            },
        }
    }

    /// Whether a rate was set (the runtime configuration is then persisted).
    pub fn rate_set(&self) -> (r: bool)
        ensures
            r == self.is_set(),
    {
        self.rate_set
    }
}

// ---------------------------------------------------------------------
// Dead-reckoning configuration responses
// ---------------------------------------------------------------------

/// How the module answered the dead-reckoning telemetry configuration.
#[derive(Debug, Clone, Copy, PartialEq, Eq, Structural)]
pub enum InsConfigResponse {
    /// `$PQTMCFGEINSMSGOK` or `$PQTMCFGEINSMSG,OK`.
    Accepted,
    /// `$PQTMCFGEINSMSGERROR` or `$PQTMCFGEINSMSG,ERROR`.
    Rejected,
    /// A get/echo response `$PQTMEINSMSG` instead of an acknowledgement.
    Echoed,
    /// Nothing but whitespace.
    Empty,
    /// Anything else.
    Other,
}

/// `$PQTMCFGEINSMSG`
pub open spec fn cfg_msg() -> Seq<u8> {
    seq!['$' as u8, 'P' as u8, 'Q' as u8, 'T' as u8, 'M' as u8, 'C' as u8, 'F' as u8, 'G' as u8, 'E' as u8, 'I' as u8, 'N' as u8, 'S' as u8, 'M' as u8, 'S' as u8, 'G' as u8]
}

/// `OK`
pub open spec fn ok_word() -> Seq<u8> {
    seq!['O' as u8, 'K' as u8]
}

/// `ERROR`
pub open spec fn error_word() -> Seq<u8> {
    seq!['E' as u8, 'R' as u8, 'R' as u8, 'O' as u8, 'R' as u8]
}

/// `$PQTMEINSMSG`
pub open spec fn echo_msg() -> Seq<u8> {
    seq!['$' as u8, 'P' as u8, 'Q' as u8, 'T' as u8, 'M' as u8, 'E' as u8, 'I' as u8, 'N' as u8, 'S' as u8, 'M' as u8, 'S' as u8, 'G' as u8]
}

/// Classification of a dead-reckoning configuration response, checked in
/// this order: acknowledged, rejected, echoed, empty after trimming, other.
pub open spec fn ins_response_spec(r: Seq<u8>) -> InsConfigResponse {
    if contains_seq(r, cfg_msg() + ok_word()) || contains_seq(r, cfg_msg() + seq![COMMA] + ok_word()) {
        InsConfigResponse::Accepted
    } else if contains_seq(r, cfg_msg() + error_word()) || contains_seq(
        r,
        cfg_msg() + seq![COMMA] + error_word(),
    ) {
        InsConfigResponse::Rejected
    } else if contains_seq(r, echo_msg()) {
        InsConfigResponse::Echoed
    } else if trim(r).len() == 0 {
        InsConfigResponse::Empty
    } else {
        InsConfigResponse::Other
    }
}

fn has(s: &[u8], p: Vec<u8>) -> (r: bool)
    ensures
        r == contains_seq(s@, p@),
{
    assert(s@.subrange(0, s@.len() as int) =~= s@);
    find_seq_in(s, 0, s.len(), p.as_slice()).is_some()
}

/// Classifies the module's response to the dead-reckoning configuration
/// command (the non-standard forms the LC29H firmware sends).
pub fn classify_pqtm_config_response(response: &str) -> (c: InsConfigResponse)
    ensures
        c == ins_response_spec(response.spec_bytes()),
{
    let s = response.as_bytes();
    let mut ok1: Vec<u8> = vec!['$' as u8, 'P' as u8, 'Q' as u8, 'T' as u8, 'M' as u8, 'C' as u8, 'F' as u8, 'G' as u8, 'E' as u8, 'I' as u8, 'N' as u8, 'S' as u8, 'M' as u8, 'S' as u8, 'G' as u8, 'O' as u8, 'K' as u8];
    assert(ok1@ =~= cfg_msg() + ok_word());
    let ok2: Vec<u8> = vec!['$' as u8, 'P' as u8, 'Q' as u8, 'T' as u8, 'M' as u8, 'C' as u8, 'F' as u8, 'G' as u8, 'E' as u8, 'I' as u8, 'N' as u8, 'S' as u8, 'M' as u8, 'S' as u8, 'G' as u8, ',' as u8, 'O' as u8, 'K' as u8];
    assert(ok2@ =~= cfg_msg() + seq![COMMA] + ok_word());
    let er1: Vec<u8> = vec!['$' as u8, 'P' as u8, 'Q' as u8, 'T' as u8, 'M' as u8, 'C' as u8, 'F' as u8, 'G' as u8, 'E' as u8, 'I' as u8, 'N' as u8, 'S' as u8, 'M' as u8, 'S' as u8, 'G' as u8, 'E' as u8, 'R' as u8, 'R' as u8, 'O' as u8, 'R' as u8];
    assert(er1@ =~= cfg_msg() + error_word());
    let er2: Vec<u8> = vec!['$' as u8, 'P' as u8, 'Q' as u8, 'T' as u8, 'M' as u8, 'C' as u8, 'F' as u8, 'G' as u8, 'E' as u8, 'I' as u8, 'N' as u8, 'S' as u8, 'M' as u8, 'S' as u8, 'G' as u8, ',' as u8, 'E' as u8, 'R' as u8, 'R' as u8, 'O' as u8, 'R' as u8];
    assert(er2@ =~= cfg_msg() + seq![COMMA] + error_word());
    let echo: Vec<u8> = vec!['$' as u8, 'P' as u8, 'Q' as u8, 'T' as u8, 'M' as u8, 'E' as u8, 'I' as u8, 'N' as u8, 'S' as u8, 'M' as u8, 'S' as u8, 'G' as u8];
    assert(echo@ =~= echo_msg());
    if has(s, ok1) || has(s, ok2) {
        InsConfigResponse::Accepted
    } else if has(s, er1) || has(s, er2) {
        InsConfigResponse::Rejected
    } else if has(s, echo) {
        InsConfigResponse::Echoed
    } else {
        let (a, b) = trim_bounds(s, 0, s.len());
        assert(s@.subrange(0, s@.len() as int) =~= s@);
        if a == b {
            InsConfigResponse::Empty
        } else {
            InsConfigResponse::Other
        }
    }
}

/// `$PQTMINS`
pub open spec fn ins_prefix() -> Seq<u8> {
    seq!['$' as u8, 'P' as u8, 'Q' as u8, 'T' as u8, 'M' as u8, 'I' as u8, 'N' as u8, 'S' as u8]
}

/// Whether some line of the response starts with `$PQTMINS`: the module is
/// already streaming dead-reckoning data (from saved settings).
#[verifier::rlimit(60)]
pub fn pqtmins_already_streaming(response: &str) -> (r: bool)
    ensures
        r == exists|k: int| 0 <= k < lines(response.spec_bytes()).len() && starts_with(
            #[trigger] lines(response.spec_bytes())[k],
            ins_prefix(),
        ),
{
    let s = response.as_bytes();
    assert(s@.subrange(0, s@.len() as int) =~= s@);
    proof {
        lemma_lines_len(s@);
    }
    let bounds = line_bounds(s, 0, s.len(), s.len());
    let p: Vec<u8> = vec!['$' as u8, 'P' as u8, 'Q' as u8, 'T' as u8, 'M' as u8, 'I' as u8, 'N' as u8, 'S' as u8];
    assert(p@ == ins_prefix());
    let ghost ls = lines(s@);
    let mut k: usize = 0;
    while k < bounds.len()
        invariant
            bounds@.len() == ls.len(),
            ls == lines(s@),
            s@ == response.spec_bytes(),
            p@ == ins_prefix(),
            0 <= k <= bounds@.len(),
            forall|m: int|
                0 <= m < bounds@.len() ==> 0 <= (#[trigger] bounds@[m]).0 <= bounds@[m].1 <= s@.len()
                    && s@.subrange(bounds@[m].0 as int, bounds@[m].1 as int) == ls[m],
            forall|m: int| 0 <= m < k ==> !starts_with(#[trigger] ls[m], ins_prefix()),
        decreases bounds@.len() - k,
    {
        let (a, b) = bounds[k];
        assert(bounds@[k as int] == (a, b));
        if starts_with_in(s, a, b, p.as_slice()) {
            assert(starts_with(ls[k as int], ins_prefix()));
            assert(lines(response.spec_bytes())[k as int] == ls[k as int]);
            return true;
        }
        k = k + 1;
    }
    false
}

/// ` | `
pub open spec fn bar_sep() -> Seq<u8> {
    seq![' ' as u8, '|' as u8, ' ' as u8]
}

/// The first lines of a response (at most `n`).
pub open spec fn first_lines(s: Seq<u8>, n: nat) -> Seq<Seq<u8>> {
    if lines(s).len() < n {
        lines(s)
    } else {
        lines(s).take(n as int)
    }
}

/// The first four lines of a response joined by ` | `, for a compact log line.
#[verifier::rlimit(60)]
pub fn compact_response(response: &str) -> (r: String)
    ensures
        encode_utf8(r@) == join(first_lines(response.spec_bytes(), 4), bar_sep()),
{
    let s = response.as_bytes();
    assert(s@.subrange(0, s@.len() as int) =~= s@);
    let bounds = line_bounds(s, 0, s.len(), 4);
    let ghost ls = first_lines(s@, 4);
    proof {
        lemma_str_valid_utf8(response);
    }
    let mut out: Vec<u8> = Vec::new();
    let mut k: usize = 0;
    while k < bounds.len()
        invariant
            bounds@.len() == ls.len(),
            ls == first_lines(s@, 4),
            valid_utf8(s@),
            0 <= k <= bounds@.len(),
            forall|m: int|
                0 <= m < bounds@.len() ==> 0 <= (#[trigger] bounds@[m]).0 <= bounds@[m].1 <= s@.len()
                    && s@.subrange(bounds@[m].0 as int, bounds@[m].1 as int) == lines(s@)[m],
            forall|m: int|
                0 <= m < bounds@.len() ==> ((#[trigger] bounds@[m]).0 == 0 || s@[bounds@[m].0 - 1]
                    == LF) && (bounds@[m].1 == s@.len() || s@[bounds@[m].1 as int] == LF
                    || s@[bounds@[m].1 as int] == CR),
            out@ == join(ls.take(k as int), bar_sep()),
            valid_utf8(out@),
        decreases bounds@.len() - k,
    {
        let (a, b) = bounds[k];
        assert(bounds@[k as int] == (a, b));
        assert(ls[k as int] == lines(s@)[k as int]);
        let ghost prev = out@;
        proof {
            if a > 0 {
                lemma_cut_after_ascii(s@, a - 1);
            }
            if b < s@.len() {
                lemma_cut_after_ascii(s@, b as int);
            }
            lemma_valid_piece(s@, a as int, b as int);
        }
        if k > 0 {
            out.push(' ' as u8);
            out.push('|' as u8);
            out.push(' ' as u8);
        }
        let mut i = a;
        while i < b
            invariant
                a <= i <= b <= s@.len(),
                out@ == (if k > 0 { prev + bar_sep() } else { prev }) + s@.subrange(a as int, i as int),
            decreases b - i,
        {
            out.push(s[i]);
            assert(out@ =~= (if k > 0 { prev + bar_sep() } else { prev }) + s@.subrange(a as int, i + 1));
            i = i + 1;
        }
        proof {
            let piece = s@.subrange(a as int, b as int);
            let t = ls.take(k + 1);
            assert(t.drop_last() =~= ls.take(k as int));
            assert(t.last() == piece);
            if k == 0 {
                assert(prev =~= Seq::<u8>::empty());
                assert(out@ =~= piece);
            } else {
                assert(out@ =~= prev + bar_sep() + piece);
                assert(is_ascii_bytes(bar_sep()));
                lemma_ascii_valid_utf8(bar_sep());
                valid_utf8_concat(prev, bar_sep());
                valid_utf8_concat(prev + bar_sep(), piece);
            }
        }
        k = k + 1;
    }
    assert(ls.take(bounds@.len() as int) =~= ls);
    bytes_to_string(out.as_slice())
}

// ---------------------------------------------------------------------
// Serial port probing
// ---------------------------------------------------------------------

/// `$FINNMTR`
pub open spec fn motor_status_prefix() -> Seq<u8> {
    seq!['$' as u8, 'F' as u8, 'I' as u8, 'N' as u8, 'N' as u8, 'M' as u8, 'T' as u8, 'R' as u8]
}

/// `$FINNACK`
pub open spec fn motor_ack_prefix() -> Seq<u8> {
    seq!['$' as u8, 'F' as u8, 'I' as u8, 'N' as u8, 'N' as u8, 'A' as u8, 'C' as u8, 'K' as u8]
}

/// Whether a probed line comes from the motor ESP32.
pub open spec fn is_motor_line(l: Seq<u8>) -> bool {
    starts_with(l, motor_status_prefix()) || starts_with(l, motor_ack_prefix())
}

/// Whether a probed line is GPS module output: `$G...` NMEA, `$PAIR` or
/// `$PQTM` sentences.
pub open spec fn is_gps_line(l: Seq<u8>) -> bool {
    starts_with(l, seq!['$' as u8, 'G' as u8]) || starts_with(
        l,
        seq!['$' as u8, 'P' as u8, 'A' as u8, 'I' as u8, 'R' as u8],
    ) || starts_with(l, seq!['$' as u8, 'P' as u8, 'Q' as u8, 'T' as u8, 'M' as u8])
}

/// What probing a serial port for the GPS module has seen so far.
pub struct GpsProbe {
    pub found_nmea: bool,
    pub is_motor: bool,
}

impl GpsProbe {
    /// Nothing seen yet.
    pub fn new() -> (p: Self)
        ensures
            !p.found_nmea,
            !p.is_motor,
    {
        GpsProbe { found_nmea: false, is_motor: false }
    }

    /// Takes one line read from the port. A motor ESP32 line marks the port
    /// as the motor controller and ends the probe (returns true); a GPS
    /// sentence marks NMEA as found.
    pub fn observe(&mut self, line: &str) -> (stop: bool)
        ensures
            stop == is_motor_line(line.spec_bytes()),
            final(self).is_motor == (old(self).is_motor || is_motor_line(line.spec_bytes())),
            final(self).found_nmea == (old(self).found_nmea || (!is_motor_line(line.spec_bytes())
                && is_gps_line(line.spec_bytes()))),
    {
        let s = line.as_bytes();
        assert(s@.subrange(0, s@.len() as int) =~= s@);
        let mtr: Vec<u8> = vec!['$' as u8, 'F' as u8, 'I' as u8, 'N' as u8, 'N' as u8, 'M' as u8, 'T' as u8, 'R' as u8];
        let ack: Vec<u8> = vec!['$' as u8, 'F' as u8, 'I' as u8, 'N' as u8, 'N' as u8, 'A' as u8, 'C' as u8, 'K' as u8];
        assert(mtr@ == motor_status_prefix());
        assert(ack@ == motor_ack_prefix());
        if starts_with_in(s, 0, s.len(), mtr.as_slice()) || starts_with_in(s, 0, s.len(), ack.as_slice()) {
            self.is_motor = true;
            return true;
        }
        let g: Vec<u8> = vec!['$' as u8, 'G' as u8];
        let pair: Vec<u8> = vec!['$' as u8, 'P' as u8, 'A' as u8, 'I' as u8, 'R' as u8];
        let pqtm: Vec<u8> = vec!['$' as u8, 'P' as u8, 'Q' as u8, 'T' as u8, 'M' as u8];
        assert(g@ == seq!['$' as u8, 'G' as u8]);
        assert(pair@ == seq!['$' as u8, 'P' as u8, 'A' as u8, 'I' as u8, 'R' as u8]);
        assert(pqtm@ == seq!['$' as u8, 'P' as u8, 'Q' as u8, 'T' as u8, 'M' as u8]);
        if starts_with_in(s, 0, s.len(), g.as_slice()) || starts_with_in(s, 0, s.len(), pair.as_slice())
            || starts_with_in(s, 0, s.len(), pqtm.as_slice()) {
            self.found_nmea = true;
        }
        false
    }

    /// The port carries the GPS module: NMEA seen and no motor ESP32 line.
    pub fn is_gps_port(&self) -> (r: bool)
        ensures
            r == (self.found_nmea && !self.is_motor),
    {
        self.found_nmea && !self.is_motor
    }
}

/// Whether a probed line shows the motor ESP32 (a `$FINNMTR` status).
pub fn is_motor_status_line(line: &str) -> (r: bool)
    ensures
        r == starts_with(line.spec_bytes(), motor_status_prefix()),
{
    let s = line.as_bytes();
    assert(s@.subrange(0, s@.len() as int) =~= s@);
    let mtr: Vec<u8> = vec!['$' as u8, 'F' as u8, 'I' as u8, 'N' as u8, 'N' as u8, 'M' as u8, 'T' as u8, 'R' as u8];
    assert(mtr@ == motor_status_prefix());
    starts_with_in(s, 0, s.len(), mtr.as_slice())
}

/// Indices `0..n` whose flag in `is_usb` equals `usb`, in increasing order.
pub open spec fn indices_with(is_usb: Seq<bool>, usb: bool, n: nat) -> Seq<usize>
    decreases n,
{
    if n == 0 {
        Seq::<usize>::empty()
    } else {
        let rest = indices_with(is_usb, usb, (n - 1) as nat);
        if is_usb[n - 1] == usb {
            rest.push((n - 1) as usize)
        } else {
            rest
        }
    }
}

/// The order in which serial ports are probed: USB ports first, each group
/// keeping the order in which the ports were listed (a stable sort on
/// "is not USB").
pub fn usb_first_order(is_usb: &Vec<bool>) -> (order: Vec<usize>)
    ensures
        order@ == indices_with(is_usb@, true, is_usb@.len()) + indices_with(
            is_usb@,
            false,
            is_usb@.len(),
        ),
{
    let mut usb: Vec<usize> = Vec::new();
    let mut other: Vec<usize> = Vec::new();
    let mut i: usize = 0;
    while i < is_usb.len()
        invariant
            i <= is_usb@.len(),
            usb@ == indices_with(is_usb@, true, i as nat),
            other@ == indices_with(is_usb@, false, i as nat),
        decreases is_usb@.len() - i,
    {
        if is_usb[i] {
            usb.push(i);
        } else {
            other.push(i);
        }
        i = i + 1;
    }
    let mut k: usize = 0;
    let ghost first = usb@;
    while k < other.len()
        invariant
            k <= other@.len(),
            usb@ == first + other@.subrange(0, k as int),
        decreases other@.len() - k,
    {
        usb.push(other[k]);
        assert(usb@ =~= first + other@.subrange(0, k + 1));
        k = k + 1;
    }
    assert(other@.subrange(0, other@.len() as int) =~= other@);
    usb
}

/// Which indices the group of flag `usb` holds: exactly those below `n`
/// with that flag; the two groups together number `n`.
proof fn lemma_indices_with(is_usb: Seq<bool>, usb: bool, n: nat)
    requires
        n <= is_usb.len() <= usize::MAX,
    ensures
        forall|k: int| 0 <= k < n ==> (indices_with(is_usb, usb, n).contains(k as usize) <==> #[trigger] is_usb[k] == usb),
        forall|j: int| 0 <= j < indices_with(is_usb, usb, n).len() ==> #[trigger] indices_with(is_usb, usb, n)[j] < n,
        indices_with(is_usb, usb, n).len() + indices_with(is_usb, !usb, n).len() == n,
    decreases n,
{
    if n > 0 {
        lemma_indices_with(is_usb, usb, (n - 1) as nat);
        lemma_indices_with(is_usb, !usb, (n - 1) as nat);
        let rest = indices_with(is_usb, usb, (n - 1) as nat);
        let cur = indices_with(is_usb, usb, n);
        assert forall|k: int| 0 <= k < n implies (cur.contains(k as usize) <==> is_usb[k] == usb) by {
            if k < n - 1 {
                if cur.contains(k as usize) {
                    let j = choose|j: int| 0 <= j < cur.len() && cur[j] == k as usize;
                    if j < rest.len() {
                        assert(rest[j] == k as usize);
                    }
                }
                if rest.contains(k as usize) {
                    let j = choose|j: int| 0 <= j < rest.len() && rest[j] == k as usize;
                    assert(cur[j] == k as usize);
                }
            } else {
                if is_usb[k] == usb {
                    assert(cur[cur.len() - 1] == k as usize);
                } else if cur.contains(k as usize) {
                    let j = choose|j: int| 0 <= j < cur.len() && cur[j] == k as usize;
                    assert(rest[j] < n - 1);
                }
            }
        }
        assert forall|j: int| 0 <= j < cur.len() implies #[trigger] cur[j] < n by {
            if j < rest.len() {
                assert(cur[j] == rest[j]);
            }
        }
    }
}

/// Whether port `k` is in the probing order.
pub open spec fn probed(order: Seq<usize>, k: int) -> bool {
    order.contains(k as usize)
}

/// Probing visits every listed port exactly once: the order holds each
/// index below the number of ports, and as many entries as there are ports.
pub proof fn law_probe_order_is_permutation(is_usb: Seq<bool>)
    requires
        is_usb.len() <= usize::MAX,
    ensures
        ({
            let order = indices_with(is_usb, true, is_usb.len()) + indices_with(
                is_usb,
                false,
                is_usb.len(),
            );
            &&& order.len() == is_usb.len()
            &&& forall|k: int| 0 <= k < is_usb.len() ==> #[trigger] probed(order, k)
            &&& forall|j: int| 0 <= j < order.len() ==> #[trigger] order[j] < is_usb.len()
        }),
{
    let n = is_usb.len();
    lemma_indices_with(is_usb, true, n);
    lemma_indices_with(is_usb, false, n);
    let a = indices_with(is_usb, true, n);
    let b = indices_with(is_usb, false, n);
    let order = a + b;
    assert forall|k: int| 0 <= k < n implies #[trigger] probed(order, k) by {
        if is_usb[k] {
            let j = choose|j: int| 0 <= j < a.len() && a[j] == k as usize;
            assert(order[j] == k as usize);
        } else {
            assert(b.contains(k as usize));
            let j = choose|j: int| 0 <= j < b.len() && b[j] == k as usize;
            assert(order[a.len() + j] == k as usize);
        }
    }
    assert forall|j: int| 0 <= j < order.len() implies #[trigger] order[j] < n by {
        if j < a.len() {
            assert(order[j] == a[j]);
        } else {
            assert(order[j] == b[j - a.len()]);
        }
    }
}

/// The fix-rate command for `r` Hz asks for the interval that gives `r`
/// fixes a second: the decimal after `PAIR050,` reads back as the number
/// `n` of whole milliseconds with `n * r <= 1000 < (n + 1) * r`, which is
/// what `fix_interval_ms` returns.
pub proof fn law_rate_command_interval(r: u8)
    requires
        r >= 1,
    ensures
        rate_command_body(r).take(8) == pair050_tag(),
        ({
            let digits = rate_command_body(r).skip(8);
            &&& parse_unsigned(digits, 10, 1000) is Some
            &&& parse_unsigned(digits, 10, 1000).unwrap() * r <= 1000
            &&& 1000 < (parse_unsigned(digits, 10, 1000).unwrap() + 1) * r
            &&& parse_unsigned(digits, 10, 1000).unwrap() == 1000int / (r as int)
        }),
{
    let n = (1000int / (r as int)) as nat;
    let body = rate_command_body(r);
    assert(body.take(8) =~= pair050_tag());
    assert(body.skip(8) =~= dec_digits(n));
    assert(n <= 1000) by (nonlinear_arith)
        requires
            r >= 1,
            n == 1000int / (r as int),
    ;
    lemma_parse_unsigned_dec(n, 1000);
    assert(n * r <= 1000 < (n + 1) * r) by (nonlinear_arith)
        requires
            r >= 1,
            n == 1000int / (r as int),
    ;
}

} // verus!
