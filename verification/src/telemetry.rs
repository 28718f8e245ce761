//! The integer side of steering telemetry: fix-quality codes, event
//! records, channel drop counts, and the per-second summary of the control
//! loop's timing and steering reversals.

use vstd::prelude::*;
use crate::types::FixQuality;

verus! {

/// The numeric log code of a fix quality: 0 = no fix, 1 = GPS, 2 = DGPS,
/// 3 = RTK, 4 = RTK float.
pub open spec fn fix_quality_code(q: FixQuality) -> u8 {
    match q {
        FixQuality::NoFix => 0,
        FixQuality::Gps => 1,
        FixQuality::Dgps => 2,
        FixQuality::Rtk => 3,
        FixQuality::RtkFloat => 4,
    }
}

/// Convert a fix quality to its numeric code for the log.
pub fn fix_quality_to_u8(q: FixQuality) -> (c: u8)
    ensures
        c == fix_quality_code(q),
{
    match q {
        FixQuality::NoFix => 0,
        FixQuality::Gps => 1,
        FixQuality::Dgps => 2,
        FixQuality::Rtk => 3,
        FixQuality::RtkFloat => 4,
    }
}

/// Distinct fix qualities get distinct codes, and every code is below 5.
pub proof fn law_fix_quality_code_injective(a: FixQuality, b: FixQuality)
    ensures
        fix_quality_code(a) < 5,
        fix_quality_code(a) == fix_quality_code(b) <==> a == b,
{
}

/// A discrete event of a steering run (engage, disengage, pass change).
#[derive(Debug)]
pub struct EventRecord {
    /// Record type discriminator: always `event`.
    pub record_type: &'static str,
    /// Milliseconds since the run started.
    pub t_ms: u64,
    /// Event name, such as `engage`, `disengage` or `pass_change`.
    pub event: String,
    /// Optional detail, such as a disengage reason or the new pass number.
    pub detail: Option<String>,
}

/// The record of an event `t_ms` milliseconds into the run.
pub fn event_record(t_ms: u64, event: &str, detail: Option<String>) -> (r: EventRecord)
    ensures
        r.record_type@ == "event"@,
        r.t_ms == t_ms,
        r.event@ == event@,
        r.detail == detail,
{
    EventRecord { record_type: "event", t_ms, event: event.to_owned(), detail }
}

/// Channel drop counts of one summary window.
#[derive(Debug, Clone, Copy, PartialEq, Eq, Structural)]
pub struct DropCounts {
    pub gps_gui: u64,
    pub gps_steer: u64,
    pub mtr_gui: u64,
    pub mtr_steer: u64,
}

impl Default for DropCounts {
    fn default() -> (d: Self)
        ensures
            d.gps_gui == 0,
            d.gps_steer == 0,
            d.mtr_gui == 0,
            d.mtr_steer == 0,
    {
        DropCounts { gps_gui: 0, gps_steer: 0, mtr_gui: 0, mtr_steer: 0 }
    }
}

/// The sign of a PWM output: 1, -1 or 0.
pub open spec fn pwm_sign(pwm: i16) -> i8 {
    if pwm > 0 {
        1i8
    } else if pwm < 0 {
        -1i8
    } else {
        0i8
    }
}

/// Whether a sample of sign `sign` reverses the direction last driven.
pub open spec fn is_reversal(last_sign: i8, sign: i8) -> bool {
    sign != 0 && last_sign != 0 && sign != last_sign
}

/// The direction last driven after a sample of sign `sign`.
pub open spec fn next_sign(last_sign: i8, sign: i8) -> i8 {
    if sign != 0 {
        sign
    } else {
        last_sign
    }
}

/// Number of direction reversals in a run of PWM outputs, starting from
/// the direction `last_sign` driven before it.
pub open spec fn reversals(last_sign: i8, pwms: Seq<i16>) -> nat
    decreases pwms.len(),
{
    if pwms.len() == 0 {
        0
    } else {
        let s = pwm_sign(pwms[0]);
        (if is_reversal(last_sign, s) { 1nat } else { 0nat }) + reversals(
            next_sign(last_sign, s),
            pwms.drop_first(),
        )
    }
}

/// The direction driven at the end of a run of PWM outputs.
pub open spec fn final_sign(last_sign: i8, pwms: Seq<i16>) -> i8
    decreases pwms.len(),
{
    if pwms.len() == 0 {
        last_sign
    } else {
        final_sign(next_sign(last_sign, pwm_sign(pwms[0])), pwms.drop_first())
    }
}

/// Reversals counted window by window add up to those of the whole run:
/// the count of a run split in two is the count of the first part plus the
/// count of the second, started from the direction the first part ended on
/// (which `SummaryCounters::reset` keeps). No run has more reversals than
/// samples.
pub proof fn law_reversals_split(last_sign: i8, a: Seq<i16>, b: Seq<i16>)
    ensures
        reversals(last_sign, a + b) == reversals(last_sign, a) + reversals(
            final_sign(last_sign, a),
            b,
        ),
        final_sign(last_sign, a + b) == final_sign(final_sign(last_sign, a), b),
        reversals(last_sign, a) <= a.len(),
    decreases a.len(),
{
    if a.len() == 0 {
        assert(a + b =~= b);
    } else {
        let s = pwm_sign(a[0]);
        assert((a + b).drop_first() =~= a.drop_first() + b);
        assert((a + b)[0] == a[0]);
        law_reversals_split(next_sign(last_sign, s), a.drop_first(), b);
    }
}

/// Integer totals of a summary window.
#[derive(Debug, Clone, Copy, PartialEq, Eq, Structural)]
pub struct SummaryTotals {
    /// Milliseconds since the run started.
    pub t_ms: u64,
    /// Direction reversals of the PWM output in the window.
    pub corrections: u32,
    /// Mean loop duration in microseconds (0 for an empty window).
    pub mean_loop_us: u64,
    /// Longest loop duration in microseconds.
    pub max_loop_us: u64,
    /// Loop iterations in the window.
    pub iterations: u32,
    pub gps_drops_gui: u64,
    pub gps_drops_steer: u64,
    pub mtr_drops_gui: u64,
    pub mtr_drops_steer: u64,
}

/// Per-window accumulation of loop timing and PWM direction reversals.
#[derive(Debug)]
pub struct SummaryCounters {
    loop_us_sum: u64,
    loop_us_max: u64,
    corrections: u32,
    last_pwm_sign: i8,
    iterations: u32,
}

impl SummaryCounters {
    /// Sum of the loop durations of the window.
    pub closed spec fn loop_sum(&self) -> nat {
        self.loop_us_sum as nat
    }

    /// Longest loop duration of the window.
    pub closed spec fn loop_max(&self) -> nat {
        self.loop_us_max as nat
    }

    /// Direction reversals counted in the window.
    pub closed spec fn reversal_count(&self) -> nat {
        self.corrections as nat
    }

    /// Direction last driven, carried across windows.
    pub closed spec fn last_sign(&self) -> i8 {
        self.last_pwm_sign
    }

    /// Iterations of the window.
    pub closed spec fn count(&self) -> nat {
        self.iterations as nat
    }

    /// Internal consistency: a reversal needs an iteration, and the last
    /// sign is a sign.
    pub closed spec fn wf(&self) -> bool {
        &&& self.corrections <= self.iterations
        &&& -1 <= self.last_pwm_sign <= 1
    }

    /// An empty window that has never seen a PWM output.
    pub fn new() -> (s: Self)
        ensures
            s.wf(),
            s.loop_sum() == 0,
            s.loop_max() == 0,
            s.reversal_count() == 0,
            s.last_sign() == 0,
            s.count() == 0,
    {
        SummaryCounters {
            loop_us_sum: 0,
            loop_us_max: 0,
            corrections: 0,
            last_pwm_sign: 0,
            iterations: 0,
        }
    }

    /// Account one loop iteration of duration `loop_us` that output `pwm`.
    pub fn accumulate(&mut self, loop_us: u64, pwm: i16)
        requires
            old(self).wf(),
            old(self).count() < u32::MAX,
            old(self).loop_sum() + loop_us <= u64::MAX,
        ensures
            final(self).wf(),
            final(self).count() == old(self).count() + 1,
            final(self).loop_sum() == old(self).loop_sum() + loop_us,
            final(self).loop_max() == (if loop_us > old(self).loop_max() {
                loop_us as nat
            } else {
                old(self).loop_max()
            }),
            final(self).reversal_count() == old(self).reversal_count() + (if is_reversal(
                old(self).last_sign(),
                pwm_sign(pwm),
            ) {
                1nat
            } else {
                0nat
            }),
            final(self).last_sign() == next_sign(old(self).last_sign(), pwm_sign(pwm)),
    {
        self.iterations = self.iterations + 1;
        self.loop_us_sum = self.loop_us_sum + loop_us;
        if loop_us > self.loop_us_max {
            self.loop_us_max = loop_us;
        }
        let sign: i8 = if pwm > 0 {
            1
        } else if pwm < 0 {
            -1
        } else {
            0
        };
        if sign != 0 && self.last_pwm_sign != 0 && sign != self.last_pwm_sign {
            self.corrections = self.corrections + 1;
        }
        if sign != 0 {
            self.last_pwm_sign = sign;
        }
    }

    /// The window's totals, stamped `t_ms`, with the window's drop counts.
    pub fn to_summary(&self, t_ms: u64, drops: &DropCounts) -> (r: SummaryTotals)
        requires
            self.wf(),
        ensures
            r.t_ms == t_ms,
            r.corrections == self.reversal_count(),
            r.mean_loop_us == (if self.count() > 0 {
                self.loop_sum() / self.count()
            } else {
                0
            }),
            r.max_loop_us == self.loop_max(),
            r.iterations == self.count(),
            r.gps_drops_gui == drops.gps_gui,
            r.gps_drops_steer == drops.gps_steer,
            r.mtr_drops_gui == drops.mtr_gui,
            r.mtr_drops_steer == drops.mtr_steer,
    {
        let mean: u64 = if self.iterations > 0 {
            self.loop_us_sum / (self.iterations as u64)
        } else {
            0
        };
        SummaryTotals {
            t_ms,
            corrections: self.corrections,
            mean_loop_us: mean,
            max_loop_us: self.loop_us_max,
            iterations: self.iterations,
            gps_drops_gui: drops.gps_gui,
            gps_drops_steer: drops.gps_steer,
            mtr_drops_gui: drops.mtr_gui,
            mtr_drops_steer: drops.mtr_steer,
        }
    }

    /// Iterations of the window.
    pub fn iterations(&self) -> (r: u32)
        ensures
            r == self.count(),
    {
        self.iterations
    }

    /// Sum of the loop durations of the window.
    pub fn loop_us_total(&self) -> (r: u64)
        ensures
            r == self.loop_sum(),
    {
        self.loop_us_sum
    }

    /// Start a new window. The direction last driven is kept, so the
    /// first iteration of the next window still detects a reversal.
    pub fn reset(&mut self)
        requires
            old(self).wf(),
        ensures
            final(self).wf(),
            final(self).loop_sum() == 0,
            final(self).loop_max() == 0,
            final(self).reversal_count() == 0,
            final(self).count() == 0,
            final(self).last_sign() == old(self).last_sign(),
    {
        let last = self.last_pwm_sign;
        *self = SummaryCounters::new();
        self.last_pwm_sign = last;
    }
}

/// A sample that drives the motor in neither direction is no reversal and
/// keeps the direction last driven: removing zero-PWM samples from a run
/// changes neither its reversal count nor the direction it ends on. And
/// two samples of opposite direction in a row always count a reversal.
pub proof fn law_zero_pwm_keeps_direction(last_sign: i8, a: Seq<i16>, b: Seq<i16>, p: i16, q: i16)
    ensures
        reversals(last_sign, a + seq![0i16] + b) == reversals(last_sign, a + b),
        final_sign(last_sign, a + seq![0i16] + b) == final_sign(last_sign, a + b),
        (p > 0 && q < 0) || (p < 0 && q > 0) ==> reversals(last_sign, a + seq![p, q] + b) >= 1
            + reversals(last_sign, a),
{
    law_reversals_split(last_sign, a, seq![0i16] + b);
    law_reversals_split(last_sign, a, b);
    law_reversals_split(last_sign, a, seq![p, q] + b);
    assert(a + seq![0i16] + b =~= a + (seq![0i16] + b));
    assert(a + seq![p, q] + b =~= a + (seq![p, q] + b));
    let t = final_sign(last_sign, a);
    assert((seq![0i16] + b).drop_first() =~= b);
    assert(pwm_sign(0i16) == 0);
    assert(next_sign(t, 0) == t);
    let pq = seq![p, q] + b;
    assert(pq[0] == p);
    assert(pq.drop_first()[0] == q);
    let t1 = next_sign(t, pwm_sign(p));
    assert(reversals(t1, pq.drop_first()) >= (if is_reversal(t1, pwm_sign(q)) { 1nat } else { 0nat }));
}

} // verus!
