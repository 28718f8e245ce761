//! The schedule and the safety bounds of the wheel angle sensor centre
//! learner.
//!
//! While auto-steer runs straight, the raw WAS reading is blended into a
//! learned centre that is sent down to the motor ESP32. What is decided
//! here: the window of recent heading-error samples, when an update is due
//! (the straight-running condition has held for 5 s, the window is full, and
//! 10 s have passed since the last update), the hard bounds of the learned
//! centre (the manual calibration ±100 counts), and whether a new centre
//! is sent (only when it changed).

use vstd::prelude::*;
use std::collections::VecDeque;

verus! {

/// Heading-error samples kept for the stability condition (5 s at 10 Hz).
pub const STABILITY_WINDOW: usize = 50;

/// Minimum time between centre updates, in milliseconds.
pub const UPDATE_INTERVAL_MS: u64 = 10000;

/// How long the condition must have held before an update, in milliseconds.
pub const SUSTAINED_MS: u64 = 5000;

/// Most counts the learned centre may move from the manual calibration.
pub const MAX_OFFSET_FROM_MANUAL: u16 = 100;

/// The learner's answer to one steering tick.
#[derive(Debug, Clone, Copy, PartialEq, Eq, Structural)]
pub struct LearnerOutput {
    /// A new centre to send to the ESP32, if one is due and it changed.
    pub new_centre: Option<u16>,
    /// Whether this tick met every straight-running condition.
    pub gate_passed: bool,
    /// The current learned centre.
    pub current_learned_centre: u16,
}

impl Default for LearnerOutput {
    fn default() -> (o: Self)
        ensures
            o.new_centre is None,
            !o.gate_passed,
            o.current_learned_centre == 0,
    {
        LearnerOutput { new_centre: None, gate_passed: false, current_learned_centre: 0 }
    }
}

/// Lowest centre allowed for a manual calibration: 100 counts below it,
/// but not below 0.
pub open spec fn centre_lo(manual: u16) -> int {
    if manual >= 100 {
        manual - 100
    } else {
        0
    }
}

/// Highest centre allowed for a manual calibration: 100 counts above it,
/// but not above `u16::MAX`.
pub open spec fn centre_hi(manual: u16) -> int {
    if manual <= u16::MAX - 100 {
        manual + 100
    } else {
        u16::MAX as int
    }
}

/// The bounds of the learned centre around a manual calibration.
pub fn centre_bounds(manual: u16) -> (r: (u16, u16))
    ensures
        r.0 == centre_lo(manual),
        r.1 == centre_hi(manual),
{
    let lo = if manual >= MAX_OFFSET_FROM_MANUAL {
        manual - MAX_OFFSET_FROM_MANUAL
    } else {
        0
    };
    let hi = if manual <= u16::MAX - MAX_OFFSET_FROM_MANUAL {
        manual + MAX_OFFSET_FROM_MANUAL
    } else {
        u16::MAX
    };
    (lo, hi)
}

/// `v` held within `[lo, hi]`.
pub open spec fn clamp_to(v: int, lo: int, hi: int) -> int {
    if v < lo {
        lo
    } else if v > hi {
        hi
    } else {
        v
    }
}

/// The last `n` elements of `s` (all of them when it is shorter).
pub open spec fn recent<T>(s: Seq<T>, n: nat) -> Seq<T> {
    if s.len() <= n {
        s
    } else {
        s.subrange(s.len() - n, s.len() as int)
    }
}

/// Milliseconds from `earlier` to `later`, or 0 when `later` is not later.
pub open spec fn since(later: u64, earlier: u64) -> int {
    if later >= earlier {
        later - earlier
    } else {
        0
    }
}

/// When the condition started holding, after a tick that passed it or not.
pub open spec fn next_gate_start(start: Option<u64>, gate_passed: bool, now_ms: u64) -> Option<
    u64,
> {
    if gate_passed {
        if start is None {
            Some(now_ms)
        } else {
            start
        }
    } else {
        None
    }
}

/// The learner's schedule and bounds; the heading-error samples are of
/// type `T`.
pub struct CentreLearner<T> {
    manual_centre: u16,
    last_sent_centre: u16,
    heading_window: VecDeque<T>,
    last_update_ms: u64,
    gate_pass_start_ms: Option<u64>,
}

impl<T> CentreLearner<T> {
    /// The manual three-point calibration centre.
    pub closed spec fn manual(&self) -> u16 {
        self.manual_centre
    }

    /// The centre last sent to the ESP32.
    pub closed spec fn last_sent(&self) -> u16 {
        self.last_sent_centre
    }

    /// The recent heading-error samples, oldest first.
    pub closed spec fn window(&self) -> Seq<T> {
        self.heading_window@
    }

    /// When the last update happened (or the learner was created).
    pub closed spec fn last_update(&self) -> u64 {
        self.last_update_ms
    }

    /// When the condition started holding, while it holds.
    pub closed spec fn gate_start(&self) -> Option<u64> {
        self.gate_pass_start_ms
    }

    /// The learned centre stays within its bounds and the window within
    /// its size.
    pub closed spec fn wf(&self) -> bool {
        &&& centre_lo(self.manual_centre) <= self.last_sent_centre <= centre_hi(
            self.manual_centre,
        )
        &&& self.heading_window@.len() <= STABILITY_WINDOW
    }

    /// A learner starting from the manual calibration at time `now_ms`.
    pub fn new(manual_centre: u16, now_ms: u64) -> (l: Self)
        ensures
            l.wf(),
            l.manual() == manual_centre,
            l.last_sent() == manual_centre,
            l.window() == Seq::<T>::empty(),
            l.last_update() == now_ms,
            l.gate_start() is None,
    {
        CentreLearner {
            manual_centre,
            last_sent_centre: manual_centre,
            heading_window: VecDeque::new(),
            last_update_ms: now_ms,
            gate_pass_start_ms: None,
        }
    }

    /// Take a fresh manual calibration: the learned state is wiped.
    pub fn reset_to_manual(&mut self, manual_centre: u16, now_ms: u64)
        ensures
            final(self).wf(),
            final(self).manual() == manual_centre,
            final(self).last_sent() == manual_centre,
            final(self).window() == Seq::<T>::empty(),
            final(self).last_update() == now_ms,
            final(self).gate_start() is None,
    {
        self.manual_centre = manual_centre;
        self.last_sent_centre = manual_centre;
        self.heading_window.clear();
        self.last_update_ms = now_ms;
        self.gate_pass_start_ms = None;
    }

    /// Add a heading-error sample; the window keeps the most recent ones.
    pub fn push_sample(&mut self, sample: T)
        requires
            old(self).wf(),
        ensures
            final(self).wf(),
            final(self).window() == recent(old(self).window().push(sample), STABILITY_WINDOW as nat),
            final(self).manual() == old(self).manual(),
            final(self).last_sent() == old(self).last_sent(),
            final(self).last_update() == old(self).last_update(),
            final(self).gate_start() == old(self).gate_start(),
    {
        let ghost pushed = self.heading_window@.push(sample);
        self.heading_window.push_back(sample);
        while self.heading_window.len() > STABILITY_WINDOW
            invariant
                self.heading_window@.len() <= pushed.len(),
                self.heading_window@.len() >= (if pushed.len() <= STABILITY_WINDOW {
                    pushed.len() as int
                } else {
                    STABILITY_WINDOW as int
                }),
                self.heading_window@ == pushed.subrange(
                    pushed.len() - self.heading_window@.len(),
                    pushed.len() as int,
                ),
                centre_lo(self.manual_centre) <= self.last_sent_centre <= centre_hi(
                    self.manual_centre,
                ),
                self.manual_centre == old(self).manual_centre,
                self.last_sent_centre == old(self).last_sent_centre,
                self.last_update_ms == old(self).last_update_ms,
                self.gate_pass_start_ms == old(self).gate_pass_start_ms,
            decreases self.heading_window@.len(),
        {
            self.heading_window.pop_front();
        }
        assert(pushed.len() <= STABILITY_WINDOW ==> pushed.subrange(0, pushed.len() as int)
            =~= pushed);
    }

    /// The recent heading-error samples, oldest first.
    pub fn samples(&self) -> (r: &VecDeque<T>)
        ensures
            r@ == self.window(),
    {
        &self.heading_window
    }

    /// Whether the window holds a full 5 s of samples.
    pub fn window_full(&self) -> (r: bool)
        ensures
            r == (self.window().len() >= STABILITY_WINDOW),
    {
        self.heading_window.len() >= STABILITY_WINDOW
    }

    /// Record whether this tick at `now_ms` passed the straight-running
    /// condition. Returns whether a centre update is due: the condition holds, has
    /// held for 5 s, the window is full, and 10 s have passed since the
    /// last update (which then counts from now).
    pub fn observe_gate(&mut self, gate_passed: bool, now_ms: u64) -> (due: bool)
        ensures
            final(self).gate_start() == next_gate_start(old(self).gate_start(), gate_passed, now_ms),
            due == update_due(
                old(self).gate_start(),
                old(self).window().len(),
                old(self).last_update(),
                gate_passed,
                now_ms,
            ),
            final(self).last_update() == (if due {
                now_ms
            } else {
                old(self).last_update()
            }),
            final(self).manual() == old(self).manual(),
            final(self).last_sent() == old(self).last_sent(),
            final(self).window() == old(self).window(),
            old(self).wf() ==> final(self).wf(),
    {
        if gate_passed {
            if self.gate_pass_start_ms.is_none() {
                self.gate_pass_start_ms = Some(now_ms);
            }
        } else {
            self.gate_pass_start_ms = None;
        }
        let sustained = match self.gate_pass_start_ms {
            Some(s) => now_ms.saturating_sub(s) >= SUSTAINED_MS,
            None => false,
        };
        let due = gate_passed && sustained && self.heading_window.len() >= STABILITY_WINDOW
            && now_ms.saturating_sub(self.last_update_ms) >= UPDATE_INTERVAL_MS;
        if due {
            self.last_update_ms = now_ms;
        }
        due
    }

    /// The output of a tick whose update was due, with the blended centre
    /// rounded to `rounded`: the centre is held within the bounds around
    /// the manual calibration, and sent only when it differs from the last
    /// one sent.
    pub fn commit(&mut self, gate_passed: bool, rounded: u16) -> (out: LearnerOutput)
        requires
            old(self).wf(),
        ensures
            final(self).wf(),
            out.current_learned_centre == clamp_to(
                rounded as int,
                centre_lo(old(self).manual()),
                centre_hi(old(self).manual()),
            ),
            out.gate_passed == gate_passed,
            out.new_centre == (if out.current_learned_centre != old(self).last_sent() {
                Some(out.current_learned_centre)
            } else {
                None
            }),
            final(self).last_sent() == out.current_learned_centre,
            final(self).manual() == old(self).manual(),
            final(self).window() == old(self).window(),
            final(self).last_update() == old(self).last_update(),
            final(self).gate_start() == old(self).gate_start(),
    {
        let (lo, hi) = centre_bounds(self.manual_centre);
        let c = if rounded < lo {
            lo
        } else if rounded > hi {
            hi
        } else {
            rounded
        };
        let mut out = LearnerOutput {
            new_centre: None,
            gate_passed,
            current_learned_centre: c,
        };
        if c != self.last_sent_centre {
            self.last_sent_centre = c;
            out.new_centre = Some(c);
        }
        out
    }

    /// The manual calibration centre.
    pub fn manual_centre(&self) -> (r: u16)
        ensures
            r == self.manual(),
    {
        self.manual_centre
    }
}

/// The learned centre never leaves the manual calibration ±100 counts,
/// whatever the WAS reads: any centre a learner holds is within bounds.
pub proof fn law_centre_within_bounds<T>(l: CentreLearner<T>)
    requires
        l.wf(),
    ensures
        l.manual() >= 100 ==> l.last_sent() >= l.manual() - 100,
        l.last_sent() <= l.manual() + 100,
        centre_lo(l.manual()) <= l.last_sent() <= centre_hi(l.manual()),
{
}

/// Whether a tick at `now_ms` that did (`passed`) or did not meet the
/// straight-running condition makes a centre update due, for a learner
/// whose condition started holding at `start`, whose window holds
/// `window_len` samples, and whose last update was at `last_update`: the
/// condition holds and has held for 5 s, the window is full, and 10 s have
/// passed since the last update.
pub open spec fn update_due(
    start: Option<u64>,
    window_len: nat,
    last_update: u64,
    passed: bool,
    now_ms: u64,
) -> bool {
    &&& passed
    &&& match next_gate_start(start, passed, now_ms) {
        Some(s) => since(now_ms, s) >= SUSTAINED_MS,
        None => false,
    }
    &&& window_len >= STABILITY_WINDOW
    &&& since(now_ms, last_update) >= UPDATE_INTERVAL_MS
}

/// Centre updates are at least 10 s apart, and none comes within 10 s of
/// the learner's creation or reset: an update is due only 10 s or more
/// after the last update time, which `new` and `reset_to_manual` set to
/// their own time and each due tick sets to its time; and a tick on which
/// the condition only starts holding is never due.
pub proof fn law_updates_ten_seconds_apart(
    start: Option<u64>,
    window_len: nat,
    last_update: u64,
    passed: bool,
    now_ms: u64,
)
    ensures
        update_due(start, window_len, last_update, passed, now_ms) ==> now_ms >= last_update
            + UPDATE_INTERVAL_MS,
        start is None ==> !update_due(start, window_len, last_update, passed, now_ms),
{
}

} // verus!
