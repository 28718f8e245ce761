//! Integer decisions of the guidance loop: the commands the GUI queues for
//! the steering thread, auto-pass change events, the fixed 10 Hz tick, and
//! the bounded trail of recent positions.

use vstd::prelude::*;

verus! {

/// Period of the steering loop in microseconds (10 Hz, the GPS fix rate).
pub const STEER_LOOP_INTERVAL_US: u64 = 100000;

/// Commands from the GUI to the steering thread.
#[derive(Debug, Clone, Copy, PartialEq, Eq, Structural)]
pub enum SteerCommand {
    Engage,
    Disengage,
}

/// Take the queued commands, oldest first, leaving the queue empty.
pub fn drain_commands(queue: &mut Vec<SteerCommand>) -> (taken: Vec<SteerCommand>)
    ensures
        taken@ == old(queue)@,
        final(queue)@ == Seq::<SteerCommand>::empty(),
{
    let mut taken: Vec<SteerCommand> = Vec::new();
    std::mem::swap(&mut taken, queue);
    taken
}

/// Event emitted when auto-pass moves to another pass.
#[derive(Debug, Clone, Copy, PartialEq, Eq, Structural)]
pub struct PassChangeEvent {
    pub old_pass: i32,
    pub new_pass: i32,
}

/// The event of snapping from `old_pass` to the nearest pass `new_pass`:
/// none when the nearest pass is the current one.
pub fn pass_change(old_pass: i32, new_pass: i32) -> (e: Option<PassChangeEvent>)
    ensures
        new_pass == old_pass ==> e is None,
        new_pass != old_pass ==> e == Some(PassChangeEvent { old_pass, new_pass }),
{
    if new_pass == old_pass {
        None
    } else {
        Some(PassChangeEvent { old_pass, new_pass })
    }
}

/// How long the steering thread sleeps after an iteration that took
/// `elapsed_us`: the rest of the 100 ms period, or nothing when the
/// iteration overran it.
pub fn tick_sleep_us(elapsed_us: u64) -> (s: u64)
    ensures
        elapsed_us < STEER_LOOP_INTERVAL_US ==> s == STEER_LOOP_INTERVAL_US - elapsed_us,
        elapsed_us >= STEER_LOOP_INTERVAL_US ==> s == 0,
{
    if elapsed_us < STEER_LOOP_INTERVAL_US {
        STEER_LOOP_INTERVAL_US - elapsed_us
    } else {
        0
    }
}

/// The last `n` elements of `s` (all of them when it is shorter).
pub open spec fn last_n<T>(s: Seq<T>, n: nat) -> Seq<T> {
    if s.len() <= n {
        s
    } else {
        s.subrange(s.len() - n, s.len() as int)
    }
}

/// The trail of recent positions, holding at most `max_points`; the
/// oldest point is dropped when a new one would exceed the limit.
pub struct Trail<T> {
    points: Vec<T>,
    max_points: usize,
}

impl<T> Trail<T> {
    /// The points of the trail, oldest first.
    pub closed spec fn points_view(&self) -> Seq<T> {
        self.points@
    }

    /// The most points the trail keeps.
    pub closed spec fn limit(&self) -> nat {
        self.max_points as nat
    }

    /// The trail never holds more than its limit.
    pub closed spec fn wf(&self) -> bool {
        self.points@.len() <= self.max_points
    }

    /// An empty trail keeping at most `max_points`.
    pub fn new(max_points: usize) -> (t: Self)
        ensures
            t.wf(),
            t.points_view() == Seq::<T>::empty(),
            t.limit() == max_points,
    {
        Trail { points: Vec::new(), max_points }
    }

    /// Add a point at the end; the oldest is dropped beyond the limit.
    pub fn push(&mut self, p: T)
        requires
            old(self).wf(),
        ensures
            final(self).wf(),
            final(self).limit() == old(self).limit(),
            final(self).points_view() == last_n(old(self).points_view().push(p), old(self).limit()),
    {
        let ghost pushed = self.points@.push(p);
        self.points.push(p);
        if self.points.len() > self.max_points {
            self.points.remove(0);
            assert(self.points@ =~= pushed.subrange(pushed.len() - self.max_points, pushed.len() as int));
        }
    }

    /// The points of the trail, oldest first.
    pub fn points(&self) -> (r: &Vec<T>)
        ensures
            r@ == self.points_view(),
    {
        &self.points
    }
}

} // verus!
