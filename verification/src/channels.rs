//! Drop-on-full delivery of reader-thread items to their two consumers.
//!
//! A reader thread (GPS or motor) hands each item to the GUI and to the
//! steering thread over bounded channels without ever blocking: when a
//! channel is full the item is dropped and counted, when a channel is
//! disconnected it is marked closed, and the reader stops once both are.

use vstd::prelude::*;
use vstd::pervasive::cloned;
use std::sync::atomic::AtomicU64;
use crossbeam_channel::{Sender, TrySendError};

verus! {

/// `crossbeam_channel::Sender`, the sending half of a channel.
#[verifier::external_type_specification]
#[verifier::external_body]
#[verifier::reject_recursive_types(T)]
pub struct ExSender<T>(Sender<T>);

/// What became of an attempt to send without blocking.
#[derive(Debug, Clone, Copy, PartialEq, Eq, Structural)]
pub enum SendOutcome {
    /// The item is in the channel.
    Sent,
    /// The channel was full; the item was dropped.
    Full,
    /// Every receiver is gone; the item was dropped.
    Disconnected,
}

/// The sending half of a channel, with a record of every item offered to
/// the channel through it and of those the channel accepted.
#[verifier::reject_recursive_types(T)]
pub struct Outbox<T> {
    tx: Sender<T>,
    offers: Ghost<Seq<T>>,
    accepted: Ghost<Seq<T>>,
}

impl<T> Outbox<T> {
    /// The items offered to this channel, oldest first.
    pub closed spec fn offers(&self) -> Seq<T> {
        self.offers@
    }

    /// The items this channel accepted, oldest first.
    pub closed spec fn accepted(&self) -> Seq<T> {
        self.accepted@
    }

    /// An outbox over `tx` that has offered nothing yet.
    pub fn new(tx: Sender<T>) -> (o: Self)
        ensures
            o.offers() == Seq::<T>::empty(),
            o.accepted() == Seq::<T>::empty(),
    {
        Outbox { tx, offers: Ghost(Seq::empty()), accepted: Ghost(Seq::empty()) }
    }

    /// `crossbeam_channel::Sender::try_send`: send `item` if the channel
    /// has room, without blocking. Which outcome comes back depends on the
    /// other threads, so that is left open; claimed is that the item was
    /// offered once, and what crossbeam documents of the outcome: `Ok` means
    /// the item is now in the channel, and an error hands the item back
    /// unsent.
    #[verifier::external_body]
    fn offer(&mut self, item: T) -> (r: SendOutcome)
        ensures
            final(self).offers() == old(self).offers().push(item),
            r == SendOutcome::Sent ==> final(self).accepted() == old(self).accepted().push(item),
            r != SendOutcome::Sent ==> final(self).accepted() == old(self).accepted(),
    {
        match self.tx.try_send(item) {
            Ok(()) => SendOutcome::Sent,
            Err(TrySendError::Full(_)) => SendOutcome::Full,
            Err(TrySendError::Disconnected(_)) => SendOutcome::Disconnected,
        }
    }
}

/// How an outbox changes when `item` is offered once with outcome `o`:
/// the item joins the offers, and also the accepted items when sent.
pub open spec fn offered<T>(before: Outbox<T>, after: Outbox<T>, item: T, o: SendOutcome) -> bool {
    &&& after.offers() == before.offers().push(item)
    &&& if o == SendOutcome::Sent {
        after.accepted() == before.accepted().push(item)
    } else {
        after.accepted() == before.accepted()
    }
}

/// How an outbox changes when a clone of `item` is offered once with
/// outcome `o`.
pub open spec fn offered_copy<T: Clone>(
    before: Outbox<T>,
    after: Outbox<T>,
    item: T,
    o: SendOutcome,
) -> bool {
    exists|copy: T| cloned(item, copy) && #[trigger] offered(before, after, copy, o)
}

/// Delivery state of one reader thread: which consumers are gone, and the
/// items dropped for each since the last drop report.
#[derive(Debug, Clone, Copy, PartialEq, Eq, Structural)]
pub struct FanOut {
    pub gui_closed: bool,
    pub steer_closed: bool,
    pub gui_drops: u64,
    pub steer_drops: u64,
}

/// One count more when the outcome is a full channel.
pub open spec fn count_full(n: u64, o: SendOutcome) -> u64 {
    if o == SendOutcome::Full {
        (n + 1) as u64
    } else {
        n
    }
}

/// The delivery state after one item went to the GUI with outcome `gui`
/// and to the steering thread with outcome `steer`.
pub open spec fn fan_out_step(f: FanOut, gui: SendOutcome, steer: SendOutcome) -> FanOut {
    FanOut {
        gui_closed: f.gui_closed || gui == SendOutcome::Disconnected,
        steer_closed: f.steer_closed || steer == SendOutcome::Disconnected,
        gui_drops: count_full(f.gui_drops, gui),
        steer_drops: count_full(f.steer_drops, steer),
    }
}

/// A consumer once seen disconnected stays closed, each item adds at most
/// one drop per consumer, and a delivery that reaches both consumers
/// changes nothing.
pub proof fn law_fan_out_step(f: FanOut, gui: SendOutcome, steer: SendOutcome)
    requires
        f.gui_drops < u64::MAX,
        f.steer_drops < u64::MAX,
    ensures
        f.gui_closed ==> fan_out_step(f, gui, steer).gui_closed,
        f.steer_closed ==> fan_out_step(f, gui, steer).steer_closed,
        f.gui_drops <= fan_out_step(f, gui, steer).gui_drops <= f.gui_drops + 1,
        f.steer_drops <= fan_out_step(f, gui, steer).steer_drops <= f.steer_drops + 1,
        (gui == SendOutcome::Sent && steer == SendOutcome::Sent) ==> fan_out_step(f, gui, steer)
            == f,
{
}

impl FanOut {
    /// Both consumers connected, nothing dropped.
    pub fn new() -> (f: Self)
        ensures
            !f.gui_closed,
            !f.steer_closed,
            f.gui_drops == 0,
            f.steer_drops == 0,
    {
        FanOut { gui_closed: false, steer_closed: false, gui_drops: 0, steer_drops: 0 }
    }

    /// Account the outcomes of delivering one item; returns whether the
    /// reader should stop because both consumers are gone.
    pub fn record(&mut self, gui: SendOutcome, steer: SendOutcome) -> (stop: bool)
        requires
            old(self).gui_drops < u64::MAX,
            old(self).steer_drops < u64::MAX,
        ensures
            *final(self) == fan_out_step(*old(self), gui, steer),
            stop == (final(self).gui_closed && final(self).steer_closed),
    {
        match gui {
            SendOutcome::Sent => {},
            SendOutcome::Full => {
                self.gui_drops = self.gui_drops + 1;
            },
            SendOutcome::Disconnected => {
                self.gui_closed = true;
            },
        }
        match steer {
            SendOutcome::Sent => {},
            SendOutcome::Full => {
                self.steer_drops = self.steer_drops + 1;
            },
            SendOutcome::Disconnected => {
                self.steer_closed = true;
            },
        }
        self.gui_closed && self.steer_closed
    }

    /// Hand `item` to the GUI (a copy) and to the steering thread without
    /// blocking, bump the shared drop counter of each consumer whose
    /// channel was full, and account the outcomes; returns whether the
    /// reader should stop because both consumers are gone.
    pub fn dispatch<T: Clone>(
        &mut self,
        gui: &mut Outbox<T>,
        steer: &mut Outbox<T>,
        item: T,
        gui_counter: &AtomicU64,
        steer_counter: &AtomicU64,
    ) -> (stop: bool)
        requires
            old(self).gui_drops < u64::MAX,
            old(self).steer_drops < u64::MAX,
        ensures
            exists|g: SendOutcome, s: SendOutcome|
                *final(self) == #[trigger] fan_out_step(*old(self), g, s) && offered_copy(
                    *old(gui),
                    *final(gui),
                    item,
                    g,
                ) && offered(*old(steer), *final(steer), item, s),
            stop == (final(self).gui_closed && final(self).steer_closed),
    {
        let copy = item.clone();
        let ghost original = item;
        let ghost c = copy;
        assert(cloned(original, c));
        let g = gui.offer(copy);
        if g == SendOutcome::Full {
            gui_counter.fetch_add(1, std::sync::atomic::Ordering::Relaxed);
        }
        let s = steer.offer(item);
        if s == SendOutcome::Full {
            steer_counter.fetch_add(1, std::sync::atomic::Ordering::Relaxed);
        }
        let stop = self.record(g, s);
        assert(offered(*old(gui), *gui, c, g));
        stop
    }

    /// The drops since the last report, if there were any; they are then
    /// cleared. With none, nothing changes.
    pub fn take_drop_report(&mut self) -> (r: Option<(u64, u64)>)
        ensures
            (old(self).gui_drops > 0 || old(self).steer_drops > 0) ==> r == Some(
                (old(self).gui_drops, old(self).steer_drops),
            ) && final(self).gui_drops == 0 && final(self).steer_drops == 0,
            !(old(self).gui_drops > 0 || old(self).steer_drops > 0) ==> r is None
                && final(self).gui_drops == old(self).gui_drops
                && final(self).steer_drops == old(self).steer_drops,
            final(self).gui_closed == old(self).gui_closed,
            final(self).steer_closed == old(self).steer_closed,
    {
        if self.gui_drops > 0 || self.steer_drops > 0 {
            let r = (self.gui_drops, self.steer_drops);
            self.gui_drops = 0;
            self.steer_drops = 0;
            Some(r)
        } else {
            None
        }
    }
}

} // verus!
