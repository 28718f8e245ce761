//! Counters and flags shared between the reader threads, the steering
//! thread and the GUI. Other threads change them at any time, so nothing is
//! known here of the values they hold.

use vstd::prelude::*;
use std::sync::Arc;
use std::sync::atomic::{AtomicBool, AtomicU64};
use crate::telemetry::DropCounts;

verus! {

/// Drop counters of the bounded channels: each reader thread (GPS, motor)
/// feeds two consumers (GUI, steering) and counts here each item it drops
/// because a consumer's channel is full.
#[derive(Clone)]
pub struct SharedDropCounters {
    pub gps_gui: Arc<AtomicU64>,
    pub gps_steer: Arc<AtomicU64>,
    pub mtr_gui: Arc<AtomicU64>,
    pub mtr_steer: Arc<AtomicU64>,
}

impl SharedDropCounters {
    /// A new set of counters, each starting at zero.
    pub fn new() -> (c: Self) {
        SharedDropCounters {
            gps_gui: Arc::new(AtomicU64::new(0)),
            gps_steer: Arc::new(AtomicU64::new(0)),
            mtr_gui: Arc::new(AtomicU64::new(0)),
            mtr_steer: Arc::new(AtomicU64::new(0)),
        }
    }

    /// Read and reset all four counters: each is swapped with zero and its
    /// previous value returned in the snapshot.
    pub fn swap_all(&self) -> (d: DropCounts) {
        let gps_gui = self.gps_gui.swap(0, std::sync::atomic::Ordering::Relaxed);
        let gps_steer = self.gps_steer.swap(0, std::sync::atomic::Ordering::Relaxed);
        let mtr_gui = self.mtr_gui.swap(0, std::sync::atomic::Ordering::Relaxed);
        let mtr_steer = self.mtr_steer.swap(0, std::sync::atomic::Ordering::Relaxed);
        DropCounts { gps_gui, gps_steer, mtr_gui, mtr_steer }
    }
}

/// A new shared roll-invert flag holding `initial`.
pub fn new_shared_roll_invert(initial: bool) -> (f: Arc<AtomicBool>) {
    Arc::new(AtomicBool::new(initial))
}

} // verus!
