use finn_guidance::channels::{FanOut, Outbox, SendOutcome};
use finn_guidance::counters::{new_shared_roll_invert, SharedDropCounters};
use finn_guidance::guidance::{drain_commands, pass_change, tick_sleep_us, PassChangeEvent, SteerCommand, Trail};
use finn_guidance::telemetry::{event_record, fix_quality_to_u8, DropCounts, SummaryCounters};
use finn_guidance::types::FixQuality;
use std::sync::atomic::Ordering;

#[test]
fn fix_quality_codes() {
    assert_eq!(fix_quality_to_u8(FixQuality::NoFix), 0);
    assert_eq!(fix_quality_to_u8(FixQuality::Gps), 1);
    assert_eq!(fix_quality_to_u8(FixQuality::Dgps), 2);
    assert_eq!(fix_quality_to_u8(FixQuality::Rtk), 3);
    assert_eq!(fix_quality_to_u8(FixQuality::RtkFloat), 4);
}

#[test]
fn event_records() {
    let e = event_record(1500, "pass_change", Some("3".to_string()));
    assert_eq!(e.record_type, "event");
    assert_eq!(e.t_ms, 1500);
    assert_eq!(e.event, "pass_change");
    assert_eq!(e.detail.as_deref(), Some("3"));
}

#[test]
fn drop_counts_default_to_zero() {
    let d = DropCounts::default();
    assert_eq!(d, DropCounts { gps_gui: 0, gps_steer: 0, mtr_gui: 0, mtr_steer: 0 });
}

#[test]
fn summary_counts_reversals_and_timing() {
    let mut s = SummaryCounters::new();
    for (us, pwm) in [(1000u64, 50i16), (3000, -20), (2000, 0), (6000, -10), (4000, 30)] {
        s.accumulate(us, pwm);
    }
    let t = s.to_summary(1000, &DropCounts { gps_gui: 1, gps_steer: 2, mtr_gui: 3, mtr_steer: 4 });
    assert_eq!(t.corrections, 2);
    assert_eq!(t.iterations, 5);
    assert_eq!(t.mean_loop_us, 3200);
    assert_eq!(t.max_loop_us, 6000);
    assert_eq!(t.t_ms, 1000);
    assert_eq!((t.gps_drops_gui, t.gps_drops_steer, t.mtr_drops_gui, t.mtr_drops_steer), (1, 2, 3, 4));
}

#[test]
fn reversal_across_windows_is_counted() {
    let mut s = SummaryCounters::new();
    s.accumulate(10, 100);
    s.reset();
    let empty = s.to_summary(0, &DropCounts::default());
    assert_eq!(empty.mean_loop_us, 0);
    assert_eq!(empty.iterations, 0);
    s.accumulate(10, -100);
    assert_eq!(s.to_summary(0, &DropCounts::default()).corrections, 1);
}

#[test]
fn shared_counters_swap_to_zero() {
    let c = SharedDropCounters::new();
    c.gps_gui.fetch_add(3, Ordering::Relaxed);
    c.mtr_steer.fetch_add(2, Ordering::Relaxed);
    let snap = c.swap_all();
    assert_eq!(snap, DropCounts { gps_gui: 3, gps_steer: 0, mtr_gui: 0, mtr_steer: 2 });
    assert_eq!(c.swap_all(), DropCounts::default());
    let f = new_shared_roll_invert(true);
    assert!(f.load(Ordering::Relaxed));
}

#[test]
fn fan_out_counts_drops_and_closures() {
    let mut f = FanOut::new();
    assert!(!f.record(SendOutcome::Sent, SendOutcome::Full));
    assert!(!f.record(SendOutcome::Disconnected, SendOutcome::Full));
    assert_eq!((f.gui_drops, f.steer_drops), (0, 2));
    assert!(f.gui_closed);
    assert_eq!(f.take_drop_report(), Some((0, 2)));
    assert_eq!(f.take_drop_report(), None);
    assert!(f.record(SendOutcome::Sent, SendOutcome::Disconnected));
}

#[test]
fn fan_out_over_real_channels() {
    let counters = SharedDropCounters::new();
    let (gui_tx, gui_rx) = crossbeam_channel::bounded::<u32>(1);
    let (steer_tx, steer_rx) = crossbeam_channel::bounded::<u32>(2);
    let mut f = FanOut::new();
    let mut gui = Outbox::new(gui_tx);
    let mut steer = Outbox::new(steer_tx);
    assert!(!f.dispatch(&mut gui, &mut steer, 1, &counters.gps_gui, &counters.gps_steer));
    assert!(!f.dispatch(&mut gui, &mut steer, 2, &counters.gps_gui, &counters.gps_steer));
    assert_eq!(gui_rx.try_recv(), Ok(1));
    assert_eq!(steer_rx.try_recv(), Ok(1));
    assert_eq!(steer_rx.try_recv(), Ok(2));
    assert_eq!(f.gui_drops, 1);
    assert_eq!(counters.swap_all().gps_gui, 1);
    drop(gui_rx);
    drop(steer_rx);
    assert!(f.dispatch(&mut gui, &mut steer, 3, &counters.gps_gui, &counters.gps_steer));
}

#[test]
fn guidance_integer_decisions() {
    assert_eq!(pass_change(2, 2), None);
    assert_eq!(pass_change(2, -1), Some(PassChangeEvent { old_pass: 2, new_pass: -1 }));
    assert_eq!(tick_sleep_us(30_000), 70_000);
    assert_eq!(tick_sleep_us(120_000), 0);
    let mut q = vec![SteerCommand::Engage, SteerCommand::Disengage];
    let taken = drain_commands(&mut q);
    assert_eq!(taken, vec![SteerCommand::Engage, SteerCommand::Disengage]);
    assert!(q.is_empty());
}

#[test]
fn trail_keeps_most_recent_points() {
    let mut t = Trail::new(3);
    for i in 0..5u32 {
        t.push(i);
    }
    assert_eq!(t.points(), &vec![2, 3, 4]);
    let mut none: Trail<u8> = Trail::new(0);
    none.push(1);
    assert!(none.points().is_empty());
}
