use finn_guidance::was_learner::{
    centre_bounds, CentreLearner, LearnerOutput, MAX_OFFSET_FROM_MANUAL, STABILITY_WINDOW,
};

// The floating-point half of the learner (the blend and the condition thresholds),
// driving the verified schedule and bounds. Each update absorbs a tenth of the
// remaining difference, so a step change is absorbed in about 30 updates.
const BLEND_ALPHA: f64 = 0.1;

struct Learner {
    core: CentreLearner<f64>,
    learned: f64,
}

struct Tick {
    xte_m: f64,
    heading_error_deg: f64,
    speed_mps: f64,
    desired_angle_deg: f64,
    was_raw: u16,
    now_ms: u64,
}

fn straight_tick(was_raw: u16, now_ms: u64) -> Tick {
    Tick { xte_m: 0.0, heading_error_deg: 0.0, speed_mps: 2.0, desired_angle_deg: 0.0, was_raw, now_ms }
}

impl Learner {
    fn new(manual: u16, now_ms: u64) -> Self {
        Learner { core: CentreLearner::new(manual, now_ms), learned: manual as f64 }
    }

    fn current_centre(&self) -> u16 {
        self.learned.round() as u16
    }

    fn reset_to_manual(&mut self, manual: u16, now_ms: u64) {
        self.core.reset_to_manual(manual, now_ms);
        self.learned = manual as f64;
    }

    fn straight(&self, t: &Tick, xte_rate: f64) -> bool {
        if t.speed_mps < 1.0 || t.heading_error_deg.abs() > 1.5 || t.xte_m.abs() > 0.30 {
            return false;
        }
        if xte_rate.abs() > 0.05 || t.desired_angle_deg.abs() > 0.5 {
            return false;
        }
        if !self.core.window_full() {
            return false;
        }
        let w = self.core.samples();
        let n = w.len() as f64;
        let mean: f64 = w.iter().sum::<f64>() / n;
        let var: f64 = w.iter().map(|x| (x - mean).powi(2)).sum::<f64>() / n;
        var.sqrt() <= 0.30
    }

    fn tick(&mut self, t: &Tick, xte_rate: f64) -> LearnerOutput {
        self.core.push_sample(t.heading_error_deg);
        let straight = self.straight(t, xte_rate);
        let due = self.core.observe_gate(straight, t.now_ms);
        if !due {
            return LearnerOutput { new_centre: None, gate_passed: straight, current_learned_centre: self.current_centre() };
        }
        let (lo, hi) = centre_bounds(self.core.manual_centre());
        let blended = self.learned + BLEND_ALPHA * (t.was_raw as f64 - self.learned);
        self.learned = blended.clamp(lo as f64, hi as f64);
        self.core.commit(straight, self.learned.round() as u16)
    }
}

#[test]
fn starts_at_manual_centre() {
    let l = Learner::new(1832, 0);
    assert_eq!(l.current_centre(), 1832);
}

#[test]
fn no_update_below_speed_gate() {
    let mut l = Learner::new(1832, 0);
    for i in 0..STABILITY_WINDOW + 10 {
        let mut t = straight_tick(1900, (i as u64) * 100);
        t.speed_mps = 0.0;
        let out = l.tick(&t, 0.0);
        assert!(!out.gate_passed, "condition must fail when stationary");
        assert!(out.new_centre.is_none());
    }
    assert_eq!(l.current_centre(), 1832);
}

#[test]
fn learns_drift_over_time() {
    let mut l = Learner::new(1832, 0);
    let drifted_raw = 1882u16;
    let mut last_seen_centre = 1832u16;
    for i in 0..(60 * 6 * 10) {
        let t = straight_tick(drifted_raw, (i as u64) * 100);
        let out = l.tick(&t, 0.0);
        if let Some(c) = out.new_centre {
            last_seen_centre = c;
        }
    }
    let drift = last_seen_centre as i32 - 1832;
    assert!(drift >= 30, "expected significant drift learning, got {}", drift);
    assert!(drift <= 50, "learned centre should not overshoot the WAS reading, got {}", drift);
}

#[test]
fn clamps_to_max_offset() {
    let mut l = Learner::new(1832, 0);
    let wild_raw = 2500u16;
    for i in 0..(60 * 60 * 10) {
        let t = straight_tick(wild_raw, (i as u64) * 100);
        l.tick(&t, 0.0);
    }
    let c = l.current_centre();
    assert!(c <= 1832 + MAX_OFFSET_FROM_MANUAL, "learned centre {} exceeded clamp ceiling", c);
    assert!(c >= 1832 - MAX_OFFSET_FROM_MANUAL, "learned centre {} below clamp floor", c);
}

#[test]
fn rejects_high_heading_error() {
    let mut l = Learner::new(1832, 0);
    for i in 0..STABILITY_WINDOW + 200 {
        let mut t = straight_tick(1900, (i as u64) * 100);
        t.heading_error_deg = 5.0;
        let out = l.tick(&t, 0.0);
        assert!(!out.gate_passed);
    }
    assert_eq!(l.current_centre(), 1832);
}

#[test]
fn rejects_high_xte_rate() {
    let mut l = Learner::new(1832, 0);
    for i in 0..STABILITY_WINDOW + 200 {
        let t = straight_tick(1900, (i as u64) * 100);
        let out = l.tick(&t, 0.20);
        assert!(!out.gate_passed);
    }
    assert_eq!(l.current_centre(), 1832);
}

#[test]
fn reset_to_manual_clears_state() {
    let mut l = Learner::new(1832, 0);
    for i in 0..(60 * 6 * 10) {
        l.tick(&straight_tick(1880, (i as u64) * 100), 0.0);
    }
    assert!(l.current_centre() > 1832);
    l.reset_to_manual(1850, 60 * 7 * 1000);
    assert_eq!(l.current_centre(), 1850);
    assert_eq!(l.core.samples().len(), 0);
}

#[test]
fn bounds_saturate_at_the_ends_of_the_range() {
    assert_eq!(centre_bounds(1832), (1732, 1932));
    assert_eq!(centre_bounds(50), (0, 150));
    assert_eq!(centre_bounds(65500), (65400, 65535));
}

#[test]
fn commit_clamps_and_sends_only_changes() {
    let mut core: CentreLearner<f64> = CentreLearner::new(1000, 0);
    let out = core.commit(true, 5000);
    assert_eq!(out.current_learned_centre, 1100);
    assert_eq!(out.new_centre, Some(1100));
    let again = core.commit(true, 1200);
    assert_eq!(again.current_learned_centre, 1100);
    assert_eq!(again.new_centre, None);
    let low = core.commit(false, 3);
    assert_eq!(low.current_learned_centre, 900);
    assert_eq!(low.new_centre, Some(900));
    assert!(!low.gate_passed);
}

#[test]
fn window_keeps_most_recent_samples() {
    let mut core: CentreLearner<u32> = CentreLearner::new(1000, 0);
    for i in 0..(STABILITY_WINDOW as u32 + 7) {
        core.push_sample(i);
    }
    let w: Vec<u32> = core.samples().iter().copied().collect();
    assert_eq!(w.len(), STABILITY_WINDOW);
    assert_eq!(w[0], 7);
    assert_eq!(w[STABILITY_WINDOW - 1], STABILITY_WINDOW as u32 + 6);
    assert!(core.window_full());
}

#[test]
fn update_needs_sustained_gate_and_interval() {
    let mut core: CentreLearner<u8> = CentreLearner::new(1000, 0);
    for _ in 0..STABILITY_WINDOW {
        core.push_sample(0);
    }
    // The condition starts holding at 10 s: not yet sustained.
    assert!(!core.observe_gate(true, 10_000));
    assert!(!core.observe_gate(true, 14_999));
    assert!(core.observe_gate(true, 15_000));
    // The next update waits another 10 s.
    assert!(!core.observe_gate(true, 24_999));
    assert!(core.observe_gate(true, 25_000));
    // A failing tick restarts the sustained period.
    assert!(!core.observe_gate(false, 40_000));
    assert!(!core.observe_gate(true, 40_100));
    assert!(core.observe_gate(true, 45_100));
}

#[test]
fn default_output_is_empty() {
    let o = LearnerOutput::default();
    assert_eq!(o.new_centre, None);
    assert!(!o.gate_passed);
    assert_eq!(o.current_learned_centre, 0);
}
