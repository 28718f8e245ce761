use finn_guidance::coverage::{
    fix_quality_to_str, str_to_fix_quality, CoverageLogger, ImportPlan, ImportStats, JobStart,
    JobTotals, SavedField, WRITE_BUFFER_SIZE,
};
use finn_guidance::types::FixQuality;

#[test]
fn fix_quality_names_round_trip() {
    let all = [FixQuality::NoFix, FixQuality::Gps, FixQuality::Dgps, FixQuality::Rtk, FixQuality::RtkFloat];
    for q in all {
        assert_eq!(str_to_fix_quality(fix_quality_to_str(q)), q);
    }
    assert_eq!(fix_quality_to_str(FixQuality::Gps), "GPS");
    assert_eq!(fix_quality_to_str(FixQuality::RtkFloat), "RtkFloat");
    assert_eq!(str_to_fix_quality("rtk"), FixQuality::NoFix);
    assert_eq!(str_to_fix_quality(""), FixQuality::NoFix);
    assert_eq!(str_to_fix_quality("DGPS"), FixQuality::Dgps);
}

fn field(id: i64, name: &str) -> SavedField {
    SavedField { id, name: name.to_string(), created_at: String::new() }
}

#[test]
fn import_reuses_fields_by_name() {
    let mut plan = ImportPlan::new(&vec![field(1, "North"), field(2, "South")]);
    assert_eq!(plan.plan_field("South", 10), Some(2));
    assert_eq!(plan.plan_field("East", 11), None);
    plan.field_created("East", 11, 7);
    // A second bundle field of the same name reuses the created one.
    assert_eq!(plan.plan_field("East", 12), Some(7));
    assert_eq!(plan.local_field_id(Some(10)), Some(2));
    assert_eq!(plan.local_field_id(Some(11)), Some(7));
    assert_eq!(plan.local_field_id(Some(12)), Some(7));
    assert_eq!(plan.local_field_id(Some(99)), None);
    assert_eq!(plan.local_field_id(None), None);
    plan.line_done(true);
    plan.line_done(false);
    plan.line_done(false);
    assert_eq!(plan.stats(), ImportStats { fields_added: 1, lines_added: 2, lines_skipped: 1 });
}

#[test]
fn import_of_duplicate_names_takes_the_last() {
    let mut plan = ImportPlan::new(&vec![field(1, "A"), field(5, "A")]);
    assert_eq!(plan.plan_field("A", 3), Some(5));
}

fn engaged_logger(min_interval_ms: u64) -> CoverageLogger<u64, u64> {
    let mut l: CoverageLogger<u64, u64> = CoverageLogger::new(min_interval_ms);
    assert!(l.engage());
    l.job_started(JobStart::Created(42));
    l
}

#[test]
fn coverage_not_logged_while_disengaged() {
    let mut l: CoverageLogger<u64, u64> = CoverageLogger::new(0);
    assert!(!l.log_fix(1000, false, 1, 1));
    assert_eq!(l.total_points(), 0);
}

#[test]
fn coverage_epoch_dedup_and_filters() {
    let mut l = engaged_logger(500);
    assert_eq!(l.current_job_id(), Some(42));
    assert_eq!(l.segment(), 0);
    // First fix of the segment always logs, even if "too close".
    assert!(l.log_fix(1000, true, 1000, 1000));
    // Same epoch.
    assert!(!l.log_fix(1000, false, 1, 1));
    // Too soon.
    assert!(!l.log_fix(1400, false, 1, 1));
    // Too close.
    assert!(!l.log_fix(2000, true, 1, 1));
    assert!(l.log_fix(2000, false, 2000, 2000));
    assert_eq!(l.total_points(), 2);
    assert_eq!(l.pending(), &vec![1000, 2000]);
    assert_eq!(l.points(), &vec![1000, 2000]);
}

#[test]
fn coverage_segments_and_batches() {
    let mut l = engaged_logger(0);
    for i in 1..=(WRITE_BUFFER_SIZE as u64) {
        assert!(l.log_fix(i * 100, false, i, i));
    }
    assert!(l.flush_due());
    l.flush_finished(true);
    assert_eq!(l.pending().len(), WRITE_BUFFER_SIZE);
    l.flush_finished(false);
    assert!(l.pending().is_empty());
    l.disengage();
    // A new engage keeps the job and starts segment 1.
    assert!(!l.engage());
    assert_eq!(l.segment(), 1);
    assert!(l.log_fix(100, false, 0, 0));
    let totals = l.end_job();
    assert_eq!(totals, Some(JobTotals { job_id: 42, total_points: WRITE_BUFFER_SIZE as u64 + 1, total_segments: 1 }));
    assert!(!l.is_engaged());
    assert_eq!(l.current_job_id(), None);
}

#[test]
fn coverage_clear_and_failed_job() {
    let mut l = engaged_logger(0);
    assert!(l.log_fix(100, false, 1, 1));
    let t = l.clear_coverage();
    assert_eq!(t.map(|t| t.job_id), Some(42));
    assert!(l.points().is_empty());
    assert_eq!(l.total_points(), 0);
    assert!(l.engage());
    l.job_started(JobStart::Failed);
    assert_eq!(l.current_job_id(), None);
    assert_eq!(l.segment(), 1);
    l.disengage();
    assert!(l.engage());
    l.job_started(JobStart::NoDatabase);
    assert_eq!(l.segment(), 0);
    assert_eq!(l.current_job_id(), None);
}
