use jas::upload::{install_progress, upload_chunk_size, upload_plan};

#[test]
fn chunk_size_is_a_twentieth_but_at_least_256k() {
    assert_eq!(upload_chunk_size(0), 262144);
    assert_eq!(upload_chunk_size(1_000_000), 262144);
    assert_eq!(upload_chunk_size(100_000_000), 5_000_000);
}

#[test]
fn upload_plan_reports_increasing_progress_up_to_90() {
    let total = 100_000_000;
    let plan = upload_plan(total);
    assert_eq!(plan.len(), 20);
    assert_eq!(plan.iter().map(|s| s.len).sum::<usize>(), total);
    let reports: Vec<u64> = plan.iter().filter_map(|s| s.report).collect();
    assert_eq!(reports.first(), Some(&4));
    assert_eq!(reports.last(), Some(&90));
    assert!(reports.windows(2).all(|w| w[0] < w[1]));
    let small = upload_plan(1000);
    assert_eq!(small.len(), 1);
    assert_eq!(small[0].len, 1000);
    assert_eq!(small[0].report, Some(90));
    assert!(upload_plan(0).is_empty());
}

#[test]
fn install_progress_runs_from_90_to_100() {
    assert_eq!(install_progress(0), 90);
    assert_eq!(install_progress(55), 95);
    assert_eq!(install_progress(100), 100);
}
