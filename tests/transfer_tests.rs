use idevice_lib::transfer::{percent_now, progress_reports, ProgressTracker, CHUNK_SIZE};

#[test]
fn percent_is_floored() {
    assert_eq!(percent_now(1, 3), 33);
    assert_eq!(percent_now(2, 3), 66);
    assert_eq!(percent_now(3, 3), 100);
    assert_eq!(percent_now(0, 3), 0);
}

#[test]
fn percent_is_capped_and_safe_on_empty_source() {
    assert_eq!(percent_now(5, 3), 100);
    assert_eq!(percent_now(5, 0), 0);
    assert_eq!(percent_now(u64::MAX, 1), 100);
}

#[test]
fn reports_increase_and_end_with_terminal_hundred() {
    let c = CHUNK_SIZE as u64;
    let total = 4 * c;
    assert_eq!(progress_reports(total, &vec![c, c, c, c]), vec![25, 50, 75, 100, 100]);
}

#[test]
fn unchanged_percentages_are_not_repeated() {
    assert_eq!(progress_reports(1000, &vec![1, 1, 8, 990]), vec![1, 100, 100]);
}

#[test]
fn empty_source_reports_only_terminal_hundred() {
    assert_eq!(progress_reports(0, &vec![]), vec![100]);
    assert_eq!(progress_reports(0, &vec![10, 20]), vec![100]);
}

#[test]
fn shrunken_source_has_no_duplicate() {
    assert_eq!(progress_reports(100, &vec![30, 30]), vec![30, 60, 100]);
}

#[test]
fn tracker_reports_changes_only() {
    let mut t = ProgressTracker::new(10);
    assert_eq!(t.record_chunk(0), None);
    assert_eq!(t.record_chunk(5), Some(50));
    assert_eq!(t.bytes_read(), 5);
    assert_eq!(t.record_chunk(5), Some(100));
    assert_eq!(t.finish(), 100);
}
