use esp_examples::time_sync::{time_report, ZONE_OFFSET_SECS};

#[test]
fn report_shows_local_and_utc() {
    let r = time_report(1431648000, 0).unwrap();
    assert_eq!(r.utc, "2015-05-15 00:00:00 UTC");
    assert_eq!(r.local, "2015-05-15 01:00:00 +01:00");
}

#[test]
fn report_keeps_nanoseconds() {
    let r = time_report(1739872800, 500_000_000).unwrap();
    assert_eq!(r.utc, "2025-02-18 10:00:00.500 UTC");
    assert_eq!(r.local, "2025-02-18 11:00:00.500 +01:00");
}

#[test]
fn local_zone_is_one_hour_east() {
    assert_eq!(ZONE_OFFSET_SECS, 3600);
}

#[test]
fn instant_chrono_cannot_hold_gives_no_report() {
    assert!(time_report(i64::MAX, 0).is_none());
    assert!(time_report(0, 2_000_000_000).is_none());
}
