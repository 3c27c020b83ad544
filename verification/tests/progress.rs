use mergezip::{archive_label, eta_seconds, hms, human, percent, ProgressState};

#[test]
fn percentages_round_down() {
    assert_eq!(percent(0, 10), 0);
    assert_eq!(percent(1, 3), 33);
    assert_eq!(percent(2, 3), 66);
    assert_eq!(percent(10, 10), 100);
    assert_eq!(percent(15, 10), 150);
    assert_eq!(percent(0, 0), 100);
    assert_eq!(percent(7, 0), 100);
    assert_eq!(percent(u64::MAX, u64::MAX), 100);
    assert_eq!(percent(u64::MAX, 1), u64::MAX as u128 * 100);
}

#[test]
fn eta_from_average_speed() {
    assert_eq!(eta_seconds(50, 100, 10_000_000_000), 10);
    assert_eq!(eta_seconds(25, 100, 10_000_000_000), 30);
    assert_eq!(eta_seconds(512, 2048, 5_000_000_000), 15);
    assert_eq!(eta_seconds(3, 10, 1_000_000_000), 2);
    assert_eq!(eta_seconds(1, 2, 999_999_999), 0);
    assert_eq!(eta_seconds(0, 100, 10_000_000_000), 0);
    assert_eq!(eta_seconds(100, 100, 10_000_000_000), 0);
    assert_eq!(eta_seconds(120, 100, 10_000_000_000), 0);
    assert_eq!(eta_seconds(50, 100, 0), 0);
    assert_eq!(eta_seconds(1, u64::MAX, u64::MAX), i64::MAX as u64);
}

#[test]
fn a_line_is_due_when_a_percentage_changes() {
    let mut s = ProgressState::new(1000);
    s.begin_archive(200);
    assert!(s.record_copy(1));
    assert_eq!(s.last_zip_pct, Some(0));
    assert_eq!(s.last_all_pct, Some(0));
    assert!(!s.record_copy(0));
    assert!(s.record_copy(1));
    assert_eq!(s.last_zip_pct, Some(1));
    assert_eq!(s.last_all_pct, Some(0));
    assert!(!s.record_copy(1));
    assert!(s.record_copy(7));
    assert_eq!((s.done_zip, s.overall_done), (10, 10));
    assert_eq!(s.last_zip_pct, Some(5));
    assert_eq!(s.last_all_pct, Some(1));
    assert!(s.record_copy(190));
    assert_eq!(s.last_zip_pct, Some(100));
    assert_eq!(s.last_all_pct, Some(20));
    s.begin_archive(800);
    assert_eq!(s.done_zip, 0);
    assert_eq!(s.total_zip, 800);
    assert_eq!(s.last_zip_pct, None);
    assert_eq!(s.overall_done, 200);
    assert_eq!(s.last_all_pct, Some(20));
    assert!(s.record_copy(0));
    assert_eq!(s.last_zip_pct, Some(0));
    assert!(!s.record_copy(1));
}

#[test]
fn overall_count_never_goes_down() {
    let mut s = ProgressState::new(10_000);
    s.begin_archive(10_000);
    let mut before = s.overall_done;
    let mut lines = 0;
    for n in [0u64, 1, 4096, 0, 17, 4096, 1790] {
        if s.record_copy(n) {
            lines += 1;
        }
        assert_eq!(s.overall_done, before + n);
        assert!(s.overall_done >= before);
        assert!(s.overall_done <= s.overall_total);
        before = s.overall_done;
    }
    assert_eq!(s.overall_done, 10_000);
    assert!(lines <= 101);
}

#[test]
fn empty_archive_counts_as_done() {
    let mut s = ProgressState::new(0);
    s.begin_archive(0);
    assert!(s.record_copy(0));
    assert_eq!(s.last_zip_pct, Some(100));
    assert_eq!(s.last_all_pct, Some(100));
}

#[test]
fn status_line_text() {
    let mut s = ProgressState::new(2048);
    s.begin_archive(1024);
    s.record_copy(512);
    let label = archive_label(0, 2, "a.zip");
    assert_eq!(label, "[1/2] a.zip");
    assert_eq!(
        s.status_line(&label, 5_999_999_999),
        "\r[1/2] a.zip:  50% (512.0 B/1.0 KB)  |  Overall:  25% (512.0 B/2.0 KB)  |  Elapsed 00:00:05  ETA 00:00:17"
    );
    let expected = format!(
        "\r{}: {:3}% ({}/{})  |  Overall: {:3}% ({}/{})  |  Elapsed {}  ETA {}",
        label, 50, human(512), human(1024), 25, human(512), human(2048), hms(5), hms(17)
    );
    assert_eq!(s.status_line(&label, 5_999_999_999), expected);
    s.record_copy(512);
    assert_eq!(
        s.status_line(&label, 7_000_000_000),
        "\r[1/2] a.zip: 100% (1.0 KB/1.0 KB)  |  Overall:  50% (1.0 KB/2.0 KB)  |  Elapsed 00:00:07  ETA 00:00:07"
    );
}

#[test]
fn final_line_text() {
    let mut s = ProgressState::new(4096);
    s.begin_archive(1024);
    s.record_copy(100);
    assert_eq!(
        s.final_line("[3/3] last.zip", 3_725_000_000_000),
        "\r[3/3] last.zip: 100% (1.0 KB/1.0 KB)  |  Overall:   2% (100.0 B/4.0 KB)  |  Elapsed 01:02:05  ETA --:--:--"
    );
}

#[test]
fn labels_count_from_one() {
    assert_eq!(archive_label(0, 1, "x.zip"), "[1/1] x.zip");
    assert_eq!(archive_label(9, 12, "j.zip"), "[10/12] j.zip");
    assert_eq!(archive_label(usize::MAX, usize::MAX, ""), format!("[{}/{}] ", usize::MAX as u128 + 1, usize::MAX));
}
