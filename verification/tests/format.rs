use mergezip::{hms, human};

fn human_by_floats(n: u64) -> String {
    let units = ["B", "KB", "MB", "GB", "TB"];
    let mut f = n as f64;
    let mut i = 0usize;
    while f >= 1024.0 && i < units.len() - 1 {
        f /= 1024.0;
        i += 1;
    }
    format!("{:.1} {}", f, units[i])
}

#[test]
fn human_exact_values() {
    assert_eq!(human(0), "0.0 B");
    assert_eq!(human(1023), "1023.0 B");
    assert_eq!(human(1024), "1.0 KB");
    assert_eq!(human(1536), "1.5 KB");
    assert_eq!(human(1280), "1.2 KB");
    assert_eq!(human(1048576), "1.0 MB");
    assert_eq!(human(u64::MAX), "16777216.0 TB");
}

#[test]
fn human_agrees_with_double_precision() {
    let mut n: u64 = 1;
    let mut k: u64 = 0;
    while k < 200000 {
        assert_eq!(human(n), human_by_floats(n), "n = {}", n);
        n = n.wrapping_mul(6364136223846793005).wrapping_add(1442695040888963407);
        k += 1;
    }
    let mut s: u32 = 0;
    while s < 64 {
        let b: u64 = 1u64 << s;
        for d in [0u64, 1, 2, 51, 52, 53, 102, 103, 1023, 1024, 1025] {
            assert_eq!(human(b.wrapping_add(d)), human_by_floats(b.wrapping_add(d)));
            assert_eq!(human(b.wrapping_sub(d)), human_by_floats(b.wrapping_sub(d)));
        }
        s += 1;
    }
}

#[test]
fn hms_exact_values() {
    assert_eq!(hms(0), "00:00:00");
    assert_eq!(hms(-5), "00:00:00");
    assert_eq!(hms(59), "00:00:59");
    assert_eq!(hms(3661), "01:01:01");
    assert_eq!(hms(360000), "100:00:00");
    assert_eq!(hms(i64::MAX), format!("{:02}:{:02}:{:02}", i64::MAX / 3600, (i64::MAX % 3600) / 60, i64::MAX % 60));
}
