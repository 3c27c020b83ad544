use mergezip::{chunk_len, join_command, part_name, raw_split, MergeError, Part, SplitPlan};

fn parts_of(total: u64, part: u64) -> Vec<Part> {
    let mut plan = SplitPlan::new(total, part).unwrap();
    let mut parts = Vec::new();
    while let Some(p) = plan.next_part() {
        parts.push(p);
    }
    assert!(plan.is_done());
    assert_eq!(plan.next_part(), None);
    parts
}

#[test]
fn split_size_must_be_readable_and_not_zero() {
    assert!(matches!(raw_split(10, "0"), Err(MergeError::InvalidInput)));
    assert!(matches!(raw_split(10, ""), Err(MergeError::InvalidInput)));
    assert!(matches!(raw_split(10, "0k"), Err(MergeError::InvalidInput)));
    assert!(matches!(raw_split(10, "abc"), Err(MergeError::InvalidInput)));
    assert!(matches!(SplitPlan::new(10, 0), Err(MergeError::InvalidInput)));
    assert!(raw_split(10, "1k").is_ok());
}

#[test]
fn empty_file_has_no_parts() {
    let mut plan = raw_split(0, "1k").unwrap();
    assert!(plan.is_done());
    assert_eq!(plan.next_part(), None);
}

#[test]
fn parts_follow_each_other() {
    let mut plan = raw_split(2500, "1K").unwrap();
    assert!(!plan.is_done());
    assert_eq!(plan.next_part(), Some(Part { index: 0, offset: 0, len: 1024 }));
    assert_eq!(plan.next_part(), Some(Part { index: 1, offset: 1024, len: 1024 }));
    assert_eq!(plan.next_part(), Some(Part { index: 2, offset: 2048, len: 452 }));
    assert!(plan.is_done());
    assert_eq!(plan.next_part(), None);
    assert_eq!(plan.next_part(), None);
}

#[test]
fn part_count_is_the_quotient_rounded_up() {
    for (total, part) in [(1u64, 1u64), (10, 3), (9, 3), (8, 3), (1, 100), (100, 100), (101, 100), (4096, 1)] {
        let parts = parts_of(total, part);
        assert_eq!(parts.len() as u64, (total + part - 1) / part);
        assert_eq!(parts.iter().map(|p| p.len).sum::<u64>(), total);
        for (i, p) in parts.iter().enumerate() {
            assert_eq!(p.index, i as u64);
            assert_eq!(p.offset, i as u64 * part);
            assert!(p.len >= 1 && p.len <= part);
            if i + 1 < parts.len() {
                assert_eq!(p.len, part);
            }
        }
    }
}

#[test]
fn joined_parts_are_the_file() {
    let data: Vec<u8> = (0..10_000u32).map(|i| (i * 31 % 251) as u8).collect();
    for part in [1u64, 7, 999, 1000, 5000, 9999, 10_000, 10_001, 1 << 40] {
        let mut joined: Vec<u8> = Vec::new();
        for p in parts_of(data.len() as u64, part) {
            assert_eq!(p.offset as usize, joined.len());
            let mut copied: u64 = 0;
            while copied < p.len {
                let n = chunk_len(64, p.len - copied);
                assert!(n >= 1 && n <= 64);
                let from = (p.offset + copied) as usize;
                joined.extend_from_slice(&data[from..from + n]);
                copied += n as u64;
            }
        }
        assert_eq!(joined, data);
    }
}

#[test]
fn huge_files_do_not_overflow() {
    let mut plan = SplitPlan::new(u64::MAX, u64::MAX - 1).unwrap();
    assert_eq!(plan.next_part(), Some(Part { index: 0, offset: 0, len: u64::MAX - 1 }));
    assert_eq!(plan.next_part(), Some(Part { index: 1, offset: u64::MAX - 1, len: 1 }));
    assert_eq!(plan.next_part(), None);
}

#[test]
fn chunks_fit_buffer_and_rest() {
    assert_eq!(chunk_len(4096, 10_000), 4096);
    assert_eq!(chunk_len(4096, 4096), 4096);
    assert_eq!(chunk_len(4096, 100), 100);
    assert_eq!(chunk_len(4096, 0), 0);
    assert_eq!(chunk_len(0, 5), 0);
    assert_eq!(chunk_len(usize::MAX, u64::MAX), usize::MAX);
}

#[test]
fn part_names_have_three_digits() {
    assert_eq!(part_name("out/merged.zip", 0), "out/merged.zip.part-000");
    assert_eq!(part_name("out/merged.zip", 7), "out/merged.zip.part-007");
    assert_eq!(part_name("m.zip", 42), "m.zip.part-042");
    assert_eq!(part_name("m.zip", 999), "m.zip.part-999");
    assert_eq!(part_name("m.zip", 1000), "m.zip.part-1000");
    assert_eq!(part_name("", u64::MAX), format!(".part-{:03}", u64::MAX));
}

#[test]
fn join_command_names_all_parts() {
    assert_eq!(join_command("out/merged.zip", "merged.zip"), "cat out/merged.zip.part-* > merged.zip");
}
