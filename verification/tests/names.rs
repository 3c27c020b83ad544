use mergezip::{map_target, should_skip, DedupTable};

fn stem_by_std(name: &str) -> String {
    std::path::Path::new(name).file_stem().unwrap_or_default().to_string_lossy().to_string()
}

#[test]
fn same_path_from_three_archives() {
    let mut table = DedupTable::new();
    assert_eq!(map_target(false, "a.zip", "docs/readme.txt", &mut table), "docs/readme.txt");
    assert_eq!(map_target(false, "b.zip", "docs/readme.txt", &mut table), "docs/readme__dup1.txt");
    assert_eq!(map_target(false, "c.zip", "docs/readme.txt", &mut table), "docs/readme__dup2.txt");
    assert_eq!(table.seen("docs/readme.txt"), 3);
    assert_eq!(table.seen("docs/readme__dup1.txt"), 0);
    assert_eq!(table.resolved(), 3);
}

#[test]
fn sidecar_entries_are_skipped() {
    assert!(should_skip("__MACOSX/._foo"));
    assert!(should_skip("__MACOSX/"));
    assert!(should_skip(".DS_Store"));
    assert!(should_skip("photos/.DS_Store"));
    assert!(should_skip(""));
    assert!(!should_skip("photos/a.jpg"));
    assert!(!should_skip("x/__MACOSX/a"));
    assert!(!should_skip("__MACOSX"));
    assert!(!should_skip(".DS_Store.bak"));
    assert!(!should_skip(".ds_store"));
}

#[test]
fn leading_separators_are_stripped() {
    let mut table = DedupTable::new();
    assert_eq!(map_target(false, "a.zip", "/\\//x/y.txt", &mut table), "x/y.txt");
    assert_eq!(map_target(false, "a.zip", "///", &mut table), "");
    assert_eq!(map_target(false, "a.zip", "a/b/", &mut table), "a/b/");
}

#[test]
fn backslashes_become_slashes() {
    let mut table = DedupTable::new();
    assert_eq!(map_target(false, "a.zip", "dir\\sub\\f.txt", &mut table), "dir/sub/f.txt");
    assert_eq!(map_target(false, "a.zip", "dir/sub/f.txt", &mut table), "dir/sub/f__dup1.txt");
    assert_eq!(map_target(true, "we\\ird.zip", "f", &mut table), "we/ird/f");
}

#[test]
fn archive_prefix_is_the_stem() {
    let mut table = DedupTable::new();
    assert_eq!(map_target(true, "photos.zip", "a.jpg", &mut table), "photos/a.jpg");
    assert_eq!(map_target(true, "photos.zip", "/a.jpg", &mut table), "photos/a__dup1.jpg");
    assert_eq!(map_target(true, "other.ZIP", "a.jpg", &mut table), "other/a.jpg");
    assert_eq!(map_target(true, "v1.2.zip", "a", &mut table), "v1.2/a");
    assert_eq!(map_target(true, ".zip", "a", &mut table), ".zip/a");
    assert_eq!(map_target(true, "plain", "a", &mut table), "plain/a");
    assert_eq!(map_target(true, "a.", "b", &mut table), "a/b");
    assert_eq!(map_target(true, "..", "b", &mut table), "/b");
    assert_eq!(map_target(true, ".", "c", &mut table), "/c");
    assert_eq!(map_target(true, "", "d", &mut table), "/d");
}

#[test]
fn stem_agrees_with_the_standard_library() {
    for name in ["photos.zip", "a.b.zip", ".zip", "..zip", "plain", "a.", "..", ".", "", "...", "x..y", ".a.b"] {
        let mut table = DedupTable::new();
        let got = map_target(true, name, "e", &mut table);
        assert_eq!(got, format!("{}/e", stem_by_std(name)), "name {:?}", name);
    }
}

#[test]
fn mark_goes_before_the_last_dot() {
    let mut table = DedupTable::new();
    assert_eq!(map_target(false, "a.zip", "a.tar.gz", &mut table), "a.tar.gz");
    assert_eq!(map_target(false, "a.zip", "a.tar.gz", &mut table), "a.tar__dup1.gz");
    assert_eq!(map_target(false, "a.zip", "README", &mut table), "README");
    assert_eq!(map_target(false, "a.zip", "README", &mut table), "README__dup1");
    assert_eq!(map_target(false, "a.zip", "v1.0/README", &mut table), "v1.0/README");
    assert_eq!(map_target(false, "a.zip", "v1.0/README", &mut table), "v1__dup1.0/README");
    assert_eq!(map_target(false, "a.zip", ".hidden", &mut table), ".hidden");
    assert_eq!(map_target(false, "a.zip", ".hidden", &mut table), "__dup1.hidden");
}

#[test]
fn counts_run_past_one_digit() {
    let mut table = DedupTable::new();
    let mut seen = std::collections::HashSet::new();
    let mut i = 0;
    while i < 120 {
        let t = map_target(false, "a.zip", "f.txt", &mut table);
        if i == 0 {
            assert_eq!(t, "f.txt");
        } else {
            assert_eq!(t, format!("f__dup{}.txt", i));
        }
        assert!(seen.insert(t));
        i += 1;
    }
    assert_eq!(table.seen("f.txt"), 120);
}

#[test]
fn distinct_requests_get_distinct_paths() {
    let mut table = DedupTable::new();
    let mut seen = std::collections::HashSet::new();
    let paths = ["a.txt", "b/a.txt", "a.txt", "/a.txt", "b\\a.txt", "a", "a", "a.", "a.", "a.txt"];
    for p in paths {
        assert!(seen.insert(map_target(false, "z.zip", p, &mut table)));
    }
    assert_eq!(table.resolved(), paths.len());
}

#[test]
fn a_key_that_looks_like_a_marked_path_can_clash() {
    let mut table = DedupTable::new();
    let first = map_target(false, "z.zip", "a__dup1.txt", &mut table);
    let second = map_target(false, "z.zip", "a.txt", &mut table);
    let third = map_target(false, "z.zip", "a.txt", &mut table);
    assert_eq!(first, "a__dup1.txt");
    assert_eq!(second, "a.txt");
    assert_eq!(third, "a__dup1.txt");
}

#[test]
fn same_requests_same_paths() {
    let paths = ["x/a.txt", "x/a.txt", "y", "x\\a.txt", "y", "y"];
    let mut one = DedupTable::new();
    let mut two = DedupTable::new();
    for p in paths {
        assert_eq!(map_target(true, "k.zip", p, &mut one), map_target(true, "k.zip", p, &mut two));
    }
}
