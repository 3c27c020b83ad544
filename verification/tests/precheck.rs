use mergezip::{disk_precheck, required_space, space_message, CompressionMode, FreeSpace, MergeError, SizeTotals};

fn totals(uncompressed: u64, compressed: u64) -> SizeTotals {
    SizeTotals { overall_uncompressed_total: uncompressed, overall_compressed_total: compressed }
}

#[test]
fn compressed_need_against_free_space() {
    let t = totals(200, 100);
    assert_eq!(required_space(&t, CompressionMode::Deflate), 138);
    assert_eq!(
        disk_precheck(&t, CompressionMode::Deflate, FreeSpace::Known(100)),
        Err(MergeError::InsufficientSpace { required: 138, available: 100 })
    );
    assert_eq!(disk_precheck(&t, CompressionMode::Deflate, FreeSpace::Known(200)), Ok(()));
    assert!(disk_precheck(&t, CompressionMode::Deflate, FreeSpace::Known(137)).is_err());
    assert_eq!(disk_precheck(&t, CompressionMode::Deflate, FreeSpace::Known(138)), Ok(()));
}

#[test]
fn compressed_need_is_capped_by_the_contents() {
    let t = totals(100, 90);
    assert_eq!(required_space(&t, CompressionMode::Deflate), 110);
    let t = totals(100, 80);
    assert_eq!(required_space(&t, CompressionMode::Deflate), 110);
    let t = totals(100, 79);
    assert_eq!(required_space(&t, CompressionMode::Deflate), 109);
    let t = totals(0, 50);
    assert_eq!(required_space(&t, CompressionMode::Deflate), 0);
}

#[test]
fn stored_need_has_five_percent_on_top() {
    let t = totals(1000, 10);
    assert_eq!(required_space(&t, CompressionMode::Store), 1050);
    assert_eq!(disk_precheck(&t, CompressionMode::Store, FreeSpace::Known(1050)), Ok(()));
    assert_eq!(
        disk_precheck(&t, CompressionMode::Store, FreeSpace::Known(1049)),
        Err(MergeError::InsufficientSpace { required: 1050, available: 1049 })
    );
    let t = totals(10, 0);
    assert_eq!(required_space(&t, CompressionMode::Store), 11);
    assert!(disk_precheck(&t, CompressionMode::Store, FreeSpace::Known(10)).is_err());
    assert!(disk_precheck(&t, CompressionMode::Store, FreeSpace::Known(11)).is_ok());
}

#[test]
fn unknown_free_space_passes() {
    let t = totals(u64::MAX, u64::MAX);
    assert_eq!(disk_precheck(&t, CompressionMode::Store, FreeSpace::Unknown), Ok(()));
    assert_eq!(disk_precheck(&t, CompressionMode::Deflate, FreeSpace::Unknown), Ok(()));
    assert_eq!(FreeSpace::from_query(0), FreeSpace::Unknown);
    assert_eq!(FreeSpace::from_query(1), FreeSpace::Known(1));
}

#[test]
fn known_zero_free_space_fails_any_need() {
    assert!(disk_precheck(&totals(1, 1), CompressionMode::Store, FreeSpace::Known(0)).is_err());
    assert!(disk_precheck(&totals(0, 0), CompressionMode::Store, FreeSpace::Known(0)).is_ok());
}

#[test]
fn need_beyond_64_bits() {
    let t = totals(u64::MAX, u64::MAX);
    assert_eq!(required_space(&t, CompressionMode::Store), u64::MAX);
    assert_eq!(
        disk_precheck(&t, CompressionMode::Store, FreeSpace::Known(u64::MAX)),
        Err(MergeError::InsufficientSpace { required: u64::MAX, available: u64::MAX })
    );
}

#[test]
fn message_names_need_and_free_space() {
    assert_eq!(
        space_message("/data/out", 3 * 1024 * 1024 * 1024, 1536, CompressionMode::Deflate),
        "ERROR: Not enough free space in /data/out. Need ~3.0 GB (mode=deflate (recompression)), free 1.5 KB."
    );
    assert_eq!(CompressionMode::Store.label(), "store (no compression)");
    assert_eq!(CompressionMode::from_store_flag(true), CompressionMode::Store);
    assert_eq!(CompressionMode::from_store_flag(false), CompressionMode::Deflate);
}

#[test]
fn exit_codes_differ() {
    assert_eq!(MergeError::NoMatch.exit_code(), 4);
    assert_eq!(MergeError::InsufficientSpace { required: 2, available: 1 }.exit_code(), 8);
    assert_eq!(MergeError::IoFailure.exit_code(), 1);
    assert_eq!(MergeError::NotFound.exit_code(), 1);
    assert_eq!(MergeError::InvalidInput.exit_code(), 1);
}
