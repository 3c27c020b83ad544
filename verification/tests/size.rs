use mergezip::{parse_normalized_size, parse_size, MergeError};

#[test]
fn sizes_with_units() {
    assert_eq!(parse_size("1900m"), Ok(1900 * 1024 * 1024));
    assert_eq!(parse_size("2g"), Ok(2 * 1024 * 1024 * 1024));
    assert_eq!(parse_size("3k"), Ok(3 * 1024));
    assert_eq!(parse_size("3kb"), Ok(3 * 1024));
    assert_eq!(parse_size("4mb"), Ok(4 * 1024 * 1024));
    assert_eq!(parse_size("5gb"), Ok(5 * 1024 * 1024 * 1024));
    assert_eq!(parse_size("1t"), Ok(1024u64 * 1024 * 1024 * 1024));
    assert_eq!(parse_size("1tb"), Ok(1024u64 * 1024 * 1024 * 1024));
    assert_eq!(parse_size("123"), Ok(123));
    assert_eq!(parse_size("0"), Ok(0));
    assert_eq!(parse_size("007k"), Ok(7 * 1024));
}

#[test]
fn case_and_white_space_do_not_count() {
    assert_eq!(parse_size("2G"), Ok(2 * 1024 * 1024 * 1024));
    assert_eq!(parse_size("2Gb"), Ok(2 * 1024 * 1024 * 1024));
    assert_eq!(parse_size("  1900M\t\n"), Ok(1900 * 1024 * 1024));
    assert_eq!(parse_size("\u{2003}7K\u{a0}"), Ok(7 * 1024));
    assert_eq!(parse_size("5\u{212a}"), Ok(5 * 1024));
}

#[test]
fn empty_text_is_zero() {
    assert_eq!(parse_size(""), Ok(0));
    assert_eq!(parse_size("   "), Ok(0));
    assert_eq!(parse_normalized_size(""), Ok(0));
}

#[test]
fn digits_are_read_wherever_they_stand() {
    assert_eq!(parse_size("1k2"), Ok(12 * 1024));
    assert_eq!(parse_size("k5"), Ok(5 * 1024));
    assert_eq!(parse_size("1 0 m"), Ok(10));
}

#[test]
fn unknown_units_count_as_one() {
    assert_eq!(parse_size("12xyz"), Ok(12));
    assert_eq!(parse_size("12 kb"), Ok(12));
    assert_eq!(parse_size("12b"), Ok(12));
    assert_eq!(parse_size("12kib"), Ok(12));
    assert_eq!(parse_size("-5"), Ok(5));
}

#[test]
fn text_without_digits_is_refused() {
    assert_eq!(parse_size("abc"), Err(MergeError::InvalidInput));
    assert_eq!(parse_size("k"), Err(MergeError::InvalidInput));
    assert_eq!(parse_size(" . "), Err(MergeError::InvalidInput));
    assert_eq!(parse_size("\u{0661}"), Err(MergeError::InvalidInput));
}

#[test]
fn sizes_beyond_64_bits_are_refused() {
    assert_eq!(parse_size("18446744073709551615"), Ok(u64::MAX));
    assert_eq!(parse_size("18446744073709551616"), Err(MergeError::InvalidInput));
    assert_eq!(parse_size("99999999999999999999999"), Err(MergeError::InvalidInput));
    assert_eq!(parse_size("16777215t"), Ok(16777215u64 << 40));
    assert_eq!(parse_size("16777216t"), Err(MergeError::InvalidInput));
    assert_eq!(parse_size("18446744073709551615k"), Err(MergeError::InvalidInput));
}

#[test]
fn normalized_text_is_read_as_it_stands() {
    assert_eq!(parse_normalized_size("2g"), Ok(2 * 1024 * 1024 * 1024));
    assert_eq!(parse_normalized_size("2G"), Ok(2));
    assert_eq!(parse_normalized_size(" 2g"), Ok(2));
}
