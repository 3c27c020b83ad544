use mergezip::{list_zip_files, select_archives, MergeError};

fn names(list: &[&str]) -> Vec<String> {
    list.iter().map(|s| s.to_string()).collect()
}

#[test]
fn candidates_are_filtered_and_sorted() {
    let listing = names(&["b.zip", "a.ZIP", "c.txt", "A.zip", "notes.zip.bak", "a.zip", "zip"]);
    assert_eq!(list_zip_files(&listing, "*"), Ok(names(&["A.zip", "a.ZIP", "a.zip", "b.zip"])));
    assert_eq!(list_zip_files(&listing, "*.zip"), Ok(names(&["A.zip", "a.zip", "b.zip"])));
    assert_eq!(list_zip_files(&listing, "a*"), Ok(names(&["a.ZIP", "a.zip"])));
    assert_eq!(list_zip_files(&listing, "[ab].zip"), Ok(names(&["a.zip", "b.zip"])));
    assert_eq!(list_zip_files(&listing, "?.zip"), Ok(names(&["A.zip", "a.zip", "b.zip"])));
    assert_eq!(list_zip_files(&listing, "b.zip"), Ok(names(&["b.zip"])));
}

#[test]
fn order_is_that_of_the_standard_sort() {
    let listing = names(&["é.zip", "z.zip", "Z.zip", "a10.zip", "a2.zip", "a.zip", "ab.zip", "𝄞.zip", "~.zip", "_.zip", "a.zip"]);
    let mut expected = listing.clone();
    expected.sort();
    assert_eq!(list_zip_files(&listing, "*"), Ok(expected));
}

#[test]
fn nothing_left_is_no_match() {
    assert_eq!(list_zip_files(&names(&[]), "*.zip"), Err(MergeError::NoMatch));
    assert_eq!(list_zip_files(&names(&["a.txt", "b.tar"]), "*"), Err(MergeError::NoMatch));
    assert_eq!(list_zip_files(&names(&["a.zip"]), "b*"), Err(MergeError::NoMatch));
    assert_eq!(list_zip_files(&names(&["a.zip"]), ""), Err(MergeError::NoMatch));
}

#[test]
fn bad_filters_are_refused() {
    assert_eq!(list_zip_files(&names(&["a.zip"]), "["), Err(MergeError::InvalidInput));
    assert_eq!(list_zip_files(&names(&["a.zip"]), "a**b"), Err(MergeError::InvalidInput));
    assert_eq!(list_zip_files(&names(&["a.zip"]), "***"), Err(MergeError::InvalidInput));
    assert_eq!(list_zip_files(&names(&[]), "[!"), Err(MergeError::InvalidInput));
}

#[test]
fn verdicts_decide_together_with_the_extension() {
    let listing = names(&["b.zip", "a.zip", "c.txt", "d.Zip", "e.zip"]);
    assert_eq!(
        select_archives(&listing, &vec![true, true, true, true, false]),
        Ok(names(&["a.zip", "b.zip", "d.Zip"]))
    );
    assert_eq!(select_archives(&listing, &vec![true]), Ok(names(&["b.zip"])));
    assert_eq!(select_archives(&listing, &vec![false, false, true]), Err(MergeError::NoMatch));
    assert_eq!(select_archives(&listing, &vec![]), Err(MergeError::NoMatch));
}

#[test]
fn listed_twice_is_kept_twice() {
    let listing = names(&["b.zip", "a.zip", "b.zip"]);
    assert_eq!(list_zip_files(&listing, "*"), Ok(names(&["a.zip", "b.zip", "b.zip"])));
}
