//! Which files of the input directory are source archives, and in which
//! order they are merged.
//!
//! The caller lists the directory and hands over the names of its files. A
//! name is a candidate when it ends in `.zip`, whatever the case of its
//! letters, and the filter, a glob pattern, matches it. The candidates are
//! merged in the order of their names.

use crate::error::MergeError;
use crate::text::{chars_of, ends_with, lowercase_of, text_of};
use glob::{Pattern, PatternError};
use vstd::prelude::*;
use vstd::seq_lib::to_multiset_insert;

verus! {

/// A compiled glob pattern of the crate `glob`. Its contents are not read
/// here; `pattern_text` stands for the text it was compiled from.
#[verifier::external_type_specification]
#[verifier::external_body]
pub struct ExPattern(Pattern);

/// The error with which `glob` refuses a pattern.
#[verifier::external_type_specification]
#[verifier::external_body]
pub struct ExPatternError(PatternError);

/// The text that a compiled pattern was made from, which it keeps and hands
/// out as `Pattern::as_str`.
pub uninterp spec fn pattern_text(p: Pattern) -> Seq<char>;

/// Whether `glob` accepts the text as a pattern.
pub uninterp spec fn glob_accepts(pattern: Seq<char>) -> bool;

/// Whether the pattern made from the text `pattern` matches all of `name`,
/// with the options that `Pattern::matches` uses.
pub uninterp spec fn glob_matches(pattern: Seq<char>, name: Seq<char>) -> bool;

/// Whether `s` holds no backslash.
pub open spec fn no_backslash(s: Seq<char>) -> bool {
    forall|i: int| 0 <= i < s.len() ==> s[i] != '\\'
}

/// Whether `s` can be the name of a file in a directory on every system: it
/// holds neither a slash nor a backslash.
pub open spec fn plain_name(s: Seq<char>) -> bool {
    forall|i: int| 0 <= i < s.len() ==> s[i] != '/' && s[i] != '\\'
}

/// `Pattern::new` compiles a pattern and keeps its text. Whether it accepts
/// a text depends on the text alone as long as the text holds no backslash;
/// with a backslash, which only Windows reads as a path separator, the
/// answer for `**` differs between systems, and nothing is said of it.
pub assume_specification[ Pattern::new ](pattern: &str) -> (r: Result<Pattern, PatternError>)
    ensures
        r matches Ok(p) ==> pattern_text(p) == pattern@,
        no_backslash(pattern@) ==> (r is Ok <==> glob_accepts(pattern@)),
;

/// `Pattern::matches` tells whether the pattern matches the whole of `str`.
/// The answer depends on the pattern's text and on `str` alone as long as
/// the pattern holds no backslash and `str` no path separator; otherwise it
/// depends on what the system takes for a separator, and nothing is said of
/// it.
pub assume_specification[ Pattern::matches ](p: &Pattern, str: &str) -> (b: bool)
    ensures
        no_backslash(pattern_text(*p)) && plain_name(str@) ==> b == glob_matches(
            pattern_text(*p),
            str@,
        ),
;

/// The texts of the strings in `v`.
pub open spec fn texts(v: Seq<String>) -> Seq<Seq<char>> {
    Seq::new(v.len(), |i: int| v[i]@)
}

/// The texts of the character rows in `v`.
pub open spec fn row_texts(v: Seq<Vec<char>>) -> Seq<Seq<char>> {
    Seq::new(v.len(), |i: int| v[i]@)
}

/// Whether a file of this name is taken for an archive: its name in
/// lowercase ends in `.zip`.
pub open spec fn has_zip_extension(name: Seq<char>) -> bool {
    seq!['.', 'z', 'i', 'p'].is_suffix_of(lowercase_of(name))
}

/// The order of names: `a` comes before `b`, or is `b`, when it is a prefix
/// of `b` or holds the smaller character at the first place where the two
/// differ. Characters compare by code point, which is also the order of
/// their UTF-8 bytes.
pub open spec fn lex_le(a: Seq<char>, b: Seq<char>) -> bool
    decreases a.len(),
{
    if a.len() == 0 {
        true
    } else if b.len() == 0 {
        false
    } else if a[0] != b[0] {
        a[0] < b[0]
    } else {
        lex_le(a.drop_first(), b.drop_first())
    }
}

/// Whether the names stand in ascending order.
pub open spec fn sorted(s: Seq<Seq<char>>) -> bool {
    forall|i: int, j: int| 0 <= i < j < s.len() ==> lex_le(#[trigger] s[i], #[trigger] s[j])
}

/// The names that are kept, in the order of the listing: those that end in
/// `.zip` and for which the verdict of the filter, at the same index, is
/// yes. A name without a verdict is not kept.
pub open spec fn chosen(names: Seq<Seq<char>>, verdicts: Seq<bool>) -> Seq<Seq<char>>
    decreases names.len(),
{
    if names.len() == 0 {
        Seq::empty()
    } else {
        let i = names.len() - 1;
        let rest = chosen(names.drop_last(), verdicts);
        if i < verdicts.len() && verdicts[i] && has_zip_extension(names[i]) {
            rest.push(names[i])
        } else {
            rest
        }
    }
}

/// The verdicts of the filter `pattern` on `names`, where they depend on the
/// texts alone.
pub open spec fn filter_verdicts(pattern: Seq<char>, names: Seq<Seq<char>>) -> Seq<bool> {
    Seq::new(names.len(), |i: int| glob_matches(pattern, names[i]))
}

/// Whether `r` is the inventory for the names and verdicts: the kept names
/// in ascending order, each as often as it is listed, or `NoMatch` where no
/// name is kept.
pub open spec fn inventory_of(
    names: Seq<Seq<char>>,
    verdicts: Seq<bool>,
    r: Result<Vec<String>, MergeError>,
) -> bool {
    match r {
        Ok(out) => {
            &&& out.len() > 0
            &&& sorted(texts(out@))
            &&& texts(out@).to_multiset() == chosen(names, verdicts).to_multiset()
        },
        Err(e) => e == MergeError::NoMatch && chosen(names, verdicts).len() == 0,
    }
}

/// Whether the verdicts are those of the filter wherever its answer depends
/// on the texts alone.
pub open spec fn verdicts_agree(pattern: Seq<char>, names: Seq<Seq<char>>, verdicts: Seq<bool>) -> bool {
    &&& verdicts.len() == names.len()
    &&& no_backslash(pattern) ==> forall|i: int|
        0 <= i < names.len() && plain_name(names[i]) ==> #[trigger] verdicts[i] == glob_matches(
            pattern,
            names[i],
        )
}

/// Of two names, one comes before the other or they are the same.
pub proof fn lemma_lex_total(a: Seq<char>, b: Seq<char>)
    ensures
        lex_le(a, b) || lex_le(b, a),
    decreases a.len(),
{
    if a.len() > 0 && b.len() > 0 && a[0] == b[0] {
        lemma_lex_total(a.drop_first(), b.drop_first());
    }
}

/// The order of names is transitive.
pub proof fn lemma_lex_transitive(a: Seq<char>, b: Seq<char>, c: Seq<char>)
    requires
        lex_le(a, b),
        lex_le(b, c),
    ensures
        lex_le(a, c),
    decreases a.len(),
{
    if a.len() > 0 && b.len() > 0 && c.len() > 0 && a[0] == b[0] && b[0] == c[0] {
        lemma_lex_transitive(a.drop_first(), b.drop_first(), c.drop_first());
    }
}

/// Whether `a` comes before `b` or is `b`.
fn name_le(a: &Vec<char>, b: &Vec<char>) -> (r: bool)
    ensures
        r == lex_le(a@, b@),
{
    let mut i: usize = 0;
    assert(a@.skip(0) == a@ && b@.skip(0) == b@);
    while i < a.len() && i < b.len()
        invariant
            i <= a.len(),
            i <= b.len(),
            lex_le(a@, b@) == lex_le(a@.skip(i as int), b@.skip(i as int)),
        decreases a.len() - i,
    {
        if a[i] != b[i] {
            return a[i] < b[i];
        }
        assert(a@.skip(i as int).drop_first() == a@.skip(i + 1));
        assert(b@.skip(i as int).drop_first() == b@.skip(i + 1));
        i += 1;
    }
    i == a.len()
}

/// Puts `name` into the sorted `rows`, behind the names that come before it
/// or are the same.
fn insert_sorted(rows: &mut Vec<Vec<char>>, name: Vec<char>)
    requires
        sorted(row_texts(old(rows)@)),
    ensures
        sorted(row_texts(final(rows)@)),
        exists|j: int|
            0 <= j <= old(rows).len() && final(rows)@ == #[trigger] old(rows)@.insert(j, name),
{
    let ghost before = row_texts(rows@);
    let mut j: usize = 0;
    while j < rows.len() && name_le(&rows[j], &name)
        invariant
            j <= rows.len(),
            rows@ == old(rows)@,
            before == row_texts(rows@),
            forall|k: int| 0 <= k < j ==> lex_le(#[trigger] before[k], name@),
        decreases rows.len() - j,
    {
        j += 1;
    }
    rows.insert(j, name);
    proof {
        let after = row_texts(rows@);
        assert forall|x: int, y: int| 0 <= x < y < after.len() implies lex_le(
            #[trigger] after[x],
            #[trigger] after[y],
        ) by {
            let ox = if x < j {
                x
            } else {
                x - 1
            };
            let oy = if y < j {
                y
            } else {
                y - 1
            };
            if x == j {
                assert(after[y] == before[oy]);
                lemma_lex_total(before[j as int], name@);
                if oy > j {
                    assert(lex_le(before[j as int], before[oy]));
                    lemma_lex_transitive(name@, before[j as int], before[oy]);
                }
            } else if y == j {
                assert(after[x] == before[ox]);
            } else {
                assert(after[x] == before[ox]);
                assert(after[y] == before[oy]);
            }
        }
    }
}

/// Whether a file of this name is taken for an archive.
fn is_zip_name(name: &str) -> (b: bool)
    ensures
        b == has_zip_extension(name@),
{
    let lower = name.to_lowercase();
    let v = chars_of(lower.as_str());
    let mut ext: Vec<char> = Vec::new();
    ext.push('.');
    ext.push('z');
    ext.push('i');
    ext.push('p');
    assert(ext@ == seq!['.', 'z', 'i', 'p']);
    ends_with(&v, &ext)
}

/// Makes the inventory from a listing and the verdicts of the filter on it.
///
/// `verdicts[i]` says whether the filter matches `names[i]`. The result holds
/// the names that end in `.zip` and have a verdict of yes, in ascending
/// order; where there is none, the result is `NoMatch`.
pub fn select_archives(names: &Vec<String>, verdicts: &Vec<bool>) -> (r: Result<
    Vec<String>,
    MergeError,
>)
    ensures
        inventory_of(texts(names@), verdicts@, r),
{
    let mut rows: Vec<Vec<char>> = Vec::new();
    let ghost all = texts(names@);
    let mut i: usize = 0;
    assert(all.take(0) == Seq::<Seq<char>>::empty());
    assert(row_texts(rows@) == Seq::<Seq<char>>::empty());
    while i < names.len()
        invariant
            i <= names.len(),
            all == texts(names@),
            sorted(row_texts(rows@)),
            row_texts(rows@).to_multiset() == chosen(
                all.take(i as int),
                verdicts@,
            ).to_multiset(),
        decreases names.len() - i,
    {
        let name = names[i].as_str();
        let ghost prev = row_texts(rows@);
        proof {
            assert(all.take(i + 1).drop_last() == all.take(i as int));
            assert(all.take(i + 1)[i as int] == name@);
        }
        if i < verdicts.len() && verdicts[i] && is_zip_name(name) {
            let row = chars_of(name);
            let ghost old_rows = rows@;
            insert_sorted(&mut rows, row);
            proof {
                let j = choose|j: int|
                    0 <= j <= old_rows.len() && rows@ == #[trigger] old_rows.insert(j, row);
                let next = row_texts(rows@);
                assert(next == prev.insert(j, name@));
                to_multiset_insert(prev, j, name@);
                vstd::seq_lib::to_multiset_build(chosen(all.take(i as int), verdicts@), name@);
            }
        }
        i += 1;
    }
    assert(all.take(names.len() as int) == all);
    if rows.len() == 0 {
        proof {
            let kept = chosen(all, verdicts@);
            vstd::seq_lib::to_multiset_len(kept);
            vstd::seq_lib::to_multiset_len(row_texts(rows@));
        }
        return Err(MergeError::NoMatch);
    }
    let mut out: Vec<String> = Vec::new();
    let mut k: usize = 0;
    while k < rows.len()
        invariant
            k <= rows.len(),
            out.len() == k,
            forall|m: int| 0 <= m < k ==> (#[trigger] out[m])@ == rows[m]@,
        decreases rows.len() - k,
    {
        out.push(text_of(&rows[k]));
        k += 1;
    }
    assert(texts(out@) == row_texts(rows@));
    Ok(out)
}

/// Lists the source archives among the files of the input directory.
///
/// `names` holds the names of the files in the directory, `pattern` the
/// filter. The result holds the names that end in `.zip`, in any case of the
/// letters, and that the filter matches, in ascending order. A filter that
/// `glob` does not accept gives `InvalidInput`; where no name is left, the
/// result is `NoMatch`.
pub fn list_zip_files(names: &Vec<String>, pattern: &str) -> (r: Result<Vec<String>, MergeError>)
    ensures
        r == Err::<Vec<String>, MergeError>(MergeError::InvalidInput) || exists|v: Seq<bool>|
            #[trigger] verdicts_agree(pattern@, texts(names@), v) && inventory_of(
                texts(names@),
                v,
                r,
            ),
        no_backslash(pattern@) ==> (r == Err::<Vec<String>, MergeError>(MergeError::InvalidInput)
            <==> !glob_accepts(pattern@)),
        no_backslash(pattern@) && glob_accepts(pattern@) && (forall|i: int|
            0 <= i < names.len() ==> plain_name(#[trigger] names[i]@)) ==> inventory_of(
            texts(names@),
            filter_verdicts(pattern@, texts(names@)),
            r,
        ),
{
    let compiled = match Pattern::new(pattern) {
        Ok(p) => p,
        Err(_) => {
            return Err(MergeError::InvalidInput);
        },
    };
    let mut verdicts: Vec<bool> = Vec::new();
    let mut i: usize = 0;
    while i < names.len()
        invariant
            i <= names.len(),
            verdicts.len() == i,
            pattern_text(compiled) == pattern@,
            no_backslash(pattern@) ==> forall|k: int|
                0 <= k < i && plain_name(names[k]@) ==> #[trigger] verdicts[k] == glob_matches(
                    pattern@,
                    names[k]@,
                ),
        decreases names.len() - i,
    {
        let b = compiled.matches(names[i].as_str());
        verdicts.push(b);
        i += 1;
    }
    let r = select_archives(names, &verdicts);
    proof {
        assert(verdicts_agree(pattern@, texts(names@), verdicts@));
        if no_backslash(pattern@) && (forall|i: int|
            0 <= i < names.len() ==> plain_name(#[trigger] names[i]@)) {
            assert(verdicts@ == filter_verdicts(pattern@, texts(names@)));
        }
    }
    r
}

} // verus!
