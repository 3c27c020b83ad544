//! Destination paths: which entries are left out, and how an entry whose
//! path was asked for before gets a path with a mark in it.
//!
//! The module `uniqueness` shows when the paths of a run are all different.

use crate::text::{chars_of, decimal, ends_with, push_all, push_decimal, starts_with, text_of};
use vstd::hash_map::StringHashMap;
use vstd::prelude::*;

verus! {

/// Whether an entry with the raw path `p` is left out of the merge: an empty
/// path, a path that begins with `__MACOSX/`, and a path that ends in
/// `.DS_Store`.
pub open spec fn skipped(p: Seq<char>) -> bool {
    p.len() == 0 || "__MACOSX/"@.is_prefix_of(p) || ".DS_Store"@.is_suffix_of(p)
}

/// Whether the entry with the raw path `p` is dropped before name resolution.
pub fn should_skip(p: &str) -> (b: bool)
    ensures
        b == skipped(p@),
{
    let v = chars_of(p);
    if v.len() == 0 {
        return true;
    }
    let folder = chars_of("__MACOSX/");
    if starts_with(&v, &folder) {
        return true;
    }
    let file = chars_of(".DS_Store");
    ends_with(&v, &file)
}

/// Whether `c` separates the components of a path.
pub open spec fn is_separator(c: char) -> bool {
    c == '/' || c == '\\'
}

/// `s` without the separators it begins with.
pub open spec fn strip_leading(s: Seq<char>) -> Seq<char>
    decreases s.len(),
{
    if s.len() > 0 && is_separator(s[0]) {
        strip_leading(s.drop_first())
    } else {
        s
    }
}

/// `s` with every backslash turned into a forward slash.
pub open spec fn slashed(s: Seq<char>) -> Seq<char> {
    Seq::new(
        s.len(),
        |i: int|
            if s[i] == '\\' {
                '/'
            } else {
                s[i]
            },
    )
}

/// The index of the last `.` in `s`, or -1 where `s` holds none.
pub open spec fn last_dot(s: Seq<char>) -> int
    decreases s.len(),
{
    if s.len() == 0 {
        -1
    } else if s.last() == '.' {
        s.len() - 1
    } else {
        last_dot(s.drop_last())
    }
}

/// The name of an archive file without its extension: what stands before the
/// last `.`, or the whole name where it holds no `.` or only begins with one.
/// The names `.` and `..` stand for no file and have an empty stem.
pub open spec fn archive_stem(name: Seq<char>) -> Seq<char> {
    if name == seq!['.'] || name == seq!['.', '.'] {
        Seq::empty()
    } else if last_dot(name) <= 0 {
        name
    } else {
        name.subrange(0, last_dot(name))
    }
}

/// The key under which the dedup table counts an entry: the raw path without
/// leading separators, behind `<archive stem>/` where entries are prefixed by
/// their archive, with forward slashes throughout.
pub open spec fn candidate_key(prefix_by_zip: bool, zip_name: Seq<char>, inner: Seq<char>) -> Seq<
    char,
> {
    let base = strip_leading(inner);
    if prefix_by_zip {
        slashed(archive_stem(zip_name) + seq!['/'] + base)
    } else {
        slashed(base)
    }
}

/// What is put into a path that was asked for before: `__dup` and the number
/// of earlier requests.
pub open spec fn dup_suffix(count: nat) -> Seq<char> {
    seq!['_', '_', 'd', 'u', 'p'] + decimal(count)
}

/// The destination path for the request number `count` (from 0) of `key`.
/// The first request gets the key itself. A later one gets the key with
/// `__dup<count>` in front of its last `.`, or at its end where it has none.
pub open spec fn target_path(key: Seq<char>, count: nat) -> Seq<char> {
    if count == 0 {
        key
    } else if last_dot(key) >= 0 {
        key.subrange(0, last_dot(key)) + dup_suffix(count) + key.subrange(
            last_dot(key),
            key.len() as int,
        )
    } else {
        key + dup_suffix(count)
    }
}

/// The number of requests that `table` holds for `key`: zero for a key that
/// was never asked for.
pub open spec fn count_in(table: Map<Seq<char>, nat>, key: Seq<char>) -> nat {
    if table.contains_key(key) {
        table[key]
    } else {
        0
    }
}

/// The table after requests for `keys`, one after the other.
pub open spec fn table_after(table: Map<Seq<char>, nat>, keys: Seq<Seq<char>>) -> Map<
    Seq<char>,
    nat,
>
    decreases keys.len(),
{
    if keys.len() == 0 {
        table
    } else {
        let t = table_after(table, keys.drop_last());
        t.insert(keys.last(), count_in(t, keys.last()) + 1)
    }
}

/// The destination paths given to requests for `keys`, one after the other,
/// starting from `table`.
pub open spec fn targets_from(table: Map<Seq<char>, nat>, keys: Seq<Seq<char>>) -> Seq<Seq<char>>
    decreases keys.len(),
{
    if keys.len() == 0 {
        Seq::empty()
    } else {
        targets_from(table, keys.drop_last()).push(
            target_path(keys.last(), count_in(table_after(table, keys.drop_last()), keys.last())),
        )
    }
}

/// The destination paths of a run that asks for `keys`, one after the other,
/// starting with an empty table.
pub open spec fn run_targets(keys: Seq<Seq<char>>) -> Seq<Seq<char>> {
    targets_from(Map::empty(), keys)
}

/// The number of requests, in a run that asks for `keys`, for the key at
/// index `i` before that request.
pub open spec fn seen_before(keys: Seq<Seq<char>>, i: int) -> nat {
    count_in(table_after(Map::empty(), keys.take(i)), keys[i])
}

/// Whether no key of the run is itself a path that the run gives to a
/// repeated request: no key `keys[b]` is what a second or later request for
/// some key is resolved to.
pub open spec fn clash_free(keys: Seq<Seq<char>>) -> bool {
    forall|a: int, b: int|
        #![trigger keys[a], keys[b]]
        0 <= a < keys.len() && 0 <= b < keys.len() && seen_before(keys, a) >= 1 ==> keys[b]
            != target_path(keys[a], seen_before(keys, a))
}

/// How often each key has been asked for in this run.
pub struct DedupTable {
    counts: StringHashMap<usize>,
    requests: usize,
}

impl View for DedupTable {
    type V = Map<Seq<char>, nat>;

    /// The keys asked for so far, each with the number of requests for it.
    closed spec fn view(&self) -> Map<Seq<char>, nat> {
        Map::new(|k: Seq<char>| self.counts@.contains_key(k), |k: Seq<char>| self.counts@[k] as nat)
    }
}

impl DedupTable {
    /// The number of names resolved through this table.
    pub closed spec fn requests(&self) -> nat {
        self.requests as nat
    }

    /// No key was asked for more often than names were resolved, and none is
    /// recorded with a count of zero.
    pub closed spec fn wf(&self) -> bool {
        forall|k: Seq<char>| #[trigger]
            self.counts@.contains_key(k) ==> 1 <= self.counts@[k] <= self.requests
    }

    /// The number of requests so far for `key`.
    pub open spec fn count(&self, key: Seq<char>) -> nat {
        count_in(self@, key)
    }

    /// A table in which nothing has been asked for.
    pub fn new() -> (t: DedupTable)
        ensures
            t.wf(),
            t@ == Map::<Seq<char>, nat>::empty(),
            t.requests() == 0,
    {
        let t = DedupTable { counts: StringHashMap::new(), requests: 0 };
        assert(t@ =~= Map::<Seq<char>, nat>::empty());
        t
    }

    /// The number of names resolved through this table.
    pub fn resolved(&self) -> (n: usize)
        ensures
            n == self.requests(),
    {
        self.requests
    }

    /// The number of requests so far for `key`.
    pub fn seen(&self, key: &str) -> (n: usize)
        ensures
            n == self.count(key@),
    {
        match self.counts.get(key) {
            Some(c) => *c,
            None => 0,
        }
    }

    /// Counts one more request for `key` and returns the number of earlier
    /// ones.
    fn bump(&mut self, key: String) -> (n: usize)
        requires
            old(self).wf(),
            old(self).requests() < usize::MAX,
        ensures
            final(self).wf(),
            n == old(self).count(key@),
            final(self)@ == old(self)@.insert(key@, n as nat + 1),
            final(self).requests() == old(self).requests() + 1,
    {
        let n = self.seen(key.as_str());
        self.requests = self.requests + 1;
        self.counts.insert(key, n + 1);
        assert(self@ =~= old(self)@.insert(key@, n as nat + 1));
        n
    }
}

/// The number of separators that `s` begins with.
fn leading_separators(s: &Vec<char>) -> (i: usize)
    ensures
        i <= s.len(),
        s@.subrange(i as int, s.len() as int) == strip_leading(s@),
{
    let mut i: usize = 0;
    assert(s@.subrange(0, s.len() as int) == s@);
    while i < s.len() && (s[i] == '/' || s[i] == '\\')
        invariant
            i <= s.len(),
            strip_leading(s@.subrange(i as int, s.len() as int)) == strip_leading(s@),
        decreases s.len() - i,
    {
        assert(s@.subrange(i as int, s.len() as int).drop_first() == s@.subrange(
            i + 1,
            s.len() as int,
        ));
        i += 1;
    }
    i
}

/// The index of the last `.` in `s`.
fn find_last_dot(s: &Vec<char>) -> (r: Option<usize>)
    ensures
        match r {
            Some(i) => i == last_dot(s@) && i < s.len(),
            None => last_dot(s@) == -1,
        },
{
    let mut i: usize = s.len();
    assert(s@.take(i as int) == s@);
    while i > 0
        invariant
            i <= s.len(),
            last_dot(s@.take(i as int)) == last_dot(s@),
        decreases i,
    {
        if s[i - 1] == '.' {
            return Some(i - 1);
        }
        assert(s@.take(i as int).drop_last() == s@.take(i - 1));
        i -= 1;
    }
    None
}

/// Appends `s[from..to]` to `out`, with forward slashes for backslashes.
fn push_slashed(out: &mut Vec<char>, s: &Vec<char>, from: usize, to: usize)
    requires
        from <= to <= s.len(),
    ensures
        final(out)@ == old(out)@ + slashed(s@.subrange(from as int, to as int)),
{
    let mut i: usize = from;
    while i < to
        invariant
            from <= i <= to <= s.len(),
            out@ == old(out)@ + slashed(s@.subrange(from as int, i as int)),
        decreases to - i,
    {
        let c = s[i];
        if c == '\\' {
            out.push('/');
        } else {
            out.push(c);
        }
        assert(slashed(s@.subrange(from as int, i + 1)) == slashed(
            s@.subrange(from as int, i as int),
        ).push(
            if c == '\\' {
                '/'
            } else {
                c
            },
        ));
        i += 1;
    }
}

/// Appends `s[from..to]` to `out`.
fn push_range(out: &mut Vec<char>, s: &Vec<char>, from: usize, to: usize)
    requires
        from <= to <= s.len(),
    ensures
        final(out)@ == old(out)@ + s@.subrange(from as int, to as int),
{
    let mut i: usize = from;
    while i < to
        invariant
            from <= i <= to <= s.len(),
            out@ == old(out)@ + s@.subrange(from as int, i as int),
        decreases to - i,
    {
        out.push(s[i]);
        assert(s@.subrange(from as int, i + 1) == s@.subrange(from as int, i as int).push(
            s@[i as int],
        ));
        i += 1;
    }
}

/// The length of the stem of the archive name `name`.
fn stem_len(name: &Vec<char>) -> (n: usize)
    ensures
        n <= name.len(),
        name@.subrange(0, n as int) == archive_stem(name@),
{
    if (name.len() == 1 && name[0] == '.') || (name.len() == 2 && name[0] == '.' && name[1]
        == '.') {
        assert(name@ == seq!['.'] || name@ == seq!['.', '.']);
        return 0;
    }
    assert(name@ != seq!['.'] && name@ != seq!['.', '.']) by {
        if name@ == seq!['.'] {
            assert(name@.len() == 1 && name@[0] == '.');
        }
        if name@ == seq!['.', '.'] {
            assert(name@.len() == 2 && name@[0] == '.' && name@[1] == '.');
        }
    }
    match find_last_dot(name) {
        Some(d) => {
            if d == 0 {
                assert(name@.subrange(0, name.len() as int) == name@);
                name.len()
            } else {
                d
            }
        },
        None => {
            assert(name@.subrange(0, name.len() as int) == name@);
            name.len()
        },
    }
}

/// Resolves the destination path of one entry and records the request.
/// The table must have room to count one more request.
///
/// `zip_name` is the file name of the archive that holds the entry, `inner`
/// the entry's raw path in it. The entry's key is counted in `dedup`; the
/// path returned is the key itself on the first request for it and the key
/// with a `__dup<n>` mark on the request number `n`.
pub fn map_target(prefix_by_zip: bool, zip_name: &str, inner: &str, dedup: &mut DedupTable) -> (target:
    String)
    requires
        old(dedup).wf(),
        old(dedup).requests() < usize::MAX,
    ensures
        final(dedup).wf(),
        target@ == target_path(
            candidate_key(prefix_by_zip, zip_name@, inner@),
            old(dedup).count(candidate_key(prefix_by_zip, zip_name@, inner@)),
        ),
        final(dedup)@ == old(dedup)@.insert(
            candidate_key(prefix_by_zip, zip_name@, inner@),
            old(dedup).count(candidate_key(prefix_by_zip, zip_name@, inner@)) + 1,
        ),
        final(dedup).requests() == old(dedup).requests() + 1,
{
    let raw = chars_of(inner);
    let start = leading_separators(&raw);
    let ghost base = strip_leading(inner@);
    let mut key: Vec<char> = Vec::new();
    if prefix_by_zip {
        let name = chars_of(zip_name);
        let n = stem_len(&name);
        let mut joined: Vec<char> = Vec::new();
        push_range(&mut joined, &name, 0, n);
        joined.push('/');
        push_range(&mut joined, &raw, start, raw.len());
        assert(joined@ == archive_stem(zip_name@) + seq!['/'] + base);
        push_slashed(&mut key, &joined, 0, joined.len());
        assert(joined@.subrange(0, joined.len() as int) == joined@);
    } else {
        push_slashed(&mut key, &raw, start, raw.len());
    }
    assert(key@ == candidate_key(prefix_by_zip, zip_name@, inner@));
    let count = dedup.bump(text_of(&key));
    if count == 0 {
        return text_of(&key);
    }
    let mut out: Vec<char> = Vec::new();
    match find_last_dot(&key) {
        Some(dot) => {
            push_range(&mut out, &key, 0, dot);
            out.push('_');
            out.push('_');
            out.push('d');
            out.push('u');
            out.push('p');
            push_decimal(&mut out, count as u128);
            push_range(&mut out, &key, dot, key.len());
            assert(out@ == target_path(key@, count as nat));
        },
        None => {
            push_all(&mut out, &key);
            out.push('_');
            out.push('_');
            out.push('d');
            out.push('u');
            out.push('p');
            push_decimal(&mut out, count as u128);
            assert(out@ == target_path(key@, count as nat));
        },
    }
    text_of(&out)
}

} // verus!
