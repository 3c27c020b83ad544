//! Why no two entries of a run get the same destination path.

use crate::names::{
    clash_free, count_in, dup_suffix, last_dot, run_targets, seen_before, table_after,
    target_path, targets_from,
};
use crate::text::{decimal, digit, is_digit};
use vstd::prelude::*;

verus! {

/// The decimal notation of a number holds at least one character, and all
/// of them are digits.
pub proof fn lemma_decimal_digits(n: nat)
    ensures
        decimal(n).len() >= 1,
        forall|i: int| 0 <= i < decimal(n).len() ==> is_digit(#[trigger] decimal(n)[i]),
    decreases n,
{
    if n >= 10 {
        lemma_decimal_digits(n / 10);
    }
}

/// Two numbers with the same decimal notation are the same.
pub proof fn lemma_decimal_injective(a: nat, b: nat)
    requires
        decimal(a) == decimal(b),
    ensures
        a == b,
    decreases a,
{
    lemma_decimal_digits(a / 10);
    lemma_decimal_digits(b / 10);
    if a < 10 && b < 10 {
        assert(decimal(a)[0] == digit(a as int));
        assert(decimal(b)[0] == digit(b as int));
    } else if a >= 10 && b >= 10 {
        assert(decimal(a).drop_last() == decimal(a / 10));
        assert(decimal(b).drop_last() == decimal(b / 10));
        lemma_decimal_injective(a / 10, b / 10);
        assert(decimal(a).last() == digit((a % 10) as int));
        assert(decimal(b).last() == digit((b % 10) as int));
    } else if a < 10 {
        assert(decimal(a).len() == 1);
        assert(decimal(b).len() == decimal(b / 10).len() + 1);
    } else {
        assert(decimal(b).len() == 1);
        assert(decimal(a).len() == decimal(a / 10).len() + 1);
    }
}

/// The last `.` of a text is a `.`, and none stands behind it.
proof fn lemma_last_dot_is_last(s: Seq<char>)
    ensures
        -1 <= last_dot(s) < s.len(),
        last_dot(s) >= 0 ==> s[last_dot(s)] == '.',
        forall|i: int| last_dot(s) < i < s.len() ==> s[i] != '.',
    decreases s.len(),
{
    if s.len() > 0 && s.last() != '.' {
        lemma_last_dot_is_last(s.drop_last());
        assert forall|i: int| last_dot(s) < i < s.len() implies s[i] != '.' by {
            if i < s.len() - 1 {
                assert(s[i] == s.drop_last()[i]);
            }
        }
    }
}

/// A `.` with none behind it is the last one.
proof fn lemma_last_dot_found(s: Seq<char>, d: int)
    requires
        -1 <= d < s.len(),
        d >= 0 ==> s[d] == '.',
        forall|i: int| d < i < s.len() ==> s[i] != '.',
    ensures
        last_dot(s) == d,
    decreases s.len(),
{
    if s.len() > 0 && s.last() != '.' {
        lemma_last_dot_found(s.drop_last(), d);
    }
}

/// The text of a mark holds no `.`.
proof fn lemma_suffix_has_no_dot(c: nat)
    ensures
        dup_suffix(c).len() == 5 + decimal(c).len(),
        forall|i: int| 0 <= i < dup_suffix(c).len() ==> #[trigger] dup_suffix(c)[i] != '.',
{
    lemma_decimal_digits(c);
    assert forall|i: int| 0 <= i < dup_suffix(c).len() implies #[trigger] dup_suffix(c)[i]
        != '.' by {
        if i >= 5 {
            assert(dup_suffix(c)[i] == decimal(c)[i - 5]);
        }
    }
}

/// What stands before the last `.` of `s`, or all of `s` where it has none.
pub open spec fn stem_of(s: Seq<char>) -> Seq<char> {
    if last_dot(s) >= 0 {
        s.subrange(0, last_dot(s))
    } else {
        s
    }
}

/// What stands from the last `.` of `s` on, or nothing where it has none.
pub open spec fn extension_of(s: Seq<char>) -> Seq<char> {
    if last_dot(s) >= 0 {
        s.subrange(last_dot(s), s.len() as int)
    } else {
        Seq::empty()
    }
}

/// A marked path keeps the extension of its key, and its stem is the key's
/// stem with the mark behind it.
proof fn lemma_marked_parts(key: Seq<char>, c: nat)
    requires
        c >= 1,
    ensures
        key == stem_of(key) + extension_of(key),
        stem_of(target_path(key, c)) == stem_of(key) + dup_suffix(c),
        extension_of(target_path(key, c)) == extension_of(key),
{
    let t = target_path(key, c);
    let d = last_dot(key);
    lemma_last_dot_is_last(key);
    lemma_suffix_has_no_dot(c);
    let m = dup_suffix(c);
    if d >= 0 {
        let nd = d + m.len();
        assert(t == key.subrange(0, d) + m + key.subrange(d, key.len() as int));
        assert(t.len() == key.len() + m.len());
        assert(t[nd] == key[d]);
        assert forall|i: int| nd < i < t.len() implies t[i] != '.' by {
            assert(t[i] == key[i - m.len()]);
        }
        lemma_last_dot_found(t, nd);
        assert(t.subrange(0, nd) == key.subrange(0, d) + m);
        assert(t.subrange(nd, t.len() as int) == key.subrange(d, key.len() as int));
        assert(key == key.subrange(0, d) + key.subrange(d, key.len() as int));
    } else {
        assert(t == key + m);
        assert forall|i: int| -1 < i < t.len() implies t[i] != '.' by {
            if i < key.len() {
                assert(t[i] == key[i]);
            } else {
                assert(t[i] == m[i - key.len()]);
            }
        }
        lemma_last_dot_found(t, -1);
        assert(key + Seq::<char>::empty() == key);
    }
}

/// A text that ends in a mark ends in one mark only: the text before the
/// mark and the number in it can be read off.
proof fn lemma_mark_readable(s1: Seq<char>, c1: nat, s2: Seq<char>, c2: nat)
    requires
        s1 + dup_suffix(c1) == s2 + dup_suffix(c2),
    ensures
        s1 == s2,
        c1 == c2,
{
    let d1 = decimal(c1);
    let d2 = decimal(c2);
    let a = s1 + dup_suffix(c1);
    let b = s2 + dup_suffix(c2);
    lemma_decimal_digits(c1);
    lemma_decimal_digits(c2);
    assert(a.len() == s1.len() + 5 + d1.len());
    assert(b.len() == s2.len() + 5 + d2.len());
    if d1.len() < d2.len() {
        let p = a.len() - d1.len() - 1;
        assert(a[p] == dup_suffix(c1)[4]);
        assert(a[p] == 'p');
        assert(b[p] == dup_suffix(c2)[p - s2.len()]);
        assert(b[p] == d2[p - s2.len() - 5]);
        assert(is_digit(d2[p - s2.len() - 5]));
        assert(false);
    }
    if d2.len() < d1.len() {
        let p = b.len() - d2.len() - 1;
        assert(b[p] == dup_suffix(c2)[4]);
        assert(b[p] == 'p');
        assert(a[p] == dup_suffix(c1)[p - s1.len()]);
        assert(a[p] == d1[p - s1.len() - 5]);
        assert(is_digit(d1[p - s1.len() - 5]));
        assert(false);
    }
    assert(s1.len() == s2.len());
    assert forall|i: int| 0 <= i < d1.len() implies d1[i] == d2[i] by {
        assert(a[s1.len() + 5 + i] == dup_suffix(c1)[5 + i]);
        assert(b[s2.len() + 5 + i] == dup_suffix(c2)[5 + i]);
    }
    assert(d1 =~= d2);
    lemma_decimal_injective(c1, c2);
    assert forall|i: int| 0 <= i < s1.len() implies s1[i] == s2[i] by {
        assert(a[i] == s1[i]);
        assert(b[i] == s2[i]);
    }
    assert(s1 =~= s2);
}

/// Marked paths tell their keys and numbers apart: two of them are the same
/// only for the same key and the same number.
pub proof fn lemma_marked_paths_differ(k1: Seq<char>, c1: nat, k2: Seq<char>, c2: nat)
    requires
        c1 >= 1,
        c2 >= 1,
        target_path(k1, c1) == target_path(k2, c2),
    ensures
        k1 == k2,
        c1 == c2,
{
    lemma_marked_parts(k1, c1);
    lemma_marked_parts(k2, c2);
    lemma_mark_readable(stem_of(k1), c1, stem_of(k2), c2);
}

/// A marked path is longer than its key.
proof fn lemma_marked_is_longer(key: Seq<char>, c: nat)
    requires
        c >= 1,
    ensures
        target_path(key, c).len() > key.len(),
{
    lemma_last_dot_is_last(key);
    lemma_suffix_has_no_dot(c);
}

/// Every request gets a path.
proof fn lemma_targets_len(table: Map<Seq<char>, nat>, keys: Seq<Seq<char>>)
    ensures
        targets_from(table, keys).len() == keys.len(),
    decreases keys.len(),
{
    if keys.len() > 0 {
        lemma_targets_len(table, keys.drop_last());
    }
}

/// The path given to the request with index `i` depends on the requests
/// before it alone: it is the path for its key and the number of earlier
/// requests for that key.
pub proof fn lemma_target_at(table: Map<Seq<char>, nat>, keys: Seq<Seq<char>>, i: int)
    requires
        0 <= i < keys.len(),
    ensures
        targets_from(table, keys).len() == keys.len(),
        targets_from(table, keys)[i] == target_path(
            keys[i],
            count_in(table_after(table, keys.take(i)), keys[i]),
        ),
    decreases keys.len(),
{
    lemma_targets_len(table, keys);
    lemma_targets_len(table, keys.drop_last());
    if i == keys.len() - 1 {
        assert(keys.take(i) == keys.drop_last());
    } else {
        lemma_target_at(table, keys.drop_last(), i);
        assert(keys.drop_last().take(i) == keys.take(i));
    }
}

/// The count of a key never goes down as requests are made, and goes up
/// with each request for the key.
proof fn lemma_count_grows(table: Map<Seq<char>, nat>, keys: Seq<Seq<char>>, a: int, b: int, key: Seq<char>)
    requires
        0 <= a <= b <= keys.len(),
    ensures
        count_in(table_after(table, keys.take(a)), key) <= count_in(
            table_after(table, keys.take(b)),
            key,
        ),
        a < b && keys[a] == key ==> count_in(table_after(table, keys.take(a)), key) < count_in(
            table_after(table, keys.take(b)),
            key,
        ),
    decreases b - a,
{
    if a < b {
        lemma_count_grows(table, keys, a, b - 1, key);
        assert(keys.take(b).drop_last() == keys.take(b - 1));
        assert(keys.take(b).last() == keys[b - 1]);
    }
}

/// Name resolution is a function of the requests: the same requests, in the
/// same order, get the same paths.
pub proof fn lemma_resolution_deterministic(first: Seq<Seq<char>>, second: Seq<Seq<char>>)
    requires
        first == second,
    ensures
        run_targets(first) == run_targets(second),
{
}

/// No two requests of a run get the same path, as long as no key of the run
/// is itself a marked path that the run gives out. Requests for one key get
/// the key and then marks with different numbers; marked paths of different
/// keys differ, because key and number can be read off a marked path.
pub proof fn lemma_targets_distinct(keys: Seq<Seq<char>>, i: int, j: int)
    requires
        clash_free(keys),
        0 <= i < j < keys.len(),
    ensures
        run_targets(keys).len() == keys.len(),
        run_targets(keys)[i] != run_targets(keys)[j],
{
    let empty = Map::<Seq<char>, nat>::empty();
    lemma_target_at(empty, keys, i);
    lemma_target_at(empty, keys, j);
    let ci = seen_before(keys, i);
    let cj = seen_before(keys, j);
    let ti = target_path(keys[i], ci);
    let tj = target_path(keys[j], cj);
    assert(run_targets(keys)[i] == ti);
    assert(run_targets(keys)[j] == tj);
    if ti == tj {
        if keys[i] == keys[j] {
            lemma_count_grows(empty, keys, i, j, keys[i]);
            assert(ci < cj);
            if ci == 0 {
                lemma_marked_is_longer(keys[j], cj);
            } else {
                lemma_marked_paths_differ(keys[i], ci, keys[j], cj);
            }
        } else if ci >= 1 && cj >= 1 {
            lemma_marked_paths_differ(keys[i], ci, keys[j], cj);
        } else if ci >= 1 {
            assert(keys[j] != target_path(keys[i], seen_before(keys, i)));
        } else if cj >= 1 {
            assert(keys[i] != target_path(keys[j], seen_before(keys, j)));
        }
        assert(false);
    }
}

/// A key with a count above zero was asked for.
proof fn lemma_counted_key_was_asked_for(keys: Seq<Seq<char>>, key: Seq<char>) -> (c: int)
    requires
        count_in(table_after(Map::empty(), keys), key) > 0,
    ensures
        0 <= c < keys.len(),
        keys[c] == key,
    decreases keys.len(),
{
    if keys.last() == key {
        keys.len() - 1
    } else {
        lemma_counted_key_was_asked_for(keys.drop_last(), key)
    }
}

/// Every key of a run has a first request, before which it was not
/// counted.
proof fn lemma_first_request(keys: Seq<Seq<char>>, b: int) -> (f: int)
    requires
        0 <= b < keys.len(),
    ensures
        0 <= f <= b,
        keys[f] == keys[b],
        seen_before(keys, f) == 0,
    decreases b,
{
    if seen_before(keys, b) == 0 {
        b
    } else {
        let c = lemma_counted_key_was_asked_for(keys.take(b), keys[b]);
        assert(keys.take(b)[c] == keys[c]);
        lemma_first_request(keys, c)
    }
}

/// The condition of `lemma_targets_distinct` leaves out the runs in which
/// two requests get the same path, and no others: where a key of the run is
/// a marked path that the run gives out, the first request for that key gets
/// the same path as the repeated request that was given the mark.
pub proof fn lemma_clash_repeats_a_path(keys: Seq<Seq<char>>, a: int, b: int) -> (f: int)
    requires
        0 <= a < keys.len(),
        0 <= b < keys.len(),
        seen_before(keys, a) >= 1,
        keys[b] == target_path(keys[a], seen_before(keys, a)),
    ensures
        0 <= f < keys.len(),
        f != a,
        run_targets(keys).len() == keys.len(),
        run_targets(keys)[f] == run_targets(keys)[a],
{
    let f = lemma_first_request(keys, b);
    lemma_target_at(Map::empty(), keys, f);
    lemma_target_at(Map::empty(), keys, a);
    f
}

} // verus!
