//! The plan of a merge: which entries of an archive are copied, and under
//! which destination paths.
//!
//! The caller opens the archives and copies the bytes. For each archive it
//! hands over what the archive lists and gets back the entries to copy, in
//! the archive's own order, each with the path to write it under.

use crate::names::{
    candidate_key, map_target, should_skip, skipped, table_after, targets_from, DedupTable,
};
use crate::progress::{after_events, events_sum, lemma_overall_done_monotonic, ProgressState};
use crate::totals::{uncompressed_sum, EntryRecord};
use vstd::prelude::*;

verus! {

/// Whether an entry is copied to the destination: it is no directory, and
/// its path is not one of those left out.
pub open spec fn is_copied(e: EntryRecord) -> bool {
    !e.is_dir && !skipped(e.path@)
}

/// The indices of the entries that are copied, in ascending order.
pub open spec fn copied_indices(entries: Seq<EntryRecord>) -> Seq<int>
    decreases entries.len(),
{
    if entries.len() == 0 {
        Seq::empty()
    } else if is_copied(entries.last()) {
        copied_indices(entries.drop_last()).push(entries.len() - 1)
    } else {
        copied_indices(entries.drop_last())
    }
}

/// The keys of the entries that are copied, in the order of the entries.
pub open spec fn keys_of(prefix_by_zip: bool, zip_name: Seq<char>, entries: Seq<EntryRecord>) -> Seq<
    Seq<char>,
>
    decreases entries.len(),
{
    if entries.len() == 0 {
        Seq::empty()
    } else if is_copied(entries.last()) {
        keys_of(prefix_by_zip, zip_name, entries.drop_last()).push(
            candidate_key(prefix_by_zip, zip_name, entries.last().path@),
        )
    } else {
        keys_of(prefix_by_zip, zip_name, entries.drop_last())
    }
}

/// The sizes of the entries that are copied, added up.
pub open spec fn copied_sum(entries: Seq<EntryRecord>) -> nat
    decreases entries.len(),
{
    if entries.len() == 0 {
        0
    } else if is_copied(entries.last()) {
        copied_sum(entries.drop_last()) + entries.last().size as nat
    } else {
        copied_sum(entries.drop_last())
    }
}

/// One entry to copy: where it stands in its archive, the path to write it
/// under, and the size of its contents.
#[derive(Debug)]
pub struct PlannedEntry {
    pub index: usize,
    pub target: String,
    pub size: u64,
}

/// The indices of the planned entries.
pub open spec fn plan_indices(plan: Seq<PlannedEntry>) -> Seq<int> {
    Seq::new(plan.len(), |i: int| plan[i].index as int)
}

/// The destination paths of the planned entries.
pub open spec fn plan_targets(plan: Seq<PlannedEntry>) -> Seq<Seq<char>> {
    Seq::new(plan.len(), |i: int| plan[i].target@)
}

/// The keys of two lists of entries of one archive, one behind the other,
/// are the keys of each, one behind the other.
pub proof fn lemma_keys_additive(
    prefix_by_zip: bool,
    zip_name: Seq<char>,
    a: Seq<EntryRecord>,
    b: Seq<EntryRecord>,
)
    ensures
        keys_of(prefix_by_zip, zip_name, a + b) == keys_of(prefix_by_zip, zip_name, a) + keys_of(
            prefix_by_zip,
            zip_name,
            b,
        ),
    decreases b.len(),
{
    if b.len() == 0 {
        assert(a + b == a);
    } else {
        lemma_keys_additive(prefix_by_zip, zip_name, a, b.drop_last());
        assert((a + b).drop_last() == a + b.drop_last());
        assert((a + b).last() == b.last());
    }
}

/// An entry that is left out leaves no trace: with or without it among the
/// entries of an archive, the same keys are asked for, so the dedup table
/// and every destination path are the same.
pub proof fn lemma_skipped_entry_ignored(
    prefix_by_zip: bool,
    zip_name: Seq<char>,
    before: Seq<EntryRecord>,
    e: EntryRecord,
    after: Seq<EntryRecord>,
    table: Map<Seq<char>, nat>,
)
    requires
        e.is_dir || skipped(e.path@),
    ensures
        keys_of(prefix_by_zip, zip_name, before.push(e) + after) == keys_of(
            prefix_by_zip,
            zip_name,
            before + after,
        ),
        table_after(table, keys_of(prefix_by_zip, zip_name, before.push(e) + after))
            == table_after(table, keys_of(prefix_by_zip, zip_name, before + after)),
        targets_from(table, keys_of(prefix_by_zip, zip_name, before.push(e) + after))
            == targets_from(table, keys_of(prefix_by_zip, zip_name, before + after)),
{
    lemma_keys_additive(prefix_by_zip, zip_name, before.push(e), after);
    lemma_keys_additive(prefix_by_zip, zip_name, before, after);
    assert(before.push(e).drop_last() == before);
}

/// Requests made in two rounds, such as for two archives, give the table
/// and the paths of one round that holds them all.
pub proof fn lemma_requests_compose(
    table: Map<Seq<char>, nat>,
    first: Seq<Seq<char>>,
    second: Seq<Seq<char>>,
)
    ensures
        table_after(table, first + second) == table_after(table_after(table, first), second),
        targets_from(table, first + second) == targets_from(table, first) + targets_from(
            table_after(table, first),
            second,
        ),
    decreases second.len(),
{
    if second.len() == 0 {
        assert(first + second == first);
    } else {
        lemma_requests_compose(table, first, second.drop_last());
        assert((first + second).drop_last() == first + second.drop_last());
        assert((first + second).last() == second.last());
    }
}

/// The entries that are copied hold no more bytes than the totals count:
/// the totals leave out directories only.
pub proof fn lemma_copied_within_total(entries: Seq<EntryRecord>)
    ensures
        copied_sum(entries) <= uncompressed_sum(entries),
    decreases entries.len(),
{
    if entries.len() > 0 {
        lemma_copied_within_total(entries.drop_last());
    }
}

/// A run that starts at zero and copies the contents of the entries that
/// are copied, in buffers of any sizes, never counts more bytes than the
/// overall total, and its count never goes down.
pub proof fn lemma_run_stays_within_total(
    s: ProgressState,
    entries: Seq<EntryRecord>,
    events: Seq<u64>,
    i: int,
    j: int,
)
    requires
        s.overall_done == 0,
        s.overall_total == uncompressed_sum(entries),
        events_sum(events) == copied_sum(entries),
        0 <= i <= j <= events.len(),
    ensures
        after_events(s, events.take(i)).overall_done <= after_events(
            s,
            events.take(j),
        ).overall_done,
        after_events(s, events.take(j)).overall_done <= s.overall_total,
        after_events(s, events).overall_done == copied_sum(entries),
{
    lemma_copied_within_total(entries);
    lemma_overall_done_monotonic(s, events, i, j);
    lemma_overall_done_monotonic(s, events, i, events.len() as int);
    assert(events.take(events.len() as int) == events);
}

/// Plans the copy of one archive.
///
/// `entries` is what the archive lists, in its own order. The plan holds the
/// entries that are no directories and are not left out, in that order, each
/// with its index in `entries` and the destination path that `map_target`
/// gives it. Only these entries are counted in `dedup`.
pub fn plan_archive(
    prefix_by_zip: bool,
    zip_name: &str,
    entries: &Vec<EntryRecord>,
    dedup: &mut DedupTable,
) -> (plan: Vec<PlannedEntry>)
    requires
        old(dedup).wf(),
        old(dedup).requests() + entries.len() <= usize::MAX,
    ensures
        final(dedup).wf(),
        final(dedup)@ == table_after(old(dedup)@, keys_of(prefix_by_zip, zip_name@, entries@)),
        final(dedup).requests() == old(dedup).requests() + plan.len(),
        plan_targets(plan@) == targets_from(
            old(dedup)@,
            keys_of(prefix_by_zip, zip_name@, entries@),
        ),
        plan_indices(plan@) == copied_indices(entries@),
        forall|k: int|
            0 <= k < plan.len() ==> (#[trigger] plan[k]).index < entries.len() && plan[k].size
                == entries[plan[k].index as int].size,
{
    let ghost start = dedup@;
    let ghost zip = zip_name@;
    let mut plan: Vec<PlannedEntry> = Vec::new();
    let mut i: usize = 0;
    proof {
        assert(entries@.take(0) == Seq::<EntryRecord>::empty());
        assert(plan_targets(plan@) == Seq::<Seq<char>>::empty());
        assert(plan_indices(plan@) == Seq::<int>::empty());
    }
    while i < entries.len()
        invariant
            i <= entries.len(),
            plan.len() <= i,
            dedup.wf(),
            start == old(dedup)@,
            zip == zip_name@,
            old(dedup).requests() + entries.len() <= usize::MAX,
            dedup.requests() == old(dedup).requests() + plan.len(),
            dedup@ == table_after(start, keys_of(prefix_by_zip, zip, entries@.take(i as int))),
            plan_targets(plan@) == targets_from(
                start,
                keys_of(prefix_by_zip, zip, entries@.take(i as int)),
            ),
            plan_indices(plan@) == copied_indices(entries@.take(i as int)),
            forall|k: int|
                0 <= k < plan.len() ==> (#[trigger] plan[k]).index < entries.len() && plan[k].size
                    == entries[plan[k].index as int].size,
        decreases entries.len() - i,
    {
        let e = &entries[i];
        let ghost keys = keys_of(prefix_by_zip, zip, entries@.take(i as int));
        proof {
            assert(entries@.take(i + 1).drop_last() == entries@.take(i as int));
            assert(entries@.take(i + 1).last() == *e);
        }
        if !e.is_dir && !should_skip(e.path.as_str()) {
            let ghost key = candidate_key(prefix_by_zip, zip, e.path@);
            let ghost targets = plan_targets(plan@);
            let ghost indices = plan_indices(plan@);
            let target = map_target(prefix_by_zip, zip_name, e.path.as_str(), dedup);
            plan.push(PlannedEntry { index: i, target, size: e.size });
            proof {
                assert(keys.push(key).drop_last() == keys);
                assert(plan_targets(plan@) == targets.push(target@));
                assert(plan_indices(plan@) == indices.push(i as int));
            }
        }
        i += 1;
    }
    assert(entries@.take(entries.len() as int) == entries@);
    plan
}

} // verus!
