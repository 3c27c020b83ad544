//! The entries of the source archives and the sums of their sizes.

use vstd::prelude::*;

verus! {

/// What the merge reads of one entry of a source archive.
#[derive(Clone, Debug)]
pub struct EntryRecord {
    /// The entry's path inside its archive, as the archive gives it.
    pub path: String,
    /// The size of the entry's contents.
    pub size: u64,
    /// The size that the contents take in the archive.
    pub compressed_size: u64,
    /// Whether the entry stands for a directory and has no contents.
    pub is_dir: bool,
}

/// The sums of the sizes of all entries that are no directories.
#[derive(Clone, Copy, Debug, PartialEq, Eq, Structural)]
pub struct SizeTotals {
    pub overall_uncompressed_total: u64,
    pub overall_compressed_total: u64,
}

/// The sizes of the contents of the entries, added up; directories do not
/// count.
pub open spec fn uncompressed_sum(entries: Seq<EntryRecord>) -> nat
    decreases entries.len(),
{
    if entries.len() == 0 {
        0
    } else if entries.last().is_dir {
        uncompressed_sum(entries.drop_last())
    } else {
        uncompressed_sum(entries.drop_last()) + entries.last().size as nat
    }
}

/// The sizes that the entries take in their archive, added up; directories
/// do not count.
pub open spec fn compressed_sum(entries: Seq<EntryRecord>) -> nat
    decreases entries.len(),
{
    if entries.len() == 0 {
        0
    } else if entries.last().is_dir {
        compressed_sum(entries.drop_last())
    } else {
        compressed_sum(entries.drop_last()) + entries.last().compressed_size as nat
    }
}

/// The sums over two lists of entries, one behind the other, are the sums
/// over each, added: totals are exact whatever the archives the entries are
/// spread over.
pub proof fn lemma_sums_additive(a: Seq<EntryRecord>, b: Seq<EntryRecord>)
    ensures
        uncompressed_sum(a + b) == uncompressed_sum(a) + uncompressed_sum(b),
        compressed_sum(a + b) == compressed_sum(a) + compressed_sum(b),
    decreases b.len(),
{
    if b.len() == 0 {
        assert(a + b == a);
    } else {
        lemma_sums_additive(a, b.drop_last());
        assert((a + b).drop_last() == a + b.drop_last());
        assert((a + b).last() == b.last());
    }
}

impl SizeTotals {
    /// The totals of no entries.
    pub fn zero() -> (t: SizeTotals)
        ensures
            t.overall_uncompressed_total == 0,
            t.overall_compressed_total == 0,
    {
        SizeTotals { overall_uncompressed_total: 0, overall_compressed_total: 0 }
    }

    /// These totals and `other` added, or `None` where a sum does not fit in
    /// 64 bits. Neither total gets smaller.
    pub fn plus(&self, other: &SizeTotals) -> (r: Option<SizeTotals>)
        ensures
            r is Some <==> self.overall_uncompressed_total + other.overall_uncompressed_total
                <= u64::MAX && self.overall_compressed_total + other.overall_compressed_total
                <= u64::MAX,
            r matches Some(t) ==> {
                &&& t.overall_uncompressed_total == self.overall_uncompressed_total
                    + other.overall_uncompressed_total
                &&& t.overall_compressed_total == self.overall_compressed_total
                    + other.overall_compressed_total
            },
    {
        match self.overall_uncompressed_total.checked_add(other.overall_uncompressed_total) {
            Some(u) => match self.overall_compressed_total.checked_add(
                other.overall_compressed_total,
            ) {
                Some(c) => Some(
                    SizeTotals { overall_uncompressed_total: u, overall_compressed_total: c },
                ),
                None => None,
            },
            None => None,
        }
    }
}

/// The sums over the first `k` entries are no more than the sums over all.
proof fn lemma_sums_grow(entries: Seq<EntryRecord>, k: int)
    requires
        0 <= k <= entries.len(),
    ensures
        uncompressed_sum(entries.take(k)) <= uncompressed_sum(entries),
        compressed_sum(entries.take(k)) <= compressed_sum(entries),
    decreases entries.len() - k,
{
    if k == entries.len() {
        assert(entries.take(k) == entries);
    } else {
        lemma_sums_grow(entries, k + 1);
        assert(entries.take(k + 1).drop_last() == entries.take(k));
    }
}

/// Adds up the sizes of the entries of one archive, leaving out directories.
/// The result is `None` where a sum does not fit in 64 bits.
pub fn archive_totals(entries: &Vec<EntryRecord>) -> (r: Option<SizeTotals>)
    ensures
        r is Some <==> uncompressed_sum(entries@) <= u64::MAX && compressed_sum(entries@)
            <= u64::MAX,
        r matches Some(t) ==> t.overall_uncompressed_total == uncompressed_sum(entries@)
            && t.overall_compressed_total == compressed_sum(entries@),
{
    let mut uncompressed: u64 = 0;
    let mut compressed: u64 = 0;
    let mut i: usize = 0;
    assert(entries@.take(0) == Seq::<EntryRecord>::empty());
    while i < entries.len()
        invariant
            i <= entries.len(),
            uncompressed == uncompressed_sum(entries@.take(i as int)),
            compressed == compressed_sum(entries@.take(i as int)),
        decreases entries.len() - i,
    {
        let e = &entries[i];
        proof {
            assert(entries@.take(i + 1).drop_last() == entries@.take(i as int));
            assert(entries@.take(i + 1).last() == *e);
            lemma_sums_grow(entries@, i + 1);
        }
        if !e.is_dir {
            match uncompressed.checked_add(e.size) {
                Some(u) => {
                    uncompressed = u;
                },
                None => {
                    return None;
                },
            }
            match compressed.checked_add(e.compressed_size) {
                Some(c) => {
                    compressed = c;
                },
                None => {
                    return None;
                },
            }
        }
        i += 1;
    }
    assert(entries@.take(entries.len() as int) == entries@);
    Some(SizeTotals { overall_uncompressed_total: uncompressed, overall_compressed_total: compressed })
}

} // verus!
