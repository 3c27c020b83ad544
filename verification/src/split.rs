//! Cutting a finished file into parts of a fixed size.
//!
//! The library plans the parts; reading the file and writing the part files
//! is left to the caller, who asks the plan for one part after the other.

use crate::error::MergeError;
use crate::size::{parse_size, size_of_text};
use crate::text::{lowercase_of, padded, push_padded, push_text, text_of, trimmed};
use vstd::prelude::*;

verus! {

/// The number of parts that a file of `total` bytes is cut into with parts of
/// `part` bytes: `total / part`, rounded up.
pub open spec fn part_count(total: nat, part: nat) -> nat {
    if total % part == 0 {
        total / part
    } else {
        total / part + 1
    }
}

/// The number of bytes in the part with index `i`: `part`, but for the last
/// part, which holds what is left.
pub open spec fn part_len(total: nat, part: nat, i: nat) -> nat {
    if (i + 1) * part <= total {
        part
    } else {
        (total - i * part) as nat
    }
}

/// The bytes of the part with index `i` of `data`.
pub open spec fn part_of(data: Seq<u8>, part: nat, i: nat) -> Seq<u8> {
    data.subrange((i * part) as int, (i * part + part_len(data.len(), part, i)) as int)
}

/// The parts that `data` is cut into, in the order of their indices.
pub open spec fn split_bytes(data: Seq<u8>, part: nat) -> Seq<Seq<u8>> {
    Seq::new(part_count(data.len(), part), |i: int| part_of(data, part, i as nat))
}

/// The parts written one behind the other.
pub open spec fn joined(parts: Seq<Seq<u8>>) -> Seq<u8>
    decreases parts.len(),
{
    if parts.len() == 0 {
        Seq::empty()
    } else {
        joined(parts.drop_last()) + parts.last()
    }
}

/// The sizes of the parts, added up.
pub open spec fn sizes_sum(parts: Seq<Seq<u8>>) -> nat
    decreases parts.len(),
{
    if parts.len() == 0 {
        0
    } else {
        sizes_sum(parts.drop_last()) + parts.last().len()
    }
}

/// The name of the part file with index `index` of the file at `path`: the
/// path, `.part-` and the index in at least three digits.
pub open spec fn part_name_text(path: Seq<char>, index: nat) -> Seq<char> {
    path + seq!['.', 'p', 'a', 'r', 't', '-'] + padded(index, 3)
}

/// The shell command that puts the parts of the file at `path` together
/// again under the name `file_name`.
pub open spec fn join_command_text(path: Seq<char>, file_name: Seq<char>) -> Seq<char> {
    "cat "@ + path + ".part-* > "@ + file_name
}

/// `part_count` is the quotient rounded up: it is the least number of parts
/// of `part` bytes that hold `total` bytes.
pub proof fn lemma_part_count(total: nat, part: nat)
    requires
        part > 0,
    ensures
        part_count(total, part) * part >= total,
        total > 0 ==> (part_count(total, part) - 1) * part < total,
        total == 0 <==> part_count(total, part) == 0,
        part_count(total, part) <= total,
{
    let q = total / part;
    let r = total % part;
    assert(total == q * part + r && 0 <= r < part) by (nonlinear_arith)
        requires
            part > 0,
            q == total / part,
            r == total % part,
    ;
    assert((q + 1) * part == q * part + part) by (nonlinear_arith);
    assert((q - 1) * part == q * part - part) by (nonlinear_arith);
    assert(q * part >= q) by (nonlinear_arith)
        requires
            part >= 1,
            q >= 0,
    ;
}

/// Every part but the last holds exactly `part` bytes; the last holds at
/// least one byte and at most `part`.
pub proof fn lemma_part_len(total: nat, part: nat, i: nat)
    requires
        part > 0,
        i < part_count(total, part),
    ensures
        i * part < total,
        1 <= part_len(total, part, i) <= part,
        i + 1 < part_count(total, part) ==> part_len(total, part, i) == part,
        i * part + part_len(total, part, i) <= total,
        i + 1 == part_count(total, part) ==> i * part + part_len(total, part, i) == total,
{
    let n = part_count(total, part);
    lemma_part_count(total, part);
    assert(i * part <= (n - 1) * part) by (nonlinear_arith)
        requires
            i <= n - 1,
            part > 0,
    ;
    assert((i + 1) * part == i * part + part) by (nonlinear_arith);
    if i + 1 < n {
        assert((i + 1) * part <= (n - 1) * part) by (nonlinear_arith)
            requires
                i + 1 <= n - 1,
                part > 0,
        ;
    } else {
        assert((i + 1) * part == n * part);
    }
}

/// The first `k` parts, joined, are the bytes before the part with index
/// `k`.
proof fn lemma_joined_prefix(data: Seq<u8>, part: nat, k: nat)
    requires
        part > 0,
        k <= part_count(data.len(), part),
    ensures
        k < part_count(data.len(), part) ==> joined(split_bytes(data, part).take(k as int))
            == data.take((k * part) as int),
        k == part_count(data.len(), part) ==> joined(split_bytes(data, part).take(k as int))
            == data,
        sizes_sum(split_bytes(data, part).take(k as int)) == joined(
            split_bytes(data, part).take(k as int),
        ).len(),
    decreases k,
{
    let parts = split_bytes(data, part);
    let n = part_count(data.len(), part);
    if k == 0 {
        assert(parts.take(0).len() == 0);
        assert(0 * part == 0) by (nonlinear_arith);
        assert(data.take(0) == Seq::<u8>::empty());
        lemma_part_count(data.len(), part);
    } else {
        let j = (k - 1) as nat;
        lemma_joined_prefix(data, part, j);
        lemma_part_len(data.len(), part, j);
        assert(parts.take(k as int).drop_last() == parts.take(j as int));
        assert(parts.take(k as int).last() == part_of(data, part, j));
        assert((j + 1) * part == j * part + part) by (nonlinear_arith);
        let len = part_len(data.len(), part, j);
        assert(data.take((j * part) as int) + data.subrange(
            (j * part) as int,
            (j * part + len) as int,
        ) == data.take((j * part + len) as int));
        if k == n {
            assert(data.take(data.len() as int) == data);
        }
    }
}

/// Cutting and joining give the file back, whatever its bytes: the parts of
/// `data`, written one behind the other in the order of their indices, are
/// `data` again. There are `data.len() / part` parts, rounded up; their sizes
/// add up to `data.len()`; each holds `part` bytes, but for the last, which
/// may hold fewer.
pub proof fn lemma_split_round_trip(data: Seq<u8>, part: nat)
    requires
        part > 0,
    ensures
        split_bytes(data, part).len() == part_count(data.len(), part),
        part_count(data.len(), part) * part >= data.len(),
        data.len() > 0 ==> (part_count(data.len(), part) - 1) * part < data.len(),
        forall|i: int|
            0 <= i < split_bytes(data, part).len() ==> 1 <= (#[trigger] split_bytes(
                data,
                part,
            )[i]).len() <= part,
        forall|i: int|
            0 <= i < split_bytes(data, part).len() - 1 ==> (#[trigger] split_bytes(
                data,
                part,
            )[i]).len() == part,
        sizes_sum(split_bytes(data, part)) == data.len(),
        joined(split_bytes(data, part)) == data,
{
    let parts = split_bytes(data, part);
    let n = part_count(data.len(), part);
    lemma_part_count(data.len(), part);
    lemma_joined_prefix(data, part, n);
    assert(parts.take(n as int) == parts);
    assert forall|i: int| 0 <= i < parts.len() implies 1 <= (#[trigger] parts[i]).len() <= part
        && (i < parts.len() - 1 ==> parts[i].len() == part) by {
        lemma_part_len(data.len(), part, i as nat);
    }
}

/// One part of a split: its index, where it begins in the file, and how many
/// bytes it holds.
#[derive(Clone, Copy, Debug, PartialEq, Eq, Structural)]
pub struct Part {
    pub index: u64,
    pub offset: u64,
    pub len: u64,
}

/// The parts of one file that are still to be written.
pub struct SplitPlan {
    total: u64,
    part: u64,
    index: u64,
    written: u64,
}

impl SplitPlan {
    /// The size of the file.
    pub closed spec fn total(&self) -> nat {
        self.total as nat
    }

    /// The size of every part but the last.
    pub closed spec fn part_size(&self) -> nat {
        self.part as nat
    }

    /// The index of the part that comes next.
    pub closed spec fn next_index(&self) -> nat {
        self.index as nat
    }

    /// The part size is not zero, and the parts before `next_index` are the
    /// ones handed out.
    pub closed spec fn wf(&self) -> bool {
        &&& self.part > 0
        &&& self.index <= part_count(self.total as nat, self.part as nat)
        &&& self.index < part_count(self.total as nat, self.part as nat) ==> self.written
            == self.index * self.part
        &&& self.index == part_count(self.total as nat, self.part as nat) ==> self.written
            == self.total
    }

    /// The plan for a file of `total` bytes and parts of `part` bytes. A part
    /// size of zero is refused.
    pub fn new(total: u64, part: u64) -> (r: Result<SplitPlan, MergeError>)
        ensures
            part == 0 ==> r == Err::<SplitPlan, MergeError>(MergeError::InvalidInput),
            part > 0 ==> r is Ok && r->Ok_0.wf() && r->Ok_0.total() == total
                && r->Ok_0.part_size() == part && r->Ok_0.next_index() == 0,
    {
        if part == 0 {
            return Err(MergeError::InvalidInput);
        }
        proof {
            lemma_part_count(total as nat, part as nat);
            assert(0 * part == 0) by (nonlinear_arith);
        }
        Ok(SplitPlan { total, part, index: 0, written: 0 })
    }

    /// Whether every part has been handed out.
    pub fn is_done(&self) -> (b: bool)
        requires
            self.wf(),
        ensures
            b == (self.next_index() == part_count(self.total(), self.part_size())),
    {
        proof {
            if self.index < part_count(self.total as nat, self.part as nat) {
                lemma_part_len(self.total as nat, self.part as nat, self.index as nat);
            }
        }
        self.written >= self.total
    }

    /// Hands out the next part, or `None` when the whole file is covered.
    /// The parts come in the order of their indices, from 0, each beginning
    /// where the one before it ended.
    pub fn next_part(&mut self) -> (r: Option<Part>)
        requires
            old(self).wf(),
        ensures
            final(self).wf(),
            final(self).total() == old(self).total(),
            final(self).part_size() == old(self).part_size(),
            old(self).next_index() < part_count(old(self).total(), old(self).part_size()) ==> {
                &&& r == Some(
                    Part {
                        index: old(self).next_index() as u64,
                        offset: (old(self).next_index() * old(self).part_size()) as u64,
                        len: part_len(
                            old(self).total(),
                            old(self).part_size(),
                            old(self).next_index(),
                        ) as u64,
                    },
                )
                &&& final(self).next_index() == old(self).next_index() + 1
            },
            old(self).next_index() >= part_count(old(self).total(), old(self).part_size()) ==> {
                &&& r is None
                &&& final(self).next_index() == old(self).next_index()
            },
    {
        let ghost n = part_count(self.total as nat, self.part as nat);
        proof {
            lemma_part_count(self.total as nat, self.part as nat);
            if self.index < n {
                lemma_part_len(self.total as nat, self.part as nat, self.index as nat);
            }
        }
        if self.written >= self.total {
            return None;
        }
        let left = self.total - self.written;
        let len = if left < self.part {
            left
        } else {
            self.part
        };
        let part = Part { index: self.index, offset: self.written, len };
        proof {
            assert((self.index + 1) * self.part == self.index * self.part + self.part)
                by (nonlinear_arith);
            if self.index + 1 < n {
                lemma_part_len(self.total as nat, self.part as nat, (self.index + 1) as nat);
            }
        }
        self.written = self.written + len;
        self.index = self.index + 1;
        Some(part)
    }
}

/// Plans the split of a file of `total` bytes into parts of the size that
/// `size_str` names, such as `1900m` or `2g`.
///
/// A size that cannot be read, and a size of zero, are refused. A file of no
/// bytes gets a plan without parts.
pub fn raw_split(total: u64, size_str: &str) -> (r: Result<SplitPlan, MergeError>)
    ensures
        match size_of_text(lowercase_of(trimmed(size_str@))) {
            Ok(part) => if part == 0 {
                r == Err::<SplitPlan, MergeError>(MergeError::InvalidInput)
            } else {
                r is Ok && r->Ok_0.wf() && r->Ok_0.total() == total && r->Ok_0.part_size()
                    == part && r->Ok_0.next_index() == 0
            },
            Err(e) => r == Err::<SplitPlan, MergeError>(e),
        },
{
    match parse_size(size_str) {
        Ok(part) => SplitPlan::new(total, part),
        Err(e) => Err(e),
    }
}

/// The number of bytes to read next into a buffer of `buf_len` bytes when
/// `remaining` bytes of the current part are still to be copied: as many as
/// the buffer holds, and no more than remain.
pub fn chunk_len(buf_len: usize, remaining: u64) -> (n: usize)
    ensures
        n == if remaining < buf_len {
            remaining as int
        } else {
            buf_len as int
        },
{
    if remaining < buf_len as u64 {
        remaining as usize
    } else {
        buf_len
    }
}

/// The name of the part file with index `index` of the file at `path`, such
/// as `merged.zip.part-007`.
pub fn part_name(path: &str, index: u64) -> (name: String)
    ensures
        name@ == part_name_text(path@, index as nat),
{
    let mut out: Vec<char> = Vec::new();
    push_text(&mut out, path);
    out.push('.');
    out.push('p');
    out.push('a');
    out.push('r');
    out.push('t');
    out.push('-');
    push_padded(&mut out, index as u128, 3);
    assert(out@ == part_name_text(path@, index as nat));
    text_of(&out)
}

/// The shell command that joins the parts of the file at `path` into a file
/// named `file_name`.
pub fn join_command(path: &str, file_name: &str) -> (line: String)
    ensures
        line@ == join_command_text(path@, file_name@),
{
    let mut out: Vec<char> = Vec::new();
    push_text(&mut out, "cat ");
    push_text(&mut out, path);
    push_text(&mut out, ".part-* > ");
    push_text(&mut out, file_name);
    text_of(&out)
}

} // verus!
