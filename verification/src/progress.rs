//! The counters of a run and the status line that reports them.
//!
//! The caller copies the bytes and keeps the clock. After every buffer it
//! tells the state how many bytes went through and learns whether a status
//! line is due, which is the case only when a percentage has changed.

use crate::format::{hms, hms_text, human, human_text};
use crate::text::{aligned, decimal, push_aligned, push_decimal, push_text, text_of};
use vstd::prelude::*;

verus! {

/// The counters of a run: for the archive that is being copied, and for
/// the run as a whole.
#[derive(Clone, Copy, Debug, PartialEq, Eq)]
pub struct ProgressState {
    /// The bytes copied from the current archive.
    pub done_zip: u64,
    /// The bytes that the current archive holds.
    pub total_zip: u64,
    /// The percentage of the current archive in the last status line, if one
    /// was written for it.
    pub last_zip_pct: Option<u128>,
    /// The bytes copied in the run.
    pub overall_done: u64,
    /// The bytes that all archives hold.
    pub overall_total: u64,
    /// The overall percentage in the last status line, if one was written.
    pub last_all_pct: Option<u128>,
}

/// The whole percentage of `done` in `total`, rounded down; 100 where
/// `total` is zero.
pub open spec fn percent_of(done: nat, total: nat) -> nat {
    if total == 0 {
        100
    } else {
        done * 100 / total
    }
}

/// Whether a status line is due once `n` more bytes are copied: one of the
/// two percentages then differs from the one last reported.
pub open spec fn report_due(s: ProgressState, n: u64) -> bool {
    s.last_zip_pct != Some(percent_of((s.done_zip + n) as nat, s.total_zip as nat) as u128)
        || s.last_all_pct != Some(
        percent_of((s.overall_done + n) as nat, s.overall_total as nat) as u128,
    )
}

/// The state after `n` more bytes are copied.
pub open spec fn recorded(s: ProgressState, n: u64) -> ProgressState {
    ProgressState {
        done_zip: (s.done_zip + n) as u64,
        total_zip: s.total_zip,
        last_zip_pct: if report_due(s, n) {
            Some(percent_of((s.done_zip + n) as nat, s.total_zip as nat) as u128)
        } else {
            s.last_zip_pct
        },
        overall_done: (s.overall_done + n) as u64,
        overall_total: s.overall_total,
        last_all_pct: if report_due(s, n) {
            Some(percent_of((s.overall_done + n) as nat, s.overall_total as nat) as u128)
        } else {
            s.last_all_pct
        },
    }
}

/// The state after the copy events `events`, each the size of one buffer.
pub open spec fn after_events(s: ProgressState, events: Seq<u64>) -> ProgressState
    decreases events.len(),
{
    if events.len() == 0 {
        s
    } else {
        recorded(after_events(s, events.drop_last()), events.last())
    }
}

/// The sizes of the events, added up.
pub open spec fn events_sum(events: Seq<u64>) -> nat
    decreases events.len(),
{
    if events.len() == 0 {
        0
    } else {
        events_sum(events.drop_last()) + events.last() as nat
    }
}

/// The seconds that the rest of the run is estimated to take when `done` of
/// `total` bytes took `elapsed_nanos` nanoseconds: the bytes left, divided
/// by the bytes per second so far, rounded down. It is zero before the first
/// byte and once all bytes are copied, and is capped at the largest number of
/// seconds that a status line shows.
pub open spec fn eta_of(done: nat, total: nat, elapsed_nanos: nat) -> nat {
    if 0 < done < total {
        let e = ((total - done) * elapsed_nanos) as nat / (done * 1_000_000_000);
        if e > i64::MAX {
            i64::MAX as nat
        } else {
            e as nat
        }
    } else {
        0
    }
}

/// The label of an archive in status lines: its place among the archives,
/// counted from 1, their number, and its name.
pub open spec fn label_text(index: nat, count: nat, name: Seq<char>) -> Seq<char> {
    seq!['['] + decimal(index + 1) + seq!['/'] + decimal(count) + seq![']', ' '] + name
}

/// The part of a status line that reports the whole run, from the bracket
/// that closes the archive's counts on.
pub open spec fn overall_text(s: ProgressState) -> Seq<char> {
    ")  |  Overall: "@ + aligned(percent_of(s.overall_done as nat, s.overall_total as nat), 3)
        + "% ("@ + human_text(s.overall_done as nat) + "/"@ + human_text(s.overall_total as nat)
        + ")  |  Elapsed "@
}

/// The status line while an archive is copied. It begins with a carriage
/// return, so that it overwrites the line before it.
pub open spec fn status_text(label: Seq<char>, s: ProgressState, elapsed_nanos: u64) -> Seq<char> {
    "\r"@ + label + ": "@ + aligned(percent_of(s.done_zip as nat, s.total_zip as nat), 3) + "% ("@
        + human_text(s.done_zip as nat) + "/"@ + human_text(s.total_zip as nat) + overall_text(s)
        + hms_text(elapsed_nanos as int / 1_000_000_000) + "  ETA "@ + hms_text(
        eta_of(s.overall_done as nat, s.overall_total as nat, elapsed_nanos as nat) as int,
    )
}

/// The status line that closes an archive. It reports the archive as done
/// in full, whatever was counted for it.
pub open spec fn final_text(label: Seq<char>, s: ProgressState, elapsed_nanos: u64) -> Seq<char> {
    "\r"@ + label + ": 100% ("@ + human_text(s.total_zip as nat) + "/"@ + human_text(
        s.total_zip as nat,
    ) + overall_text(s) + hms_text(elapsed_nanos as int / 1_000_000_000) + "  ETA --:--:--"@
}

/// Within one run the overall count never goes down: after any number of
/// copy events it is the count before them plus their sizes, and after more
/// events it is at least what it was after fewer.
pub proof fn lemma_overall_done_monotonic(s: ProgressState, events: Seq<u64>, i: int, j: int)
    requires
        s.overall_done + events_sum(events) <= u64::MAX,
        0 <= i <= j <= events.len(),
    ensures
        after_events(s, events.take(j)).overall_done == s.overall_done + events_sum(
            events.take(j),
        ),
        after_events(s, events.take(i)).overall_done <= after_events(
            s,
            events.take(j),
        ).overall_done,
        events_sum(events.take(j)) <= events_sum(events),
{
    lemma_events_prefix(s, events, i);
    lemma_events_prefix(s, events, j);
    lemma_events_sum_grows(events, i, j);
}

/// The sizes of more events add up to no less.
proof fn lemma_events_sum_grows(events: Seq<u64>, i: int, j: int)
    requires
        0 <= i <= j <= events.len(),
    ensures
        events_sum(events.take(i)) <= events_sum(events.take(j)),
    decreases j - i,
{
    if i < j {
        lemma_events_sum_grows(events, i, j - 1);
        assert(events.take(j).drop_last() == events.take(j - 1));
    }
}

/// After the first `k` events the overall count is the count before them
/// plus their sizes.
proof fn lemma_events_prefix(s: ProgressState, events: Seq<u64>, k: int)
    requires
        s.overall_done + events_sum(events) <= u64::MAX,
        0 <= k <= events.len(),
    ensures
        events_sum(events.take(k)) <= events_sum(events),
        after_events(s, events.take(k)).overall_done == s.overall_done + events_sum(
            events.take(k),
        ),
    decreases k,
{
    lemma_events_sum_grows(events, k, events.len() as int);
    assert(events.take(events.len() as int) == events);
    if k > 0 {
        lemma_events_prefix(s, events, k - 1);
        assert(events.take(k).drop_last() == events.take(k - 1));
    }
}

/// The whole percentage of `done` in `total`, rounded down; 100 where
/// `total` is zero.
pub fn percent(done: u64, total: u64) -> (p: u128)
    ensures
        p == percent_of(done as nat, total as nat),
{
    if total == 0 {
        100
    } else {
        (done as u128) * 100 / (total as u128)
    }
}

/// The seconds that the rest of the run is estimated to take.
pub fn eta_seconds(done: u64, total: u64, elapsed_nanos: u64) -> (eta: u64)
    ensures
        eta == eta_of(done as nat, total as nat, elapsed_nanos as nat),
        eta <= i64::MAX,
{
    if done == 0 || done >= total {
        return 0;
    }
    let left: u128 = (total - done) as u128;
    let nanos: u128 = elapsed_nanos as u128;
    assert(left * nanos <= 0xffff_ffff_ffff_ffff * 0xffff_ffff_ffff_ffff) by (nonlinear_arith)
        requires
            left <= 0xffff_ffff_ffff_ffff,
            nanos <= 0xffff_ffff_ffff_ffff,
    ;
    let e: u128 = left * nanos / ((done as u128) * 1_000_000_000);
    if e > i64::MAX as u128 {
        i64::MAX as u64
    } else {
        e as u64
    }
}

impl ProgressState {
    /// The state at the start of a run over archives that hold
    /// `overall_total` bytes in all.
    pub fn new(overall_total: u64) -> (s: ProgressState)
        ensures
            s == (ProgressState {
                done_zip: 0,
                total_zip: 0,
                last_zip_pct: None,
                overall_done: 0,
                overall_total,
                last_all_pct: None,
            }),
    {
        ProgressState {
            done_zip: 0,
            total_zip: 0,
            last_zip_pct: None,
            overall_done: 0,
            overall_total,
            last_all_pct: None,
        }
    }

    /// Starts the count for the next archive, which holds `total_zip` bytes.
    /// The overall counters stay as they are.
    pub fn begin_archive(&mut self, total_zip: u64)
        ensures
            *final(self) == (ProgressState {
                done_zip: 0,
                total_zip,
                last_zip_pct: None,
                ..*old(self)
            }),
    {
        self.done_zip = 0;
        self.total_zip = total_zip;
        self.last_zip_pct = None;
    }

    /// Counts `n` more bytes as copied and tells whether a status line is due.
    pub fn record_copy(&mut self, n: u64) -> (due: bool)
        requires
            old(self).done_zip + n <= u64::MAX,
            old(self).overall_done + n <= u64::MAX,
        ensures
            due == report_due(*old(self), n),
            *final(self) == recorded(*old(self), n),
            final(self).overall_done == old(self).overall_done + n,
            final(self).done_zip == old(self).done_zip + n,
    {
        self.done_zip = self.done_zip + n;
        self.overall_done = self.overall_done + n;
        let zp = percent(self.done_zip, self.total_zip);
        let ap = percent(self.overall_done, self.overall_total);
        let same_zip = match self.last_zip_pct {
            Some(p) => p == zp,
            None => false,
        };
        let same_all = match self.last_all_pct {
            Some(p) => p == ap,
            None => false,
        };
        if same_zip && same_all {
            false
        } else {
            self.last_zip_pct = Some(zp);
            self.last_all_pct = Some(ap);
            true
        }
    }

    fn push_overall(&self, out: &mut Vec<char>)
        ensures
            final(out)@ == old(out)@ + overall_text(*self),
    {
        let ghost start = out@;
        push_text(out, ")  |  Overall: ");
        push_aligned(out, percent(self.overall_done, self.overall_total), 3);
        push_text(out, "% (");
        push_text(out, human(self.overall_done).as_str());
        push_text(out, "/");
        push_text(out, human(self.overall_total).as_str());
        push_text(out, ")  |  Elapsed ");
        assert(out@ == start + overall_text(*self));
    }

    /// The status line for this state, `elapsed_nanos` nanoseconds into the
    /// run, while the archive with the label `label` is copied.
    pub fn status_line(&self, label: &str, elapsed_nanos: u64) -> (line: String)
        ensures
            line@ == status_text(label@, *self, elapsed_nanos),
    {
        let mut out: Vec<char> = Vec::new();
        push_text(&mut out, "\r");
        push_text(&mut out, label);
        push_text(&mut out, ": ");
        push_aligned(&mut out, percent(self.done_zip, self.total_zip), 3);
        push_text(&mut out, "% (");
        push_text(&mut out, human(self.done_zip).as_str());
        push_text(&mut out, "/");
        push_text(&mut out, human(self.total_zip).as_str());
        self.push_overall(&mut out);
        push_text(&mut out, hms((elapsed_nanos / 1_000_000_000) as i64).as_str());
        push_text(&mut out, "  ETA ");
        let eta = eta_seconds(self.overall_done, self.overall_total, elapsed_nanos);
        push_text(&mut out, hms(eta as i64).as_str());
        assert(out@ == status_text(label@, *self, elapsed_nanos));
        text_of(&out)
    }

    /// The status line that closes the archive with the label `label`.
    pub fn final_line(&self, label: &str, elapsed_nanos: u64) -> (line: String)
        ensures
            line@ == final_text(label@, *self, elapsed_nanos),
    {
        let mut out: Vec<char> = Vec::new();
        push_text(&mut out, "\r");
        push_text(&mut out, label);
        push_text(&mut out, ": 100% (");
        push_text(&mut out, human(self.total_zip).as_str());
        push_text(&mut out, "/");
        push_text(&mut out, human(self.total_zip).as_str());
        self.push_overall(&mut out);
        push_text(&mut out, hms((elapsed_nanos / 1_000_000_000) as i64).as_str());
        push_text(&mut out, "  ETA --:--:--");
        assert(out@ == final_text(label@, *self, elapsed_nanos));
        text_of(&out)
    }
}

/// The label of the archive `name` in status lines, such as `[2/5] b.zip`
/// for the archive with index 1 of 5.
pub fn archive_label(index: usize, count: usize, name: &str) -> (label: String)
    ensures
        label@ == label_text(index as nat, count as nat, name@),
{
    let mut out: Vec<char> = Vec::new();
    out.push('[');
    push_decimal(&mut out, index as u128 + 1);
    out.push('/');
    push_decimal(&mut out, count as u128);
    out.push(']');
    out.push(' ');
    push_text(&mut out, name);
    assert(out@ == label_text(index as nat, count as nat, name@));
    text_of(&out)
}

} // verus!
