//! Deletion bookkeeping: how files are removed and the per-file report of a
//! delete action. Removing files and talking to the OS trash is done by the
//! caller, which hands each outcome to [`DeleteReport::record`].

use vstd::prelude::*;

use crate::clean_core::model::FileEntry;

verus! {

/// How a delete action removes files.
#[derive(Debug, Clone, Copy, PartialEq, Eq, Structural)]
pub enum DeleteMode {
    /// Move to the OS recycle bin (recoverable). The safe default.
    Trash,
    /// Permanently remove the file (unrecoverable).
    Permanent,
}

pub open spec fn delete_mode_toggled(m: DeleteMode) -> DeleteMode {
    match m {
        DeleteMode::Trash => DeleteMode::Permanent,
        DeleteMode::Permanent => DeleteMode::Trash,
    }
}

/// Toggling the delete mode twice gives it back, and each toggle changes it.
pub proof fn law_delete_mode_toggle(m: DeleteMode)
    ensures
        delete_mode_toggled(delete_mode_toggled(m)) == m,
        delete_mode_toggled(m) != m,
{
}

impl DeleteMode {
    pub fn label(&self) -> (r: &'static str)
        ensures
            r@ == match *self {
                DeleteMode::Trash => "Move to Trash (recoverable)"@,
                DeleteMode::Permanent => "Delete permanently (cannot be undone)"@,
            },
    {
        match self {
            DeleteMode::Trash => "Move to Trash (recoverable)",
            DeleteMode::Permanent => "Delete permanently (cannot be undone)",
        }
    }

    /// The other mode.
    pub fn toggled(self) -> (r: DeleteMode)
        ensures
            r == delete_mode_toggled(self),
    {
        match self {
            DeleteMode::Trash => DeleteMode::Permanent,
            DeleteMode::Permanent => DeleteMode::Trash,
        }
    }
}

impl Default for DeleteMode {
    fn default() -> (r: DeleteMode)
        ensures
            r == DeleteMode::Trash,
    {
        DeleteMode::Trash
    }
}

/// Outcome of a delete operation.
#[derive(Debug)]
pub struct DeleteReport {
    pub deleted: usize,
    pub bytes_freed: u64,
    /// Files that could not be removed (path), with the reason.
    pub failed: Vec<(String, String)>,
}

/// The view of a report: counts and the failures as character sequences.
pub open spec fn report_view(r: DeleteReport) -> (nat, nat, Seq<(Seq<char>, Seq<char>)>) {
    (r.deleted as nat, r.bytes_freed as nat, r.failed@.map_values(|f: (String, String)| (f.0@, f.1@)))
}

/// The report after trying `entries` with the given `outcomes`, in order.
pub open spec fn tally(entries: Seq<FileEntry>, outcomes: Seq<Result<(), String>>) -> (
    nat,
    nat,
    Seq<(Seq<char>, Seq<char>)>,
)
    decreases entries.len(),
{
    if entries.len() == 0 || outcomes.len() == 0 {
        (0, 0, Seq::empty())
    } else {
        let (d, b, f) = tally(entries.drop_last(), outcomes.drop_last());
        match outcomes.last() {
            Ok(_) => (d + 1, b + entries.last().size as nat, f),
            Err(reason) => (d, b, f.push((entries.last().path@, reason@))),
        }
    }
}

/// Total size of the entries whose outcome is a success.
pub open spec fn freed_bytes(entries: Seq<FileEntry>, outcomes: Seq<Result<(), String>>) -> nat {
    tally(entries, outcomes).1
}

impl Default for DeleteReport {
    fn default() -> (r: DeleteReport)
        ensures
            report_view(r) == (0nat, 0nat, Seq::<(Seq<char>, Seq<char>)>::empty()),
    {
        let r = DeleteReport { deleted: 0, bytes_freed: 0, failed: Vec::new() };
        assert(report_view(r).2 =~= Seq::<(Seq<char>, Seq<char>)>::empty());
        r
    }
}

impl DeleteReport {
    /// Account for one file: a success counts it and its bytes, a failure is
    /// attributed to its path with the reason.
    pub fn record(&mut self, entry: &FileEntry, outcome: Result<(), String>)
        requires
            outcome is Ok ==> old(self).deleted < usize::MAX && old(self).bytes_freed + entry.size
                <= u64::MAX,
        ensures
            report_view(*final(self)) == match outcome {
                Ok(_) => (
                    report_view(*old(self)).0 + 1,
                    report_view(*old(self)).1 + entry.size as nat,
                    report_view(*old(self)).2,
                ),
                Err(reason) => (
                    report_view(*old(self)).0,
                    report_view(*old(self)).1,
                    report_view(*old(self)).2.push((entry.path@, reason@)),
                ),
            },
    {
        let ghost before = report_view(*self);
        match outcome {
            Ok(()) => {
                self.deleted = self.deleted + 1;
                self.bytes_freed = self.bytes_freed + entry.size;
            },
            Err(reason) => {
                self.failed.push((entry.path.clone(), reason));
                assert(report_view(*self).2 =~= before.2.push((entry.path@, report_view(*self).2.last().1)));
            },
        }
    }
}

/// The report for trying `entries` in order with the given outcomes.
pub fn tally_outcomes(entries: &[FileEntry], outcomes: Vec<Result<(), String>>) -> (r: DeleteReport)
    requires
        entries.len() == outcomes.len(),
        freed_bytes(entries@, outcomes@) <= u64::MAX,
    ensures
        report_view(r) == tally(entries@, outcomes@),
{
    let mut report = DeleteReport::default();
    let mut outs = outcomes;
    let ghost all = outs@;
    let mut rev: Vec<Result<(), String>> = Vec::new();
    // reverse so that outcomes can be taken from the end in order of entries
    while outs.len() > 0
        invariant
            rev@.len() + outs@.len() == all.len(),
            forall|k: int| 0 <= k < outs@.len() ==> outs@[k] == all[k],
            forall|k: int| 0 <= k < rev@.len() ==> rev@[k] == all[all.len() - 1 - k],
        decreases outs@.len(),
    {
        let o = outs.pop().unwrap();
        rev.push(o);
    }
    let mut i: usize = 0;
    while i < entries.len()
        invariant
            i <= entries.len() == all.len(),
            rev@.len() == all.len() - i,
            forall|k: int| 0 <= k < rev@.len() ==> rev@[k] == all[all.len() - 1 - k],
            freed_bytes(entries@, all) <= u64::MAX,
            report_view(report) == tally(entries@.take(i as int), all.take(i as int)),
            report.deleted == i - report_view(report).2.len(),
        decreases entries.len() - i,
    {
        let o = rev.pop().unwrap();
        assert(o == all[i as int]);
        proof {
            assert(entries@.take(i + 1).drop_last() =~= entries@.take(i as int));
            assert(all.take(i + 1).drop_last() =~= all.take(i as int));
            lemma_tally_prefix_bytes(entries@, all, i as int + 1);
            lemma_tally_prefix_bytes(entries@, all, i as int);
            assert(entries@.take(i + 1).last() == entries@[i as int]);
            assert(all.take(i + 1).last() == all[i as int]);
        }
        report.record(&entries[i], o);
        i += 1;
    }
    assert(entries@.take(entries.len() as int) =~= entries@);
    assert(all.take(entries.len() as int) =~= all);
    report
}

/// The bytes freed over a prefix never exceed those over the whole run.
proof fn lemma_tally_prefix_bytes(entries: Seq<FileEntry>, outcomes: Seq<Result<(), String>>, n: int)
    requires
        0 <= n <= entries.len() == outcomes.len(),
    ensures
        tally(entries.take(n), outcomes.take(n)).1 <= tally(entries, outcomes).1,
        tally(entries.take(n), outcomes.take(n)).0 + tally(entries.take(n), outcomes.take(n)).2.len() == n,
    decreases entries.len() - n,
{
    lemma_tally_counts(entries.take(n), outcomes.take(n));
    if n < entries.len() {
        lemma_tally_prefix_bytes(entries, outcomes, n + 1);
        assert(entries.take(n + 1).drop_last() =~= entries.take(n));
        assert(outcomes.take(n + 1).drop_last() =~= outcomes.take(n));
    } else {
        assert(entries.take(n) =~= entries);
        assert(outcomes.take(n) =~= outcomes);
    }
}

proof fn lemma_tally_counts(entries: Seq<FileEntry>, outcomes: Seq<Result<(), String>>)
    requires
        entries.len() == outcomes.len(),
    ensures
        tally(entries, outcomes).0 + tally(entries, outcomes).2.len() == entries.len(),
    decreases entries.len(),
{
    if entries.len() > 0 {
        lemma_tally_counts(entries.drop_last(), outcomes.drop_last());
    }
}

/// Trying one more file extends the report: a success adds one deletion and
/// the file's size, a failure adds the file's path with the reason at the end
/// of the failures.
pub proof fn law_one_more_file(
    entries: Seq<FileEntry>,
    outcomes: Seq<Result<(), String>>,
    e: FileEntry,
    reason: String,
)
    requires
        entries.len() == outcomes.len(),
    ensures
        tally(entries.push(e), outcomes.push(Ok(()))) == (
            tally(entries, outcomes).0 + 1,
            tally(entries, outcomes).1 + e.size as nat,
            tally(entries, outcomes).2,
        ),
        tally(entries.push(e), outcomes.push(Err(reason))) == (
            tally(entries, outcomes).0,
            tally(entries, outcomes).1,
            tally(entries, outcomes).2.push((e.path@, reason@)),
        ),
{
    assert(entries.push(e).drop_last() =~= entries);
    assert(outcomes.push(Ok(())).drop_last() =~= outcomes);
    assert(outcomes.push(Err(reason)).drop_last() =~= outcomes);
}

/// When every removal fails, nothing is counted and each file is listed, in
/// order, with its own reason.
pub proof fn law_all_failed(entries: Seq<FileEntry>, outcomes: Seq<Result<(), String>>)
    requires
        entries.len() == outcomes.len(),
        forall|i: int| 0 <= i < outcomes.len() ==> #[trigger] outcomes[i] is Err,
    ensures
        tally(entries, outcomes).0 == 0,
        tally(entries, outcomes).1 == 0,
        tally(entries, outcomes).2.len() == entries.len(),
        forall|i: int|
            0 <= i < entries.len() ==> #[trigger] tally(entries, outcomes).2[i] == (
                entries[i].path@,
                outcomes[i]->Err_0@,
            ),
    decreases entries.len(),
{
    if entries.len() > 0 {
        let (e0, o0) = (entries.drop_last(), outcomes.drop_last());
        assert forall|i: int| 0 <= i < o0.len() implies #[trigger] o0[i] is Err by {
            assert(o0[i] == outcomes[i]);
        }
        law_all_failed(e0, o0);
        assert(outcomes[outcomes.len() - 1] is Err);
        assert forall|i: int| 0 <= i < entries.len() implies #[trigger] tally(entries, outcomes).2[i] == (
            entries[i].path@,
            outcomes[i]->Err_0@,
        ) by {
            if i < entries.len() - 1 {
                assert(tally(e0, o0).2[i] == (e0[i].path@, o0[i]->Err_0@));
            }
        }
    }
}

/// When every removal succeeds, every file is counted and none is listed as
/// failed.
pub proof fn law_all_succeeded(entries: Seq<FileEntry>, outcomes: Seq<Result<(), String>>)
    requires
        entries.len() == outcomes.len(),
        forall|i: int| 0 <= i < outcomes.len() ==> #[trigger] outcomes[i] is Ok,
    ensures
        tally(entries, outcomes).0 == entries.len(),
        tally(entries, outcomes).2.len() == 0,
    decreases entries.len(),
{
    if entries.len() > 0 {
        let (e0, o0) = (entries.drop_last(), outcomes.drop_last());
        assert forall|i: int| 0 <= i < o0.len() implies #[trigger] o0[i] is Ok by {
            assert(o0[i] == outcomes[i]);
        }
        law_all_succeeded(e0, o0);
        assert(outcomes[outcomes.len() - 1] is Ok);
    }
}

/// Every file that was tried is either counted as deleted or listed as failed.
pub proof fn law_every_file_accounted(entries: Seq<FileEntry>, outcomes: Seq<Result<(), String>>)
    requires
        entries.len() == outcomes.len(),
    ensures
        tally(entries, outcomes).0 + tally(entries, outcomes).2.len() == entries.len(),
{
    lemma_tally_counts(entries, outcomes);
}

} // verus!
