//! A verified in-memory [`RevisionStore`]: the ledger is a vector of
//! applied-revision records, apply appends, revert deletes by identifier.
//! Timestamps come from a monotone counter.  Every call is also recorded in
//! a log, so a caller can observe which operations a computation issued.

use vstd::prelude::*;
use crate::applied_revision::AppliedRevision;
use crate::errors::MigrationError;
use crate::migrate_store::RevisionStore;
use crate::model::{
    AppliedView, ledger_extended, lemma_remove_ids_push, remove_ids, rev_ids,
};
use crate::revision::Revision;
use crate::revision_list::RevisionList;

verus! {

/// An in-memory store holding its ledger directly.
pub struct MemoryStore {
    rows: Vec<AppliedRevision>,
    clock: i64,
    calls: Vec<String>,
}

/// The ledger image of a row vector.
pub open spec fn rows_view(rows: Seq<AppliedRevision>) -> Seq<AppliedView> {
    rows.map_values(|a: AppliedRevision| a@)
}

/// Copy the rows one record at a time.
fn duplicate_rows(rows: &Vec<AppliedRevision>) -> (r: Vec<AppliedRevision>)
    ensures
        rows_view(r@) == rows_view(rows@),
{
    let mut out: Vec<AppliedRevision> = Vec::new();
    let mut i: usize = 0;
    while i < rows.len()
        invariant
            0 <= i <= rows@.len(),
            out@.len() == i,
            forall|j: int| 0 <= j < i ==> (#[trigger] out@[j])@ == rows@[j]@,
        decreases rows@.len() - i,
    {
        out.push(rows[i].duplicate());
        i += 1;
    }
    proof {
        assert(rows_view(out@) =~= rows_view(rows@));
    }
    out
}

/// Append one applied record per revision, stamping each with the next
/// clock tick.
fn append_rows(rows: &mut Vec<AppliedRevision>, revisions: &Vec<Revision>, clock: i64) -> (c:
    i64)
    ensures
        ledger_extended(rows_view(old(rows)@), rows_view(final(rows)@), rev_ids(revisions@)),
{
    let ghost pre = rows_view(rows@);
    let mut tick = clock;
    let mut i: usize = 0;
    while i < revisions.len()
        invariant
            0 <= i <= revisions@.len(),
            rows@.len() == pre.len() + i,
            rows_view(rows@).take(pre.len() as int) == pre,
            forall|j: int|
                0 <= j < i ==> rows_view(rows@)[pre.len() + j].id == rev_ids(revisions@)[j],
        decreases revisions@.len() - i,
    {
        let ghost before = rows_view(rows@);
        rows.push(AppliedRevision::new(revisions[i].revision.as_str(), tick));
        if tick < i64::MAX {
            tick = tick + 1;
        }
        proof {
            assert(rows_view(rows@).take(rows@.len() - 1) =~= before);
            assert(before.take(pre.len() as int) =~= rows_view(rows@).take(pre.len() as int));
        }
        i += 1;
    }
    tick
}

/// Keep only the rows whose identifier is not among the revisions'.
fn retain_others(rows: &Vec<AppliedRevision>, revisions: &Vec<Revision>) -> (r: Vec<
    AppliedRevision,
>)
    ensures
        rows_view(r@) == remove_ids(rows_view(rows@), rev_ids(revisions@)),
{
    let ghost all = rows_view(rows@);
    let ghost ids = rev_ids(revisions@);
    let mut out: Vec<AppliedRevision> = Vec::new();
    let mut i: usize = 0;
    proof {
        assert(all.take(0) =~= Seq::<AppliedView>::empty());
    }
    while i < rows.len()
        invariant
            all == rows_view(rows@),
            ids == rev_ids(revisions@),
            0 <= i <= rows@.len(),
            rows_view(out@) == remove_ids(all.take(i as int), ids),
        decreases rows@.len() - i,
    {
        proof {
            assert(all.take(i + 1).drop_last() =~= all.take(i as int));
            assert(all.take(i + 1).last() == all[i as int]);
            lemma_remove_ids_push(all.take(i as int), all[i as int], ids);
            assert(all.take(i as int).push(all[i as int]) =~= all.take(i + 1));
        }
        let ghost before = rows_view(out@);
        if !revisions.contains_revision(rows[i].revision()) {
            out.push(rows[i].duplicate());
            proof {
                assert(rows_view(out@) =~= before.push(all[i as int]));
            }
        }
        i += 1;
    }
    proof {
        assert(all.take(all.len() as int) =~= all);
    }
    out
}

impl MemoryStore {
    /// An empty store.
    pub fn new() -> (r: Self)
        ensures
            r.ledger() == Seq::<AppliedView>::empty(),
    {
        let r = MemoryStore { rows: Vec::new(), clock: 0, calls: Vec::new() };
        proof {
            assert(rows_view(r.rows@) =~= Seq::<AppliedView>::empty());
        }
        r
    }

    /// A store preloaded with the given ledger rows.
    pub fn with_rows(rows: Vec<AppliedRevision>) -> (r: Self)
        ensures
            r.ledger() == rows_view(rows@),
    {
        MemoryStore { rows, clock: 0, calls: Vec::new() }
    }

    /// The operations issued so far, one entry per call, in order.
    pub fn calls(&self) -> &Vec<String> {
        &self.calls
    }

    /// The current ledger rows.
    pub fn rows(&self) -> (r: &Vec<AppliedRevision>)
        ensures
            rows_view(r@) == self.ledger(),
    {
        &self.rows
    }
}

impl RevisionStore for MemoryStore {
    closed spec fn ledger(&self) -> Seq<AppliedView> {
        rows_view(self.rows@)
    }

    fn applied_revisions(&mut self) -> (r: Result<Vec<AppliedRevision>, MigrationError>) {
        self.calls.push("query".to_owned());
        Ok(duplicate_rows(&self.rows))
    }

    fn apply(&mut self, revisions: &Vec<Revision>) -> (r: Result<(), MigrationError>) {
        let mut entry = "apply:".to_owned();
        let listed = revisions.revision_list();
        entry.append(listed.as_str());
        self.calls.push(entry);
        let next = append_rows(&mut self.rows, revisions, self.clock);
        self.clock = next;
        Ok(())
    }

    fn revert(&mut self, revisions: &Vec<Revision>) -> (r: Result<(), MigrationError>) {
        let mut entry = "revert:".to_owned();
        let listed = revisions.revision_list();
        entry.append(listed.as_str());
        self.calls.push(entry);
        let kept = retain_others(&self.rows, revisions);
        self.rows = kept;
        Ok(())
    }
}

} // verus!
