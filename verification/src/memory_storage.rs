//! A verified in-memory [`RevisionStorage`]: the test double of the
//! low-level port.  It executes statements against an in-memory ledger,
//! records the text of every statement it was asked to execute, and can be
//! told to fail a query or a particular execution.

use vstd::prelude::*;
use crate::applied_revision::AppliedRevision;
use crate::errors::MigrationError;
use crate::memory_store::rows_view;
use crate::migrate_store::{RevisionStorage, StorageRow};
use crate::model::{ledger_extended, lemma_remove_ids_push, remove_ids};
use crate::statement::{Bookkeeping, Statement};
use crate::text::str_eq;

verus! {

/// A row of the in-memory storage.  A row holding no record fails to
/// decode, standing for a malformed ledger row.
pub struct MemoryRow(pub Option<AppliedRevision>);

impl StorageRow for MemoryRow {
    open spec fn row_view(&self) -> Option<crate::model::AppliedView> {
        match self.0 {
            Some(a) => Some(a@),
            None => None,
        }
    }

    fn into_applied(self) -> (r: Result<AppliedRevision, MigrationError>) {
        match self.0 {
            Some(a) => Ok(a),
            None => Err(
                MigrationError::Conversion("row did not hold an applied revision".to_owned()),
            ),
        }
    }
}

/// True when some identifier in the list equals the given one.
fn ids_contain(ids: &Vec<String>, id: &str) -> (b: bool)
    ensures
        b == ids@.map_values(|s: String| s@).contains(id@),
{
    let mut i: usize = 0;
    while i < ids.len()
        invariant
            0 <= i <= ids@.len(),
            forall|j: int| 0 <= j < i ==> (#[trigger] ids@[j])@ != id@,
        decreases ids@.len() - i,
    {
        if str_eq(ids[i].as_str(), id) {
            assert(ids@.map_values(|s: String| s@)[i as int] == id@);
            return true;
        }
        i += 1;
    }
    false
}

/// Append one ledger row per identifier, stamped with successive ticks.
fn append_id_rows(rows: &mut Vec<AppliedRevision>, ids: &Vec<String>, clock: i64) -> (c: i64)
    ensures
        ledger_extended(
            rows_view(old(rows)@),
            rows_view(final(rows)@),
            ids@.map_values(|s: String| s@),
        ),
{
    let ghost pre = rows_view(rows@);
    let mut tick = clock;
    let mut i: usize = 0;
    while i < ids.len()
        invariant
            0 <= i <= ids@.len(),
            rows@.len() == pre.len() + i,
            rows_view(rows@).take(pre.len() as int) == pre,
            forall|j: int|
                0 <= j < i ==> rows_view(rows@)[pre.len() + j].id == (#[trigger] ids@[j])@,
        decreases ids@.len() - i,
    {
        let ghost before = rows_view(rows@);
        rows.push(AppliedRevision::new(ids[i].as_str(), tick));
        if tick < i64::MAX {
            tick = tick + 1;
        }
        proof {
            assert(rows_view(rows@).take(rows@.len() - 1) =~= before);
            assert(before.take(pre.len() as int) =~= rows_view(rows@).take(pre.len() as int));
        }
        i += 1;
    }
    tick
}

/// Keep only the rows whose identifier is not listed.
fn keep_unlisted(rows: &Vec<AppliedRevision>, ids: &Vec<String>) -> (r: Vec<AppliedRevision>)
    ensures
        rows_view(r@) == remove_ids(rows_view(rows@), ids@.map_values(|s: String| s@)),
{
    let ghost all = rows_view(rows@);
    let ghost idseq = ids@.map_values(|s: String| s@);
    let mut out: Vec<AppliedRevision> = Vec::new();
    let mut i: usize = 0;
    proof {
        assert(all.take(0) =~= Seq::<crate::model::AppliedView>::empty());
    }
    while i < rows.len()
        invariant
            all == rows_view(rows@),
            idseq == ids@.map_values(|s: String| s@),
            0 <= i <= rows@.len(),
            rows_view(out@) == remove_ids(all.take(i as int), idseq),
        decreases rows@.len() - i,
    {
        proof {
            assert(all.take(i + 1).drop_last() =~= all.take(i as int));
            assert(all.take(i + 1).last() == all[i as int]);
            lemma_remove_ids_push(all.take(i as int), all[i as int], idseq);
            assert(all.take(i as int).push(all[i as int]) =~= all.take(i + 1));
        }
        let ghost before = rows_view(out@);
        if !ids_contain(ids, rows[i].revision()) {
            out.push(rows[i].duplicate());
            proof {
                assert(rows_view(out@) =~= before.push(all[i as int]));
            }
        }
        i += 1;
    }
    proof {
        assert(all.take(all.len() as int) =~= all);
    }
    out
}

/// In-memory storage with failure injection and a statement log.
pub struct MemoryStorage {
    /// The ledger rows.
    pub rows: Vec<AppliedRevision>,
    /// Source of the timestamps given to inserted rows.
    pub clock: i64,
    /// The text of every statement passed to `execute`, attempts included.
    pub executed: Vec<String>,
    /// How many times `execute` was called.
    pub execute_count: usize,
    /// Fail the execution with this zero-based call index, when set.
    pub fail_execute_at: Option<usize>,
    /// Fail every ledger query, when set.
    pub fail_query: bool,
    /// Return the row with this index in a form that fails to decode.
    pub undecodable_row: Option<usize>,
}

impl MemoryStorage {
    /// An empty, always-succeeding storage.
    pub fn new() -> (r: Self)
        ensures
            r.ledger() == Seq::<crate::model::AppliedView>::empty(),
    {
        let r = MemoryStorage {
            rows: Vec::new(),
            clock: 0,
            executed: Vec::new(),
            execute_count: 0,
            fail_execute_at: None,
            fail_query: false,
            undecodable_row: None,
        };
        proof {
            assert(rows_view(r.rows@) =~= Seq::<crate::model::AppliedView>::empty());
        }
        r
    }

    /// An always-succeeding storage preloaded with the given rows.
    pub fn with_applied(rows: Vec<AppliedRevision>) -> (r: Self)
        ensures
            r.ledger() == rows_view(rows@),
    {
        MemoryStorage {
            rows,
            clock: 0,
            executed: Vec::new(),
            execute_count: 0,
            fail_execute_at: None,
            fail_query: false,
            undecodable_row: None,
        }
    }
}

impl RevisionStorage for MemoryStorage {
    type Row = MemoryRow;

    open spec fn ledger(&self) -> Seq<crate::model::AppliedView> {
        rows_view(self.rows@)
    }

    fn query_applied(&mut self) -> (r: Result<Vec<MemoryRow>, MigrationError>) {
        if self.fail_query {
            return Err(MigrationError::Query("injected query failure".to_owned()));
        }
        let mut out: Vec<MemoryRow> = Vec::new();
        let mut i: usize = 0;
        while i < self.rows.len()
            invariant
                0 <= i <= self.rows@.len(),
                out@.len() == i,
                forall|j: int|
                    0 <= j < i ==> ((#[trigger] out@[j]).row_view() == Some(
                        rows_view(self.rows@)[j],
                    ) || out@[j].row_view() is None),
            decreases self.rows@.len() - i,
        {
            let undecodable = match self.undecodable_row {
                Some(n) => n == i,
                None => false,
            };
            if undecodable {
                out.push(MemoryRow(None));
            } else {
                out.push(MemoryRow(Some(self.rows[i].duplicate())));
            }
            i += 1;
        }
        Ok(out)
    }

    fn execute(&mut self, statement: &Statement) -> (r: Result<(), MigrationError>) {
        let sql = statement.to_sql();
        self.executed.push(sql);
        let index = self.execute_count;
        if index < usize::MAX {
            self.execute_count = index + 1;
        }
        let inject = match self.fail_execute_at {
            Some(n) => n == index,
            None => false,
        };
        if inject {
            return Err(MigrationError::Execution("injected execution failure".to_owned()));
        }
        match &statement.bookkeeping {
            Bookkeeping::Insert(ids) => {
                let next = append_id_rows(&mut self.rows, ids, self.clock);
                self.clock = next;
            },
            Bookkeeping::Delete(ids) => {
                let kept = keep_unlisted(&self.rows, ids);
                self.rows = kept;
            },
        }
        Ok(())
    }
}

} // verus!
