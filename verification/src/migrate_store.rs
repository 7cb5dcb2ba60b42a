//! The two storage ports and the default store implementation.
//!
//! [`RevisionStorage`] is the low-level port a concrete backend implements:
//! raw row retrieval and atomic execution of one [`Statement`].
//! [`RevisionStore`] is the high-level port the orchestrator depends on:
//! query the applied set, apply a batch, revert a batch, each specified by
//! its effect on the ledger.  [`RevisionDatabase`] implements the high-level
//! port on top of the low-level one by synthesising statements under one of
//! two execution policies.
//!
//! The contracts on the port methods are what the engine assumes of a
//! backend: a failing execution leaves the ledger unchanged for that call
//! (the backend must run each statement as one transaction), and a
//! successful one performs exactly the bookkeeping the statement carries.

use vstd::prelude::*;
use crate::applied_revision::AppliedRevision;
use crate::errors::MigrationError;
use crate::model::{
    all_quote_free, AppliedView, ledger_extended, ledger_ids, lemma_extended_ids,
    lemma_extended_trans, lemma_extends_self, lemma_remove_ids_twice, quote_free, remove_ids,
    rev_ids,
};
use crate::revision::Revision;
use crate::statement::{
    batch_apply_statement, batch_revert_statement, single_apply_statement,
    single_revert_statement, BookkeepingView, Statement,
};

verus! {

/// A raw ledger row, in storage-native form.  Every row either decodes to
/// one ledger entry or fails to decode; the failure is a distinct
/// conversion error and is never silently dropped.
pub trait StorageRow: Sized {
    /// The ledger entry this row decodes to, if it is well formed.
    spec fn row_view(&self) -> Option<AppliedView>;

    /// Decode the row into an applied-revision record; a failure is a
    /// conversion error.
    fn into_applied(self) -> (r: Result<AppliedRevision, MigrationError>)
        ensures
            match r {
                Ok(a) => self.row_view() == Some(a@),
                Err(e) => self.row_view() is None && e is Conversion,
            },
    ;
}

/// The low-level port a concrete database adapter implements.  `ledger`
/// is the (ghost) content of the persistent ledger table behind the
/// adapter, in row order.
pub trait RevisionStorage: Sized {
    /// The storage-native row type returned by queries.
    type Row: StorageRow;

    /// The persisted ledger behind this storage, in row order.
    spec fn ledger(&self) -> Seq<AppliedView>;

    /// Retrieve every ledger row.  The read does not change the ledger;
    /// on success each returned row either decodes to the ledger entry at
    /// its position or fails to decode; a failure is a query or
    /// connectivity error.
    fn query_applied(&mut self) -> (r: Result<Vec<Self::Row>, MigrationError>)
        ensures
            final(self).ledger() == old(self).ledger(),
            r matches Ok(rows) ==> rows@.len() == old(self).ledger().len()
                && forall|i: int|
                    0 <= i < rows@.len() ==> ((#[trigger] rows@[i]).row_view() == Some(
                        old(self).ledger()[i],
                    ) || rows@[i].row_view() is None),
            r matches Err(e) ==> e is Query || e is Connectivity,
    ;

    /// Execute one statement as a single atomic unit.  The bookkeeping
    /// identifiers must be quote-free, since they are spliced between
    /// single quotes in the rendered text.  On failure — an execution or
    /// connectivity error — the ledger is unchanged for this call; on
    /// success the statement's bookkeeping has been performed: an
    /// insertion appends one entry per identifier, in order, and a
    /// deletion removes every entry whose identifier is listed.
    fn execute(&mut self, statement: &Statement) -> (r: Result<(), MigrationError>)
        requires
            all_quote_free(statement@.ids()),
            statement@.bookkeeping matches BookkeepingView::Insert(ids) ==> ids.no_duplicates()
                && forall|i: int|
                    0 <= i < ids.len() ==> !ledger_ids(old(self).ledger()).contains(
                        #[trigger] ids[i],
                    ),
        ensures
            r matches Err(e) ==> final(self).ledger() == old(self).ledger() && (e is Execution
                || e is Connectivity),
            r is Ok ==> match statement@.bookkeeping {
                BookkeepingView::Insert(ids) => ledger_extended(
                    old(self).ledger(),
                    final(self).ledger(),
                    ids,
                ),
                BookkeepingView::Delete(ids) => final(self).ledger() == remove_ids(
                    old(self).ledger(),
                    ids,
                ),
            },
    ;
}

/// The high-level port the orchestrator depends on.  `ledger` is the
/// (ghost) content of the persistent ledger behind the store.
pub trait RevisionStore: Sized {
    /// The persisted ledger behind this store, in row order.
    spec fn ledger(&self) -> Seq<AppliedView>;

    /// The applied revisions, in ledger row order.  The read does not
    /// change the ledger; a failure is a query, connectivity or
    /// conversion error, never the outcome of a write.
    fn applied_revisions(&mut self) -> (r: Result<Vec<AppliedRevision>, MigrationError>)
        ensures
            final(self).ledger() == old(self).ledger(),
            r matches Ok(v) ==> v@.map_values(|a: AppliedRevision| a@) == old(self).ledger(),
            r matches Err(e) ==> e is Query || e is Connectivity || e is Conversion,
    ;

    /// Execute the forward effect of the revisions, in the given order,
    /// and record each as applied.  The identifiers must be quote-free.
    /// An empty batch succeeds without touching the store.  On success
    /// every identifier was appended to the ledger; on failure — never a
    /// read error — some prefix of them was.
    fn apply(&mut self, revisions: &Vec<Revision>) -> (r: Result<(), MigrationError>)
        requires
            all_quote_free(rev_ids(revisions@)),
            rev_ids(revisions@).no_duplicates(),
            forall|i: int|
                0 <= i < revisions@.len() ==> !ledger_ids(old(self).ledger()).contains(
                    (#[trigger] revisions@[i])@.id,
                ),
        ensures
            revisions@.len() == 0 ==> r is Ok,
            r is Ok ==> ledger_extended(
                old(self).ledger(),
                final(self).ledger(),
                rev_ids(revisions@),
            ),
            r matches Err(e) ==> (e is Execution || e is Connectivity
                || e is PartialApplication) && exists|k: int|
                0 <= k <= revisions@.len() && ledger_extended(
                    old(self).ledger(),
                    final(self).ledger(),
                    rev_ids(revisions@).take(k),
                ),
    ;

    /// Execute the backward effect of the revisions, in the given order,
    /// and remove each from the ledger.  The identifiers must be
    /// quote-free.  The caller is responsible for passing the revisions
    /// already in the intended (most-recent-first) order; the store does
    /// not reorder its input.  An empty batch succeeds without touching
    /// the store.  On success every listed identifier was removed; on
    /// failure — never a read error — those of some prefix.
    fn revert(&mut self, revisions: &Vec<Revision>) -> (r: Result<(), MigrationError>)
        requires
            all_quote_free(rev_ids(revisions@)),
        ensures
            revisions@.len() == 0 ==> r is Ok,
            r is Ok ==> final(self).ledger() == remove_ids(
                old(self).ledger(),
                rev_ids(revisions@),
            ),
            r matches Err(e) ==> (e is Execution || e is Connectivity
                || e is PartialApplication) && exists|k: int|
                0 <= k <= revisions@.len() && final(self).ledger() == remove_ids(
                    old(self).ledger(),
                    rev_ids(revisions@).take(k),
                ),
    ;
}

/// How a store turns a batch of revisions into statements.
#[derive(Clone, Copy, Debug)]
pub enum ExecutionPolicy {
    /// Concatenate every script and the whole bookkeeping into one
    /// statement, so the batch commits or fails together.
    Batched,
    /// One statement per revision, in order, stopping at the first
    /// failure; revisions committed before the failure stay recorded.
    Sequential,
}

/// Decode queried rows into applied-revision records; the first row that
/// fails to decode fails the whole read.
fn convert_rows<R: StorageRow>(rows: Vec<R>, Ghost(led): Ghost<Seq<AppliedView>>) -> (r: Result<
    Vec<AppliedRevision>,
    MigrationError,
>)
    requires
        rows@.len() == led.len(),
        forall|i: int|
            0 <= i < rows@.len() ==> ((#[trigger] rows@[i]).row_view() == Some(led[i])
                || rows@[i].row_view() is None),
    ensures
        r matches Ok(v) ==> v@.map_values(|a: AppliedRevision| a@) == led,
        r matches Err(e) ==> e is Conversion,
{
    let mut remaining = rows;
    let mut out: Vec<AppliedRevision> = Vec::new();
    let ghost total = led.len();
    while remaining.len() > 0
        invariant
            out@.len() + remaining@.len() == led.len(),
            out@.map_values(|a: AppliedRevision| a@) == led.take(out@.len() as int),
            forall|i: int|
                0 <= i < remaining@.len() ==> ((#[trigger] remaining@[i]).row_view() == Some(
                    led[out@.len() + i],
                ) || remaining@[i].row_view() is None),
        decreases remaining@.len(),
    {
        let row = remaining.remove(0);
        let ghost n = out@.len() as int;
        match row.into_applied() {
            Ok(a) => {
                out.push(a);
                proof {
                    assert(out@.map_values(|x: AppliedRevision| x@) =~= led.take(n + 1));
                }
            },
            Err(e) => {
                return Err(e);
            },
        }
    }
    proof {
        assert(led.take(led.len() as int) =~= led);
    }
    Ok(out)
}

/// Apply the revisions one statement per revision, stopping at the first
/// failure.  On failure the error names the failing revision and lists the
/// revisions already committed before it.
fn apply_sequential<S: RevisionStorage>(storage: &mut S, revisions: &Vec<Revision>) -> (r:
    Result<(), MigrationError>)
    requires
        all_quote_free(rev_ids(revisions@)),
        rev_ids(revisions@).no_duplicates(),
        forall|i: int|
            0 <= i < revisions@.len() ==> !ledger_ids(old(storage).ledger()).contains(
                (#[trigger] revisions@[i])@.id,
            ),
    ensures
        revisions@.len() == 0 ==> r is Ok,
        r is Ok ==> ledger_extended(
            old(storage).ledger(),
            final(storage).ledger(),
            rev_ids(revisions@),
        ),
        r matches Err(e) ==> exists|k: int|
            {
                &&& 0 <= k < revisions@.len()
                &&& ledger_extended(
                    old(storage).ledger(),
                    final(storage).ledger(),
                    rev_ids(revisions@).take(k),
                )
                &&& e matches MigrationError::PartialApplication { failed, committed, message: _ }
                    && failed@ == rev_ids(revisions@)[k] && committed@.map_values(
                    |s: String| s@,
                ) == rev_ids(revisions@).take(k)
            },
{
    let ghost old_led = storage.ledger();
    let ghost ids = rev_ids(revisions@);
    proof {
        assert(ids.take(0) =~= Seq::<Seq<char>>::empty());
        lemma_extends_self(old_led);
    }
    let mut i: usize = 0;
    let mut failure: Option<MigrationError> = None;
    while i < revisions.len() && failure.is_none()
        invariant
            ids == rev_ids(revisions@),
            all_quote_free(ids),
            ids.no_duplicates(),
            forall|j: int|
                0 <= j < revisions@.len() ==> !ledger_ids(old_led).contains(
                    (#[trigger] revisions@[j])@.id,
                ),
            0 <= i <= revisions@.len(),
            ledger_extended(old_led, storage.ledger(), ids.take(i as int)),
            failure is Some ==> i < revisions@.len(),
        decreases revisions@.len() - i + (if failure is Some { 0int } else { 1int }),
    {
        let st = single_apply_statement(&revisions[i]);
        proof {
            lemma_extended_ids(old_led, storage.ledger(), ids.take(i as int));
            let cur = ledger_ids(storage.ledger());
            let id = revisions@[i as int]@.id;
            assert(!cur.contains(id)) by {
                assert(ids[i as int] == id);
                if cur.contains(id) {
                    let j = choose|j: int| 0 <= j < cur.len() && cur[j] == id;
                    if j < old_led.len() {
                        assert(ledger_ids(old_led)[j] == id);
                    } else {
                        assert(ids.take(i as int)[j - old_led.len()] == id);
                    }
                }
            }
            assert(seq![id].no_duplicates());
            assert(forall|j: int| 0 <= j < 1 ==> !cur.contains(#[trigger] seq![id][j]));
            assert(quote_free(ids[i as int]));
            assert(forall|j: int| 0 <= j < 1 ==> quote_free(#[trigger] seq![id][j]));
        }
        let ghost before = storage.ledger();
        match storage.execute(&st) {
            Ok(_) => {
                proof {
                    lemma_extended_trans(
                        old_led,
                        before,
                        storage.ledger(),
                        ids.take(i as int),
                        seq![revisions@[i as int]@.id],
                    );
                    assert(ids.take(i as int) + seq![revisions@[i as int]@.id] =~= ids.take(
                        i + 1,
                    ));
                }
                i += 1;
            },
            Err(e) => {
                failure = Some(e);
            },
        }
    }
    match failure {
        Some(e) => {
            let mut committed: Vec<String> = Vec::new();
            let mut j: usize = 0;
            while j < i
                invariant
                    0 <= j <= i <= revisions@.len(),
                    ids == rev_ids(revisions@),
                    committed@.len() == j,
                    forall|m: int|
                        0 <= m < j ==> committed@[m]@ == (#[trigger] revisions@[m])@.id,
                decreases i - j,
            {
                committed.push(revisions[j].revision.clone());
                j += 1;
            }
            proof {
                assert(committed@.map_values(|s: String| s@) =~= ids.take(i as int));
            }
            let failing = revisions[i].revision.clone();
            let message = e.into_detail();
            Err(MigrationError::PartialApplication { failed: failing, committed, message })
        },
        None => {
            proof {
                assert(ids.take(revisions@.len() as int) =~= ids);
            }
            Ok(())
        },
    }
}

/// Revert the revisions one statement per revision, in the given order,
/// stopping at the first failure.
fn revert_sequential<S: RevisionStorage>(storage: &mut S, revisions: &Vec<Revision>) -> (r:
    Result<(), MigrationError>)
    requires
        all_quote_free(rev_ids(revisions@)),
    ensures
        revisions@.len() == 0 ==> r is Ok,
        r is Ok ==> final(storage).ledger() == remove_ids(
            old(storage).ledger(),
            rev_ids(revisions@),
        ),
        r matches Err(e) ==> exists|k: int|
            {
                &&& 0 <= k < revisions@.len()
                &&& final(storage).ledger() == remove_ids(
                    old(storage).ledger(),
                    rev_ids(revisions@).take(k),
                )
                &&& e matches MigrationError::PartialApplication { failed, committed, message: _ }
                    && failed@ == rev_ids(revisions@)[k] && committed@.map_values(
                    |s: String| s@,
                ) == rev_ids(revisions@).take(k)
            },
{
    let ghost old_led = storage.ledger();
    let ghost ids = rev_ids(revisions@);
    proof {
        assert(ids.take(0) =~= Seq::<Seq<char>>::empty());
        crate::model::lemma_remove_absent_ids(old_led, Seq::<Seq<char>>::empty());
    }
    let mut i: usize = 0;
    let mut failure: Option<MigrationError> = None;
    while i < revisions.len() && failure.is_none()
        invariant
            ids == rev_ids(revisions@),
            all_quote_free(ids),
            0 <= i <= revisions@.len(),
            storage.ledger() == remove_ids(old_led, ids.take(i as int)),
            failure is Some ==> i < revisions@.len(),
        decreases revisions@.len() - i + (if failure is Some { 0int } else { 1int }),
    {
        let st = single_revert_statement(&revisions[i]);
        let ghost before = storage.ledger();
        proof {
            assert(quote_free(ids[i as int]));
            assert(forall|j: int|
                0 <= j < 1 ==> quote_free(#[trigger] seq![revisions@[i as int]@.id][j]));
        }
        match storage.execute(&st) {
            Ok(_) => {
                proof {
                    lemma_remove_ids_twice(
                        old_led,
                        ids.take(i as int),
                        seq![revisions@[i as int]@.id],
                    );
                    assert(ids.take(i as int) + seq![revisions@[i as int]@.id] =~= ids.take(
                        i + 1,
                    ));
                }
                i += 1;
            },
            Err(e) => {
                failure = Some(e);
            },
        }
    }
    match failure {
        Some(e) => {
            let mut committed: Vec<String> = Vec::new();
            let mut j: usize = 0;
            while j < i
                invariant
                    0 <= j <= i <= revisions@.len(),
                    ids == rev_ids(revisions@),
                    committed@.len() == j,
                    forall|m: int|
                        0 <= m < j ==> committed@[m]@ == (#[trigger] revisions@[m])@.id,
                decreases i - j,
            {
                committed.push(revisions[j].revision.clone());
                j += 1;
            }
            proof {
                assert(committed@.map_values(|s: String| s@) =~= ids.take(i as int));
            }
            let failing = revisions[i].revision.clone();
            let message = e.into_detail();
            Err(MigrationError::PartialApplication { failed: failing, committed, message })
        },
        None => {
            proof {
                assert(ids.take(revisions@.len() as int) =~= ids);
            }
            Ok(())
        },
    }
}

/// The default [`RevisionStore`]: synthesises statements from revisions
/// under the configured policy and delegates their execution to a
/// [`RevisionStorage`].
pub struct RevisionDatabase<S> {
    storage: S,
    policy: ExecutionPolicy,
}

impl<S: RevisionStorage> RevisionDatabase<S> {
    /// The persisted ledger behind this store.
    pub closed spec fn spec_ledger(&self) -> Seq<AppliedView> {
        self.storage.ledger()
    }

    /// The execution policy this store was built with.
    pub closed spec fn spec_policy(&self) -> ExecutionPolicy {
        self.policy
    }

    /// Build a store over the given storage with the given policy.
    pub fn new(storage: S, policy: ExecutionPolicy) -> (r: Self)
        ensures
            r.spec_ledger() == storage.ledger(),
            r.spec_policy() == policy,
    {
        RevisionDatabase { storage, policy }
    }

    /// The underlying storage.
    pub fn storage(&self) -> (r: &S)
        ensures
            r.ledger() == self.spec_ledger(),
    {
        &self.storage
    }

    /// Query the ledger and decode every row; fails if the query or any
    /// single row conversion fails.
    pub fn fetch_applied(&mut self) -> (r: Result<Vec<AppliedRevision>, MigrationError>)
        ensures
            final(self).spec_ledger() == old(self).spec_ledger(),
            final(self).spec_policy() == old(self).spec_policy(),
            r matches Ok(v) ==> v@.map_values(|a: AppliedRevision| a@) == old(
                self,
            ).spec_ledger(),
            r matches Err(e) ==> e is Query || e is Connectivity || e is Conversion,
    {
        let rows = match self.storage.query_applied() {
            Ok(rows) => rows,
            Err(e) => {
                return Err(e);
            },
        };
        let ghost led = self.storage.ledger();
        convert_rows(rows, Ghost(led))
    }

    /// Apply the revisions under the configured policy.  Under the batched
    /// policy the whole batch commits or fails together; under the
    /// sequential policy a failure keeps earlier revisions recorded and the
    /// error names the failing revision.
    pub fn apply_revisions(&mut self, revisions: &Vec<Revision>) -> (r: Result<
        (),
        MigrationError,
    >)
        requires
            all_quote_free(rev_ids(revisions@)),
            rev_ids(revisions@).no_duplicates(),
            forall|i: int|
                0 <= i < revisions@.len() ==> !ledger_ids(old(self).spec_ledger()).contains(
                    (#[trigger] revisions@[i])@.id,
                ),
        ensures
            final(self).spec_policy() == old(self).spec_policy(),
            revisions@.len() == 0 ==> r is Ok,
            r is Ok ==> ledger_extended(
                old(self).spec_ledger(),
                final(self).spec_ledger(),
                rev_ids(revisions@),
            ),
            r matches Err(e) ==> (e is Execution || e is Connectivity
                || e is PartialApplication) && match old(self).spec_policy() {
                ExecutionPolicy::Batched => final(self).spec_ledger() == old(
                    self,
                ).spec_ledger(),
                ExecutionPolicy::Sequential => exists|k: int|
                    {
                        &&& 0 <= k < revisions@.len()
                        &&& ledger_extended(
                            old(self).spec_ledger(),
                            final(self).spec_ledger(),
                            rev_ids(revisions@).take(k),
                        )
                        &&& e matches MigrationError::PartialApplication {
                            failed,
                            committed,
                            message: _,
                        } && failed@ == rev_ids(revisions@)[k] && committed@.map_values(
                            |s: String| s@,
                        ) == rev_ids(revisions@).take(k)
                    },
            },
    {
        if revisions.len() == 0 {
            proof {
                lemma_extends_self(self.storage.ledger());
                assert(rev_ids(revisions@) =~= Seq::<Seq<char>>::empty());
            }
            return Ok(());
        }
        match self.policy {
            ExecutionPolicy::Batched => {
                let st = batch_apply_statement(revisions);
                match self.storage.execute(&st) {
                    Ok(_) => Ok(()),
                    Err(e) => Err(e),
                }
            },
            ExecutionPolicy::Sequential => apply_sequential(&mut self.storage, revisions),
        }
    }

    /// Revert the revisions under the configured policy, in the given
    /// order; the input is not reordered.
    pub fn revert_revisions(&mut self, revisions: &Vec<Revision>) -> (r: Result<
        (),
        MigrationError,
    >)
        requires
            all_quote_free(rev_ids(revisions@)),
        ensures
            final(self).spec_policy() == old(self).spec_policy(),
            revisions@.len() == 0 ==> r is Ok,
            r is Ok ==> final(self).spec_ledger() == remove_ids(
                old(self).spec_ledger(),
                rev_ids(revisions@),
            ),
            r matches Err(e) ==> (e is Execution || e is Connectivity
                || e is PartialApplication) && match old(self).spec_policy() {
                ExecutionPolicy::Batched => final(self).spec_ledger() == old(
                    self,
                ).spec_ledger(),
                ExecutionPolicy::Sequential => exists|k: int|
                    {
                        &&& 0 <= k < revisions@.len()
                        &&& final(self).spec_ledger() == remove_ids(
                            old(self).spec_ledger(),
                            rev_ids(revisions@).take(k),
                        )
                        &&& e matches MigrationError::PartialApplication {
                            failed,
                            committed,
                            message: _,
                        } && failed@ == rev_ids(revisions@)[k] && committed@.map_values(
                            |s: String| s@,
                        ) == rev_ids(revisions@).take(k)
                    },
            },
    {
        if revisions.len() == 0 {
            proof {
                crate::model::lemma_remove_absent_ids(
                    self.storage.ledger(),
                    Seq::<Seq<char>>::empty(),
                );
                assert(rev_ids(revisions@) =~= Seq::<Seq<char>>::empty());
            }
            return Ok(());
        }
        match self.policy {
            ExecutionPolicy::Batched => {
                let st = batch_revert_statement(revisions);
                match self.storage.execute(&st) {
                    Ok(_) => Ok(()),
                    Err(e) => Err(e),
                }
            },
            ExecutionPolicy::Sequential => revert_sequential(&mut self.storage, revisions),
        }
    }
}

impl<S: RevisionStorage> RevisionStore for RevisionDatabase<S> {
    open spec fn ledger(&self) -> Seq<AppliedView> {
        self.spec_ledger()
    }

    fn applied_revisions(&mut self) -> (r: Result<Vec<AppliedRevision>, MigrationError>) {
        self.fetch_applied()
    }

    fn apply(&mut self, revisions: &Vec<Revision>) -> (r: Result<(), MigrationError>) {
        let r = self.apply_revisions(revisions);
        proof {
            if r is Err {
                match old(self).spec_policy() {
                    ExecutionPolicy::Batched => {
                        lemma_extends_self(self.spec_ledger());
                        assert(rev_ids(revisions@).take(0) =~= Seq::<Seq<char>>::empty());
                    },
                    ExecutionPolicy::Sequential => {},
                }
            }
        }
        r
    }

    fn revert(&mut self, revisions: &Vec<Revision>) -> (r: Result<(), MigrationError>) {
        let r = self.revert_revisions(revisions);
        proof {
            if r is Err {
                match old(self).spec_policy() {
                    ExecutionPolicy::Batched => {
                        crate::model::lemma_remove_absent_ids(
                            old(self).spec_ledger(),
                            Seq::<Seq<char>>::empty(),
                        );
                        assert(rev_ids(revisions@).take(0) =~= Seq::<Seq<char>>::empty());
                    },
                    ExecutionPolicy::Sequential => {},
                }
            }
        }
        r
    }
}

} // verus!
