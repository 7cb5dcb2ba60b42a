//! The production [`RevisionStorage`]: a Postgres-backed adapter.  The
//! ledger is one table keyed uniquely by revision identifier, created
//! lazily and idempotently before first use.  Every statement runs inside
//! one transaction, so it commits or fails as a unit.
//!
//! The adapter's port methods are trusted items: the ghost ledger stands
//! for the content of the `migrations` table, and Verus believes the
//! port's contracts for them rather than proving them.

use vstd::prelude::*;
use crate::applied_revision::AppliedRevision;
use crate::errors::MigrationError;
use crate::migrate_store::{ExecutionPolicy, RevisionDatabase, RevisionStorage, StorageRow};
use crate::migration::{views_of, Migration};
use crate::model::{rev_ids, AppliedView};
use crate::revision::Revision;
use crate::statement::Statement;

verus! {

#[verifier::external_type_specification]
#[verifier::external_body]
pub struct ExClient(postgres::Client);

#[verifier::external_type_specification]
#[verifier::external_body]
pub struct ExPgRow(postgres::Row);

/// A ledger row read from Postgres, already decoded: either the record,
/// or the text of the decoding failure.
pub struct PostgresRow {
    record: Option<AppliedRevision>,
    problem: String,
}

impl StorageRow for PostgresRow {
    closed spec fn row_view(&self) -> Option<AppliedView> {
        match self.record {
            Some(a) => Some(a@),
            None => None,
        }
    }

    fn into_applied(self) -> (r: Result<AppliedRevision, MigrationError>) {
        match self.record {
            Some(a) => Ok(a),
            None => Err(MigrationError::Conversion(self.problem)),
        }
    }
}

/// Relies on postgres' `Row::try_get` for the `rev` text column and the
/// epoch-nanosecond value computed by the ledger query; a column that
/// cannot be read yields a decoding failure carried in the row.
#[verifier::external_body]
fn decode_row(row: postgres::Row) -> PostgresRow {
    match (row.try_get(0), row.try_get(1)) {
        (Ok(revision), Ok(nanos)) => {
            let text: String = revision;
            let at: i64 = nanos;
            PostgresRow { record: Some(AppliedRevision::new(&text, at)), problem: String::new() }
        },
        (Err(e), _) => PostgresRow { record: None, problem: format!("failed to read rev: {e}") },
        (_, Err(e)) => PostgresRow {
            record: None,
            problem: format!("failed to read timestamp: {e}"),
        },
    }
}

/// The Postgres adapter.  `ledger_model` is the ghost image of the
/// `migrations` table that the port contracts speak of.
pub struct PostgresRevisionStorage {
    client: postgres::Client,
    table_ready: bool,
    ledger_model: Ghost<Seq<AppliedView>>,
}

impl PostgresRevisionStorage {
    /// Wrap an open connection; the ledger table is created lazily, and
    /// nothing is known of the ledger until it is queried.
    pub fn new(client: postgres::Client) -> Self {
        PostgresRevisionStorage { client, table_ready: false, ledger_model: Ghost(arbitrary()) }
    }

    /// Relies on postgres' `batch_execute` with `CREATE TABLE IF NOT
    /// EXISTS`: creating the ledger table is idempotent and leaves
    /// existing ledger rows untouched.
    #[verifier::external_body]
    fn ensure_migrations_table(&mut self) -> (r: Result<(), MigrationError>)
        ensures
            final(self).ledger() == old(self).ledger(),
    {
        if self.table_ready {
            return Ok(());
        }
        self.client
            .batch_execute(
                "CREATE TABLE IF NOT EXISTS migrations (\n\
                 id BIGINT GENERATED ALWAYS AS IDENTITY PRIMARY KEY,\n\
                 rev TEXT NOT NULL UNIQUE,\n\
                 timestamp TIMESTAMPTZ NOT NULL DEFAULT NOW()\n\
                 )",
            )
            .map_err(|e| MigrationError::Connectivity(format!("failed to ensure 'migrations': {e}")))?;
        self.table_ready = true;
        Ok(())
    }

    /// Relies on postgres' `Client::query`: the ledger query returns one
    /// row per `migrations` row, in insertion order, with the revision
    /// text and its applied timestamp as epoch nanoseconds.
    #[verifier::external_body]
    fn run_ledger_query(&mut self) -> (r: Result<Vec<PostgresRow>, MigrationError>)
        ensures
            final(self).ledger() == old(self).ledger(),
            r matches Ok(rows) ==> rows@.len() == old(self).ledger().len()
                && forall|i: int|
                    0 <= i < rows@.len() ==> ((#[trigger] rows@[i]).row_view() == Some(
                        old(self).ledger()[i],
                    ) || rows@[i].row_view() is None),
            r matches Err(e) ==> e is Query || e is Connectivity,
    {
        if let Err(e) = self.ensure_migrations_table() {
            return Err(e);
        }
        self.client
            .query(
                "SELECT rev, CAST(EXTRACT(EPOCH FROM timestamp) * 1000000000 AS BIGINT) \
                 FROM migrations ORDER BY id",
                &[],
            )
            .map(|rows| rows.into_iter().map(decode_row).collect())
            .map_err(|e| MigrationError::Query(format!("failed to query for applied revisions {e:?}")))
    }

    /// Relies on postgres transactions (`transaction`, `batch_execute`,
    /// `commit`): the statement's scripts and its ledger bookkeeping
    /// commit all-or-nothing, and the bookkeeping inserts or deletes
    /// exactly the listed identifiers in the `migrations` table.  The
    /// identifiers must be quote-free, since the rendered bookkeeping
    /// splices them between single quotes.  Two boundaries of this
    /// contract: a script that itself rewrites the `migrations` table
    /// falls outside it, and a commit whose acknowledgment is lost may in
    /// reality have committed — all-or-nothing is exactly the obligation
    /// this engine places on its backend.
    #[verifier::external_body]
    fn run_statement(&mut self, statement: &Statement) -> (r: Result<(), MigrationError>)
        requires
            crate::model::all_quote_free(statement@.ids()),
        ensures
            r matches Err(e) ==> final(self).ledger() == old(self).ledger() && (e is Execution
                || e is Connectivity),
            r is Ok ==> match statement@.bookkeeping {
                crate::statement::BookkeepingView::Insert(ids) => crate::model::ledger_extended(
                    old(self).ledger(),
                    final(self).ledger(),
                    ids,
                ),
                crate::statement::BookkeepingView::Delete(ids) => final(self).ledger()
                    == crate::model::remove_ids(old(self).ledger(), ids),
            },
    {
        if let Err(e) = self.ensure_migrations_table() {
            return Err(e);
        }
        let sql = statement.to_sql();
        let mut transaction = self.client.transaction().map_err(|e| {
            MigrationError::Connectivity(format!("failed to open a transaction: {e}"))
        })?;
        transaction
            .batch_execute(sql.as_str())
            .map_err(|e| MigrationError::Execution(format!("failed to execute statements: {e}")))?;
        transaction
            .commit()
            .map_err(|e| MigrationError::Execution(format!("failed to commit transaction: {e}")))?;
        Ok(())
    }
}

impl RevisionStorage for PostgresRevisionStorage {
    type Row = PostgresRow;

    closed spec fn ledger(&self) -> Seq<AppliedView> {
        self.ledger_model@
    }

    fn query_applied(&mut self) -> (r: Result<Vec<PostgresRow>, MigrationError>) {
        self.run_ledger_query()
    }

    fn execute(&mut self, statement: &Statement) -> (r: Result<(), MigrationError>) {
        self.run_statement(statement)
    }
}

/// Builds the production engine over Postgres.
pub struct MigrationBuilder;

impl MigrationBuilder {
    /// Wire the declared revisions, whose identifiers must be unique and
    /// free of single quotes, to a Postgres connection under the given
    /// execution policy.
    pub fn postgres(
        revisions: Vec<Revision>,
        client: postgres::Client,
        policy: ExecutionPolicy,
    ) -> (r: Migration<RevisionDatabase<PostgresRevisionStorage>>)
        requires
            rev_ids(revisions@).no_duplicates(),
            crate::model::all_quote_free(rev_ids(revisions@)),
        ensures
            r.wf(),
            r.declared() == views_of(revisions@),
            r.spec_store().spec_policy() == policy,
    {
        let storage = PostgresRevisionStorage::new(client);
        let store = RevisionDatabase::new(storage, policy);
        Migration::new(store, revisions)
    }
}

} // verus!
