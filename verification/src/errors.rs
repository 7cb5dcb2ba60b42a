//! The error kinds of the engine.  Every operation reports failures through
//! this one type; no failure is silently swallowed except inside
//! `needs_migration`, which by design treats a failed query as an empty
//! ledger.

use vstd::prelude::*;

verus! {

/// Why a store or orchestrator operation failed.
#[derive(Debug)]
pub enum MigrationError {
    /// The backend could not be reached.
    Connectivity(String),
    /// Reading the ledger failed.
    Query(String),
    /// A ledger row could not be converted into an applied-revision record.
    Conversion(String),
    /// A statement batch failed; the ledger is unchanged for that batch.
    Execution(String),
    /// Under the sequential policy one revision failed: `failed` names it,
    /// `committed` lists the revisions already recorded applied before it,
    /// and `message` carries the text of the backend failure.  The failing
    /// and all later revisions were not recorded.
    PartialApplication { failed: String, committed: Vec<String>, message: String },
}

impl MigrationError {
    /// The diagnostic text this error carries.
    pub open spec fn spec_detail(self) -> Seq<char> {
        match self {
            MigrationError::Connectivity(s) => s@,
            MigrationError::Query(s) => s@,
            MigrationError::Conversion(s) => s@,
            MigrationError::Execution(s) => s@,
            MigrationError::PartialApplication { message, .. } => message@,
        }
    }

    /// Take the diagnostic text out of the error.
    pub fn into_detail(self) -> (r: String)
        ensures
            r@ == self.spec_detail(),
    {
        match self {
            MigrationError::Connectivity(s) => s,
            MigrationError::Query(s) => s,
            MigrationError::Conversion(s) => s,
            MigrationError::Execution(s) => s,
            MigrationError::PartialApplication { message, .. } => message,
        }
    }
}

} // verus!
