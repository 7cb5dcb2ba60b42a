//! A historical record: the identifier of a revision together with the
//! timestamp (nanoseconds since the Unix epoch) at which it was recorded
//! applied.  Values of this type are produced by querying a store; the
//! orchestrator never fabricates them.

use vstd::prelude::*;
use crate::model::AppliedView;

verus! {

/// One entry of the persisted ledger, as returned by a store.
#[derive(Debug)]
pub struct AppliedRevision {
    revision: String,
    timestamp: i64,
}

impl View for AppliedRevision {
    type V = AppliedView;

    closed spec fn view(&self) -> AppliedView {
        AppliedView { id: self.revision@, at: self.timestamp as int }
    }
}

impl AppliedRevision {
    /// Record that the revision with this identifier was applied at the
    /// given timestamp, in nanoseconds since the Unix epoch.
    pub fn new(revision: &str, timestamp: i64) -> (r: Self)
        ensures
            r@.id == revision@,
            r@.at == timestamp as int,
    {
        AppliedRevision { revision: revision.to_owned(), timestamp }
    }

    /// The identifier of the applied revision.
    pub fn revision(&self) -> (r: &str)
        ensures
            r@ == self@.id,
    {
        self.revision.as_str()
    }

    /// The timestamp at which the revision was recorded applied, in
    /// nanoseconds since the Unix epoch.
    pub fn applied_at(&self) -> (t: i64)
        ensures
            t as int == self@.at,
    {
        self.timestamp
    }

    /// An exact copy of this record.
    pub fn duplicate(&self) -> (r: Self)
        ensures
            r@ == self@,
    {
        AppliedRevision { revision: self.revision.clone(), timestamp: self.timestamp }
    }
}

} // verus!
