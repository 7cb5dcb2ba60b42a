//! Deterministic, order-preserving human-readable summaries of revision
//! collections: a bracketed, semicolon-joined list of identifiers with
//! whitespace replaced by underscores.  Used for diagnostics, never for
//! identity.

use vstd::prelude::*;
use crate::applied_revision::AppliedRevision;
use crate::model::{AppliedView, rev_ids};
use crate::revision::Revision;
use crate::text::{join_seqs, sanitize, sanitize_id, join_strings, str_eq};

verus! {

/// The RFC 3339 rendering of a timestamp given in nanoseconds since the
/// Unix epoch; the text depends on the timestamp alone.
pub uninterp spec fn rfc3339_text(timestamp: i64) -> Seq<char>;

/// Relies on chrono's `DateTime::<Utc>::from_timestamp_nanos`, which is
/// total on `i64`, and `DateTime::to_rfc3339`, which never fails for a UTC
/// timestamp: the result is a function of the timestamp alone.
#[verifier::external_body]
fn format_rfc3339(timestamp: i64) -> (r: String)
    ensures
        r@ == rfc3339_text(timestamp),
{
    chrono::DateTime::<chrono::Utc>::from_timestamp_nanos(timestamp).to_rfc3339()
}

/// The summary of a list of identifiers: bracketed, semicolon-joined,
/// each identifier sanitised.
pub open spec fn spec_revision_list(ids: Seq<Seq<char>>) -> Seq<char> {
    "["@ + join_seqs(ids.map_values(|id: Seq<char>| sanitize(id)), ";"@) + "]"@
}

/// The status text of one ledger entry: the sanitised identifier followed
/// by `@` and the RFC 3339 timestamp.
pub open spec fn spec_revision_status(e: AppliedView) -> Seq<char> {
    sanitize(e.id) + "@"@ + rfc3339_text(e.at as i64)
}

/// The status summary of a ledger: bracketed, semicolon-joined entries.
pub open spec fn spec_status_list(entries: Seq<AppliedView>) -> Seq<char> {
    "["@ + join_seqs(entries.map_values(|e: AppliedView| spec_revision_status(e)), ";"@) + "]"@
}

/// Join the parts with semicolons and surround them with brackets.
fn bracket_join(parts: &Vec<String>) -> (r: String)
    ensures
        r@ == "["@ + join_seqs(parts@.map_values(|p: String| p@), ";"@) + "]"@,
{
    let body = join_strings(parts, ";");
    let mut out = "[".to_owned();
    out.append(body.as_str());
    out.append("]");
    out
}

/// A collection of revisions that can summarise itself and answer whether
/// it holds a given identifier.
pub trait RevisionList {
    /// The identifiers held, in order.
    spec fn listed_ids(&self) -> Seq<Seq<char>>;

    /// The bracketed, semicolon-joined summary of the identifiers.
    fn revision_list(&self) -> (r: String)
        ensures
            r@ == spec_revision_list(self.listed_ids()),
    ;

    /// Whether some held revision has exactly this identifier.
    fn contains_revision(&self, revision: &str) -> (b: bool)
        ensures
            b == self.listed_ids().contains(revision@),
    ;
}

/// A collection of ledger entries that can summarise itself together with
/// the timestamps.
pub trait RevisionStatus {
    /// The status text promised by `revision_status`.
    spec fn status_view(&self) -> Seq<char>;

    /// The human-readable status summary.
    fn revision_status(&self) -> (r: String)
        ensures
            r@ == self.status_view(),
    ;
}

impl RevisionList for Vec<Revision> {
    open spec fn listed_ids(&self) -> Seq<Seq<char>> {
        rev_ids(self@)
    }

    fn revision_list(&self) -> (r: String) {
        let mut parts: Vec<String> = Vec::new();
        let mut i: usize = 0;
        while i < self.len()
            invariant
                0 <= i <= self@.len(),
                parts@.len() == i,
                forall|j: int| 0 <= j < i ==> parts@[j]@ == sanitize(#[trigger] self@[j]@.id),
            decreases self@.len() - i,
        {
            parts.push(sanitize_id(self[i].revision.as_str()));
            i += 1;
        }
        proof {
            assert(parts@.map_values(|p: String| p@) =~= rev_ids(self@).map_values(
                |id: Seq<char>| sanitize(id),
            ));
        }
        bracket_join(&parts)
    }

    fn contains_revision(&self, revision: &str) -> (b: bool) {
        let mut i: usize = 0;
        while i < self.len()
            invariant
                0 <= i <= self@.len(),
                forall|j: int| 0 <= j < i ==> rev_ids(self@)[j] != revision@,
            decreases self@.len() - i,
        {
            if str_eq(self[i].revision.as_str(), revision) {
                assert(rev_ids(self@)[i as int] == revision@);
                return true;
            }
            i += 1;
        }
        false
    }
}

impl RevisionList for Vec<AppliedRevision> {
    open spec fn listed_ids(&self) -> Seq<Seq<char>> {
        self@.map_values(|a: AppliedRevision| a@.id)
    }

    fn revision_list(&self) -> (r: String) {
        let mut parts: Vec<String> = Vec::new();
        let mut i: usize = 0;
        while i < self.len()
            invariant
                0 <= i <= self@.len(),
                parts@.len() == i,
                forall|j: int| 0 <= j < i ==> parts@[j]@ == sanitize(#[trigger] self@[j]@.id),
            decreases self@.len() - i,
        {
            parts.push(sanitize_id(self[i].revision()));
            i += 1;
        }
        proof {
            assert(parts@.map_values(|p: String| p@) =~= self.listed_ids().map_values(
                |id: Seq<char>| sanitize(id),
            ));
        }
        bracket_join(&parts)
    }

    fn contains_revision(&self, revision: &str) -> (b: bool) {
        let mut i: usize = 0;
        while i < self.len()
            invariant
                0 <= i <= self@.len(),
                forall|j: int| 0 <= j < i ==> self.listed_ids()[j] != revision@,
            decreases self@.len() - i,
        {
            if str_eq(self[i].revision(), revision) {
                assert(self.listed_ids()[i as int] == revision@);
                return true;
            }
            i += 1;
        }
        false
    }
}

impl RevisionStatus for AppliedRevision {
    open spec fn status_view(&self) -> Seq<char> {
        spec_revision_status(self@)
    }

    fn revision_status(&self) -> (r: String) {
        let mut out = sanitize_id(self.revision());
        out.append("@");
        let stamp = format_rfc3339(self.applied_at());
        out.append(stamp.as_str());
        out
    }
}

impl RevisionStatus for Vec<AppliedRevision> {
    open spec fn status_view(&self) -> Seq<char> {
        spec_status_list(self@.map_values(|a: AppliedRevision| a@))
    }

    fn revision_status(&self) -> (r: String) {
        let ghost entries = self@.map_values(|a: AppliedRevision| a@);
        let mut parts: Vec<String> = Vec::new();
        let mut i: usize = 0;
        while i < self.len()
            invariant
                entries == self@.map_values(|a: AppliedRevision| a@),
                0 <= i <= self@.len(),
                parts@.len() == i,
                forall|j: int| 0 <= j < i ==> parts@[j]@ == spec_revision_status(
                    #[trigger] entries[j],
                ),
            decreases self@.len() - i,
        {
            let part = self[i].revision_status();
            parts.push(part);
            i += 1;
        }
        proof {
            assert(parts@.map_values(|p: String| p@) =~= entries.map_values(
                |e: AppliedView| spec_revision_status(e),
            ));
        }
        bracket_join(&parts)
    }
}

} // verus!
