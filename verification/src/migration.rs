//! The migration orchestrator: holds the declared ordered revision
//! sequence and a [`RevisionStore`], and drives the store's ledger toward
//! full application (`upgrade`), partial or full rollback (`downgrade`),
//! or a destructive full rebuild (`reset`).

use vstd::prelude::*;
use crate::applied_revision::AppliedRevision;
use crate::errors::MigrationError;
use crate::migrate_store::RevisionStore;
use crate::model::{
    all_quote_free, ledger_extended, ledger_ids, lemma_extends_self, lemma_remove_absent_ids,
    lemma_remove_ids_entries, quote_free, remove_ids, rev_ids,
};
use crate::revision::{Revision, RevisionView};

verus! {

/// The views of a sequence of revisions.
pub open spec fn views_of(revs: Seq<Revision>) -> Seq<RevisionView> {
    revs.map_values(|r: Revision| r@)
}

/// The identifiers of a sequence of revision views, in order.
pub open spec fn ids_of_views(vs: Seq<RevisionView>) -> Seq<Seq<char>> {
    vs.map_values(|v: RevisionView| v.id)
}

/// The identifiers of queried applied-revision records, in order.
pub open spec fn applied_ids(applied: Seq<AppliedRevision>) -> Seq<Seq<char>> {
    applied.map_values(|a: AppliedRevision| a@.id)
}

/// The declared revisions whose identifier is absent from the applied set,
/// in declared order.
pub open spec fn missing_views(declared: Seq<RevisionView>, applied: Seq<Seq<char>>) -> Seq<
    RevisionView,
>
    decreases declared.len(),
{
    if declared.len() == 0 {
        Seq::empty()
    } else {
        let rest = missing_views(declared.drop_last(), applied);
        if applied.contains(declared.last().id) {
            rest
        } else {
            rest.push(declared.last())
        }
    }
}

/// The declared revisions whose identifier is present in the applied set,
/// in declared order.
pub open spec fn present_views(declared: Seq<RevisionView>, applied: Seq<Seq<char>>) -> Seq<
    RevisionView,
>
    decreases declared.len(),
{
    if declared.len() == 0 {
        Seq::empty()
    } else {
        let rest = present_views(declared.drop_last(), applied);
        if applied.contains(declared.last().id) {
            rest.push(declared.last())
        } else {
            rest
        }
    }
}

/// Where the reverted suffix of the applied-in-order sequence starts:
/// with a count, the last `count` elements (clamped); without, all of them.
pub open spec fn revert_start(pres_len: nat, count: Option<usize>) -> int {
    match count {
        Some(k) => if k <= pres_len {
            pres_len - k
        } else {
            0
        },
        None => 0,
    }
}

/// What `downgrade` reverts, still in declared order (it is passed to the
/// store reversed).
pub open spec fn to_revert_views(
    declared: Seq<RevisionView>,
    applied: Seq<Seq<char>>,
    count: Option<usize>,
) -> Seq<RevisionView> {
    let pres = present_views(declared, applied);
    pres.skip(revert_start(pres.len(), count))
}

/// Every missing revision is declared, and its identifier is not applied.
pub proof fn lemma_missing_entries(declared: Seq<RevisionView>, applied: Seq<Seq<char>>)
    ensures
        forall|i: int| 0 <= i < missing_views(declared, applied).len() ==> {
            &&& !applied.contains((#[trigger] missing_views(declared, applied)[i]).id)
            &&& declared.contains(missing_views(declared, applied)[i])
        },
    decreases declared.len(),
{
    if declared.len() > 0 {
        lemma_missing_entries(declared.drop_last(), applied);
        assert(forall|i: int|
            0 <= i < declared.drop_last().len() ==> declared.contains(
                #[trigger] declared.drop_last()[i],
            ));
        let rest = missing_views(declared.drop_last(), applied);
        let res = missing_views(declared, applied);
        assert forall|i: int| 0 <= i < res.len() implies !applied.contains(res[i].id)
            && declared.contains(res[i]) by {
            if i < rest.len() {
                assert(declared.drop_last().contains(rest[i]));
                let j = choose|j: int|
                    0 <= j < declared.drop_last().len() && declared.drop_last()[j] == rest[i];
                assert(declared[j] == res[i]);
            } else {
                assert(res[i] == declared.last());
                assert(declared[declared.len() - 1] == declared.last());
            }
        }
    }
}

/// A declared revision whose identifier is not applied appears among the
/// missing identifiers.
pub proof fn lemma_missing_covers(declared: Seq<RevisionView>, applied: Seq<Seq<char>>)
    ensures
        forall|i: int|
            0 <= i < declared.len() && !applied.contains((#[trigger] declared[i]).id)
                ==> ids_of_views(missing_views(declared, applied)).contains(declared[i].id),
    decreases declared.len(),
{
    if declared.len() > 0 {
        lemma_missing_covers(declared.drop_last(), applied);
        let rest = missing_views(declared.drop_last(), applied);
        let res = missing_views(declared, applied);
        assert forall|i: int|
            0 <= i < declared.len() && !applied.contains((#[trigger] declared[i]).id)
            implies ids_of_views(res).contains(declared[i].id) by {
            if i < declared.len() - 1 {
                assert(declared.drop_last()[i] == declared[i]);
                assert(ids_of_views(rest).contains(declared[i].id));
                let j = choose|j: int|
                    0 <= j < rest.len() && ids_of_views(rest)[j] == declared[i].id;
                assert(res[j] == rest[j]);
                assert(ids_of_views(res)[j] == declared[i].id);
            } else {
                assert(declared[i] == declared.last());
                assert(res.last() == declared.last());
                assert(ids_of_views(res)[res.len() - 1] == declared[i].id);
            }
        }
    }
}

/// With distinct declared identifiers, the missing identifiers are
/// distinct too.
pub proof fn lemma_missing_ids_distinct(declared: Seq<RevisionView>, applied: Seq<Seq<char>>)
    requires
        ids_of_views(declared).no_duplicates(),
    ensures
        ids_of_views(missing_views(declared, applied)).no_duplicates(),
    decreases declared.len(),
{
    if declared.len() > 0 {
        let shorter = declared.drop_last();
        assert(ids_of_views(shorter) =~= ids_of_views(declared).drop_last());
        assert(ids_of_views(shorter).no_duplicates()) by {
            assert(forall|i: int|
                0 <= i < shorter.len() ==> ids_of_views(declared).drop_last()[i]
                    == ids_of_views(declared)[i]);
        }
        lemma_missing_ids_distinct(shorter, applied);
        let rest = missing_views(shorter, applied);
        let res = missing_views(declared, applied);
        if !applied.contains(declared.last().id) {
            lemma_missing_entries(shorter, applied);
            assert(!ids_of_views(rest).contains(declared.last().id)) by {
                if ids_of_views(rest).contains(declared.last().id) {
                    let j = choose|j: int|
                        0 <= j < rest.len() && ids_of_views(rest)[j] == declared.last().id;
                    assert(shorter.contains(rest[j]));
                    let m = choose|m: int|
                        0 <= m < shorter.len() && shorter[m] == rest[j];
                    assert(ids_of_views(declared)[m] == declared.last().id);
                    assert(ids_of_views(declared)[declared.len() - 1] == declared.last().id);
                }
            }
            assert forall|i: int, j: int|
                0 <= i < j < res.len() implies ids_of_views(res)[i] != ids_of_views(res)[j] by {
                if j < rest.len() {
                    assert(ids_of_views(rest)[i] != ids_of_views(rest)[j]);
                } else {
                    assert(ids_of_views(res)[j] == declared.last().id);
                    assert(ids_of_views(res)[i] == ids_of_views(rest)[i]);
                }
            }
            assert(ids_of_views(res).no_duplicates());
        }
    }
}

/// Every present revision is declared, and its identifier is applied.
pub proof fn lemma_present_entries(declared: Seq<RevisionView>, applied: Seq<Seq<char>>)
    ensures
        forall|i: int| 0 <= i < present_views(declared, applied).len() ==> {
            &&& applied.contains((#[trigger] present_views(declared, applied)[i]).id)
            &&& declared.contains(present_views(declared, applied)[i])
        },
    decreases declared.len(),
{
    if declared.len() > 0 {
        lemma_present_entries(declared.drop_last(), applied);
        assert(forall|i: int|
            0 <= i < declared.drop_last().len() ==> declared.contains(
                #[trigger] declared.drop_last()[i],
            ));
        let rest = present_views(declared.drop_last(), applied);
        let res = present_views(declared, applied);
        assert forall|i: int| 0 <= i < res.len() implies applied.contains(res[i].id)
            && declared.contains(res[i]) by {
            if i < rest.len() {
                assert(declared.drop_last().contains(rest[i]));
                let j = choose|j: int|
                    0 <= j < declared.drop_last().len() && declared.drop_last()[j] == rest[i];
                assert(declared[j] == res[i]);
            } else {
                assert(res[i] == declared.last());
                assert(declared[declared.len() - 1] == declared.last());
            }
        }
    }
}

/// The identifiers of revisions declared with quote-free identifiers are
/// quote-free wherever the revisions came from the declared sequence.
proof fn lemma_declared_members_quote_free(
    declared: Seq<RevisionView>,
    chosen: Seq<RevisionView>,
)
    requires
        all_quote_free(ids_of_views(declared)),
        forall|i: int| 0 <= i < chosen.len() ==> declared.contains(#[trigger] chosen[i]),
    ensures
        all_quote_free(ids_of_views(chosen)),
{
    assert forall|i: int| 0 <= i < ids_of_views(chosen).len() implies quote_free(
        #[trigger] ids_of_views(chosen)[i],
    ) by {
        assert(declared.contains(chosen[i]));
        let j = choose|j: int| 0 <= j < declared.len() && declared[j] == chosen[i];
        assert(ids_of_views(declared)[j] == chosen[i].id);
        assert(quote_free(ids_of_views(declared)[j]));
    }
}

/// A declared revision whose identifier is applied appears among the
/// present identifiers.
pub proof fn lemma_present_covers(declared: Seq<RevisionView>, applied: Seq<Seq<char>>)
    ensures
        forall|i: int|
            0 <= i < declared.len() && applied.contains((#[trigger] declared[i]).id)
                ==> ids_of_views(present_views(declared, applied)).contains(declared[i].id),
    decreases declared.len(),
{
    if declared.len() > 0 {
        lemma_present_covers(declared.drop_last(), applied);
        let rest = present_views(declared.drop_last(), applied);
        let res = present_views(declared, applied);
        assert forall|i: int|
            0 <= i < declared.len() && applied.contains((#[trigger] declared[i]).id)
            implies ids_of_views(res).contains(declared[i].id) by {
            if i < declared.len() - 1 {
                assert(declared.drop_last()[i] == declared[i]);
                assert(ids_of_views(rest).contains(declared[i].id));
                let j = choose|j: int|
                    0 <= j < rest.len() && ids_of_views(rest)[j] == declared[i].id;
                assert(res[j] == rest[j]);
                assert(ids_of_views(res)[j] == declared[i].id);
            } else {
                assert(declared[i] == declared.last());
                assert(res.last() == declared.last());
                assert(ids_of_views(res)[res.len() - 1] == declared[i].id);
            }
        }
    }
}

/// When every declared identifier is applied, nothing is missing.
pub proof fn lemma_nothing_missing(declared: Seq<RevisionView>, applied: Seq<Seq<char>>)
    requires
        forall|i: int|
            0 <= i < declared.len() ==> applied.contains((#[trigger] declared[i]).id),
    ensures
        missing_views(declared, applied).len() == 0,
    decreases declared.len(),
{
    if declared.len() > 0 {
        assert(forall|i: int|
            0 <= i < declared.drop_last().len() ==> #[trigger] declared.drop_last()[i]
                == declared[i]);
        lemma_nothing_missing(declared.drop_last(), applied);
        assert(declared[declared.len() - 1] == declared.last());
    }
}

/// The identifiers of revisions are the identifiers of their views.
proof fn lemma_rev_ids_are_view_ids(revs: Seq<Revision>)
    ensures
        rev_ids(revs) == ids_of_views(views_of(revs)),
{
    assert(rev_ids(revs) =~= ids_of_views(views_of(revs)));
}

/// Taking identifiers commutes with reversing.
proof fn lemma_ids_of_reverse(vs: Seq<RevisionView>)
    ensures
        ids_of_views(vs.reverse()) == ids_of_views(vs).reverse(),
{
    assert(ids_of_views(vs.reverse()) =~= ids_of_views(vs).reverse());
}

/// Membership in a concatenation of identifier lists.
proof fn lemma_concat_contains(a: Seq<Seq<char>>, b: Seq<Seq<char>>, x: Seq<char>)
    ensures
        (a + b).contains(x) <==> a.contains(x) || b.contains(x),
{
    if a.contains(x) {
        let j = choose|j: int| 0 <= j < a.len() && a[j] == x;
        assert((a + b)[j] == x);
    }
    if b.contains(x) {
        let j = choose|j: int| 0 <= j < b.len() && b[j] == x;
        assert((a + b)[a.len() + j] == x);
    }
    if (a + b).contains(x) {
        let j = choose|j: int| 0 <= j < (a + b).len() && (a + b)[j] == x;
        if j < a.len() {
            assert(a[j] == x);
        } else {
            assert(b[j - a.len()] == x);
        }
    }
}

/// Membership is unchanged by reversing an identifier list.
proof fn lemma_reverse_contains(s: Seq<Seq<char>>, x: Seq<char>)
    ensures
        s.reverse().contains(x) <==> s.contains(x),
{
    if s.contains(x) {
        let j = choose|j: int| 0 <= j < s.len() && s[j] == x;
        assert(s.reverse()[s.len() - 1 - j] == x);
    }
    if s.reverse().contains(x) {
        let j = choose|j: int| 0 <= j < s.reverse().len() && s.reverse()[j] == x;
        assert(s[s.len() - 1 - j] == x);
    }
}

/// Deleting by two identifier lists with the same members is the same
/// deletion.
proof fn lemma_remove_ids_same_members(
    l: Seq<crate::model::AppliedView>,
    a: Seq<Seq<char>>,
    b: Seq<Seq<char>>,
)
    requires
        forall|x: Seq<char>| #[trigger] a.contains(x) <==> #[trigger] b.contains(x),
    ensures
        remove_ids(l, a) == remove_ids(l, b),
    decreases l.len(),
{
    if l.len() > 0 {
        lemma_remove_ids_same_members(l.drop_last(), a, b);
    }
}

/// Idempotence: after the identifiers missing from an applied set are
/// appended to it, nothing is missing any more — a second upgrade with no
/// intervening state change has nothing left to apply.
pub proof fn lemma_upgrade_idempotent(declared: Seq<RevisionView>, applied: Seq<Seq<char>>)
    ensures
        missing_views(
            declared,
            applied + ids_of_views(missing_views(declared, applied)),
        ).len() == 0,
{
    let miss_ids = ids_of_views(missing_views(declared, applied));
    let after = applied + miss_ids;
    lemma_missing_covers(declared, applied);
    assert forall|i: int| 0 <= i < declared.len() implies after.contains(
        (#[trigger] declared[i]).id,
    ) by {
        lemma_concat_contains(applied, miss_ids, declared[i].id);
        if !applied.contains(declared[i].id) {
            assert(miss_ids.contains(declared[i].id));
        }
    }
    lemma_nothing_missing(declared, after);
}

/// Copy the declared revisions whose identifier is absent from the applied
/// records, preserving declared order.
pub fn revisions_to_apply(declared: &Vec<Revision>, applied: &Vec<AppliedRevision>) -> (r: Vec<
    Revision,
>)
    ensures
        views_of(r@) == missing_views(views_of(declared@), applied_ids(applied@)),
{
    let ghost decl = views_of(declared@);
    let ghost app = applied_ids(applied@);
    let mut out: Vec<Revision> = Vec::new();
    let mut i: usize = 0;
    proof {
        assert(views_of(out@) =~= missing_views(decl.take(0), app));
    }
    while i < declared.len()
        invariant
            decl == views_of(declared@),
            app == applied_ids(applied@),
            0 <= i <= declared@.len(),
            views_of(out@) == missing_views(decl.take(i as int), app),
        decreases declared@.len() - i,
    {
        proof {
            assert(decl.take(i + 1).drop_last() =~= decl.take(i as int));
            assert(decl.take(i + 1).last() == decl[i as int]);
        }
        let ghost before = views_of(out@);
        if !crate::revision_list::RevisionList::contains_revision(
            applied,
            declared[i].revision.as_str(),
        ) {
            out.push(declared[i].duplicate());
            proof {
                assert(views_of(out@) =~= before.push(decl[i as int]));
            }
        }
        i += 1;
    }
    proof {
        assert(decl.take(decl.len() as int) =~= decl);
    }
    out
}

/// Copy the declared revisions whose identifier is present among the
/// applied records, preserving declared order.
pub fn revisions_present(declared: &Vec<Revision>, applied: &Vec<AppliedRevision>) -> (r: Vec<
    Revision,
>)
    ensures
        views_of(r@) == present_views(views_of(declared@), applied_ids(applied@)),
{
    let ghost decl = views_of(declared@);
    let ghost app = applied_ids(applied@);
    let mut out: Vec<Revision> = Vec::new();
    let mut i: usize = 0;
    proof {
        assert(views_of(out@) =~= present_views(decl.take(0), app));
    }
    while i < declared.len()
        invariant
            decl == views_of(declared@),
            app == applied_ids(applied@),
            0 <= i <= declared@.len(),
            views_of(out@) == present_views(decl.take(i as int), app),
        decreases declared@.len() - i,
    {
        proof {
            assert(decl.take(i + 1).drop_last() =~= decl.take(i as int));
            assert(decl.take(i + 1).last() == decl[i as int]);
        }
        let ghost before = views_of(out@);
        if crate::revision_list::RevisionList::contains_revision(
            applied,
            declared[i].revision.as_str(),
        ) {
            out.push(declared[i].duplicate());
            proof {
                assert(views_of(out@) =~= before.push(decl[i as int]));
            }
        }
        i += 1;
    }
    proof {
        assert(decl.take(decl.len() as int) =~= decl);
    }
    out
}

/// Copy the suffix of the revisions that starts at `start`.
fn suffix_from(revs: &Vec<Revision>, start: usize) -> (r: Vec<Revision>)
    requires
        start <= revs@.len(),
    ensures
        views_of(r@) == views_of(revs@).skip(start as int),
{
    let mut out: Vec<Revision> = Vec::new();
    let mut i: usize = start;
    while i < revs.len()
        invariant
            start <= i <= revs@.len(),
            out@.len() == i - start,
            forall|j: int|
                0 <= j < out@.len() ==> (#[trigger] out@[j])@ == revs@[start + j]@,
        decreases revs@.len() - i,
    {
        out.push(revs[i].duplicate());
        i += 1;
    }
    proof {
        assert(views_of(out@) =~= views_of(revs@).skip(start as int));
    }
    out
}

/// Copy the revisions in reverse order.
fn reversed(revs: &Vec<Revision>) -> (r: Vec<Revision>)
    ensures
        views_of(r@) == views_of(revs@).reverse(),
{
    let mut out: Vec<Revision> = Vec::new();
    let mut i: usize = revs.len();
    while i > 0
        invariant
            0 <= i <= revs@.len(),
            out@.len() == revs@.len() - i,
            forall|j: int|
                0 <= j < out@.len() ==> (#[trigger] out@[j])@ == revs@[revs@.len() - 1 - j]@,
        decreases i,
    {
        i -= 1;
        out.push(revs[i].duplicate());
    }
    proof {
        assert(views_of(out@) =~= views_of(revs@).reverse());
    }
    out
}

/// True when every declared identifier occurs among the applied records.
fn all_declared_applied(declared: &Vec<Revision>, applied: &Vec<AppliedRevision>) -> (b: bool)
    ensures
        b == (forall|i: int|
            0 <= i < declared@.len() ==> applied_ids(applied@).contains(
                (#[trigger] declared@[i])@.id,
            )),
{
    let mut i: usize = 0;
    while i < declared.len()
        invariant
            0 <= i <= declared@.len(),
            forall|j: int|
                0 <= j < i ==> applied_ids(applied@).contains((#[trigger] declared@[j])@.id),
        decreases declared@.len() - i,
    {
        if !crate::revision_list::RevisionList::contains_revision(
            applied,
            declared[i].revision.as_str(),
        ) {
            return false;
        }
        i += 1;
    }
    true
}

/// The orchestrator: a declared ordered revision sequence over a store.
pub struct Migration<S> {
    store: S,
    revisions: Vec<Revision>,
}

impl<S: RevisionStore> Migration<S> {
    /// The declared revisions, in canonical apply order.
    pub closed spec fn declared(&self) -> Seq<RevisionView> {
        views_of(self.revisions@)
    }

    /// The ledger of the underlying store.
    pub closed spec fn store_ledger(&self) -> Seq<crate::model::AppliedView> {
        self.store.ledger()
    }

    /// The underlying store, as a specification value.
    pub closed spec fn spec_store(&self) -> S {
        self.store
    }

    /// Well-formedness: the declared identifiers are unique and hold no
    /// single quote, so they can stand in ledger bookkeeping.
    pub open spec fn wf(&self) -> bool {
        &&& ids_of_views(self.declared()).no_duplicates()
        &&& all_quote_free(ids_of_views(self.declared()))
    }

    /// Build an orchestrator over a store from the declared revisions,
    /// whose identifiers must be unique within the sequence and free of
    /// single quotes.
    pub fn new(store: S, revisions: Vec<Revision>) -> (r: Self)
        requires
            rev_ids(revisions@).no_duplicates(),
            all_quote_free(rev_ids(revisions@)),
        ensures
            r.declared() == views_of(revisions@),
            r.store_ledger() == store.ledger(),
            r.spec_store() == store,
            r.wf(),
    {
        proof {
            assert(ids_of_views(views_of(revisions@)) =~= rev_ids(revisions@));
        }
        Migration { store, revisions }
    }

    /// The underlying store.
    pub fn store(&self) -> (r: &S)
        ensures
            r.ledger() == self.store_ledger(),
    {
        &self.store
    }

    /// True when every declared revision is already recorded applied.
    /// (Note the polarity: despite its name, this reports "already
    /// migrated", not "needs migrating".)  A failed ledger query is
    /// treated as an empty applied set, not propagated.
    pub fn needs_migration(&mut self) -> (r: bool)
        ensures
            final(self).declared() == old(self).declared(),
            final(self).store_ledger() == old(self).store_ledger(),
            r ==> forall|i: int|
                0 <= i < old(self).declared().len() ==> ledger_ids(
                    old(self).store_ledger(),
                ).contains((#[trigger] old(self).declared()[i]).id),
            old(self).declared().len() == 0 ==> r,
    {
        match self.store.applied_revisions() {
            Ok(v) => {
                let r = all_declared_applied(&self.revisions, &v);
                proof {
                    assert(applied_ids(v@) =~= ledger_ids(old(self).store_ledger()));
                }
                r
            },
            Err(_) => {
                let v: Vec<AppliedRevision> = Vec::new();
                let r = all_declared_applied(&self.revisions, &v);
                proof {
                    if r && self.revisions@.len() > 0 {
                        assert(applied_ids(v@).contains(self.revisions@[0]@.id));
                        assert(false);
                    }
                }
                r
            },
        }
    }

    /// Apply every declared revision not yet recorded applied, in declared
    /// order, in one store call; with nothing to apply the store is not
    /// called and the count is zero.  Returns how many revisions were
    /// applied.  A failed ledger query — a query or conversion error — is
    /// propagated with the ledger untouched; a failed apply left some
    /// prefix recorded.
    pub fn upgrade(&mut self) -> (r: Result<usize, MigrationError>)
        requires
            old(self).wf(),
        ensures
            final(self).declared() == old(self).declared(),
            r matches Err(e) && (e is Query || e is Conversion) ==> final(self).store_ledger()
                == old(self).store_ledger(),
            r matches Ok(n) ==> {
                let miss = missing_views(
                    old(self).declared(),
                    ledger_ids(old(self).store_ledger()),
                );
                &&& n == miss.len()
                &&& ledger_extended(
                    old(self).store_ledger(),
                    final(self).store_ledger(),
                    ids_of_views(miss),
                )
            },
            r is Err ==> exists|k: int|
                0 <= k <= missing_views(
                    old(self).declared(),
                    ledger_ids(old(self).store_ledger()),
                ).len() && ledger_extended(
                    old(self).store_ledger(),
                    final(self).store_ledger(),
                    #[trigger] ids_of_views(
                        missing_views(old(self).declared(), ledger_ids(old(self).store_ledger())),
                    ).take(k),
                ),
    {
        let ghost old_led = self.store.ledger();
        proof {
            assert(old_led == old(self).store_ledger());
            assert(views_of(self.revisions@) == old(self).declared());
        }
        let ghost miss = missing_views(old(self).declared(), ledger_ids(old(self).store_ledger()));
        let applied = match self.store.applied_revisions() {
            Ok(v) => v,
            Err(e) => {
                proof {
                    lemma_extends_self(old_led);
                    assert(ids_of_views(miss).take(0) =~= Seq::<Seq<char>>::empty());
                    assert(ledger_extended(
                        old(self).store_ledger(),
                        self.store.ledger(),
                        ids_of_views(miss).take(0),
                    ));
                }
                return Err(e);
            },
        };
        proof {
            assert(applied_ids(applied@) =~= ledger_ids(old_led));
        }
        let to_apply = revisions_to_apply(&self.revisions, &applied);
        if to_apply.len() == 0 {
            proof {
                lemma_extends_self(old_led);
                assert(ids_of_views(miss) =~= Seq::<Seq<char>>::empty());
            }
            return Ok(0);
        }
        proof {
            assert(rev_ids(to_apply@) =~= ids_of_views(miss));
            lemma_missing_ids_distinct(old(self).declared(), ledger_ids(old_led));
            lemma_missing_entries(old(self).declared(), ledger_ids(old_led));
            assert(forall|i: int|
                0 <= i < to_apply@.len() ==> !ledger_ids(old_led).contains(
                    (#[trigger] to_apply@[i])@.id,
                )) by {
                assert(forall|i: int|
                    0 <= i < to_apply@.len() ==> (#[trigger] to_apply@[i])@ == miss[i]);
            }
            lemma_declared_members_quote_free(old(self).declared(), miss);
        }
        match self.store.apply(&to_apply) {
            Ok(_) => Ok(to_apply.len()),
            Err(e) => {
                proof {
                    let k = choose|k: int|
                        0 <= k <= to_apply@.len() && ledger_extended(
                            old_led,
                            self.store.ledger(),
                            rev_ids(to_apply@).take(k),
                        );
                    assert(rev_ids(to_apply@).take(k) =~= ids_of_views(miss).take(k));
                }
                Err(e)
            },
        }
    }

    /// Revert applied revisions: with a count, the last `count` of the
    /// applied-in-declared-order revisions (clamped to what is applied);
    /// without, all of them — passed to the store most-recently-declared
    /// first.  Returns how many were reverted; with nothing to revert the
    /// store is not called and the count is zero.  A failed ledger query —
    /// a query or conversion error — is propagated with the ledger
    /// untouched.
    pub fn downgrade(&mut self, count: Option<usize>) -> (r: Result<usize, MigrationError>)
        requires
            old(self).wf(),
        ensures
            final(self).declared() == old(self).declared(),
            r matches Err(e) && (e is Query || e is Conversion) ==> final(self).store_ledger()
                == old(self).store_ledger(),
            r matches Ok(n) ==> {
                let sel = to_revert_views(
                    old(self).declared(),
                    ledger_ids(old(self).store_ledger()),
                    count,
                );
                &&& n == sel.len()
                &&& final(self).store_ledger() == remove_ids(
                    old(self).store_ledger(),
                    ids_of_views(sel),
                )
            },
            r is Err ==> exists|k: int|
                0 <= k <= to_revert_views(
                    old(self).declared(),
                    ledger_ids(old(self).store_ledger()),
                    count,
                ).len() && final(self).store_ledger() == remove_ids(
                    old(self).store_ledger(),
                    #[trigger] ids_of_views(
                        to_revert_views(
                            old(self).declared(),
                            ledger_ids(old(self).store_ledger()),
                            count,
                        ),
                    ).reverse().take(k),
                ),
    {
        let ghost old_led = self.store.ledger();
        proof {
            assert(old_led == old(self).store_ledger());
            assert(views_of(self.revisions@) == old(self).declared());
        }
        let ghost sel = to_revert_views(
            old(self).declared(),
            ledger_ids(old(self).store_ledger()),
            count,
        );
        let applied = match self.store.applied_revisions() {
            Ok(v) => v,
            Err(e) => {
                proof {
                    assert(ids_of_views(sel).reverse().take(0) =~= Seq::<Seq<char>>::empty());
                    lemma_remove_absent_ids(old_led, ids_of_views(sel).reverse().take(0));
                    assert(self.store.ledger() == remove_ids(
                        old(self).store_ledger(),
                        ids_of_views(sel).reverse().take(0),
                    ));
                }
                return Err(e);
            },
        };
        proof {
            assert(applied_ids(applied@) =~= ledger_ids(old_led));
        }
        let pres = revisions_present(&self.revisions, &applied);
        let start: usize = match count {
            Some(k) => if k <= pres.len() {
                pres.len() - k
            } else {
                0
            },
            None => 0,
        };
        let tail = suffix_from(&pres, start);
        proof {
            assert(views_of(tail@) == sel);
        }
        if tail.len() == 0 {
            proof {
                assert(ids_of_views(sel) =~= Seq::<Seq<char>>::empty());
                lemma_remove_absent_ids(old_led, ids_of_views(sel));
            }
            return Ok(0);
        }
        let to_send = reversed(&tail);
        proof {
            lemma_rev_ids_are_view_ids(to_send@);
            lemma_ids_of_reverse(sel);
            assert(rev_ids(to_send@) == ids_of_views(sel).reverse());
            lemma_present_entries(
                old(self).declared(),
                ledger_ids(old(self).store_ledger()),
            );
            let pres = present_views(old(self).declared(), ledger_ids(old(self).store_ledger()));
            assert(forall|i: int|
                0 <= i < sel.reverse().len() ==> old(self).declared().contains(
                    #[trigger] sel.reverse()[i],
                )) by {
                assert(forall|i: int|
                    0 <= i < sel.len() ==> old(self).declared().contains(#[trigger] sel[i]))
                    by {
                    assert(forall|i: int| 0 <= i < sel.len() ==> sel[i] == pres[
                        revert_start(pres.len(), count) + i
                    ]);
                }
            }
            lemma_declared_members_quote_free(old(self).declared(), sel.reverse());
            assert(ids_of_views(sel.reverse()) == rev_ids(to_send@));
        }
        match self.store.revert(&to_send) {
            Ok(_) => {
                proof {
                    assert forall|x: Seq<char>|
                        #[trigger] ids_of_views(sel).reverse().contains(x)
                            <==> #[trigger] ids_of_views(sel).contains(x) by {
                        lemma_reverse_contains(ids_of_views(sel), x);
                    }
                    lemma_remove_ids_same_members(
                        old_led,
                        ids_of_views(sel).reverse(),
                        ids_of_views(sel),
                    );
                }
                Ok(tail.len())
            },
            Err(e) => {
                proof {
                    let k = choose|k: int|
                        0 <= k <= to_send@.len() && self.store.ledger() == remove_ids(
                            old_led,
                            rev_ids(to_send@).take(k),
                        );
                    assert(rev_ids(to_send@).take(k) =~= ids_of_views(sel).reverse().take(k));
                }
                Err(e)
            },
        }
    }

    /// Destructive full rebuild: revert every applied declared revision,
    /// most-recently-declared first, then apply the entire declared
    /// sequence unconditionally.  Either step's failure aborts the
    /// remainder; this can cause data loss and must be gated by the
    /// caller.
    pub fn reset(&mut self) -> (r: Result<(), MigrationError>)
        requires
            old(self).wf(),
        ensures
            final(self).declared() == old(self).declared(),
            r matches Err(e) && (e is Query || e is Conversion) ==> final(self).store_ledger()
                == old(self).store_ledger(),
            r is Ok ==> ledger_extended(
                remove_ids(
                    old(self).store_ledger(),
                    ids_of_views(
                        present_views(
                            old(self).declared(),
                            ledger_ids(old(self).store_ledger()),
                        ),
                    ),
                ),
                final(self).store_ledger(),
                ids_of_views(old(self).declared()),
            ),
            r is Err ==> {
                ||| exists|k: int|
                    0 <= k <= present_views(
                        old(self).declared(),
                        ledger_ids(old(self).store_ledger()),
                    ).len() && final(self).store_ledger() == remove_ids(
                        old(self).store_ledger(),
                        #[trigger] ids_of_views(
                            present_views(
                                old(self).declared(),
                                ledger_ids(old(self).store_ledger()),
                            ),
                        ).reverse().take(k),
                    )
                ||| exists|k: int|
                    0 <= k <= old(self).declared().len() && ledger_extended(
                        remove_ids(
                            old(self).store_ledger(),
                            ids_of_views(
                                present_views(
                                    old(self).declared(),
                                    ledger_ids(old(self).store_ledger()),
                                ),
                            ),
                        ),
                        final(self).store_ledger(),
                        #[trigger] ids_of_views(old(self).declared()).take(k),
                    )
            },
    {
        let ghost old_led = self.store.ledger();
        proof {
            assert(old_led == old(self).store_ledger());
            assert(views_of(self.revisions@) == old(self).declared());
        }
        let ghost pres_ids = ids_of_views(
            present_views(old(self).declared(), ledger_ids(old(self).store_ledger())),
        );
        let applied = match self.store.applied_revisions() {
            Ok(v) => v,
            Err(e) => {
                proof {
                    assert(pres_ids.reverse().take(0) =~= Seq::<Seq<char>>::empty());
                    lemma_remove_absent_ids(old_led, pres_ids.reverse().take(0));
                    assert(self.store.ledger() == remove_ids(
                        old(self).store_ledger(),
                        pres_ids.reverse().take(0),
                    ));
                }
                return Err(e);
            },
        };
        proof {
            assert(applied_ids(applied@) =~= ledger_ids(old_led));
        }
        let pres = revisions_present(&self.revisions, &applied);
        let to_send = reversed(&pres);
        proof {
            assert(views_of(pres@) == present_views(
                old(self).declared(),
                ledger_ids(old(self).store_ledger()),
            ));
            lemma_rev_ids_are_view_ids(to_send@);
            lemma_ids_of_reverse(views_of(pres@));
            assert(rev_ids(to_send@) == pres_ids.reverse());
            lemma_present_entries(
                old(self).declared(),
                ledger_ids(old(self).store_ledger()),
            );
            let pv = views_of(pres@);
            assert(forall|i: int|
                0 <= i < pv.reverse().len() ==> old(self).declared().contains(
                    #[trigger] pv.reverse()[i],
                ));
            lemma_declared_members_quote_free(old(self).declared(), pv.reverse());
            assert(ids_of_views(pv.reverse()) == rev_ids(to_send@));
        }
        match self.store.revert(&to_send) {
            Ok(_) => {},
            Err(e) => {
                proof {
                    let k = choose|k: int|
                        0 <= k <= to_send@.len() && self.store.ledger() == remove_ids(
                            old_led,
                            rev_ids(to_send@).take(k),
                        );
                    assert(rev_ids(to_send@).take(k) =~= pres_ids.reverse().take(k));
                }
                return Err(e);
            },
        }
        proof {
            assert forall|x: Seq<char>| #[trigger] pres_ids.reverse().contains(x)
                <==> #[trigger] pres_ids.contains(x) by {
                lemma_reverse_contains(pres_ids, x);
            }
            lemma_remove_ids_same_members(old_led, pres_ids.reverse(), pres_ids);
        }
        let ghost mid = remove_ids(old_led, pres_ids);
        proof {
            assert(self.store.ledger() == mid);
            assert(rev_ids(self.revisions@) =~= ids_of_views(old(self).declared()));
            lemma_remove_ids_entries(old_led, pres_ids);
            lemma_present_covers(old(self).declared(), ledger_ids(old_led));
            assert forall|i: int| 0 <= i < self.revisions@.len() implies !ledger_ids(
                mid,
            ).contains((#[trigger] self.revisions@[i])@.id) by {
                let id = self.revisions@[i]@.id;
                if ledger_ids(mid).contains(id) {
                    let j = choose|j: int| 0 <= j < mid.len() && ledger_ids(mid)[j] == id;
                    assert(mid[j].id == id);
                    assert(old_led.contains(mid[j]));
                    let m = choose|m: int| 0 <= m < old_led.len() && old_led[m] == mid[j];
                    assert(ledger_ids(old_led)[m] == id);
                    assert(old(self).declared()[i].id == id);
                    assert(pres_ids.contains(id));
                    assert(!pres_ids.contains(mid[j].id));
                }
            }
        }
        match self.store.apply(&self.revisions) {
            Ok(_) => Ok(()),
            Err(e) => {
                proof {
                    let k = choose|k: int|
                        0 <= k <= self.revisions@.len() && ledger_extended(
                            mid,
                            self.store.ledger(),
                            rev_ids(self.revisions@).take(k),
                        );
                    assert(rev_ids(self.revisions@).take(k) =~= ids_of_views(
                        old(self).declared(),
                    ).take(k));
                }
                Err(e)
            },
        }
    }
}

} // verus!
