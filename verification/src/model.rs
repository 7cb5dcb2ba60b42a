//! The mathematical model of the ledger: the persisted record of which
//! revisions are currently applied, in row order, together with the two
//! transitions a store can perform on it (appending applied entries,
//! deleting entries by identifier).

use vstd::prelude::*;
use crate::revision::Revision;

verus! {

/// One row of the ledger: a revision identifier and the timestamp at which
/// it was recorded applied.
pub struct AppliedView {
    pub id: Seq<char>,
    pub at: int,
}

/// The identifiers of a ledger, in row order.
pub open spec fn ledger_ids(l: Seq<AppliedView>) -> Seq<Seq<char>> {
    l.map_values(|e: AppliedView| e.id)
}

/// The identifiers of a sequence of revisions, in declared order.
pub open spec fn rev_ids(revs: Seq<Revision>) -> Seq<Seq<char>> {
    revs.map_values(|r: Revision| r@.id)
}

/// An identifier that can be spliced between single quotes in ledger
/// bookkeeping: it holds no single-quote character.
pub open spec fn quote_free(id: Seq<char>) -> bool {
    forall|i: int| 0 <= i < id.len() ==> id[i] != '\''
}

/// Every identifier in the list is quote-free.
pub open spec fn all_quote_free(ids: Seq<Seq<char>>) -> bool {
    forall|i: int| 0 <= i < ids.len() ==> quote_free(#[trigger] ids[i])
}

/// The ledger after deleting every entry whose identifier occurs in `ids`;
/// the remaining entries keep their order.
pub open spec fn remove_ids(l: Seq<AppliedView>, ids: Seq<Seq<char>>) -> Seq<AppliedView>
    decreases l.len(),
{
    if l.len() == 0 {
        l
    } else {
        let rest = remove_ids(l.drop_last(), ids);
        if ids.contains(l.last().id) {
            rest
        } else {
            rest.push(l.last())
        }
    }
}

/// The ledger `post` extends `pre` by exactly one new entry per identifier
/// in `ids`, in that order; the timestamps of the new entries are not
/// constrained.
pub open spec fn ledger_extended(
    pre: Seq<AppliedView>,
    post: Seq<AppliedView>,
    ids: Seq<Seq<char>>,
) -> bool {
    &&& post.len() == pre.len() + ids.len()
    &&& post.take(pre.len() as int) == pre
    &&& forall|i: int| 0 <= i < ids.len() ==> post[pre.len() + i].id == ids[i]
}

/// Extending a ledger by no identifiers leaves it unchanged.
pub proof fn lemma_extended_by_nothing(pre: Seq<AppliedView>, post: Seq<AppliedView>)
    requires
        ledger_extended(pre, post, Seq::empty()),
    ensures
        post == pre,
{
    assert(post.take(pre.len() as int) =~= post);
}

/// A ledger always extends itself by no identifiers.
pub proof fn lemma_extends_self(l: Seq<AppliedView>)
    ensures
        ledger_extended(l, l, Seq::empty()),
{
    assert(l.take(l.len() as int) =~= l);
}

/// Deleting identifiers that occur nowhere in the ledger changes nothing.
pub proof fn lemma_remove_absent_ids(l: Seq<AppliedView>, ids: Seq<Seq<char>>)
    requires
        forall|i: int| 0 <= i < l.len() ==> !ids.contains(#[trigger] l[i].id),
    ensures
        remove_ids(l, ids) == l,
    decreases l.len(),
{
    if l.len() > 0 {
        lemma_remove_absent_ids(l.drop_last(), ids);
        assert(remove_ids(l, ids) =~= l);
    }
}

/// Every entry that survives a deletion was in the ledger before and its
/// identifier is not among the deleted ones.
pub proof fn lemma_remove_ids_entries(l: Seq<AppliedView>, ids: Seq<Seq<char>>)
    ensures
        forall|i: int| 0 <= i < remove_ids(l, ids).len() ==> {
            &&& l.contains(#[trigger] remove_ids(l, ids)[i])
            &&& !ids.contains(remove_ids(l, ids)[i].id)
        },
    decreases l.len(),
{
    if l.len() > 0 {
        let rest = remove_ids(l.drop_last(), ids);
        let res = remove_ids(l, ids);
        lemma_remove_ids_entries(l.drop_last(), ids);
        assert forall|i: int| 0 <= i < res.len() implies l.contains(#[trigger] res[i])
            && !ids.contains(res[i].id) by {
            if i < rest.len() {
                assert(l.drop_last().contains(rest[i]));
                let j = choose|j: int|
                    0 <= j < l.drop_last().len() && l.drop_last()[j] == rest[i];
                assert(l[j] == res[i]);
            } else {
                assert(res[i] == l.last());
                assert(l[l.len() - 1] == l.last());
            }
        }
    }
}

/// Appending entries whose identifiers all belong to `ids`, then deleting
/// `ids`, is the same as deleting `ids` from the original ledger.
proof fn lemma_remove_ids_of_extension(
    pre: Seq<AppliedView>,
    post: Seq<AppliedView>,
    added: Seq<Seq<char>>,
    ids: Seq<Seq<char>>,
)
    requires
        ledger_extended(pre, post, added),
        forall|i: int| 0 <= i < added.len() ==> ids.contains(#[trigger] added[i]),
    ensures
        remove_ids(post, ids) == remove_ids(pre, ids),
    decreases added.len(),
{
    if added.len() == 0 {
        lemma_extended_by_nothing(pre, post);
    } else {
        let shorter = post.drop_last();
        assert(post.last().id == added.last()) by {
            assert(post[pre.len() as int + added.len() - 1].id == added[added.len() - 1]);
        }
        assert(ledger_extended(pre, shorter, added.drop_last())) by {
            assert(shorter.take(pre.len() as int) =~= post.take(pre.len() as int));
        }
        lemma_remove_ids_of_extension(pre, shorter, added.drop_last(), ids);
        assert(remove_ids(post, ids) == remove_ids(shorter, ids));
    }
}

/// The identifiers of an extended ledger are the old identifiers followed
/// by the appended ones.
pub proof fn lemma_extended_ids(
    pre: Seq<AppliedView>,
    post: Seq<AppliedView>,
    ids: Seq<Seq<char>>,
)
    requires
        ledger_extended(pre, post, ids),
    ensures
        ledger_ids(post) == ledger_ids(pre) + ids,
{
    assert forall|i: int| 0 <= i < pre.len() implies post[i] == pre[i] by {
        assert(post.take(pre.len() as int)[i] == post[i]);
    }
    assert(ledger_ids(post) =~= ledger_ids(pre) + ids);
}

/// Two extensions in a row are one extension by the concatenated
/// identifiers.
pub proof fn lemma_extended_trans(
    a: Seq<AppliedView>,
    b: Seq<AppliedView>,
    c: Seq<AppliedView>,
    ids1: Seq<Seq<char>>,
    ids2: Seq<Seq<char>>,
)
    requires
        ledger_extended(a, b, ids1),
        ledger_extended(b, c, ids2),
    ensures
        ledger_extended(a, c, ids1 + ids2),
{
    assert forall|i: int| 0 <= i < b.len() implies c[i] == b[i] by {
        assert(c.take(b.len() as int)[i] == c[i]);
    }
    assert forall|i: int| 0 <= i < a.len() implies b[i] == a[i] by {
        assert(b.take(a.len() as int)[i] == b[i]);
    }
    assert(c.take(a.len() as int) =~= a);
    assert(forall|i: int| 0 <= i < ids1.len() ==> c[a.len() + i].id == (ids1 + ids2)[i]);
    assert(forall|i: int|
        ids1.len() <= i < ids1.len() + ids2.len() ==> c[a.len() + i].id == (ids1 + ids2)[i]);
}

/// Deleting a pushed entry distributes over `remove_ids`.
pub proof fn lemma_remove_ids_push(l: Seq<AppliedView>, e: AppliedView, ids: Seq<Seq<char>>)
    ensures
        remove_ids(l.push(e), ids) == if ids.contains(e.id) {
            remove_ids(l, ids)
        } else {
            remove_ids(l, ids).push(e)
        },
{
    assert(l.push(e).drop_last() =~= l);
    assert(l.push(e).last() == e);
}

/// Deleting one identifier list and then another is deleting their
/// concatenation.
pub proof fn lemma_remove_ids_twice(
    l: Seq<AppliedView>,
    first: Seq<Seq<char>>,
    second: Seq<Seq<char>>,
)
    ensures
        remove_ids(remove_ids(l, first), second) == remove_ids(l, first + second),
    decreases l.len(),
{
    if l.len() > 0 {
        lemma_remove_ids_twice(l.drop_last(), first, second);
        let e = l.last();
        assert(first.contains(e.id) || second.contains(e.id) <==> (first + second).contains(
            e.id,
        )) by {
            if first.contains(e.id) {
                let j = choose|j: int| 0 <= j < first.len() && first[j] == e.id;
                assert((first + second)[j] == e.id);
            }
            if second.contains(e.id) {
                let j = choose|j: int| 0 <= j < second.len() && second[j] == e.id;
                assert((first + second)[first.len() + j] == e.id);
            }
            if (first + second).contains(e.id) {
                let j = choose|j: int|
                    0 <= j < (first + second).len() && (first + second)[j] == e.id;
                if j < first.len() {
                    assert(first[j] == e.id);
                } else {
                    assert(second[j - first.len()] == e.id);
                }
            }
        }
        if !first.contains(e.id) {
            lemma_remove_ids_push(remove_ids(l.drop_last(), first), e, second);
        }
    }
}

/// Round trip: appending entries for identifiers that were absent from the
/// ledger and then deleting exactly those identifiers restores the ledger.
pub proof fn lemma_apply_then_revert_round_trip(
    pre: Seq<AppliedView>,
    post: Seq<AppliedView>,
    ids: Seq<Seq<char>>,
)
    requires
        ledger_extended(pre, post, ids),
        forall|i: int| 0 <= i < pre.len() ==> !ids.contains(#[trigger] pre[i].id),
    ensures
        remove_ids(post, ids) == pre,
{
    lemma_remove_ids_of_extension(pre, post, ids, ids);
    lemma_remove_absent_ids(pre, ids);
}

} // verus!
