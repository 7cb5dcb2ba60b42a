//! Statements sent to a storage backend.  A statement bundles zero or more
//! revision scripts with exactly one piece of ledger bookkeeping — an
//! insertion or a deletion of identifiers — and renders as the scripts and
//! the bookkeeping joined by `\n;\n`, to be executed as one atomic unit.

use vstd::prelude::*;
use crate::model::rev_ids;
use crate::revision::Revision;
use crate::text::{join_seqs, join_strings, trim_script, trimmed_script};

verus! {

/// The ledger effect a statement carries.
pub enum BookkeepingView {
    Insert(Seq<Seq<char>>),
    Delete(Seq<Seq<char>>),
}

/// The executable side of [`BookkeepingView`].
pub enum Bookkeeping {
    /// Record these identifiers as applied.
    Insert(Vec<String>),
    /// Remove these identifiers from the ledger.
    Delete(Vec<String>),
}

impl View for Bookkeeping {
    type V = BookkeepingView;

    open spec fn view(&self) -> BookkeepingView {
        match self {
            Bookkeeping::Insert(ids) => BookkeepingView::Insert(
                ids@.map_values(|s: String| s@),
            ),
            Bookkeeping::Delete(ids) => BookkeepingView::Delete(
                ids@.map_values(|s: String| s@),
            ),
        }
    }
}

/// Mathematical image of a [`Statement`].
pub struct StatementView {
    pub scripts: Seq<Seq<char>>,
    pub bookkeeping: BookkeepingView,
}

/// One atomic unit of work for a storage backend: revision scripts followed
/// by a single ledger bookkeeping action.
pub struct Statement {
    pub scripts: Vec<String>,
    pub bookkeeping: Bookkeeping,
}

impl View for Statement {
    type V = StatementView;

    open spec fn view(&self) -> StatementView {
        StatementView {
            scripts: self.scripts@.map_values(|s: String| s@),
            bookkeeping: self.bookkeeping@,
        }
    }
}

/// The ledger-insert text for a list of identifiers.
pub open spec fn spec_insert_sql(ids: Seq<Seq<char>>) -> Seq<char> {
    "INSERT INTO migrations (rev) VALUES "@ + join_seqs(
        ids.map_values(|id: Seq<char>| "('"@ + id + "')"@),
        ","@,
    )
}

/// The ledger-delete text for a list of identifiers.
pub open spec fn spec_delete_sql(ids: Seq<Seq<char>>) -> Seq<char> {
    "DELETE FROM migrations WHERE "@ + join_seqs(
        ids.map_values(|id: Seq<char>| "rev='"@ + id + "'"@),
        " OR "@,
    )
}

/// The text of the bookkeeping part of a statement.
pub open spec fn bookkeeping_sql(b: BookkeepingView) -> Seq<char> {
    match b {
        BookkeepingView::Insert(ids) => spec_insert_sql(ids),
        BookkeepingView::Delete(ids) => spec_delete_sql(ids),
    }
}

impl StatementView {
    /// The identifiers the bookkeeping touches.
    pub open spec fn ids(self) -> Seq<Seq<char>> {
        match self.bookkeeping {
            BookkeepingView::Insert(ids) => ids,
            BookkeepingView::Delete(ids) => ids,
        }
    }

    /// The full text of the statement: every script, then the bookkeeping,
    /// joined by a semicolon line.
    pub open spec fn sql(self) -> Seq<char> {
        join_seqs(self.scripts.push(bookkeeping_sql(self.bookkeeping)), "\n;\n"@)
    }
}

impl Statement {
    /// Render the statement as the text a backend executes.
    pub fn to_sql(&self) -> (r: String)
        ensures
            r@ == self@.sql(),
    {
        let mut parts: Vec<String> = Vec::new();
        let mut i: usize = 0;
        while i < self.scripts.len()
            invariant
                0 <= i <= self.scripts@.len(),
                parts@.len() == i,
                forall|j: int| 0 <= j < i ==> parts@[j]@ == #[trigger] self.scripts@[j]@,
            decreases self.scripts@.len() - i,
        {
            parts.push(self.scripts[i].clone());
            i += 1;
        }
        let tail = match &self.bookkeeping {
            Bookkeeping::Insert(ids) => {
                let mut vals: Vec<String> = Vec::new();
                let mut k: usize = 0;
                while k < ids.len()
                    invariant
                        0 <= k <= ids@.len(),
                        vals@.len() == k,
                        forall|j: int| 0 <= j < k ==> vals@[j]@ == "('"@
                            + (#[trigger] ids@[j])@ + "')"@,
                    decreases ids@.len() - k,
                {
                    let mut piece = "('".to_owned();
                    piece.append(ids[k].as_str());
                    piece.append("')");
                    vals.push(piece);
                    k += 1;
                }
                let mut stmt = "INSERT INTO migrations (rev) VALUES ".to_owned();
                let joined = join_strings(&vals, ",");
                stmt.append(joined.as_str());
                proof {
                    assert(vals@.map_values(|p: String| p@) =~= ids@.map_values(
                        |s: String| s@,
                    ).map_values(|id: Seq<char>| "('"@ + id + "')"@));
                }
                stmt
            },
            Bookkeeping::Delete(ids) => {
                let mut vals: Vec<String> = Vec::new();
                let mut k: usize = 0;
                while k < ids.len()
                    invariant
                        0 <= k <= ids@.len(),
                        vals@.len() == k,
                        forall|j: int| 0 <= j < k ==> vals@[j]@ == "rev='"@
                            + (#[trigger] ids@[j])@ + "'"@,
                    decreases ids@.len() - k,
                {
                    let mut piece = "rev='".to_owned();
                    piece.append(ids[k].as_str());
                    piece.append("'");
                    vals.push(piece);
                    k += 1;
                }
                let mut stmt = "DELETE FROM migrations WHERE ".to_owned();
                let joined = join_strings(&vals, " OR ");
                stmt.append(joined.as_str());
                proof {
                    assert(vals@.map_values(|p: String| p@) =~= ids@.map_values(
                        |s: String| s@,
                    ).map_values(|id: Seq<char>| "rev='"@ + id + "'"@));
                }
                stmt
            },
        };
        parts.push(tail);
        proof {
            assert(parts@.map_values(|p: String| p@) =~= self@.scripts.push(
                bookkeeping_sql(self@.bookkeeping),
            ));
        }
        join_strings(&parts, "\n;\n")
    }
}

/// The trimmed forward scripts of the revisions that have one, in order.
pub open spec fn apply_scripts(revs: Seq<Revision>) -> Seq<Seq<char>>
    decreases revs.len(),
{
    if revs.len() == 0 {
        Seq::empty()
    } else {
        let rest = apply_scripts(revs.drop_last());
        if revs.last()@.has_apply() {
            rest.push(trimmed_script(revs.last()@.apply_script()))
        } else {
            rest
        }
    }
}

/// The trimmed backward scripts of the revisions that have one, in order.
pub open spec fn revert_scripts(revs: Seq<Revision>) -> Seq<Seq<char>>
    decreases revs.len(),
{
    if revs.len() == 0 {
        Seq::empty()
    } else {
        let rest = revert_scripts(revs.drop_last());
        if revs.last()@.has_revert() {
            rest.push(trimmed_script(revs.last()@.revert_script()))
        } else {
            rest
        }
    }
}

/// The one statement of a batched apply: every forward script, then one
/// insertion covering every identifier.
pub fn batch_apply_statement(revisions: &Vec<Revision>) -> (st: Statement)
    ensures
        st@.scripts == apply_scripts(revisions@),
        st@.bookkeeping == BookkeepingView::Insert(rev_ids(revisions@)),
{
    let mut scripts: Vec<String> = Vec::new();
    let mut ids: Vec<String> = Vec::new();
    let mut i: usize = 0;
    while i < revisions.len()
        invariant
            0 <= i <= revisions@.len(),
            scripts@.map_values(|s: String| s@) == apply_scripts(revisions@.take(i as int)),
            ids@.len() == i,
            forall|j: int| 0 <= j < i ==> ids@[j]@ == (#[trigger] revisions@[j])@.id,
        decreases revisions@.len() - i,
    {
        proof {
            assert(revisions@.take(i + 1).drop_last() =~= revisions@.take(i as int));
        }
        if revisions[i].has_apply() {
            scripts.push(trim_script(revisions[i].apply()));
        }
        proof {
            assert(scripts@.map_values(|s: String| s@) =~= apply_scripts(
                revisions@.take(i + 1),
            ));
        }
        ids.push(revisions[i].revision.clone());
        i += 1;
    }
    proof {
        assert(revisions@.take(revisions@.len() as int) =~= revisions@);
        assert(ids@.map_values(|s: String| s@) =~= rev_ids(revisions@));
    }
    Statement { scripts, bookkeeping: Bookkeeping::Insert(ids) }
}

/// The one statement of a batched revert: every backward script, then one
/// deletion covering every identifier.
pub fn batch_revert_statement(revisions: &Vec<Revision>) -> (st: Statement)
    ensures
        st@.scripts == revert_scripts(revisions@),
        st@.bookkeeping == BookkeepingView::Delete(rev_ids(revisions@)),
{
    let mut scripts: Vec<String> = Vec::new();
    let mut ids: Vec<String> = Vec::new();
    let mut i: usize = 0;
    while i < revisions.len()
        invariant
            0 <= i <= revisions@.len(),
            scripts@.map_values(|s: String| s@) == revert_scripts(revisions@.take(i as int)),
            ids@.len() == i,
            forall|j: int| 0 <= j < i ==> ids@[j]@ == (#[trigger] revisions@[j])@.id,
        decreases revisions@.len() - i,
    {
        proof {
            assert(revisions@.take(i + 1).drop_last() =~= revisions@.take(i as int));
        }
        if revisions[i].has_revert() {
            scripts.push(trim_script(revisions[i].revert()));
        }
        proof {
            assert(scripts@.map_values(|s: String| s@) =~= revert_scripts(
                revisions@.take(i + 1),
            ));
        }
        ids.push(revisions[i].revision.clone());
        i += 1;
    }
    proof {
        assert(revisions@.take(revisions@.len() as int) =~= revisions@);
        assert(ids@.map_values(|s: String| s@) =~= rev_ids(revisions@));
    }
    Statement { scripts, bookkeeping: Bookkeeping::Delete(ids) }
}

/// The statement of one sequential apply step: the revision's forward
/// script, if present, then the insertion of its identifier.
pub fn single_apply_statement(revision: &Revision) -> (st: Statement)
    ensures
        st@.scripts == apply_scripts(seq![*revision]),
        st@.bookkeeping == BookkeepingView::Insert(seq![revision@.id]),
{
    let mut scripts: Vec<String> = Vec::new();
    if revision.has_apply() {
        scripts.push(trim_script(revision.apply()));
    }
    let mut ids: Vec<String> = Vec::new();
    ids.push(revision.revision.clone());
    proof {
        let one = seq![*revision];
        assert(one.drop_last() =~= Seq::<Revision>::empty());
        assert(apply_scripts(Seq::<Revision>::empty()) =~= Seq::<Seq<char>>::empty());
        assert(one.last() == *revision);
        if revision@.has_apply() {
            assert(apply_scripts(one) == Seq::<Seq<char>>::empty().push(
                trimmed_script(revision@.apply_script()),
            ));
        } else {
            assert(apply_scripts(one) == Seq::<Seq<char>>::empty());
        }
        assert(scripts@.map_values(|s: String| s@) =~= apply_scripts(one));
        assert(ids@.map_values(|s: String| s@) =~= seq![revision@.id]);
    }
    Statement { scripts, bookkeeping: Bookkeeping::Insert(ids) }
}

/// The statement of one sequential revert step: the revision's backward
/// script, if present, then the deletion of its identifier.
pub fn single_revert_statement(revision: &Revision) -> (st: Statement)
    ensures
        st@.scripts == revert_scripts(seq![*revision]),
        st@.bookkeeping == BookkeepingView::Delete(seq![revision@.id]),
{
    let mut scripts: Vec<String> = Vec::new();
    if revision.has_revert() {
        scripts.push(trim_script(revision.revert()));
    }
    let mut ids: Vec<String> = Vec::new();
    ids.push(revision.revision.clone());
    proof {
        let one = seq![*revision];
        assert(one.drop_last() =~= Seq::<Revision>::empty());
        assert(revert_scripts(Seq::<Revision>::empty()) =~= Seq::<Seq<char>>::empty());
        assert(one.last() == *revision);
        if revision@.has_revert() {
            assert(revert_scripts(one) == Seq::<Seq<char>>::empty().push(
                trimmed_script(revision@.revert_script()),
            ));
        } else {
            assert(revert_scripts(one) == Seq::<Seq<char>>::empty());
        }
        assert(scripts@.map_values(|s: String| s@) =~= revert_scripts(one));
        assert(ids@.map_values(|s: String| s@) =~= seq![revision@.id]);
    }
    Statement { scripts, bookkeeping: Bookkeeping::Delete(ids) }
}

} // verus!
