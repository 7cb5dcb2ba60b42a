//! The declarative unit of schema change: an identifier plus optional
//! forward (`apply`) and backward (`revert`) scripts.

use vstd::prelude::*;

verus! {

/// The characters treated as whitespace when deciding whether a script is
/// present and when sanitising identifiers for display.
pub open spec fn is_space_char(c: char) -> bool {
    c == ' ' || c == '\t' || c == '\n' || c == '\r'
}

/// A sequence of characters is blank when every character is whitespace.
pub open spec fn is_blank(s: Seq<char>) -> bool {
    forall|i: int| 0 <= i < s.len() ==> is_space_char(s[i])
}

/// Mathematical image of a [`Revision`].
pub struct RevisionView {
    pub id: Seq<char>,
    pub apply: Option<Seq<char>>,
    pub revert: Option<Seq<char>>,
}

impl RevisionView {
    /// The forward script, or the empty sequence when absent.
    pub open spec fn apply_script(self) -> Seq<char> {
        match self.apply {
            Some(s) => s,
            None => Seq::empty(),
        }
    }

    /// The backward script, or the empty sequence when absent.
    pub open spec fn revert_script(self) -> Seq<char> {
        match self.revert {
            Some(s) => s,
            None => Seq::empty(),
        }
    }

    /// A script counts as present only when it is non-empty after trimming
    /// whitespace, that is, when it holds at least one non-blank character.
    pub open spec fn has_apply(self) -> bool {
        !is_blank(self.apply_script())
    }

    /// See [`RevisionView::has_apply`].
    pub open spec fn has_revert(self) -> bool {
        !is_blank(self.revert_script())
    }
}

/// A declared schema revision.  Revisions are immutable configuration,
/// created once at startup; the position of a revision inside the declared
/// sequence is its canonical apply order.
pub struct Revision {
    /// The unique identifier of this revision.
    pub revision: String,
    /// The script that applies the revision, if any.
    pub apply: Option<String>,
    /// The script that reverts the revision, if any.
    pub revert: Option<String>,
}

impl View for Revision {
    type V = RevisionView;

    open spec fn view(&self) -> RevisionView {
        RevisionView {
            id: self.revision@,
            apply: match self.apply {
                Some(s) => Some(s@),
                None => None,
            },
            revert: match self.revert {
                Some(s) => Some(s@),
                None => None,
            },
        }
    }
}

/// True when the string holds only whitespace characters.
pub fn str_is_blank(s: &str) -> (b: bool)
    ensures
        b == is_blank(s@),
{
    let n = s.unicode_len();
    let mut i: usize = 0;
    while i < n
        invariant
            n == s@.len(),
            0 <= i <= n,
            forall|j: int| 0 <= j < i ==> is_space_char(s@[j]),
        decreases n - i,
    {
        let c = s.get_char(i);
        if !(c == ' ' || c == '\t' || c == '\n' || c == '\r') {
            assert(!is_space_char(s@[i as int]));
            return false;
        }
        i += 1;
    }
    true
}

impl Revision {
    /// Declare a revision from its identifier and optional scripts.
    pub fn const_new(revision: &str, apply: Option<&str>, revert: Option<&str>) -> (r: Self)
        ensures
            r@.id == revision@,
            r@.apply == match apply {
                Some(s) => Some(s@),
                None => None::<Seq<char>>,
            },
            r@.revert == match revert {
                Some(s) => Some(s@),
                None => None::<Seq<char>>,
            },
    {
        Revision {
            revision: revision.to_owned(),
            apply: match apply {
                Some(s) => Some(s.to_owned()),
                None => None,
            },
            revert: match revert {
                Some(s) => Some(s.to_owned()),
                None => None,
            },
        }
    }

    /// The forward script, or the empty string when absent.
    pub fn apply(&self) -> (r: &str)
        ensures
            r@ == self@.apply_script(),
    {
        match &self.apply {
            Some(s) => s.as_str(),
            None => {
                proof {
                    reveal_strlit("");
                    assert(""@ =~= Seq::<char>::empty());
                }
                ""
            },
        }
    }

    /// The backward script, or the empty string when absent.
    pub fn revert(&self) -> (r: &str)
        ensures
            r@ == self@.revert_script(),
    {
        match &self.revert {
            Some(s) => s.as_str(),
            None => {
                proof {
                    reveal_strlit("");
                    assert(""@ =~= Seq::<char>::empty());
                }
                ""
            },
        }
    }

    /// The identifier of this revision.
    pub fn revision(&self) -> (r: &str)
        ensures
            r@ == self@.id,
    {
        self.revision.as_str()
    }

    /// True when a forward script is present (non-empty after trimming).
    pub fn has_apply(&self) -> (b: bool)
        ensures
            b == self@.has_apply(),
    {
        !str_is_blank(self.apply())
    }

    /// True when a backward script is present (non-empty after trimming).
    pub fn has_revert(&self) -> (b: bool)
        ensures
            b == self@.has_revert(),
    {
        !str_is_blank(self.revert())
    }

    /// An exact copy of this revision.
    pub fn duplicate(&self) -> (r: Self)
        ensures
            r@ == self@,
    {
        Revision {
            revision: self.revision.clone(),
            apply: match &self.apply {
                Some(s) => Some(s.clone()),
                None => None,
            },
            revert: match &self.revert {
                Some(s) => Some(s.clone()),
                None => None,
            },
        }
    }
}

} // verus!
