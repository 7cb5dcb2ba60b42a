//! Verified text helpers: identifier sanitising, separator joins and script
//! trimming, each with an exact character-level specification.

use vstd::prelude::*;
use crate::revision::is_space_char;

verus! {

/// The identifier with every whitespace character replaced by an underscore.
pub open spec fn sanitize(s: Seq<char>) -> Seq<char> {
    Seq::new(s.len(), |i: int| if is_space_char(s[i]) { '_' } else { s[i] })
}

/// The parts joined with the separator between consecutive parts.
pub open spec fn join_seqs(parts: Seq<Seq<char>>, sep: Seq<char>) -> Seq<char>
    decreases parts.len(),
{
    if parts.len() == 0 {
        Seq::empty()
    } else if parts.len() == 1 {
        parts[0]
    } else {
        join_seqs(parts.drop_last(), sep) + sep + parts.last()
    }
}

/// The string with trailing semicolons removed.
pub open spec fn trim_end_semicolons(s: Seq<char>) -> Seq<char>
    decreases s.len(),
{
    if s.len() > 0 && s.last() == ';' {
        trim_end_semicolons(s.drop_last())
    } else {
        s
    }
}

/// The string with trailing whitespace removed.
pub open spec fn trim_end_spaces(s: Seq<char>) -> Seq<char>
    decreases s.len(),
{
    if s.len() > 0 && is_space_char(s.last()) {
        trim_end_spaces(s.drop_last())
    } else {
        s
    }
}

/// The string with leading whitespace removed.
pub open spec fn trim_start_spaces(s: Seq<char>) -> Seq<char>
    decreases s.len(),
{
    if s.len() > 0 && is_space_char(s.first()) {
        trim_start_spaces(s.subrange(1, s.len() as int))
    } else {
        s
    }
}

/// A script as it is placed into a statement: trailing semicolons removed,
/// then whitespace trimmed from both ends.
pub open spec fn trimmed_script(s: Seq<char>) -> Seq<char> {
    trim_start_spaces(trim_end_spaces(trim_end_semicolons(s)))
}

/// Character-by-character string equality.
pub fn str_eq(a: &str, b: &str) -> (r: bool)
    ensures
        r == (a@ == b@),
{
    let n = a.unicode_len();
    if n != b.unicode_len() {
        return false;
    }
    let mut i: usize = 0;
    while i < n
        invariant
            n == a@.len(),
            n == b@.len(),
            0 <= i <= n,
            forall|j: int| 0 <= j < i ==> a@[j] == b@[j],
        decreases n - i,
    {
        if a.get_char(i) != b.get_char(i) {
            return false;
        }
        i += 1;
    }
    proof {
        assert(a@ =~= b@);
    }
    true
}

/// Replace every whitespace character of the identifier by an underscore.
pub fn sanitize_id(s: &str) -> (r: String)
    ensures
        r@ == sanitize(s@),
{
    let n = s.unicode_len();
    let mut out = String::new();
    let mut i: usize = 0;
    while i < n
        invariant
            n == s@.len(),
            0 <= i <= n,
            out@ == sanitize(s@).take(i as int),
        decreases n - i,
    {
        let c = s.get_char(i);
        if c == ' ' || c == '\t' || c == '\n' || c == '\r' {
            out.append("_");
            proof {
                reveal_strlit("_");
                assert(out@ =~= sanitize(s@).take(i + 1));
            }
        } else {
            let piece = s.substring_char(i, i + 1);
            out.append(piece);
            proof {
                assert(piece@ =~= seq![s@[i as int]]);
                assert(out@ =~= sanitize(s@).take(i + 1));
            }
        }
        i += 1;
    }
    proof {
        assert(sanitize(s@).take(n as int) =~= sanitize(s@));
    }
    out
}

/// Join the parts with the separator between consecutive parts.
pub fn join_strings(parts: &Vec<String>, sep: &str) -> (r: String)
    ensures
        r@ == join_seqs(parts@.map_values(|p: String| p@), sep@),
{
    let ghost all = parts@.map_values(|p: String| p@);
    let mut out = String::new();
    let mut i: usize = 0;
    while i < parts.len()
        invariant
            all == parts@.map_values(|p: String| p@),
            0 <= i <= parts@.len(),
            out@ == join_seqs(all.take(i as int), sep@),
        decreases parts@.len() - i,
    {
        if i > 0 {
            out.append(sep);
        }
        out.append(parts[i].as_str());
        proof {
            assert(all.take(i + 1).drop_last() =~= all.take(i as int));
            assert(all.take(i + 1).last() == all[i as int]);
            if i == 0 {
                assert(out@ =~= join_seqs(all.take(1), sep@));
            }
        }
        i += 1;
    }
    proof {
        assert(all.take(all.len() as int) =~= all);
    }
    out
}

/// True when the character at the given position is whitespace.
fn char_at_is_space(s: &str, i: usize) -> (b: bool)
    requires
        i < s@.len(),
    ensures
        b == is_space_char(s@[i as int]),
{
    let c = s.get_char(i);
    c == ' ' || c == '\t' || c == '\n' || c == '\r'
}

/// Trim a script for inclusion in a statement: drop trailing semicolons,
/// then trim whitespace from both ends.
pub fn trim_script(s: &str) -> (r: String)
    ensures
        r@ == trimmed_script(s@),
{
    let n = s.unicode_len();
    proof {
        assert(s@.take(n as int) =~= s@);
    }
    let mut end: usize = n;
    while end > 0 && s.get_char(end - 1) == ';'
        invariant
            n == s@.len(),
            0 <= end <= n,
            trim_end_semicolons(s@) == trim_end_semicolons(s@.take(end as int)),
        decreases end,
    {
        proof {
            assert(s@.take(end as int).last() == ';');
            assert(s@.take(end as int).drop_last() =~= s@.take(end - 1));
        }
        end -= 1;
    }
    proof {
        if end > 0 {
            assert(s@.take(end as int).last() != ';');
        }
        assert(trim_end_semicolons(s@.take(end as int)) == s@.take(end as int));
    }
    let ghost s1 = s@.take(end as int);
    let mut end2: usize = end;
    while end2 > 0 && char_at_is_space(s, end2 - 1)
        invariant
            n == s@.len(),
            0 <= end2 <= end <= n,
            s1 == s@.take(end as int),
            trim_end_spaces(s1) == trim_end_spaces(s@.take(end2 as int)),
        decreases end2,
    {
        proof {
            assert(s@.take(end2 as int).last() == s@[end2 - 1]);
            assert(is_space_char(s@.take(end2 as int).last()));
            assert(s@.take(end2 as int).drop_last() =~= s@.take(end2 - 1));
        }
        end2 -= 1;
    }
    proof {
        if end2 > 0 {
            assert(s@.take(end2 as int).last() == s@[end2 - 1]);
            assert(!is_space_char(s@.take(end2 as int).last()));
        }
        assert(trim_end_spaces(s@.take(end2 as int)) == s@.take(end2 as int));
    }
    let ghost s2 = s@.take(end2 as int);
    let mut start: usize = 0;
    while start < end2 && char_at_is_space(s, start)
        invariant
            n == s@.len(),
            0 <= start <= end2 <= n,
            s2 == s@.take(end2 as int),
            trim_start_spaces(s2) == trim_start_spaces(s@.subrange(start as int, end2 as int)),
        decreases end2 - start,
    {
        proof {
            let part = s@.subrange(start as int, end2 as int);
            assert(part.first() == s@[start as int]);
            assert(is_space_char(part.first()));
            assert(part.subrange(1, part.len() as int) =~= s@.subrange(
                start + 1,
                end2 as int,
            ));
        }
        start += 1;
    }
    proof {
        let part = s@.subrange(start as int, end2 as int);
        if start < end2 {
            assert(part.first() == s@[start as int]);
            assert(!is_space_char(part.first()));
        }
        assert(trim_start_spaces(part) == part);
    }
    let r = s.substring_char(start, end2);
    proof {
        assert(r@ =~= s@.subrange(start as int, end2 as int));
    }
    r.to_owned()
}

} // verus!
