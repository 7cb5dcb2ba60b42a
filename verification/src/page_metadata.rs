//! Page metadata and the rule for layering one metadata block over
//! another: titles and descriptions are combined, keywords are lowercased,
//! merged, sorted and deduplicated.

use vstd::prelude::*;

verus! {

/// Metadata attached to a page.
#[derive(Debug)]
pub struct PageMetadata {
    pub title: Option<String>,
    pub description: Option<String>,
    pub keywords: Vec<String>,
}

/// The lowercase form of a text, as Unicode case folding defines it; the
/// result depends on the characters alone.
pub uninterp spec fn lower_of(s: Seq<char>) -> Seq<char>;

/// Relies on str::to_lowercase: the result is a function of the
/// characters alone.
#[verifier::external_body]
fn lowercase(s: &str) -> (r: String)
    ensures
        r@ == lower_of(s@),
{
    s.to_lowercase()
}

/// Lexicographic order over the scalar values of the characters; for
/// keyword sorting this is the canonical order of the lowercased words.
pub open spec fn lex_le(a: Seq<char>, b: Seq<char>) -> bool
    decreases a.len(),
{
    if a.len() == 0 {
        true
    } else if b.len() == 0 {
        false
    } else if (a[0] as u32) < (b[0] as u32) {
        true
    } else if (a[0] as u32) > (b[0] as u32) {
        false
    } else {
        lex_le(a.subrange(1, a.len() as int), b.subrange(1, b.len() as int))
    }
}

/// Strictly before in lexicographic order.
pub open spec fn lex_lt(a: Seq<char>, b: Seq<char>) -> bool {
    lex_le(a, b) && a != b
}

/// Any two texts are ordered one way or the other.
proof fn lemma_lex_le_total(a: Seq<char>, b: Seq<char>)
    ensures
        lex_le(a, b) || lex_le(b, a),
    decreases a.len(),
{
    if a.len() > 0 && b.len() > 0 && (a[0] as u32) == (b[0] as u32) {
        lemma_lex_le_total(a.subrange(1, a.len() as int), b.subrange(1, b.len() as int));
    }
}

/// Texts ordered both ways are equal.
proof fn lemma_lex_le_antisymmetric(a: Seq<char>, b: Seq<char>)
    requires
        lex_le(a, b),
        lex_le(b, a),
    ensures
        a == b,
    decreases a.len(),
{
    if a.len() == 0 {
        assert(b.len() == 0);
        assert(a =~= b);
    } else {
        assert(b.len() > 0);
        assert((a[0] as u32) == (b[0] as u32));
        assert(a[0] == b[0]) by {
            vstd::utf8::char_u32_cast(a[0], a[0] as u32);
            vstd::utf8::char_u32_cast(b[0], a[0] as u32);
        }
        let at = a.subrange(1, a.len() as int);
        let bt = b.subrange(1, b.len() as int);
        lemma_lex_le_antisymmetric(at, bt);
        assert(at.len() == bt.len());
        assert(a.len() == b.len());
        assert forall|i: int| 0 <= i < a.len() implies a[i] == b[i] by {
            if i > 0 {
                assert(at[i - 1] == a[i]);
                assert(bt[i - 1] == b[i]);
            }
        }
        assert(a =~= b);
    }
}

/// Lexicographic order is transitive.
proof fn lemma_lex_le_transitive(a: Seq<char>, b: Seq<char>, c: Seq<char>)
    requires
        lex_le(a, b),
        lex_le(b, c),
    ensures
        lex_le(a, c),
    decreases a.len(),
{
    if a.len() > 0 && b.len() > 0 && c.len() > 0 && (a[0] as u32) == (b[0] as u32) && (
    b[0] as u32) == (c[0] as u32) {
        lemma_lex_le_transitive(
            a.subrange(1, a.len() as int),
            b.subrange(1, b.len() as int),
            c.subrange(1, c.len() as int),
        );
    }
}

/// Decide `lex_le` on two strings.
fn str_le(a: &str, b: &str) -> (r: bool)
    ensures
        r == lex_le(a@, b@),
{
    let alen = a.unicode_len();
    let blen = b.unicode_len();
    proof {
        assert(a@.subrange(0, alen as int) =~= a@);
        assert(b@.subrange(0, blen as int) =~= b@);
    }
    let mut i: usize = 0;
    while i < alen && i < blen
        invariant
            alen == a@.len(),
            blen == b@.len(),
            0 <= i <= alen,
            0 <= i <= blen,
            lex_le(a@, b@) == lex_le(
                a@.subrange(i as int, alen as int),
                b@.subrange(i as int, blen as int),
            ),
        decreases alen - i,
    {
        let ca = a.get_char(i);
        let cb = b.get_char(i);
        proof {
            let ar = a@.subrange(i as int, alen as int);
            let br = b@.subrange(i as int, blen as int);
            assert(ar[0] == a@[i as int]);
            assert(br[0] == b@[i as int]);
            assert(ar.subrange(1, ar.len() as int) =~= a@.subrange(i + 1, alen as int));
            assert(br.subrange(1, br.len() as int) =~= b@.subrange(i + 1, blen as int));
        }
        if (ca as u32) < (cb as u32) {
            return true;
        }
        if (ca as u32) > (cb as u32) {
            return false;
        }
        i += 1;
    }
    proof {
        let ar = a@.subrange(i as int, alen as int);
        let br = b@.subrange(i as int, blen as int);
        if i == alen {
            assert(ar.len() == 0);
        } else {
            assert(br.len() == 0);
            assert(ar.len() > 0);
        }
    }
    i == alen
}

/// The views of a keyword vector.
pub open spec fn kw_view(kws: Seq<String>) -> Seq<Seq<char>> {
    kws.map_values(|s: String| s@)
}

/// The lowercased images of a keyword vector.
pub open spec fn lowered(kws: Seq<String>) -> Seq<Seq<char>> {
    kws.map_values(|s: String| lower_of(s@))
}

/// Strictly increasing in lexicographic order: sorted, without duplicates.
pub open spec fn sorted_unique(kws: Seq<Seq<char>>) -> bool {
    forall|i: int, j: int| 0 <= i < j < kws.len() ==> lex_lt(#[trigger] kws[i], #[trigger] kws[j])
}

/// Insert a word into a sorted duplicate-free list, keeping it so.
fn insert_sorted(acc: &mut Vec<String>, item: String)
    requires
        sorted_unique(kw_view(old(acc)@)),
    ensures
        sorted_unique(kw_view(final(acc)@)),
        forall|x: Seq<char>|
            #[trigger] kw_view(final(acc)@).contains(x) <==> kw_view(old(acc)@).contains(x)
                || x == item@,
{
    let ghost pre = kw_view(acc@);
    let mut i: usize = 0;
    while i < acc.len() && !str_le(item.as_str(), acc[i].as_str())
        invariant
            pre == kw_view(acc@),
            sorted_unique(pre),
            0 <= i <= acc@.len(),
            forall|j: int| 0 <= j < i ==> lex_le(#[trigger] pre[j], item@) && pre[j] != item@,
        decreases acc@.len() - i,
    {
        proof {
            lemma_lex_le_total(item@, acc@[i as int]@);
            if pre[i as int] == item@ {
                assert(lex_le(item@, pre[i as int]));
            }
        }
        i += 1;
    }
    if i < acc.len() && crate::text::str_eq(acc[i].as_str(), item.as_str()) {
        proof {
            assert(pre[i as int] == item@);
            assert(kw_view(acc@).contains(item@));
        }
        return;
    }
    proof {
        if i < acc@.len() {
            assert(lex_le(item@, pre[i as int]));
            assert(pre[i as int] != item@);
        }
    }
    acc.insert(i, item);
    proof {
        let post = kw_view(acc@);
        let n = i as int;
        assert(post.len() == pre.len() + 1);
        assert(forall|j: int| 0 <= j < n ==> post[j] == pre[j]);
        assert(post[n] == item@);
        assert(forall|j: int| n < j < post.len() ==> post[j] == pre[j - 1]);
        assert forall|p: int, q: int| 0 <= p < q < post.len() implies lex_lt(
            #[trigger] post[p],
            #[trigger] post[q],
        ) by {
            if p < n && q == n {
                lemma_lex_le_total(pre[p], item@);
            } else if p == n && q > n {
                let w = pre[q - 1];
                if n < pre.len() {
                    if q - 1 > n {
                        lemma_lex_le_transitive(item@, pre[n], w);
                        if item@ == w {
                            lemma_lex_le_antisymmetric(item@, pre[n]);
                        }
                    }
                } else {
                    assert(q - 1 < pre.len());
                    assert(false);
                }
            } else if p < n && q > n {
                if q - 1 == p {
                    assert(false);
                }
            }
        }
        assert forall|x: Seq<char>| post.contains(x) implies pre.contains(x) || x == item@ by {
            let j = choose|j: int| 0 <= j < post.len() && post[j] == x;
            if j < n {
                assert(pre[j] == x);
            } else if j > n {
                assert(pre[j - 1] == x);
            }
        }
        assert forall|x: Seq<char>| pre.contains(x) || x == item@ implies post.contains(x) by {
            if pre.contains(x) {
                let j = choose|j: int| 0 <= j < pre.len() && pre[j] == x;
                if j < n {
                    assert(post[j] == x);
                } else {
                    assert(post[j + 1] == x);
                }
            } else {
                assert(post[n] == x);
            }
        }
    }
}

/// Fold the lowercased words of `source` into the sorted accumulator.
fn add_lowercased(acc: &mut Vec<String>, source: &Vec<String>)
    requires
        sorted_unique(kw_view(old(acc)@)),
    ensures
        sorted_unique(kw_view(final(acc)@)),
        forall|x: Seq<char>|
            #[trigger] kw_view(final(acc)@).contains(x) <==> kw_view(old(acc)@).contains(x)
                || lowered(source@).contains(x),
{
    let ghost pre = kw_view(acc@);
    let mut i: usize = 0;
    while i < source.len()
        invariant
            0 <= i <= source@.len(),
            sorted_unique(kw_view(acc@)),
            forall|x: Seq<char>|
                #[trigger] kw_view(acc@).contains(x) <==> pre.contains(x) || lowered(
                    source@,
                ).take(i as int).contains(x),
        decreases source@.len() - i,
    {
        let ghost before = kw_view(acc@);
        let word = lowercase(source[i].as_str());
        insert_sorted(acc, word);
        proof {
            let lows = lowered(source@);
            let upto = lows.take(i + 1);
            let sofar = lows.take(i as int);
            assert(lows[i as int] == lower_of(source@[i as int]@));
            assert forall|x: Seq<char>| #[trigger] upto.contains(x) implies sofar.contains(x)
                || x == lows[i as int] by {
                let j = choose|j: int| 0 <= j < upto.len() && upto[j] == x;
                if j < i {
                    assert(sofar[j] == x);
                }
            }
            assert forall|x: Seq<char>| sofar.contains(x) || x == lows[i as int]
                implies #[trigger] upto.contains(x) by {
                if sofar.contains(x) {
                    let j = choose|j: int| 0 <= j < sofar.len() && sofar[j] == x;
                    assert(upto[j] == x);
                } else {
                    assert(upto[i as int] == x);
                }
            }
        }
        i += 1;
    }
    proof {
        assert(lowered(source@).take(source@.len() as int) =~= lowered(source@));
    }
}

impl PageMetadata {
    /// Layer `other` over this metadata, as a site layers layout and
    /// template metadata over its defaults.  Titles combine as
    /// `other - self`, descriptions as `other self`; when `other` brings
    /// keywords, the keywords of both are lowercased, merged, sorted and
    /// deduplicated, else the keywords stay untouched.  Never fails.
    pub fn merge(&mut self, other: &Self) -> (r: Result<(), ()>)
        ensures
            r is Ok,
            match (old(self).title, other.title) {
                (Some(t), Some(s)) => final(self).title matches Some(m) && m@ == s@ + " - "@
                    + t@,
                (Some(t), None) => final(self).title matches Some(m) && m@ == t@,
                (None, Some(t)) => final(self).title matches Some(m) && m@ == t@,
                (None, None) => final(self).title is None,
            },
            match (old(self).description, other.description) {
                (Some(d), Some(o)) => final(self).description matches Some(m) && m@ == o@
                    + " "@ + d@,
                (Some(d), None) => final(self).description matches Some(m) && m@ == d@,
                (None, Some(d)) => final(self).description matches Some(m) && m@ == d@,
                (None, None) => final(self).description is None,
            },
            other.keywords@.len() == 0 ==> final(self).keywords == old(self).keywords,
            other.keywords@.len() > 0 ==> sorted_unique(kw_view(final(self).keywords@)),
            other.keywords@.len() > 0 ==> forall|x: Seq<char>|
                #[trigger] kw_view(final(self).keywords@).contains(x) <==> lowered(
                    old(self).keywords@,
                ).contains(x) || lowered(other.keywords@).contains(x),
    {
        self.title = match (&self.title, &other.title) {
            (Some(title), None) => Some(title.clone()),
            (None, Some(title)) => Some(title.clone()),
            (Some(title), Some(sub_title)) => {
                let mut combined = sub_title.clone();
                combined.append(" - ");
                combined.append(title.as_str());
                Some(combined)
            },
            (None, None) => None,
        };
        self.description = match (&self.description, &other.description) {
            (Some(descr), None) => Some(descr.clone()),
            (Some(descr), Some(other_descr)) => {
                let mut combined = other_descr.clone();
                combined.append(" ");
                combined.append(descr.as_str());
                Some(combined)
            },
            (None, Some(descr)) => Some(descr.clone()),
            (None, None) => None,
        };
        if other.keywords.len() > 0 {
            let mut merged: Vec<String> = Vec::new();
            proof {
                assert(kw_view(merged@) =~= Seq::<Seq<char>>::empty());
            }
            add_lowercased(&mut merged, &self.keywords);
            add_lowercased(&mut merged, &other.keywords);
            self.keywords = merged;
        }
        Ok(())
    }
}

} // verus!
