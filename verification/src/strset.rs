//! Ordered sets of text, kept as strictly ascending vectors: the order a `BTreeSet<String>`
//! iterates in.
use vstd::prelude::*;

use crate::text::{views, str_eq, vec_contains};

verus! {

/// Lexicographic order on text by code point, which is the byte order of its UTF-8 encoding.
pub open spec fn lex_lt(a: Seq<char>, b: Seq<char>) -> bool
    decreases a.len(),
{
    if a.len() == 0 {
        b.len() > 0
    } else if b.len() == 0 {
        false
    } else if a[0] != b[0] {
        (a[0] as u32) < (b[0] as u32)
    } else {
        lex_lt(a.drop_first(), b.drop_first())
    }
}

pub proof fn lemma_lex_irreflexive(a: Seq<char>)
    ensures
        !lex_lt(a, a),
    decreases a.len(),
{
    if a.len() > 0 {
        lemma_lex_irreflexive(a.drop_first());
    }
}

pub proof fn lemma_lex_total(a: Seq<char>, b: Seq<char>)
    ensures
        a == b || lex_lt(a, b) || lex_lt(b, a),
    decreases a.len(),
{
    if a.len() > 0 && b.len() > 0 && a[0] == b[0] {
        lemma_lex_total(a.drop_first(), b.drop_first());
        if a.drop_first() == b.drop_first() {
            assert(a =~= seq![a[0]] + a.drop_first());
            assert(b =~= seq![b[0]] + b.drop_first());
        }
    } else if a.len() == 0 && b.len() == 0 {
        assert(a =~= b);
    } else if a.len() > 0 && b.len() > 0 {
        vstd::utf8::char_u32_cast(a[0], a[0] as u32);
        vstd::utf8::char_u32_cast(b[0], b[0] as u32);
        assert((a[0] as u32) != (b[0] as u32));
    }
}

pub proof fn lemma_lex_asymmetric(a: Seq<char>, b: Seq<char>)
    ensures
        !(lex_lt(a, b) && lex_lt(b, a)),
    decreases a.len(),
{
    if a.len() > 0 && b.len() > 0 && a[0] == b[0] {
        lemma_lex_asymmetric(a.drop_first(), b.drop_first());
    }
}

pub proof fn lemma_lex_transitive(a: Seq<char>, b: Seq<char>, c: Seq<char>)
    requires
        lex_lt(a, b),
        lex_lt(b, c),
    ensures
        lex_lt(a, c),
    decreases a.len(),
{
    if a.len() > 0 && b.len() > 0 && c.len() > 0 && a[0] == b[0] && b[0] == c[0] {
        lemma_lex_transitive(a.drop_first(), b.drop_first(), c.drop_first());
    }
}

/// `a < b` on text.
pub fn text_lt(a: &str, b: &str) -> (r: bool)
    ensures
        r == lex_lt(a@, b@),
{
    let n = a.unicode_len();
    let m = b.unicode_len();
    let mut i: usize = 0;
    assert(a@.subrange(0, n as int) =~= a@);
    assert(b@.subrange(0, m as int) =~= b@);
    while i < n && i < m
        invariant
            n == a@.len(),
            m == b@.len(),
            i <= n,
            i <= m,
            lex_lt(a@, b@) == lex_lt(a@.subrange(i as int, n as int), b@.subrange(i as int, m as int)),
        decreases n - i,
    {
        let x = a.get_char(i);
        let y = b.get_char(i);
        let ghost sa = a@.subrange(i as int, n as int);
        let ghost sb = b@.subrange(i as int, m as int);
        assert(sa[0] == x && sb[0] == y);
        if x != y {
            return (x as u32) < (y as u32);
        }
        assert(sa.drop_first() =~= a@.subrange(i + 1, n as int));
        assert(sb.drop_first() =~= b@.subrange(i + 1, m as int));
        i = i + 1;
    }
    i == n && i < m
}

/// Strictly ascending, hence free of repeats.
pub open spec fn ascending(s: Seq<Seq<char>>) -> bool {
    forall|i: int, j: int| 0 <= i < j < s.len() ==> lex_lt(#[trigger] s[i], #[trigger] s[j])
}

pub proof fn lemma_ascending_no_duplicates(s: Seq<Seq<char>>)
    requires
        ascending(s),
    ensures
        s.no_duplicates(),
{
    assert forall|i: int, j: int| 0 <= i < s.len() && 0 <= j < s.len() && i != j implies s[i] != s[j] by {
        if i < j {
            lemma_lex_irreflexive(s[i]);
        } else {
            lemma_lex_irreflexive(s[j]);
        }
    }
}

/// Add `v` to an ascending set, keeping it ascending; answers whether `v` was new
/// (`BTreeSet::insert`).
pub fn set_insert(set: &mut Vec<String>, v: String) -> (added: bool)
    requires
        ascending(views(old(set)@)),
    ensures
        ascending(views(final(set)@)),
        views(final(set)@).to_set() == views(old(set)@).to_set().insert(v@),
        added == !views(old(set)@).contains(v@),
{
    let ghost old_views = views(set@);
    let mut i: usize = 0;
    while i < set.len() && text_lt(set[i].as_str(), v.as_str())
        invariant
            i <= set.len(),
            set@ == old(set)@,
            old_views == views(set@),
            ascending(old_views),
            forall|k: int| 0 <= k < i ==> lex_lt(#[trigger] old_views[k], v@),
        decreases set.len() - i,
    {
        i = i + 1;
    }
    if i < set.len() && str_eq(set[i].as_str(), v.as_str()) {
        assert(old_views[i as int] == v@);
        assert(views(set@).to_set().insert(v@) =~= views(set@).to_set());
        return false;
    }
    proof {
        if i < set.len() {
            assert(old_views[i as int] == set@[i as int]@);
            lemma_lex_total(old_views[i as int], v@);
        }
        assert forall|k: int| 0 <= k < old_views.len() implies old_views[k] != v@ by {
            if k < i {
                lemma_lex_irreflexive(v@);
            } else {
                if k > i {
                    lemma_lex_transitive(v@, old_views[i as int], old_views[k]);
                }
                lemma_lex_irreflexive(v@);
            }
        }
    }
    set.insert(i, v);
    proof {
        let nv = views(set@);
        assert(nv =~= old_views.insert(i as int, v@));
        assert forall|a: int, b: int| 0 <= a < b < nv.len() implies lex_lt(#[trigger] nv[a], #[trigger] nv[b]) by {
            if a < i && b == i {
            } else if a < i && b > i {
            } else if a == i && b > i {
                if b - 1 > i {
                    lemma_lex_transitive(v@, old_views[i as int], old_views[b - 1]);
                }
            } else {
            }
        }
        assert(nv.to_set() =~= old_views.to_set().insert(v@)) by {
            assert forall|x: Seq<char>| nv.to_set().contains(x) implies old_views.to_set().insert(v@).contains(x) by {
                let k = choose|k: int| 0 <= k < nv.len() && nv[k] == x;
                if k < i {
                    assert(old_views[k] == x);
                } else if k > i {
                    assert(old_views[k - 1] == x);
                }
            }
            assert forall|x: Seq<char>| old_views.to_set().insert(v@).contains(x) implies nv.to_set().contains(x) by {
                if x == v@ {
                    assert(nv[i as int] == x);
                } else {
                    let k = choose|k: int| 0 <= k < old_views.len() && old_views[k] == x;
                    if k < i {
                        assert(nv[k] == x);
                    } else {
                        assert(nv[k + 1] == x);
                    }
                }
            }
        }
    }
    true
}

/// Whether an ascending set holds `v` (`BTreeSet::contains`).
pub fn set_contains(set: &Vec<String>, v: &str) -> (r: bool)
    ensures
        r == views(set@).contains(v@),
{
    vec_contains(set, v)
}

} // verus!
