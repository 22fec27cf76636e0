//! The order of `str` (`Ord`): lexicographic by character, a proper prefix
//! first. UTF-8 keeps code point order, so this is also the byte order that
//! `str::cmp` uses.

use vstd::prelude::*;
use vstd::relations::{sorted_by, total_ordering};
use vstd::seq_lib::{lemma_sorted_unique, to_multiset_build, to_multiset_insert};
use crate::strvec::views;
use crate::text::to_chars;

verus! {

/// `a` is not greater than `b` in the lexicographic order of characters.
pub open spec fn lex_le(a: Seq<char>, b: Seq<char>) -> bool
    decreases a.len(),
{
    if a.len() == 0 {
        true
    } else if b.len() == 0 {
        false
    } else if a[0] != b[0] {
        (a[0] as int) < (b[0] as int)
    } else {
        lex_le(a.drop_first(), b.drop_first())
    }
}

/// The lexicographic order as a relation.
pub open spec fn lex_leq() -> spec_fn(Seq<char>, Seq<char>) -> bool {
    |a: Seq<char>, b: Seq<char>| lex_le(a, b)
}

proof fn lemma_lex_reflexive(a: Seq<char>)
    ensures
        lex_le(a, a),
    decreases a.len(),
{
    if a.len() > 0 {
        lemma_lex_reflexive(a.drop_first());
    }
}

proof fn lemma_lex_antisymmetric(a: Seq<char>, b: Seq<char>)
    requires
        lex_le(a, b),
        lex_le(b, a),
    ensures
        a == b,
    decreases a.len(),
{
    if a.len() == 0 {
        assert(b.len() == 0);
        assert(a =~= b);
    } else {
        assert(b.len() > 0);
        assert(a[0] == b[0]);
        lemma_lex_antisymmetric(a.drop_first(), b.drop_first());
        assert(a =~= seq![a[0]] + a.drop_first());
        assert(b =~= seq![b[0]] + b.drop_first());
    }
}

proof fn lemma_lex_transitive(a: Seq<char>, b: Seq<char>, c: Seq<char>)
    requires
        lex_le(a, b),
        lex_le(b, c),
    ensures
        lex_le(a, c),
    decreases a.len(),
{
    if a.len() > 0 {
        assert(b.len() > 0);
        assert(c.len() > 0);
        if a[0] == b[0] && b[0] == c[0] {
            lemma_lex_transitive(a.drop_first(), b.drop_first(), c.drop_first());
        }
    }
}

proof fn lemma_lex_connected(a: Seq<char>, b: Seq<char>)
    ensures
        lex_le(a, b) || lex_le(b, a),
    decreases a.len(),
{
    if a.len() > 0 && b.len() > 0 {
        if a[0] == b[0] {
            lemma_lex_connected(a.drop_first(), b.drop_first());
        } else {
            assert((a[0] as int) != (b[0] as int));
        }
    }
}

/// The lexicographic order is a total order.
pub proof fn lemma_lex_total_ordering()
    ensures
        total_ordering(lex_leq()),
{
    assert forall|a: Seq<char>| #[trigger] lex_leq()(a, a) by {
        lemma_lex_reflexive(a);
    }
    assert forall|a: Seq<char>, b: Seq<char>| #[trigger] lex_leq()(a, b) && #[trigger] lex_leq()(b, a)
        implies a == b by {
        lemma_lex_antisymmetric(a, b);
    }
    assert forall|a: Seq<char>, b: Seq<char>, c: Seq<char>|
        #[trigger] lex_leq()(a, b) && #[trigger] lex_leq()(b, c) implies lex_leq()(a, c) by {
        lemma_lex_transitive(a, b, c);
    }
    assert forall|a: Seq<char>, b: Seq<char>| #[trigger] lex_leq()(a, b) || #[trigger] lex_leq()(b, a) by {
        lemma_lex_connected(a, b);
    }
}

/// Two orderings of the same strings that are both sorted are equal.
pub proof fn lemma_sorted_views_unique(x: Seq<Seq<char>>, y: Seq<Seq<char>>)
    requires
        sorted_by(x, lex_leq()),
        sorted_by(y, lex_leq()),
        x.to_multiset() == y.to_multiset(),
    ensures
        x == y,
{
    lemma_lex_total_ordering();
    lemma_sorted_unique(x, y, lex_leq());
}

/// Compares two strings: `a <= b` in the order of `str`.
pub fn str_le(a: &str, b: &str) -> (r: bool)
    ensures
        r == lex_le(a@, b@),
{
    let va = to_chars(a);
    let vb = to_chars(b);
    let mut i: usize = 0;
    assert(a@.skip(0) =~= a@);
    assert(b@.skip(0) =~= b@);
    while i < va.len() && i < vb.len()
        invariant
            va@ == a@,
            vb@ == b@,
            i <= va@.len(),
            i <= vb@.len(),
            lex_le(a@, b@) == lex_le(a@.skip(i as int), b@.skip(i as int)),
        decreases va@.len() - i,
    {
        let ca = va[i];
        let cb = vb[i];
        proof {
            assert(a@.skip(i as int)[0] == ca);
            assert(b@.skip(i as int)[0] == cb);
            assert(a@.skip(i as int).drop_first() =~= a@.skip(i + 1));
            assert(b@.skip(i as int).drop_first() =~= b@.skip(i + 1));
        }
        if ca != cb {
            return ca < cb;
        }
        i += 1;
    }
    i == va.len()
}

/// Sorts strings into the order of `str` (what `sort()` does on a `Vec<&str>`).
pub fn sort_strings(v: Vec<String>) -> (r: Vec<String>)
    ensures
        sorted_by(views(r@), lex_leq()),
        views(r@).to_multiset() == views(v@).to_multiset(),
{
    proof {
        lemma_lex_total_ordering();
    }
    let ghost orig = v@;
    let total = v.len();
    let mut rest = v;
    let mut out: Vec<String> = Vec::new();
    let mut i: usize = 0;
    assert(views(out@) =~= views(orig.take(0)));
    while rest.len() > 0
        invariant
            i + rest@.len() == orig.len(),
            orig.len() == total,
            rest@ == orig.skip(i as int),
            total_ordering(lex_leq()),
            sorted_by(views(out@), lex_leq()),
            views(out@).to_multiset() == views(orig.take(i as int)).to_multiset(),
        decreases rest@.len(),
    {
        let s = rest.remove(0);
        proof {
            assert(s == orig[i as int]);
            assert(rest@ =~= orig.skip(i + 1));
            assert(views(orig.take(i + 1)) =~= views(orig.take(i as int)).push(s@));
        }
        let mut pos: usize = 0;
        while pos < out.len() && str_le(out[pos].as_str(), s.as_str())
            invariant
                pos <= out@.len(),
                forall|k: int| 0 <= k < pos ==> lex_le(#[trigger] out@[k]@, s@),
            decreases out@.len() - pos,
        {
            pos += 1;
        }
        let ghost before = views(out@);
        proof {
            if pos < out@.len() {
                assert(!lex_le(out@[pos as int]@, s@));
                assert(lex_leq()(s@, out@[pos as int]@) || lex_leq()(out@[pos as int]@, s@));
            }
        }
        out.insert(pos, s);
        proof {
            assert(views(out@) =~= before.insert(pos as int, s@));
            to_multiset_insert(before, pos as int, s@);
            to_multiset_build(views(orig.take(i as int)), s@);
            assert forall|a: int, b: int| 0 <= a < b < views(out@).len() implies
                #[trigger] lex_leq()(views(out@)[a], views(out@)[b]) by {
                let w = views(out@);
                if a < pos && b == pos {
                    assert(w[a] == before[a]);
                } else if a < pos && b > pos {
                    assert(w[a] == before[a]);
                    assert(w[b] == before[b - 1]);
                    if pos < before.len() {
                        assert(lex_leq()(before[a], before[pos as int]) || a == pos);
                    }
                    assert(lex_leq()(w[a], s@));
                    assert(lex_leq()(s@, before[pos as int]));
                    if b - 1 > pos {
                        assert(lex_leq()(before[pos as int], before[b - 1]));
                    }
                } else if a == pos {
                    assert(w[b] == before[b - 1]);
                    assert(lex_leq()(s@, before[pos as int]));
                    if b - 1 > pos {
                        assert(lex_leq()(before[pos as int], before[b - 1]));
                    }
                } else if b < pos {
                    assert(w[a] == before[a]);
                    assert(w[b] == before[b]);
                } else {
                    assert(w[a] == before[a - 1]);
                    assert(w[b] == before[b - 1]);
                }
            }
        }
        i += 1;
    }
    assert(orig.take(orig.len() as int) =~= orig);
    out
}

} // verus!
