//! Lists of strings compared by their characters.

use vstd::prelude::*;
use crate::text::str_eq;

verus! {

/// The character sequences of a list of strings.
pub open spec fn views(v: Seq<String>) -> Seq<Seq<char>> {
    v.map_values(|s: String| s@)
}

/// Whether some string of the list has the characters `x`.
pub open spec fn lists(v: Seq<String>, x: Seq<char>) -> bool {
    exists|i: int| 0 <= i < v.len() && #[trigger] v[i]@ == x
}

/// Whether a string differs from `x`.
pub open spec fn differs_from(x: Seq<char>) -> spec_fn(String) -> bool {
    |s: String| s@ != x
}

/// The list without the strings equal to `x`, order kept.
pub open spec fn without(v: Seq<String>, x: Seq<char>) -> Seq<String> {
    v.filter(differs_from(x))
}

/// Whether the list holds a string equal to `x`.
pub fn contains_str(v: &Vec<String>, x: &str) -> (r: bool)
    ensures
        r == lists(v@, x@),
{
    let mut i: usize = 0;
    while i < v.len()
        invariant
            i <= v@.len(),
            forall|j: int| 0 <= j < i ==> #[trigger] v@[j]@ != x@,
        decreases v@.len() - i,
    {
        if str_eq(v[i].as_str(), x) {
            return true;
        }
        i += 1;
    }
    false
}

/// Removes every string equal to `x`, keeping the order of the others (`retain(|s| s != x)`).
pub fn remove_str(v: &mut Vec<String>, x: &str)
    ensures
        final(v)@ == without(old(v)@, x@),
{
    let ghost orig = v@;
    let mut kept: Vec<String> = Vec::new();
    let mut rest: Vec<String> = Vec::new();
    std::mem::swap(&mut rest, v);
    assert(rest@ == orig);
    let total = rest.len();
    assert(orig.len() == total);
    let mut i: usize = 0;
    while rest.len() > 0
        invariant
            i + rest@.len() == orig.len(),
            orig.len() <= usize::MAX,
            rest@ == orig.skip(i as int),
            kept@ == without(orig.take(i as int), x@),
        decreases rest@.len(),
    {
        let s = rest.remove(0);
        proof {
            assert(orig.take(i + 1) =~= orig.take(i as int).push(orig[i as int]));
            assert(s == orig[i as int]);
            assert(rest@ =~= orig.skip(i + 1));
            orig.take(i as int).lemma_filter_push(orig[i as int], differs_from(x@));
        }
        if !str_eq(s.as_str(), x) {
            kept.push(s);
        }
        i += 1;
    }
    assert(orig.take(orig.len() as int) =~= orig);
    *v = kept;
}

/// A copy of a string, character for character.
pub fn copy_str(s: &str) -> (r: String)
    ensures
        r@ == s@,
{
    String::from_str(s)
}

/// A copy of a list of strings.
pub fn copy_strs(v: &Vec<String>) -> (r: Vec<String>)
    ensures
        views(r@) == views(v@),
{
    let mut r: Vec<String> = Vec::new();
    let mut i: usize = 0;
    while i < v.len()
        invariant
            i <= v@.len(),
            r@.len() == i,
            forall|j: int| 0 <= j < i ==> #[trigger] r@[j]@ == v@[j]@,
        decreases v@.len() - i,
    {
        r.push(copy_str(v[i].as_str()));
        i += 1;
    }
    assert(views(r@) =~= views(v@));
    r
}

/// Removing `x` from a list with one more string at the end.
pub proof fn lemma_without_push(v: Seq<String>, e: String, x: Seq<char>)
    ensures
        without(v.push(e), x) == if e@ != x {
            without(v, x).push(e)
        } else {
            without(v, x)
        },
{
    v.lemma_filter_push(e, differs_from(x));
}

/// Removing `x` from the empty list.
pub proof fn lemma_without_empty(x: Seq<char>)
    ensures
        without(Seq::<String>::empty(), x) == Seq::<String>::empty(),
{
    reveal(Seq::filter);
    assert(Seq::<String>::empty().filter(differs_from(x)) =~= Seq::<String>::empty());
}

} // verus!
