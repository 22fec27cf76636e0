//! Properties of the permission gate that span several of its operations.

use vstd::prelude::*;
use crate::permission::{
    answer_scope, best_match, cache_after_response, cache_upsert, covers, derived_scope,
    extracted_path, fast_path, is_best_cover, is_dir_context, is_first_pattern, is_first_tool,
    last_slash, lookup, normalized, pattern_index, pattern_len, pending_insert, pending_remove,
    request_index, is_first_request, tool_index, upsert_entries, any_cover, CacheView, EntryView,
    OutcomeView, PendingView, Verdict, denied_by_preference, response_persist,
};
use crate::utf8len::{byte_len, lemma_byte_len_ge_len, lemma_byte_len_proper_prefix, lemma_byte_len_push_slash};

verus! {

proof fn lemma_last_slash_bounds(p: Seq<char>)
    ensures
        -1 <= last_slash(p) < p.len(),
        last_slash(p) >= 0 ==> p[last_slash(p)] == '/',
    decreases p.len(),
{
    if p.len() > 0 && p.last() != '/' {
        lemma_last_slash_bounds(p.drop_last());
        if last_slash(p.drop_last()) >= 0 {
            assert(p[last_slash(p)] == p.drop_last()[last_slash(p)]);
        }
    }
}

/// The scope derived from a description covers the path it names, provided
/// the description names a directory or the path contains a `/`.
pub proof fn lemma_scope_covers_path(d: Seq<char>)
    requires
        extracted_path(d) is Some,
        is_dir_context(d) || last_slash(extracted_path(d)->0) >= 0,
    ensures
        derived_scope(d) is Some,
        normalized(derived_scope(d)->0).is_prefix_of(normalized(extracted_path(d)->0)),
{
    let p = extracted_path(d)->0;
    let s = derived_scope(d)->0;
    if is_dir_context(d) {
        assert(s == p);
    } else {
        lemma_last_slash_bounds(p);
        let k = last_slash(p);
        if k > 0 {
            assert(s == p.take(k));
            if s.len() > 0 && s.last() == '/' {
                assert(normalized(s) == s);
            } else {
                assert(normalized(s) =~= p.take(k + 1));
            }
        } else {
            assert(k == 0);
            assert(s == "/"@);
            reveal_strlit("/");
            assert(normalized(s) == s);
            assert(s =~= p.take(1));
        }
        if p.len() > 0 && p.last() == '/' {
            assert(normalized(p) == p);
        } else {
            assert(p.is_prefix_of(normalized(p)));
        }
    }
}

/// Two patterns that cover the same path and have the same length in bytes are equal.
pub proof fn lemma_equal_len_covers_equal(q1: Seq<char>, q2: Seq<char>, p: Seq<char>)
    requires
        normalized(q1).is_prefix_of(normalized(p)),
        normalized(q2).is_prefix_of(normalized(p)),
        byte_len(q1) == byte_len(q2),
    ensures
        q1 == q2,
    decreases q1.len() + q2.len(),
{
    let n1 = normalized(q1);
    let n2 = normalized(q2);
    let ends1 = q1.len() > 0 && q1.last() == '/';
    let ends2 = q2.len() > 0 && q2.last() == '/';
    if !ends1 {
        lemma_byte_len_push_slash(q1);
    }
    if !ends2 {
        lemma_byte_len_push_slash(q2);
    }
    if n1.len() == n2.len() {
        assert(n1 =~= n2) by {
            assert forall|i: int| 0 <= i < n1.len() implies n1[i] == n2[i] by {
                assert(n1[i] == normalized(p)[i]);
                assert(n2[i] == normalized(p)[i]);
            }
        }
        if ends1 && !ends2 {
            assert(n2.drop_last() =~= q2);
        } else if !ends1 && ends2 {
            assert(n1.drop_last() =~= q1);
        } else if !ends1 && !ends2 {
            assert(n1.drop_last() =~= q1);
            assert(n2.drop_last() =~= q2);
        }
    } else if n1.len() < n2.len() {
        assert(n1.is_prefix_of(n2)) by {
            assert forall|i: int| 0 <= i < n1.len() implies n1[i] == n2[i] by {
                assert(n1[i] == normalized(p)[i]);
                assert(n2[i] == normalized(p)[i]);
            }
        }
        lemma_byte_len_proper_prefix(n1, n2);
        if ends2 {
            assert(false);
        } else {
            assert(n2.drop_last() =~= q2);
            assert(byte_len(n1) + 1 == byte_len(n2));
            assert(ends1);
            assert(n2 == n1.push(n2.last()));
            assert(n2.last() == '/');
            assert(q2 =~= n1);
        }
    } else {
        assert(n2.is_prefix_of(n1)) by {
            assert forall|i: int| 0 <= i < n2.len() implies n2[i] == n1[i] by {
                assert(n1[i] == normalized(p)[i]);
                assert(n2[i] == normalized(p)[i]);
            }
        }
        lemma_byte_len_proper_prefix(n2, n1);
        if ends1 {
            assert(false);
        } else {
            assert(n1.drop_last() =~= q1);
            assert(byte_len(n2) + 1 == byte_len(n1));
            assert(ends2);
            assert(n1 == n2.push(n1.last()));
            assert(n1.last() == '/');
            assert(q1 =~= n2);
        }
    }
}

/// Whenever some entry covers `p`, a best covering entry exists.
pub proof fn lemma_best_cover_exists(es: Seq<EntryView>, p: Seq<char>)
    requires
        any_cover(es, p),
    ensures
        exists|i: int| is_best_cover(es, p, i),
    decreases es.len(),
{
    let init = es.drop_last();
    let x = es.last();
    let n = es.len() - 1;
    if any_cover(init, p) {
        lemma_best_cover_exists(init, p);
        let b = choose|i: int| is_best_cover(init, p, i);
        assert(es[b] == init[b]);
        if covers(x, p) && pattern_len(x) > pattern_len(init[b]) {
            assert forall|j: int| 0 <= j < es.len() && covers(es[j], p) implies pattern_len(es[j])
                <= pattern_len(es[n]) by {
                if j < n {
                    assert(es[j] == init[j]);
                }
            }
            assert forall|j: int| 0 <= j < n && covers(es[j], p) implies pattern_len(es[j])
                < pattern_len(es[n]) by {
                assert(es[j] == init[j]);
            }
            assert(is_best_cover(es, p, n));
        } else {
            assert forall|j: int| 0 <= j < es.len() && covers(es[j], p) implies pattern_len(es[j])
                <= pattern_len(es[b]) by {
                if j < n {
                    assert(es[j] == init[j]);
                }
            }
            assert forall|j: int| 0 <= j < b && covers(es[j], p) implies pattern_len(es[j])
                < pattern_len(es[b]) by {
                assert(es[j] == init[j]);
            }
            assert(is_best_cover(es, p, b));
        }
    } else {
        let j0 = choose|j: int| 0 <= j < es.len() && covers(es[j], p);
        if j0 < n {
            assert(es[j0] == init[j0]);
            assert(false);
        }
        assert forall|j: int| 0 <= j < n && covers(es[j], p) implies pattern_len(es[j])
            < pattern_len(es[n]) by {
            assert(es[j] == init[j]);
            assert(covers(init[j], p));
        }
        assert(is_best_cover(es, p, n));
    }
}

proof fn lemma_first_tool_of(c: CacheView, t: Seq<char>, i: int) -> (f: int)
    requires
        0 <= i < c.len(),
        c[i].0 == t,
    ensures
        is_first_tool(c, t, f),
    decreases i,
{
    if exists|j: int| 0 <= j < i && c[j].0 == t {
        let j = choose|j: int| 0 <= j < i && c[j].0 == t;
        lemma_first_tool_of(c, t, j)
    } else {
        i
    }
}

proof fn lemma_first_pattern_of(es: Seq<EntryView>, pat: Option<Seq<char>>, i: int) -> (f: int)
    requires
        0 <= i < es.len(),
        es[i].0 == pat,
    ensures
        is_first_pattern(es, pat, f),
    decreases i,
{
    if exists|j: int| 0 <= j < i && es[j].0 == pat {
        let j = choose|j: int| 0 <= j < i && es[j].0 == pat;
        lemma_first_pattern_of(es, pat, j)
    } else {
        i
    }
}

/// After recording decision `dec` for tool `t` and pattern `s`, the tool's
/// entries are the upserted list, in which the recorded entry is the first
/// one with pattern `s`.
pub proof fn lemma_upsert_lookup(c: CacheView, t: Seq<char>, s: Seq<char>, dec: Seq<char>)
    ensures
        lookup(cache_upsert(c, t, s, dec), t) is Some,
        ({
            let es = lookup(cache_upsert(c, t, s, dec), t)->0;
            let u = pattern_index(es, Some(s));
            &&& is_first_pattern(es, Some(s), u)
            &&& es[u] == (Some(s), dec)
        }),
{
    let c2 = cache_upsert(c, t, s, dec);
    let i = tool_index(c, t);
    let es0 = if i >= 0 { c[i].1 } else { Seq::<EntryView>::empty() };
    let es = upsert_entries(es0, s, dec);
    if i >= 0 {
        let w = choose|k: int| is_first_tool(c, t, k);
        assert(is_first_tool(c2, t, i));
        let w2 = choose|k: int| is_first_tool(c2, t, k);
        if w2 != i {
            if w2 < i {
                assert(c2[w2] == c[w2]);
            } else {
                assert(c2[i].0 != t);
            }
        }
        assert(lookup(c2, t) == Some(es));
    } else {
        assert forall|j: int| 0 <= j < c.len() implies c[j].0 != t by {
            if c[j].0 == t {
                let f = lemma_first_tool_of(c, t, j);
                assert(exists|k: int| is_first_tool(c, t, k));
            }
        }
        assert(is_first_tool(c2, t, c.len() as int));
        let w2 = choose|k: int| is_first_tool(c2, t, k);
        if w2 < c.len() {
            assert(c2[w2] == c[w2]);
        }
        assert(es0.push((Some(s), dec)) =~= seq![(Some(s), dec)]);
        assert(lookup(c2, t) == Some(es));
    }
    let k0 = pattern_index(es0, Some(s));
    if k0 >= 0 {
        let w = choose|k: int| is_first_pattern(es0, Some(s), k);
        assert(is_first_pattern(es, Some(s), k0));
        let w2 = choose|k: int| is_first_pattern(es, Some(s), k);
        if w2 != k0 {
            if w2 < k0 {
                assert(es[w2] == es0[w2]);
            } else {
                assert(es[k0].0 != Some(s));
            }
        }
    } else {
        assert forall|j: int| 0 <= j < es0.len() implies es0[j].0 != Some(s) by {
            if es0[j].0 == Some(s) {
                let f = lemma_first_pattern_of(es0, Some(s), j);
                assert(exists|k: int| is_first_pattern(es0, Some(s), k));
            }
        }
        assert(is_first_pattern(es, Some(s), es0.len() as int));
        let w2 = choose|k: int| is_first_pattern(es, Some(s), k);
        if w2 < es0.len() {
            assert(es[w2] == es0[w2]);
        }
    }
}

/// A recorded decision decides for every path its pattern covers, unless a
/// strictly longer pattern of the same tool covers that path too.
pub proof fn lemma_recorded_decision_decides(c: CacheView, t: Seq<char>, s: Seq<char>, dec: Seq<char>, p: Seq<char>)
    requires
        normalized(s).is_prefix_of(normalized(p)),
    ensures
        ({
            let es = lookup(cache_upsert(c, t, s, dec), t)->0;
            let b = best_match(es, Some(p));
            &&& b is Some
            &&& es[b->0].1 == dec || byte_len(s) < pattern_len(es[b->0])
        }),
{
    lemma_upsert_lookup(c, t, s, dec);
    let es = lookup(cache_upsert(c, t, s, dec), t)->0;
    let u = pattern_index(es, Some(s));
    assert(covers(es[u], p));
    assert(any_cover(es, p));
    lemma_best_cover_exists(es, p);
    let b = choose|i: int| is_best_cover(es, p, i);
    assert(best_match(es, Some(p)) == Some(b));
    assert(pattern_len(es[u]) <= pattern_len(es[b]));
    if pattern_len(es[b]) == byte_len(s) {
        let q = es[b].0->0;
        lemma_equal_len_covers_equal(q, s, p);
        if b < u {
            assert(es[b].0 != Some(s));
        } else if u < b {
            assert(pattern_len(es[u]) < pattern_len(es[b]));
        }
    }
}

/// Replying "allow always" to a description makes the permission gate allow the same
/// tool and description without asking, unless a strictly longer stored
/// pattern of that tool covers the path. It requires that the reply's scope
/// covers the described path (which the derived scope does, see
/// [`lemma_scope_covers_path`]) and that the path is not inside the sandbox
/// (where the permission gate allows anyway).
pub proof fn law_allow_always_is_remembered(c: CacheView, t: Seq<char>, d: Seq<char>, path: Option<Seq<char>>)
    requires
        extracted_path(d) is Some,
        answer_scope(path, d) is Some,
        normalized(answer_scope(path, d)->0).is_prefix_of(normalized(extracted_path(d)->0)),
    ensures
        ({
            let c2 = cache_after_response(c, t, d, OutcomeView::AllowAlways(path));
            let es = lookup(c2, t)->0;
            let b = best_match(es, extracted_path(d))->0;
            ||| fast_path(c2, t, d, false) == Some(Verdict::Allow)
            ||| byte_len(answer_scope(path, d)->0) < pattern_len(es[b])
        }),
{
    let s = answer_scope(path, d)->0;
    let p = extracted_path(d)->0;
    reveal_strlit("allow");
    lemma_recorded_decision_decides(c, t, s, "allow"@, p);
    lemma_upsert_lookup(c, t, s, "allow"@);
}

/// Replying "deny always" to a description makes the permission gate deny the same
/// tool and description without asking, under the same conditions as
/// [`law_allow_always_is_remembered`].
pub proof fn law_deny_always_is_remembered(c: CacheView, t: Seq<char>, d: Seq<char>, path: Option<Seq<char>>)
    requires
        extracted_path(d) is Some,
        answer_scope(path, d) is Some,
        normalized(answer_scope(path, d)->0).is_prefix_of(normalized(extracted_path(d)->0)),
    ensures
        ({
            let c2 = cache_after_response(c, t, d, OutcomeView::DenyAlways(path));
            let es = lookup(c2, t)->0;
            let b = best_match(es, extracted_path(d))->0;
            ||| fast_path(c2, t, d, false) == Some(Verdict::Deny(denied_by_preference(t)))
            ||| byte_len(answer_scope(path, d)->0) < pattern_len(es[b])
        }),
{
    let s = answer_scope(path, d)->0;
    let p = extracted_path(d)->0;
    reveal_strlit("allow");
    reveal_strlit("deny");
    assert("deny"@ != "allow"@) by {
        assert("deny"@[0] != "allow"@[0]);
    }
    lemma_recorded_decision_decides(c, t, s, "deny"@, p);
    lemma_upsert_lookup(c, t, s, "deny"@);
}

/// One-time answers, a closed channel and a timeout leave the cache as it was.
pub proof fn law_one_time_answers_keep_cache(c: CacheView, t: Seq<char>, d: Seq<char>, reason: Seq<char>)
    ensures
        cache_after_response(c, t, d, OutcomeView::Allow) == c,
        cache_after_response(c, t, d, OutcomeView::Deny(reason)) == c,
        cache_after_response(c, t, d, OutcomeView::ChannelClosed) == c,
        cache_after_response(c, t, d, OutcomeView::TimedOut) == c,
{
}

proof fn lemma_first_request_of<T>(p: PendingView<T>, id: Seq<char>, i: int) -> (f: int)
    requires
        0 <= i < p.len(),
        p[i].0 == id,
    ensures
        is_first_request(p, id, f),
    decreases i,
{
    if exists|j: int| 0 <= j < i && p[j].0 == id {
        let j = choose|j: int| 0 <= j < i && p[j].0 == id;
        lemma_first_request_of(p, id, j)
    } else {
        i
    }
}

proof fn lemma_no_request<T>(p: PendingView<T>, id: Seq<char>)
    requires
        forall|j: int| 0 <= j < p.len() ==> p[j].0 != id,
    ensures
        request_index(p, id) == -1,
{
    assert forall|k: int| !is_first_request(p, id, k) by {
        if is_first_request(p, id, k) {
            assert(p[k].0 == id);
        }
    }
}

proof fn lemma_request_at<T>(p: PendingView<T>, id: Seq<char>, i: int)
    requires
        is_first_request(p, id, i),
    ensures
        request_index(p, id) == i,
{
    let w = choose|k: int| is_first_request(p, id, k);
    if w < i {
        assert(p[w].0 != id);
    } else if w > i {
        assert(p[i].0 != id);
    }
}

/// A party registered for a request is the one handed out when the request
/// is resolved, and a resolved request is no longer pending (request ids
/// being distinct, as the pending table keeps them).
pub proof fn law_pending_roundtrip<T>(p: PendingView<T>, id: Seq<char>, v: T)
    requires
        crate::permission::distinct_requests(p),
    ensures
        pending_remove(pending_insert(p, id, v), id).1 == Some(v),
        pending_remove(pending_remove(pending_insert(p, id, v), id).0, id).1 is None,
{
    let i = request_index(p, id);
    let p1 = pending_insert(p, id, v);
    if i >= 0 {
        let w = choose|k: int| is_first_request(p, id, k);
        assert(is_first_request(p1, id, i));
        lemma_request_at(p1, id, i);
        let p2 = p1.remove(i);
        assert forall|j: int| 0 <= j < p2.len() implies p2[j].0 != id by {
            if j < i {
                assert(p2[j] == p[j]);
            } else {
                assert(p2[j] == p[j + 1]);
                assert(p[i].0 != p[j + 1].0);
            }
        }
        lemma_no_request(p2, id);
    } else {
        assert forall|j: int| 0 <= j < p.len() implies p[j].0 != id by {
            if p[j].0 == id {
                let f = lemma_first_request_of(p, id, j);
                assert(exists|k: int| is_first_request(p, id, k));
            }
        }
        assert(is_first_request(p1, id, p.len() as int));
        lemma_request_at(p1, id, p.len() as int);
        assert(p1.remove(p.len() as int) =~= p);
        lemma_no_request(p, id);
    }
}

/// A path inside the sandbox is allowed before any stored preference is
/// consulted: whatever the cache holds for the tool (even a tool-wide deny),
/// a description naming a path in the sandbox is allowed without asking.
pub proof fn law_sandbox_allows_before_preferences(c1: CacheView, c2: CacheView, t: Seq<char>, d: Seq<char>)
    requires
        extracted_path(d) is Some,
    ensures
        fast_path(c1, t, d, true) == Some(Verdict::Allow),
        fast_path(c1, t, d, true) == fast_path(c2, t, d, true),
{
}

/// A persistent answer that names a folder is recorded for exactly that
/// folder, whatever the description would give: the request to persist and
/// the cache entry carry the chosen path, with the answer's decision.
pub proof fn law_chosen_scope_is_kept(c: CacheView, t: Seq<char>, d: Seq<char>, p: Seq<char>)
    ensures
        response_persist(t, d, OutcomeView::AllowAlways(Some(p))) == Some((t, p, "allow"@)),
        response_persist(t, d, OutcomeView::DenyAlways(Some(p))) == Some((t, p, "deny"@)),
        lookup(cache_after_response(c, t, d, OutcomeView::AllowAlways(Some(p))), t) matches Some(es)
            && es.contains((Some(p), "allow"@)),
        lookup(cache_after_response(c, t, d, OutcomeView::DenyAlways(Some(p))), t) matches Some(es)
            && es.contains((Some(p), "deny"@)),
{
    lemma_upsert_lookup(c, t, p, "allow"@);
    let es = lookup(cache_upsert(c, t, p, "allow"@), t)->0;
    assert(es[pattern_index(es, Some(p))] == (Some(p), "allow"@));
    lemma_upsert_lookup(c, t, p, "deny"@);
    let es2 = lookup(cache_upsert(c, t, p, "deny"@), t)->0;
    assert(es2[pattern_index(es2, Some(p))] == (Some(p), "deny"@));
}

/// A persistent answer without a chosen folder falls back on the scope derived
/// from the description, and records nothing when none can be derived.
pub proof fn law_unchosen_scope_is_derived(c: CacheView, t: Seq<char>, d: Seq<char>)
    ensures
        derived_scope(d) matches Some(s) ==> response_persist(t, d, OutcomeView::AllowAlways(None))
            == Some((t, s, "allow"@)) && response_persist(t, d, OutcomeView::DenyAlways(None)) == Some(
            (t, s, "deny"@),
        ),
        derived_scope(d) is None ==> response_persist(t, d, OutcomeView::AllowAlways(None)) is None
            && cache_after_response(c, t, d, OutcomeView::AllowAlways(None)) == c
            && response_persist(t, d, OutcomeView::DenyAlways(None)) is None
            && cache_after_response(c, t, d, OutcomeView::DenyAlways(None)) == c,
{
}

} // verus!
