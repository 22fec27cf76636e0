//! What removing repeated assistant turns guarantees of a history.

use vstd::prelude::*;
use crate::history::{dedup, dedup_step, has_tool_call, redundant_pair, Message};

verus! {

/// No two neighbouring messages are a redundant pair.
pub open spec fn free_of_repeats<X>(h: Seq<Message<X>>) -> bool {
    forall|i: int| 0 <= i < h.len() - 1 ==> !redundant_pair(#[trigger] h[i], h[i + 1])
}

/// The messages that are not assistant turns, in order.
pub open spec fn non_assistant<X>(h: Seq<Message<X>>) -> Seq<Message<X>> {
    h.filter(|m: Message<X>| !(m is Assistant))
}

proof fn lemma_step_keeps_free<X>(r: Seq<Message<X>>, m: Message<X>)
    requires
        free_of_repeats(r),
    ensures
        free_of_repeats(dedup_step(r, m)),
{
    let out = dedup_step(r, m);
    if r.len() > 0 && m is Assistant && r.last() is Assistant {
        let n = r.len() - 1;
        if out == r.drop_last().push(m) {
            assert forall|i: int| 0 <= i < out.len() - 1 implies !redundant_pair(#[trigger] out[i], out[i + 1]) by {
                if i == n - 1 {
                    assert(!redundant_pair(r[i], r[i + 1]));
                    assert(out[i] == r[i]);
                } else {
                    assert(out[i] == r[i] && out[i + 1] == r[i + 1]);
                }
            }
        } else if out == r.push(m) {
            assert forall|i: int| 0 <= i < out.len() - 1 implies !redundant_pair(#[trigger] out[i], out[i + 1]) by {
                if i < n {
                    assert(out[i] == r[i] && out[i + 1] == r[i + 1]);
                }
            }
        }
    } else {
        assert forall|i: int| 0 <= i < out.len() - 1 implies !redundant_pair(#[trigger] out[i], out[i + 1]) by {
            if i < r.len() - 1 {
                assert(out[i] == r[i] && out[i + 1] == r[i + 1]);
            }
        }
    }
}

/// After removing repeated assistant turns, no assistant turn repeats the
/// text of the one before it unless both carry tool calls.
pub proof fn law_dedup_leaves_no_repeats<X>(h: Seq<Message<X>>)
    ensures
        free_of_repeats(dedup(h)),
    decreases h.len(),
{
    if h.len() > 0 {
        law_dedup_leaves_no_repeats(h.drop_last());
        lemma_step_keeps_free(dedup(h.drop_last()), h.last());
    }
}

/// A history without repeated assistant turns is left as it is.
pub proof fn law_dedup_keeps_clean_history<X>(h: Seq<Message<X>>)
    requires
        free_of_repeats(h),
    ensures
        dedup(h) == h,
    decreases h.len(),
{
    if h.len() > 0 {
        let init = h.drop_last();
        assert forall|i: int| 0 <= i < init.len() - 1 implies !redundant_pair(#[trigger] init[i], init[i + 1]) by {
            assert(init[i] == h[i] && init[i + 1] == h[i + 1]);
        }
        law_dedup_keeps_clean_history(init);
        if init.len() > 0 {
            assert(!redundant_pair(h[init.len() - 1], h[init.len() as int]));
            assert(init.last() == h[init.len() - 1]);
        }
        assert(init.push(h.last()) =~= h);
    }
}

/// Removing repeated assistant turns twice removes nothing more.
pub proof fn law_dedup_idempotent<X>(h: Seq<Message<X>>)
    ensures
        dedup(dedup(h)) == dedup(h),
{
    law_dedup_leaves_no_repeats(h);
    law_dedup_keeps_clean_history(dedup(h));
}

/// User and system messages are all kept, in order: only assistant turns are removed or replaced.
pub proof fn law_dedup_keeps_other_messages<X>(h: Seq<Message<X>>)
    ensures
        non_assistant(dedup(h)) == non_assistant(h),
    decreases h.len(),
{
    let keep = |m: Message<X>| !(m is Assistant);
    if h.len() == 0 {
        assert(dedup(h) =~= Seq::<Message<X>>::empty());
    } else {
        let init = h.drop_last();
        let m = h.last();
        let r = dedup(init);
        law_dedup_keeps_other_messages(init);
        assert(init.push(m) =~= h);
        init.lemma_filter_push(m, keep);
        r.lemma_filter_push(m, keep);
        if r.len() > 0 {
            assert(r.drop_last().push(r.last()) =~= r);
            r.drop_last().lemma_filter_push(r.last(), keep);
            r.drop_last().lemma_filter_push(m, keep);
        }
    }
}

/// An assistant turn that carries tool calls is never dropped for repeating
/// text: the last message of a deduplicated history ending in such a turn is that turn.
pub proof fn law_dedup_keeps_tool_turns<X>(h: Seq<Message<X>>)
    requires
        h.len() > 0,
        h.last() matches Message::Assistant { content, .. } && has_tool_call(content@),
    ensures
        dedup(h).len() > 0,
        dedup(h).last() == h.last(),
{
    let r = dedup(h.drop_last());
    assert(h.drop_last().push(h.last()) =~= h);
    if r.len() > 0 {
        assert(r.drop_last().push(h.last()).last() == h.last());
    }
}

/// `idx` picks, in increasing positions of `h`, the messages of `r` in order.
pub open spec fn embeds<X>(r: Seq<Message<X>>, h: Seq<Message<X>>, idx: Seq<int>) -> bool {
    &&& idx.len() == r.len()
    &&& forall|k: int| 0 <= k < idx.len() ==> 0 <= #[trigger] idx[k] < h.len() && r[k] == h[idx[k]]
    &&& forall|a: int, b: int| 0 <= a < b < idx.len() ==> #[trigger] idx[a] < #[trigger] idx[b]
}

/// `r` is what is left of `h` after dropping some of its messages.
pub open spec fn is_subsequence<X>(r: Seq<Message<X>>, h: Seq<Message<X>>) -> bool {
    exists|idx: Seq<int>| embeds(r, h, idx)
}

proof fn lemma_dedup_embedding<X>(h: Seq<Message<X>>) -> (idx: Seq<int>)
    ensures
        embeds(dedup(h), h, idx),
    decreases h.len(),
{
    if h.len() == 0 {
        Seq::empty()
    } else {
        let init = h.drop_last();
        let m = h.last();
        let n = h.len() - 1;
        let r = dedup(init);
        let idx0 = lemma_dedup_embedding(init);
        let out = dedup(h);
        assert(out == dedup_step(r, m));
        assert(forall|k: int| 0 <= k < idx0.len() ==> #[trigger] idx0[k] < n && r[k] == h[idx0[k]]);
        if out == r {
            idx0
        } else if out == r.push(m) {
            let idx = idx0.push(n);
            assert forall|k: int| 0 <= k < idx.len() implies 0 <= #[trigger] idx[k] < h.len() && out[k] == h[idx[k]] by {
                if k < idx0.len() {
                    assert(idx[k] == idx0[k]);
                }
            }
            assert forall|a: int, b: int| 0 <= a < b < idx.len() implies #[trigger] idx[a] < #[trigger] idx[b] by {
                assert(idx[a] == idx0[a]);
                if b < idx0.len() {
                    assert(idx[b] == idx0[b]);
                }
            }
            idx
        } else {
            assert(r.len() > 0 && out == r.drop_last().push(m));
            let idx = idx0.drop_last().push(n);
            assert forall|k: int| 0 <= k < idx.len() implies 0 <= #[trigger] idx[k] < h.len() && out[k] == h[idx[k]] by {
                if k < idx.len() - 1 {
                    assert(idx[k] == idx0[k]);
                    assert(out[k] == r[k]);
                }
            }
            assert forall|a: int, b: int| 0 <= a < b < idx.len() implies #[trigger] idx[a] < #[trigger] idx[b] by {
                assert(idx[a] == idx0[a]);
                if b < idx.len() - 1 {
                    assert(idx[b] == idx0[b]);
                }
            }
            idx
        }
    }
}

/// Removing repeated assistant turns only drops messages: what is left is a
/// subsequence of the history, in the history's order.
pub proof fn law_dedup_is_subsequence<X>(h: Seq<Message<X>>)
    ensures
        is_subsequence(dedup(h), h),
{
    let idx = lemma_dedup_embedding(h);
    assert(embeds(dedup(h), h, idx));
}

} // verus!
