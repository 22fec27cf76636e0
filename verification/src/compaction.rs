//! Token accounting of a chat history and the plan that summarises its older
//! part once the history grows past the configured budget.

use vstd::prelude::*;
use crate::history::{
    assistant_message_text, assistant_text, AssistantContent, Message, UserContent, user_texts,
};
use crate::strvec::copy_str;
use crate::text::{decimal, join_push, join_with, lemma_join_push, push_decimal};

verus! {

/// How many of the latest messages compaction always keeps.
pub const KEEP_RECENT: usize = 20;

/// The text of user content: its text items joined by spaces.
pub open spec fn user_text<X>(cs: Seq<UserContent<X>>) -> Seq<char> {
    join_with(user_texts(cs), " "@)
}

/// The text of a message, as handed to the tokenizer.
pub open spec fn message_text_of<X>(m: Message<X>) -> Seq<char> {
    match m {
        Message::User { content } => user_text(content@),
        Message::Assistant { content, .. } => assistant_text(content@),
        Message::System { content } => content@,
    }
}

/// Sum of a list of counts.
pub open spec fn total(counts: Seq<usize>) -> int
    decreases counts.len(),
{
    if counts.len() == 0 {
        0
    } else {
        total(counts.drop_last()) + counts.last()
    }
}

/// Joins the text items of user content with spaces, ignoring other items.
pub fn user_message_text<X>(content: &Vec<UserContent<X>>) -> (s: String)
    ensures
        s@ == user_text(content@),
{
    let mut s = String::new();
    let mut count: usize = 0;
    let mut i: usize = 0;
    while i < content.len()
        invariant
            i <= content@.len(),
            count <= i,
            count == user_texts(content@.take(i as int)).len(),
            s@ == join_with(user_texts(content@.take(i as int)), " "@),
        decreases content@.len() - i,
    {
        proof {
            assert(content@.take(i + 1).drop_last() =~= content@.take(i as int));
            assert(content@.take(i + 1).last() == content@[i as int]);
        }
        match &content[i] {
            UserContent::Text(t) => {
                proof {
                    lemma_join_push(user_texts(content@.take(i as int)), " "@, t@);
                }
                join_push(&mut s, count, " ", t.as_str());
                count += 1;
            },
            _ => {},
        }
        i += 1;
    }
    assert(content@.take(content@.len() as int) =~= content@);
    s
}

/// The text of a message that the tokenizer counts: user text items joined
/// by spaces, assistant text items joined by newlines, or the system text.
pub fn message_text<X>(m: &Message<X>) -> (s: String)
    ensures
        s@ == message_text_of(*m),
{
    match m {
        Message::User { content } => user_message_text(content),
        Message::Assistant { content, .. } => assistant_message_text(content),
        Message::System { content } => copy_str(content.as_str()),
    }
}

/// The token count of a history from the counts of its messages.
pub fn count_history_tokens(counts: &Vec<usize>) -> (n: usize)
    requires
        total(counts@) <= usize::MAX,
    ensures
        n == total(counts@),
{
    let mut n: usize = 0;
    let mut i: usize = 0;
    while i < counts.len()
        invariant
            i <= counts@.len(),
            n == total(counts@.take(i as int)),
            total(counts@) <= usize::MAX,
        decreases counts@.len() - i,
    {
        proof {
            assert(counts@.take(i + 1).drop_last() =~= counts@.take(i as int));
            lemma_total_prefix(counts@, i + 1);
        }
        n = n + counts[i];
        i += 1;
    }
    assert(counts@.take(counts@.len() as int) =~= counts@);
    n
}

/// The total of a prefix is at most the total.
pub proof fn lemma_total_prefix(counts: Seq<usize>, k: int)
    requires
        0 <= k <= counts.len(),
    ensures
        total(counts.take(k)) <= total(counts),
    decreases counts.len() - k,
{
    if k < counts.len() {
        lemma_total_prefix(counts, k + 1);
        assert(counts.take(k + 1).drop_last() =~= counts.take(k));
    } else {
        assert(counts.take(k) =~= counts);
    }
}

/// The summary line of one message: its role and text; none for a system
/// message or an empty text.
pub open spec fn summary_line<X>(m: Message<X>) -> Option<Seq<char>> {
    match m {
        Message::User { content } => if user_text(content@).len() > 0 {
            Some("User: "@ + user_text(content@))
        } else {
            None
        },
        Message::Assistant { content, .. } => if assistant_text(content@).len() > 0 {
            Some("Assistant: "@ + assistant_text(content@))
        } else {
            None
        },
        Message::System { .. } => None,
    }
}

/// The summary lines of the messages, in order.
pub open spec fn summary_lines<X>(ms: Seq<Message<X>>) -> Seq<Seq<char>>
    decreases ms.len(),
{
    if ms.len() == 0 {
        Seq::empty()
    } else {
        match summary_line(ms.last()) {
            Some(l) => summary_lines(ms.drop_last()).push(l),
            None => summary_lines(ms.drop_last()),
        }
    }
}

/// Where the summarised part of a history ends: all but the latest messages.
pub open spec fn split_point<X>(h: Seq<Message<X>>) -> int {
    h.len() - KEEP_RECENT
}

/// Where the summarised part starts: after a leading system message.
pub open spec fn summary_start<X>(h: Seq<Message<X>>) -> int {
    if h.len() > 0 && h[0] is System && split_point(h) >= 1 {
        1
    } else {
        0
    }
}

/// The text of the summary that replaces messages `start..split` of `h`.
pub open spec fn summary_text<X>(h: Seq<Message<X>>) -> Seq<char> {
    let part = h.subrange(summary_start(h), split_point(h));
    "[Context compacted \u{2014} summarising "@ + decimal(part.len()) + " earlier messages]\n"@
        + join_with(summary_lines(part), "\n"@)
}

/// The first line of a compaction summary, counting the `n` messages it replaces.
pub open spec fn compaction_header(n: nat) -> Seq<char> {
    "[Context compacted \u{2014} summarising "@ + decimal(n) + " earlier messages]\n"@
}

/// How many of the rows up to `up_to_seq` a summary replaces: all of them but
/// a leading system message, which is kept out of the summary.
pub open spec fn replaced_count<X>(h: Seq<Message<X>>, up_to_seq: int) -> int {
    up_to_seq + 1 - if h.len() > 0 && h[0] is System {
        1int
    } else {
        0int
    }
}

/// Whether a history is compacted: it uses more tokens than the threshold,
/// has more messages than are kept, and something is left to summarise.
pub open spec fn compacts<X>(h: Seq<Message<X>>, tokens: int, threshold: int) -> bool {
    &&& tokens > threshold
    &&& h.len() > KEEP_RECENT
    &&& split_point(h) - summary_start(h) > 0
}

/// What compaction does to the stored history: the rows with a sequence
/// number up to `up_to_seq` are replaced by one system message holding `summary`.
pub struct CompactionPlan {
    pub summary: String,
    pub up_to_seq: i32,
}

/// Decides whether a history is compacted and, if so, what replaces its older part.
pub fn compaction_plan<X>(history: &Vec<Message<X>>, tokens: usize, threshold: usize) -> (r: Option<
    CompactionPlan,
>)
    ensures
        r is Some <==> compacts(history@, tokens as int, threshold as int),
        r matches Some(p) ==> p.summary@ == summary_text(history@) && p.up_to_seq == (split_point(
            history@,
        ) - 1) as i32,
        r matches Some(p) ==> replaced_count(history@, split_point(history@) - 1) > 0
            && compaction_header(replaced_count(history@, split_point(history@) - 1) as nat).is_prefix_of(
            p.summary@,
        ),
        history@.len() <= i32::MAX as int + KEEP_RECENT ==> (r matches Some(p) ==> p.up_to_seq as int + 1
            == split_point(history@)),
{
    if tokens <= threshold {
        return None;
    }
    let n = history.len();
    if n <= KEEP_RECENT {
        return None;
    }
    let split = n - KEEP_RECENT;
    let has_system_prefix = match &history[0] {
        Message::System { .. } => true,
        _ => false,
    };
    let start: usize = if has_system_prefix && split >= 1 {
        1
    } else {
        0
    };
    if split - start == 0 {
        return None;
    }
    let ghost part = history@.subrange(start as int, split as int);
    let mut lines = String::new();
    let mut count: usize = 0;
    let mut i: usize = start;
    while i < split
        invariant
            start <= i <= split <= history@.len(),
            part == history@.subrange(start as int, split as int),
            count == summary_lines(history@.subrange(start as int, i as int)).len(),
            count <= i,
            lines@ == join_with(summary_lines(history@.subrange(start as int, i as int)), "\n"@),
        decreases split - i,
    {
        let ghost prev = history@.subrange(start as int, i as int);
        proof {
            assert(history@.subrange(start as int, i + 1).drop_last() =~= prev);
            assert(history@.subrange(start as int, i + 1).last() == history@[i as int]);
        }
        let line: Option<String> = match &history[i] {
            Message::User { content } => {
                let t = user_message_text(content);
                if t.unicode_len() > 0 {
                    let mut l = String::from_str("User: ");
                    l.append(t.as_str());
                    Some(l)
                } else {
                    None
                }
            },
            Message::Assistant { content, .. } => {
                let t = assistant_message_text(content);
                if t.unicode_len() > 0 {
                    let mut l = String::from_str("Assistant: ");
                    l.append(t.as_str());
                    Some(l)
                } else {
                    None
                }
            },
            Message::System { .. } => None,
        };
        match line {
            Some(l) => {
                proof {
                    lemma_join_push(summary_lines(prev), "\n"@, l@);
                }
                join_push(&mut lines, count, "\n", l.as_str());
                count += 1;
            },
            None => {},
        }
        i += 1;
    }
    let mut summary = String::from_str("[Context compacted \u{2014} summarising ");
    push_decimal(&mut summary, (split - start) as u64);
    summary.append(" earlier messages]\n");
    summary.append(lines.as_str());
    Some(CompactionPlan { summary, up_to_seq: (split - 1) as i32 })
}

/// A compaction summary says how many messages it replaces: its header counts
/// every message up to the last one replaced (except a leading system
/// message, which is kept), whether or not the message has text.
pub proof fn law_summary_counts_replaced<X>(h: Seq<Message<X>>, tokens: int, threshold: int)
    requires
        compacts(h, tokens, threshold),
    ensures
        replaced_count(h, split_point(h) - 1) == split_point(h) - summary_start(h),
        replaced_count(h, split_point(h) - 1) > 0,
        compaction_header(replaced_count(h, split_point(h) - 1) as nat).is_prefix_of(summary_text(h)),
{
    let part = h.subrange(summary_start(h), split_point(h));
    assert(part.len() == split_point(h) - summary_start(h));
    let hd = compaction_header(part.len());
    let rest = join_with(summary_lines(part), "\n"@);
    assert(summary_text(h) =~= hd + rest);
    assert((hd + rest).subrange(0, hd.len() as int) =~= hd);
}

} // verus!
