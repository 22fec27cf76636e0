//! Chat history normalisation: attachment hints, duplicate assistant turns,
//! the final streamed answer and history compaction.

use vstd::prelude::*;
use crate::errors::AppError;
use crate::text::{concat, join_push, join_with, lemma_join_push, str_eq, str_starts_with, decimal, push_decimal};

verus! {

/// A content item of a user message; non-text items carry an opaque payload.
#[derive(Debug, Clone)]
pub enum UserContent<X> {
    Text(String),
    Other(X),
}

/// A content item of an assistant message; tool calls and other items carry
/// an opaque payload.
#[derive(Debug, Clone)]
pub enum AssistantContent<X> {
    Text(String),
    ToolCall(X),
    Other(X),
}

/// A chat message.
#[derive(Debug, Clone)]
#[allow(inconsistent_fields)]
pub enum Message<X> {
    User { content: Vec<UserContent<X>> },
    Assistant { id: Option<String>, content: Vec<AssistantContent<X>> },
    System { content: String },
}

/// The text items of assistant content, in order.
pub open spec fn assistant_texts<X>(cs: Seq<AssistantContent<X>>) -> Seq<Seq<char>>
    decreases cs.len(),
{
    if cs.len() == 0 {
        Seq::empty()
    } else {
        let init = assistant_texts(cs.drop_last());
        match cs.last() {
            AssistantContent::Text(t) => init.push(t@),
            _ => init,
        }
    }
}

/// The text items of user content, in order.
pub open spec fn user_texts<X>(cs: Seq<UserContent<X>>) -> Seq<Seq<char>>
    decreases cs.len(),
{
    if cs.len() == 0 {
        Seq::empty()
    } else {
        let init = user_texts(cs.drop_last());
        match cs.last() {
            UserContent::Text(t) => init.push(t@),
            _ => init,
        }
    }
}

/// The text of assistant content: its text items joined by newlines.
pub open spec fn assistant_text<X>(cs: Seq<AssistantContent<X>>) -> Seq<char> {
    join_with(assistant_texts(cs), "\n"@)
}

/// Whether assistant content holds a tool call.
pub open spec fn has_tool_call<X>(cs: Seq<AssistantContent<X>>) -> bool {
    exists|i: int| 0 <= i < cs.len() && cs[i] is ToolCall
}

/// Joins the text items of assistant content with newlines, ignoring other items.
pub fn assistant_message_text<X>(content: &Vec<AssistantContent<X>>) -> (s: String)
    ensures
        s@ == assistant_text(content@),
{
    let mut s = String::new();
    let mut count: usize = 0;
    let mut i: usize = 0;
    while i < content.len()
        invariant
            i <= content@.len(),
            count <= i,
            count == assistant_texts(content@.take(i as int)).len(),
            s@ == join_with(assistant_texts(content@.take(i as int)), "\n"@),
        decreases content@.len() - i,
    {
        proof {
            assert(content@.take(i + 1).drop_last() =~= content@.take(i as int));
            assert(content@.take(i + 1).last() == content@[i as int]);
        }
        match &content[i] {
            AssistantContent::Text(t) => {
                proof {
                    lemma_join_push(assistant_texts(content@.take(i as int)), "\n"@, t@);
                }
                join_push(&mut s, count, "\n", t.as_str());
                count += 1;
            },
            _ => {},
        }
        i += 1;
    }
    assert(content@.take(content@.len() as int) =~= content@);
    s
}

/// Whether assistant content holds a tool call.
pub fn contains_tool_call<X>(content: &Vec<AssistantContent<X>>) -> (r: bool)
    ensures
        r == has_tool_call(content@),
{
    let mut i: usize = 0;
    while i < content.len()
        invariant
            i <= content@.len(),
            forall|j: int| 0 <= j < i ==> !(content@[j] is ToolCall),
        decreases content@.len() - i,
    {
        if let AssistantContent::ToolCall(_) = &content[i] {
            return true;
        }
        i += 1;
    }
    false
}

/// Two consecutive assistant messages that repeat the same text, unless both carry tool calls.
pub open spec fn redundant_pair<X>(prev: Message<X>, cur: Message<X>) -> bool {
    match (prev, cur) {
        (Message::Assistant { content: pc, .. }, Message::Assistant { content: cc, .. }) =>
            assistant_text(pc@) == assistant_text(cc@) && !(has_tool_call(pc@) && has_tool_call(cc@)),
        _ => false,
    }
}

/// Adds message `m` to the deduplicated history `r`: an assistant message
/// repeating the previous assistant message's text is dropped, except that a
/// version with tool calls replaces one without, and two versions with tool
/// calls are both kept.
pub open spec fn dedup_step<X>(r: Seq<Message<X>>, m: Message<X>) -> Seq<Message<X>> {
    match m {
        Message::Assistant { content: cc, .. } => if r.len() > 0 && r.last() is Assistant
            && assistant_text(r.last()->Assistant_content@) == assistant_text(cc@) {
            let ph = has_tool_call(r.last()->Assistant_content@);
            let ch = has_tool_call(cc@);
            if ch != ph {
                if ch {
                    r.drop_last().push(m)
                } else {
                    r
                }
            } else if ph && ch {
                r.push(m)
            } else {
                r
            }
        } else {
            r.push(m)
        },
        _ => r.push(m),
    }
}

/// The deduplicated history.
pub open spec fn dedup<X>(h: Seq<Message<X>>) -> Seq<Message<X>>
    decreases h.len(),
{
    if h.len() == 0 {
        Seq::empty()
    } else {
        dedup_step(dedup(h.drop_last()), h.last())
    }
}

/// Removes consecutive assistant messages that repeat the previous one's text
/// (keeping the one with tool calls when only one has them, and keeping both
/// when both have them).
pub fn deduplicate_consecutive_assistant_messages<X>(history: Vec<Message<X>>) -> (r: Vec<Message<X>>)
    ensures
        r@ == dedup(history@),
{
    let ghost h = history@;
    let total = history.len();
    assert(h.len() == total);
    let mut rest = history;
    let mut result: Vec<Message<X>> = Vec::new();
    let mut i: usize = 0;
    while rest.len() > 0
        invariant
            i + rest@.len() == h.len(),
            h.len() <= usize::MAX,
            rest@ == h.skip(i as int),
            result@ == dedup(h.take(i as int)),
        decreases rest@.len(),
    {
        let msg = rest.remove(0);
        proof {
            assert(h.take(i + 1).drop_last() =~= h.take(i as int));
            assert(h.take(i + 1).last() == h[i as int]);
            assert(msg == h[i as int]);
            assert(rest@ =~= h.skip(i + 1));
        }
        let mut same_text_as_prev = false;
        let mut prev_tools = false;
        let mut cur_tools = false;
        if let Message::Assistant { content, .. } = &msg {
            let n = result.len();
            if n > 0 {
                if let Message::Assistant { content: prev_content, .. } = &result[n - 1] {
                    let prev_text = assistant_message_text(prev_content);
                    let curr_text = assistant_message_text(content);
                    if str_eq(prev_text.as_str(), curr_text.as_str()) {
                        same_text_as_prev = true;
                        prev_tools = contains_tool_call(prev_content);
                        cur_tools = contains_tool_call(content);
                    }
                }
            }
        }
        if same_text_as_prev {
            if cur_tools != prev_tools {
                if cur_tools {
                    result.pop();
                    result.push(msg);
                }
            } else if prev_tools && cur_tools {
                result.push(msg);
            }
        } else {
            result.push(msg);
        }
        i += 1;
    }
    assert(h.take(h.len() as int) =~= h);
    result
}

/// The hint placed in front of the prompt for one attached document.
pub open spec fn attachment_hint(path: Seq<char>) -> Seq<char> {
    "[Attached Document: "@ + path
        + "]\nUse the 'read_document' tool to read this file if you need to access its contents.\n\n"@
}

/// The hints for a list of attached documents, in order.
pub open spec fn attachment_hints(paths: Seq<String>) -> Seq<char>
    decreases paths.len(),
{
    if paths.len() == 0 {
        Seq::empty()
    } else {
        attachment_hints(paths.drop_last()) + attachment_hint(paths.last()@)
    }
}

/// View of optional attachments.
pub open spec fn attachments_view(a: Option<&[String]>) -> Seq<String> {
    match a {
        Some(s) => s@,
        None => Seq::empty(),
    }
}

/// Puts a hint for each attached document in front of the user's input.
pub fn prepare_prompt_with_attachments(input: &str, attachments: Option<&[String]>) -> (s: String)
    ensures
        s@ == attachment_hints(attachments_view(attachments)) + input@,
{
    let mut prompt = String::new();
    if let Some(paths) = attachments {
        let mut i: usize = 0;
        while i < paths.len()
            invariant
                i <= paths@.len(),
                attachments_view(attachments) == paths@,
                prompt@ == attachment_hints(paths@.take(i as int)),
            decreases paths@.len() - i,
        {
            proof {
                assert(paths@.take(i + 1).drop_last() =~= paths@.take(i as int));
                assert(paths@.take(i + 1).last() == paths@[i as int]);
            }
            prompt.append("[Attached Document: ");
            prompt.append(paths[i].as_str());
            prompt.append(
                "]\nUse the 'read_document' tool to read this file if you need to access its contents.\n\n",
            );
            i += 1;
        }
        assert(paths@.take(paths@.len() as int) =~= paths@);
    }
    prompt.append(input);
    prompt
}

} // verus!

verus! {

/// Whether a message is a user message whose first item is the text of an
/// attachment hint.
pub open spec fn is_attachment_message<X>(m: Message<X>) -> bool {
    match m {
        Message::User { content } => content@.len() > 0 && (content@[0] matches UserContent::Text(t)
            && "[Attached Document:"@.is_prefix_of(t@)),
        _ => false,
    }
}

/// `i` is the last attachment message of `h`.
pub open spec fn is_last_attachment_message<X>(h: Seq<Message<X>>, i: int) -> bool {
    &&& 0 <= i < h.len()
    &&& is_attachment_message(h[i])
    &&& forall|j: int| i < j < h.len() ==> !is_attachment_message(#[trigger] h[j])
}

/// The short markers that replace attachment hints in the saved history.
pub open spec fn attachment_markers(paths: Seq<String>) -> Seq<char>
    decreases paths.len(),
{
    if paths.len() == 0 {
        Seq::empty()
    } else {
        attachment_markers(paths.drop_last()) + "[Attached: "@ + paths.last()@ + "]\n"@
    }
}

/// The text that replaces the last attachment message: one marker per attached path, then the input.
pub open spec fn clean_user_text(paths: Seq<String>, input: Seq<char>) -> Seq<char> {
    attachment_markers(paths) + input
}

/// The text items of a user message made of one text.
pub open spec fn single_text<X>(m: Message<X>) -> Option<Seq<char>> {
    match m {
        Message::User { content } => if content@.len() == 1 && content@[0] is Text {
            Some(content@[0]->Text_0@)
        } else {
            None
        },
        _ => None,
    }
}

/// Replaces the last user message that carries attachment hints by a concise
/// one that lists the attached paths and the user's input; does nothing
/// without attachments or without such a message.
pub fn update_history_with_clean_user_message<X>(
    history: &mut Vec<Message<X>>,
    input: &str,
    attachments: Option<&[String]>,
)
    ensures
        attachments_view(attachments).len() == 0 ==> final(history)@ == old(history)@,
        attachments_view(attachments).len() > 0 ==> {
            if exists|i: int| is_last_attachment_message(old(history)@, i) {
                let i = choose|i: int| is_last_attachment_message(old(history)@, i);
                &&& final(history)@.len() == old(history)@.len()
                &&& forall|j: int| 0 <= j < old(history)@.len() && j != i ==> final(history)@[j]
                    == old(history)@[j]
                &&& single_text(final(history)@[i]) == Some(
                    clean_user_text(attachments_view(attachments), input@),
                )
            } else {
                final(history)@ == old(history)@
            }
        },
{
    let paths = match attachments {
        Some(p) => p,
        None => return ,
    };
    if paths.len() == 0 {
        return ;
    }
    let ghost h0 = history@;
    let mut i = history.len();
    while i > 0
        invariant
            history@ == h0,
            h0 == old(history)@,
            i <= h0.len(),
            paths@ == attachments_view(attachments),
            paths@.len() > 0,
            forall|j: int| i <= j < h0.len() ==> !is_attachment_message(#[trigger] h0[j]),
        decreases i,
    {
        i -= 1;
        let is_attachment = match &history[i] {
            Message::User { content } => {
                if content.len() > 0 {
                    match &content[0] {
                        UserContent::Text(t) => str_starts_with(t.as_str(), "[Attached Document:"),
                        _ => false,
                    }
                } else {
                    false
                }
            },
            _ => false,
        };
        if is_attachment {
            let mut clean_text = String::new();
            let mut k: usize = 0;
            while k < paths.len()
                invariant
                    k <= paths@.len(),
                    clean_text@ == attachment_markers(paths@.take(k as int)),
                    history@ == h0,
                    h0 == old(history)@,
                    i < h0.len(),
                    is_attachment_message(h0[i as int]),
                    paths@ == attachments_view(attachments),
                    paths@.len() > 0,
                    forall|j: int| i < j < h0.len() ==> !is_attachment_message(#[trigger] h0[j]),
                decreases paths@.len() - k,
            {
                proof {
                    assert(paths@.take(k + 1).drop_last() =~= paths@.take(k as int));
                    assert(paths@.take(k + 1).last() == paths@[k as int]);
                }
                clean_text.append("[Attached: ");
                clean_text.append(paths[k].as_str());
                clean_text.append("]\n");
                k += 1;
            }
            assert(paths@.take(paths@.len() as int) =~= paths@);
            clean_text.append(input);
            let mut content: Vec<UserContent<X>> = Vec::new();
            content.push(UserContent::Text(clean_text));
            let ghost m = Message::User { content };
            history.set(i, Message::User { content });
            proof {
                assert(history@ == h0.update(i as int, m));
                assert(single_text(m) == Some(clean_user_text(paths@, input@)));
                assert(is_last_attachment_message(h0, i as int));
                let c = choose|c: int| is_last_attachment_message(h0, c);
                if c < i {
                    assert(!is_attachment_message(h0[i as int]));
                } else if c > i {
                    assert(!is_attachment_message(h0[c]));
                }
            }
            return ;
        }
    }
    proof {
        assert forall|c: int| !is_last_attachment_message(h0, c) by {
            if is_last_attachment_message(h0, c) {
                assert(!is_attachment_message(h0[c]));
            }
        }
    }
}

/// Error when a streamed answer left no assistant message at the end of the history.
pub open spec fn no_assistant_message() -> Seq<char> {
    "Streaming response completed but no assistant message was appended to history"@
}

/// Error when the final assistant message holds no text.
pub open spec fn no_text_content() -> Seq<char> {
    "Streaming response completed but did not contain any text content"@
}

/// `i` is the first text item of assistant content.
pub open spec fn is_first_text<X>(cs: Seq<AssistantContent<X>>, i: int) -> bool {
    &&& 0 <= i < cs.len()
    &&& cs[i] is Text
    &&& forall|j: int| 0 <= j < i ==> !(cs[j] is Text)
}

/// The answer of a streamed chat turn: the first text item of the last
/// message, which must be an assistant message.
pub fn final_response_text<X>(history: &Vec<Message<X>>) -> (r: Result<String, AppError>)
    ensures
        match r {
            Ok(s) => history@.len() > 0 && history@.last() is Assistant && exists|i: int|
                is_first_text(history@.last()->Assistant_content@, i) && s@
                    == history@.last()->Assistant_content@[i]->Text_0@,
            Err(e) => e matches AppError::SystemError(m) && if history@.len() > 0
                && history@.last() is Assistant {
                m@ == no_text_content() && forall|i: int|
                    0 <= i < history@.last()->Assistant_content@.len()
                        ==> !(history@.last()->Assistant_content@[i] is Text)
            } else {
                m@ == no_assistant_message()
            },
        },
{
    let n = history.len();
    if n == 0 {
        return Err(AppError::SystemError(String::from_str(
            "Streaming response completed but no assistant message was appended to history",
        )));
    }
    match &history[n - 1] {
        Message::Assistant { content, .. } => {
            let ghost last = history@[n - 1];
            assert(history@.last() == last);
            let mut i: usize = 0;
            while i < content.len()
                invariant
                    i <= content@.len(),
                    history@.len() > 0,
                    history@.last() == last,
                    last is Assistant,
                    last->Assistant_content@ == content@,
                    forall|j: int| 0 <= j < i ==> !(content@[j] is Text),
                decreases content@.len() - i,
            {
                if let AssistantContent::Text(t) = &content[i] {
                    let r = String::from_str(t.as_str());
                    proof {
                        assert(is_first_text(content@, i as int));
                        assert(r@ == content@[i as int]->Text_0@);
                    }
                    return Ok(r);
                }
                i += 1;
            }
            Err(AppError::SystemError(String::from_str(
                "Streaming response completed but did not contain any text content",
            )))
        },
        _ => Err(AppError::SystemError(String::from_str(
            "Streaming response completed but no assistant message was appended to history",
        ))),
    }
}

} // verus!
