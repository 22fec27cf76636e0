//! Turning the agent's streamed output into the events sent to the front end,
//! and deciding how a stream ends.

use vstd::prelude::*;
use crate::errors::AppError;
use crate::strvec::copy_str;

verus! {

/// An event sent to the front end while an answer streams in.
#[derive(Debug, Clone)]
pub enum StreamEvent {
    /// A piece of answer text.
    Text { delta: String },
    /// A piece of reasoning; `is_final` marks a complete reasoning block.
    Reasoning { id: String, delta: String, is_final: bool },
    /// A tool call begins.
    ToolCallStart { id: String, name: String },
    /// A piece of a tool call's arguments.
    ToolCallDelta { id: String, args_delta: String },
    /// A tool call is complete, with all its arguments.
    ToolCallEnd { id: String, args: String },
}

/// One item of the agent's response stream.
pub enum StreamItem {
    /// A piece of answer text.
    Text(String),
    /// A complete reasoning block, with its display text.
    Reasoning { id: Option<String>, text: String },
    /// A piece of reasoning.
    ReasoningDelta { id: Option<String>, reasoning: String },
    /// A complete tool call: the call's own id, the function and its arguments.
    ToolCall { internal_call_id: String, name: String, arguments: String },
    /// The name of a tool call being streamed.
    ToolCallName { internal_call_id: String, name: String },
    /// A piece of a tool call's arguments.
    ToolCallArgs { internal_call_id: String, delta: String },
    /// The final response of a turn.
    FinalResponse,
    /// The stream failed with this message.
    Failed(String),
    /// An item the front end has no event for.
    Other,
}

/// What to do with one stream item.
#[derive(Debug)]
pub enum StreamStep {
    /// Send these events, in order; stop at the first that cannot be sent.
    Emit(Vec<StreamEvent>),
    /// Stop with this error.
    Fail(AppError),
    /// Nothing to send.
    Skip,
}

/// The text of an optional id: the id, or empty.
pub open spec fn id_or_empty(id: Option<String>) -> Seq<char> {
    match id {
        Some(s) => s@,
        None => Seq::empty(),
    }
}

/// The event sent for each kind of item, by its fields.
pub open spec fn event_matches(e: StreamEvent, kind: int, id: Seq<char>, a: Seq<char>, flag: bool) -> bool {
    match e {
        StreamEvent::Text { delta } => kind == 0 && delta@ == a,
        StreamEvent::Reasoning { id: i, delta, is_final } => kind == 1 && i@ == id && delta@ == a
            && is_final == flag,
        StreamEvent::ToolCallStart { id: i, name } => kind == 2 && i@ == id && name@ == a,
        StreamEvent::ToolCallDelta { id: i, args_delta } => kind == 3 && i@ == id && args_delta@ == a,
        StreamEvent::ToolCallEnd { id: i, args } => kind == 4 && i@ == id && args@ == a,
    }
}

/// The step an item leads to.
pub open spec fn step_for(item: StreamItem, step: StreamStep) -> bool {
    match item {
        StreamItem::Text(t) => step matches StreamStep::Emit(evs) && evs@.len() == 1 && event_matches(
            evs@[0],
            0,
            Seq::empty(),
            t@,
            false,
        ),
        StreamItem::Reasoning { id, text } => step matches StreamStep::Emit(evs) && evs@.len() == 1
            && event_matches(evs@[0], 1, id_or_empty(id), text@, true),
        StreamItem::ReasoningDelta { id, reasoning } => step matches StreamStep::Emit(evs)
            && evs@.len() == 1 && event_matches(evs@[0], 1, id_or_empty(id), reasoning@, false),
        StreamItem::ToolCall { internal_call_id, name, arguments } => step matches StreamStep::Emit(
            evs,
        ) && evs@.len() == 2 && event_matches(evs@[0], 2, internal_call_id@, name@, false)
            && event_matches(evs@[1], 4, internal_call_id@, arguments@, false),
        StreamItem::ToolCallName { internal_call_id, name } => step matches StreamStep::Emit(evs)
            && evs@.len() == 1 && event_matches(evs@[0], 2, internal_call_id@, name@, false),
        StreamItem::ToolCallArgs { internal_call_id, delta } => step matches StreamStep::Emit(evs)
            && evs@.len() == 1 && event_matches(evs@[0], 3, internal_call_id@, delta@, false),
        StreamItem::FinalResponse => step is Skip,
        StreamItem::Failed(m) => step matches StreamStep::Fail(e) && e is SystemError && e.message()
            == m@,
        StreamItem::Other => step is Skip,
    }
}

/// Message of the error given when the front end stopped listening.
pub open spec fn stream_aborted() -> Seq<char> {
    "Stream aborted: channel closed"@
}

fn id_text(id: &Option<String>) -> (s: String)
    ensures
        s@ == id_or_empty(*id),
{
    match id {
        Some(s) => copy_str(s.as_str()),
        None => String::new(),
    }
}

/// Decides what one stream item leads to: the events to send (one for text,
/// reasoning and streamed tool-call parts, a start and an end for a complete
/// tool call), an error for a failed stream, or nothing.
pub fn stream_step(item: StreamItem) -> (step: StreamStep)
    ensures
        step_for(item, step),
{
    match item {
        StreamItem::Text(t) => StreamStep::Emit(vec![StreamEvent::Text { delta: t }]),
        StreamItem::Reasoning { id, text } => {
            let id = id_text(&id);
            StreamStep::Emit(vec![StreamEvent::Reasoning { id, delta: text, is_final: true }])
        },
        StreamItem::ReasoningDelta { id, reasoning } => {
            let id = id_text(&id);
            StreamStep::Emit(vec![StreamEvent::Reasoning { id, delta: reasoning, is_final: false }])
        },
        StreamItem::ToolCall { internal_call_id, name, arguments } => {
            let id2 = copy_str(internal_call_id.as_str());
            StreamStep::Emit(
                vec![
                    StreamEvent::ToolCallStart { id: internal_call_id, name },
                    StreamEvent::ToolCallEnd { id: id2, args: arguments },
                ],
            )
        },
        StreamItem::ToolCallName { internal_call_id, name } => StreamStep::Emit(
            vec![StreamEvent::ToolCallStart { id: internal_call_id, name }],
        ),
        StreamItem::ToolCallArgs { internal_call_id, delta } => StreamStep::Emit(
            vec![StreamEvent::ToolCallDelta { id: internal_call_id, args_delta: delta }],
        ),
        StreamItem::FinalResponse => StreamStep::Skip,
        StreamItem::Failed(m) => StreamStep::Fail(AppError::SystemError(m)),
        StreamItem::Other => StreamStep::Skip,
    }
}

/// The state of a stream being consumed: whether the front end stopped listening.
pub struct StreamConsumer {
    aborted: bool,
}

impl StreamConsumer {
    /// Whether a send failed.
    pub closed spec fn was_aborted(self) -> bool {
        self.aborted
    }

    /// A consumer before any item.
    pub fn new() -> (c: Self)
        ensures
            !c.was_aborted(),
    {
        StreamConsumer { aborted: false }
    }

    /// Records whether an event reached the front end; returns whether to go on.
    pub fn record_send(&mut self, delivered: bool) -> (go_on: bool)
        ensures
            go_on == delivered,
            final(self).was_aborted() == (old(self).was_aborted() || !delivered),
    {
        if !delivered {
            self.aborted = true;
        }
        delivered
    }

    /// Whether the stream has to stop.
    pub fn is_aborted(&self) -> (r: bool)
        ensures
            r == self.was_aborted(),
    {
        self.aborted
    }

    /// How a stream that ran out of items ends: in error when a send failed.
    pub fn finish(&self) -> (r: Result<(), AppError>)
        ensures
            r is Ok <==> !self.was_aborted(),
            r matches Err(e) ==> e is SystemError && e.message() == stream_aborted(),
    {
        if self.aborted {
            Err(AppError::SystemError(String::from_str("Stream aborted: channel closed")))
        } else {
            Ok(())
        }
    }
}

} // verus!
