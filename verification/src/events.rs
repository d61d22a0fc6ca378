//! The events of a conversation: what the user and the agent said, and summaries of
//! what was said before.

use vstd::prelude::*;

use crate::text::{byte_len, bytes_in};
use crate::time::{lemma_now_given, now_given, utc_now, Moment};

verus! {

/// Something that happened in a conversation, and when.
#[derive(Debug)]
pub enum Event {
    UserMessage { timestamp: Moment, content: String },
    AgentMessage { timestamp: Moment, content: String },
    Summary { timestamp: Moment, body: String },
}

/// The kinds of events.
#[derive(Clone, Copy, Debug, PartialEq, Eq, Structural)]
pub enum EventKind {
    User,
    Agent,
    Summary,
}

/// What an event says.
pub struct EventView {
    pub kind: EventKind,
    pub timestamp: Moment,
    pub text: Seq<char>,
}

impl View for Event {
    type V = EventView;

    open spec fn view(&self) -> EventView {
        match self {
            Event::UserMessage { timestamp, content } => EventView {
                kind: EventKind::User,
                timestamp: *timestamp,
                text: content@,
            },
            Event::AgentMessage { timestamp, content } => EventView {
                kind: EventKind::Agent,
                timestamp: *timestamp,
                text: content@,
            },
            Event::Summary { timestamp, body } => EventView {
                kind: EventKind::Summary,
                timestamp: *timestamp,
                text: body@,
            },
        }
    }
}

/// What events say.
pub open spec fn event_views(v: Seq<Event>) -> Seq<EventView> {
    v.map_values(|e: Event| e@)
}

/// A rough count of the tokens of an event: a quarter of its bytes, and a few more.
pub open spec fn tokens_of(e: EventView) -> nat {
    byte_len(e.text) / 4 + 8
}

/// The current instant.
fn dated_now() -> (m: Moment)
    ensures
        now_given(m),
        m.wf(),
        m.offset == 0,
{
    let m: Moment = utc_now();
    proof {
        lemma_now_given(m);
    }
    m
}

impl Event {
    /// Something the user says now.
    pub fn user(content: String) -> (e: Event)
        ensures
            e@.kind == EventKind::User,
            e@.text == content@,
            now_given(e@.timestamp),
            e@.timestamp.wf(),
            e@.timestamp.offset == 0,
    {
        Event::UserMessage { timestamp: dated_now(), content }
    }

    /// Something the agent says now.
    pub fn agent(content: String) -> (e: Event)
        ensures
            e@.kind == EventKind::Agent,
            e@.text == content@,
            now_given(e@.timestamp),
            e@.timestamp.wf(),
            e@.timestamp.offset == 0,
    {
        Event::AgentMessage { timestamp: dated_now(), content }
    }

    /// A summary made now.
    pub fn summary(body: String) -> (e: Event)
        ensures
            e@.kind == EventKind::Summary,
            e@.text == body@,
            now_given(e@.timestamp),
            e@.timestamp.wf(),
            e@.timestamp.offset == 0,
    {
        Event::Summary { timestamp: dated_now(), body }
    }

    pub fn timestamp(&self) -> (m: Moment)
        ensures
            m == self@.timestamp,
    {
        match self {
            Event::UserMessage { timestamp, .. } => *timestamp,
            Event::AgentMessage { timestamp, .. } => *timestamp,
            Event::Summary { timestamp, .. } => *timestamp,
        }
    }

    pub fn kind(&self) -> (k: EventKind)
        ensures
            k == self@.kind,
    {
        match self {
            Event::UserMessage { .. } => EventKind::User,
            Event::AgentMessage { .. } => EventKind::Agent,
            Event::Summary { .. } => EventKind::Summary,
        }
    }

    /// Whether the event is a summary.
    pub fn is_summary(&self) -> (b: bool)
        ensures
            b == (self@.kind == EventKind::Summary),
    {
        match self {
            Event::Summary { .. } => true,
            _ => false,
        }
    }

    /// What was said.
    pub fn text(&self) -> (s: &str)
        ensures
            s@ == self@.text,
    {
        match self {
            Event::UserMessage { content, .. } => content.as_str(),
            Event::AgentMessage { content, .. } => content.as_str(),
            Event::Summary { body, .. } => body.as_str(),
        }
    }

    /// A rough count of the event's tokens.
    pub fn estimated_tokens(&self) -> (n: usize)
        ensures
            n == tokens_of(self@),
    {
        bytes_in(self.text()) / 4 + 8
    }

    /// A copy of the event.
    pub fn copy(&self) -> (e: Event)
        ensures
            e@ == self@,
    {
        match self {
            Event::UserMessage { timestamp, content } => Event::UserMessage {
                timestamp: *timestamp,
                content: content.clone(),
            },
            Event::AgentMessage { timestamp, content } => Event::AgentMessage {
                timestamp: *timestamp,
                content: content.clone(),
            },
            Event::Summary { timestamp, body } => Event::Summary {
                timestamp: *timestamp,
                body: body.clone(),
            },
        }
    }
}

/// Copies of `events[from..to]`.
pub fn copy_events(events: &Vec<Event>, from: usize, to: usize) -> (out: Vec<Event>)
    requires
        from <= to <= events@.len(),
    ensures
        event_views(out@) == event_views(events@).subrange(from as int, to as int),
{
    let mut out: Vec<Event> = Vec::new();
    let mut i: usize = from;
    let ghost all = event_views(events@);
    assert(event_views(out@) =~= all.subrange(from as int, from as int));
    while i < to
        invariant
            from <= i <= to <= events@.len(),
            all == event_views(events@),
            event_views(out@) == all.subrange(from as int, i as int),
        decreases to - i,
    {
        let ghost before = event_views(out@);
        out.push(events[i].copy());
        assert(event_views(out@) =~= before.push(all[i as int]));
        assert(all.subrange(from as int, i as int + 1) =~= all.subrange(
            from as int,
            i as int,
        ).push(all[i as int]));
        i += 1;
    }
    out
}

/// An event without its time.
#[derive(Clone, Debug, PartialEq, Eq)]
pub enum E {
    User(String),
    Agent(String),
    Summary(String),
}

/// What an event without its time says.
pub struct PlainView {
    pub kind: EventKind,
    pub text: Seq<char>,
}

impl View for E {
    type V = PlainView;

    open spec fn view(&self) -> PlainView {
        match self {
            E::User(s) => PlainView { kind: EventKind::User, text: s@ },
            E::Agent(s) => PlainView { kind: EventKind::Agent, text: s@ },
            E::Summary(s) => PlainView { kind: EventKind::Summary, text: s@ },
        }
    }
}

impl E {
    pub fn user(s: &str) -> (e: E)
        ensures
            e@ == (PlainView { kind: EventKind::User, text: s@ }),
    {
        E::User(s.to_owned())
    }

    pub fn agent(s: &str) -> (e: E)
        ensures
            e@ == (PlainView { kind: EventKind::Agent, text: s@ }),
    {
        E::Agent(s.to_owned())
    }

    pub fn summary(s: &str) -> (e: E)
        ensures
            e@ == (PlainView { kind: EventKind::Summary, text: s@ }),
    {
        E::Summary(s.to_owned())
    }
}

/// Events without their times.
pub open spec fn without_times(v: Seq<EventView>) -> Seq<PlainView> {
    v.map_values(|e: EventView| PlainView { kind: e.kind, text: e.text })
}

/// Events without their times.
pub fn simplify(events: &Vec<Event>) -> (out: Vec<E>)
    ensures
        out@.map_values(|e: E| e@) == without_times(event_views(events@)),
{
    let mut out: Vec<E> = Vec::new();
    let mut i: usize = 0;
    while i < events.len()
        invariant
            i <= events@.len(),
            out@.len() == i,
            forall|j: int|
                0 <= j < i ==> (#[trigger] out@[j])@ == without_times(event_views(events@))[j],
        decreases events@.len() - i,
    {
        out.push(
            match &events[i] {
                Event::UserMessage { content, .. } => E::User(content.clone()),
                Event::AgentMessage { content, .. } => E::Agent(content.clone()),
                Event::Summary { body, .. } => E::Summary(body.clone()),
            },
        );
        i += 1;
    }
    assert(out@.map_values(|e: E| e@) =~= without_times(event_views(events@)));
    out
}

/// An event counts eight tokens and one for every four bytes of its text that are full.
pub proof fn law_tokens_count_bytes(e: EventView)
    ensures
        tokens_of(e) >= 8,
        4 * (tokens_of(e) - 8) <= byte_len(e.text) < 4 * (tokens_of(e) - 8) + 4,
{
}

/// Events without their times are the same events in the same order.
pub proof fn law_only_times_are_left_out(v: Seq<EventView>, i: int)
    requires
        0 <= i < v.len(),
    ensures
        without_times(v).len() == v.len(),
        without_times(v)[i].kind == v[i].kind,
        without_times(v)[i].text == v[i].text,
{
}

} // verus!
