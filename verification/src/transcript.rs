//! What the agent tells in the course of a run, and that the owner is sent all of it.

use vstd::prelude::*;

use crate::json::{json_of, Json};
use crate::loom::{after_event, after_stream, fresh, tool_line, RendererView, StreamEvent};
use crate::text::{
    joined_with, law_join_splits, law_stripped_form_is_unique, law_trimming_strips_the_ends,
    stripped, trimmed,
};

verus! {

/// One thing that the agent tells.
pub enum Told {
    /// A text of the agent.
    Said(Seq<char>),
    /// A line on a call or on thinking.
    Noted(Seq<char>),
}

/// The events that the lines of a course hold, in order.
pub open spec fn events_in(course: Seq<StreamEvent>) -> Seq<Json>
    decreases course.len(),
{
    if course.len() == 0 {
        Seq::empty()
    } else {
        let before = events_in(course.drop_last());
        match course.last() {
            StreamEvent::Line(line) => match json_of(trimmed(line@)) {
                Ok(event) if trimmed(line@).len() > 0 => before.push(event),
                _ => before,
            },
            _ => before,
        }
    }
}

/// Whether an event is of a kind.
pub open spec fn is_kind(event: Json, kind: Seq<char>) -> bool {
    event.string_member("sessionUpdate"@) == Some(kind)
}

/// Whether an event is a call, or a piece of a thought.
pub open spec fn interrupts(event: Json) -> bool {
    is_kind(event, "tool_call"@) || is_kind(event, "agent_thought_chunk"@)
}

/// What a piece of the agent's message adds to its text.
pub open spec fn piece(event: Json) -> Seq<char> {
    match event.member("content"@) {
        Some(content) => match content.string_member("text"@) {
            Some(t) => t,
            None => Seq::empty(),
        },
        None => Seq::empty(),
    }
}

/// What the agent has said since the last call or thought: the pieces of its message,
/// one after the other.
pub open spec fn said_since(events: Seq<Json>) -> Seq<char>
    decreases events.len(),
{
    if events.len() == 0 || interrupts(events.last()) {
        Seq::empty()
    } else if is_kind(events.last(), "agent_message_chunk"@) {
        said_since(events.drop_last()) + piece(events.last())
    } else {
        said_since(events.drop_last())
    }
}

/// Whether the last thing that the agent did was to think.
pub open spec fn was_thinking(events: Seq<Json>) -> bool
    decreases events.len(),
{
    if events.len() == 0 {
        false
    } else if is_kind(events.last(), "agent_thought_chunk"@) {
        true
    } else if is_kind(events.last(), "tool_call"@) || is_kind(
        events.last(),
        "agent_message_chunk"@,
    ) {
        false
    } else {
        was_thinking(events.drop_last())
    }
}

/// A text that was said, unless it is blank.
pub open spec fn said(text: Seq<char>) -> Seq<Told> {
    if trimmed(text).len() == 0 {
        Seq::empty()
    } else {
        seq![Told::Said(trimmed(text))]
    }
}

/// What was told up to the last call or thought, in the order in which it happened. Each
/// call is noted once, and so is each thought, of however many pieces; what was said
/// before one comes before its note.
pub open spec fn told_before(events: Seq<Json>) -> Seq<Told>
    decreases events.len(),
{
    if events.len() == 0 {
        Seq::empty()
    } else {
        let earlier = events.drop_last();
        let event = events.last();
        if is_kind(event, "tool_call"@) {
            (told_before(earlier) + said(said_since(earlier))).push(
                Told::Noted(
                    tool_line(
                        match event.string_member("title"@) {
                            Some(t) => t,
                            None => "tool"@,
                        },
                        event.member("rawInput"@),
                    ),
                ),
            )
        } else if is_kind(event, "agent_thought_chunk"@) && !was_thinking(earlier) {
            (told_before(earlier) + said(said_since(earlier))).push(Told::Noted("-# Thinking"@))
        } else {
            told_before(earlier)
        }
    }
}

/// Everything that was told.
pub open spec fn told(events: Seq<Json>) -> Seq<Told> {
    told_before(events) + said(said_since(events))
}

/// The renderer after a course of the stream, its messages taken after each event.
pub open spec fn state_after(course: Seq<StreamEvent>) -> RendererView
    decreases course.len(),
{
    if course.len() == 0 {
        fresh()
    } else {
        RendererView {
            pending: Seq::empty(),
            ..after_stream(state_after(course.drop_last()), course.last())
        }
    }
}

/// The messages that are sent in a course of the stream.
pub open spec fn sent_in(course: Seq<StreamEvent>) -> Seq<Seq<char>>
    decreases course.len(),
{
    if course.len() == 0 {
        Seq::empty()
    } else {
        sent_in(course.drop_last()) + after_stream(
            state_after(course.drop_last()),
            course.last(),
        ).pending
    }
}

/// The lines as things that were told.
pub open spec fn notes(lines: Seq<Seq<char>>) -> Seq<Told> {
    lines.map_values(|l: Seq<char>| Told::Noted(l))
}

/// Whether a message shows `part` of what was told: one text, or lines on calls and
/// thoughts, one below the other.
pub open spec fn shows(message: Seq<char>, part: Seq<Told>) -> bool {
    ||| part == seq![Told::Said(message)]
    ||| exists|lines: Seq<Seq<char>>|
        lines.len() > 0 && #[trigger] notes(lines) == part && message == joined_with(
            lines,
            "\n"@,
        )
}

/// The parts one after the other.
pub open spec fn in_a_row(parts: Seq<Seq<Told>>) -> Seq<Told>
    decreases parts.len(),
{
    if parts.len() == 0 {
        Seq::empty()
    } else {
        in_a_row(parts.drop_last()) + parts.last()
    }
}

/// Whether the messages, in their order, show all of `items`, in their order, and nothing
/// else: the items can be cut into parts, one for each message.
pub open spec fn tells(messages: Seq<Seq<char>>, items: Seq<Told>) -> bool {
    exists|parts: Seq<Seq<Told>>| #[trigger] tells_by(messages, parts) && in_a_row(parts) == items
}

/// Whether each message shows its part.
pub open spec fn tells_by(messages: Seq<Seq<char>>, parts: Seq<Seq<Told>>) -> bool {
    &&& parts.len() == messages.len()
    &&& forall|i: int| 0 <= i < messages.len() ==> shows(#[trigger] messages[i], parts[i])
}

proof fn lemma_tells_more(
    messages: Seq<Seq<char>>,
    items: Seq<Told>,
    message: Seq<char>,
    part: Seq<Told>,
)
    requires
        tells(messages, items),
        shows(message, part),
    ensures
        tells(messages.push(message), items + part),
{
    let parts = choose|parts: Seq<Seq<Told>>| #[trigger]
        tells_by(messages, parts) && in_a_row(parts) == items;
    let more = parts.push(part);
    assert(more.drop_last() =~= parts);
    assert(in_a_row(more) == items + part);
    let all = messages.push(message);
    assert forall|i: int| 0 <= i < all.len() implies shows(#[trigger] all[i], more[i]) by {
        if i < messages.len() {
            assert(shows(messages[i], parts[i]));
        }
    }
    assert(tells_by(all, more));
}

proof fn lemma_lines_shown(lines: Seq<Seq<char>>)
    requires
        lines.len() > 0,
    ensures
        shows(joined_with(lines, "\n"@), notes(lines)),
{
    assert(notes(lines) == notes(lines));
}

/// What holds of the renderer at any time: what was told, up to what it holds back, has
/// been sent.
spec fn on_track(course: Seq<StreamEvent>) -> bool {
    let v = state_after(course);
    let events = events_in(course);
    exists|items: Seq<Told>| #[trigger]
        tells(sent_in(course), items) && told_before(events) == items + notes(v.tools)
        && v.text == said_since(events) && v.thinking == was_thinking(events)
        && v.pending.len() == 0 && (v.text.len() == 0 || v.tools.len() == 0)
}

proof fn lemma_literals()
    ensures
        "tool_call"@ != "agent_thought_chunk"@,
        "tool_call"@ != "agent_message_chunk"@,
        "agent_thought_chunk"@ != "agent_message_chunk"@,
{
    reveal_strlit("tool_call");
    reveal_strlit("agent_thought_chunk");
    reveal_strlit("agent_message_chunk");
    assert("tool_call"@.len() == 9);
    assert("agent_thought_chunk"@[6] == 't');
    assert("agent_message_chunk"@[6] == 'm');
}

proof fn lemma_thoughts_are_silent(events: Seq<Json>)
    ensures
        was_thinking(events) ==> said_since(events).len() == 0,
    decreases events.len(),
{
    if events.len() > 0 {
        lemma_thoughts_are_silent(events.drop_last());
    }
}

proof fn lemma_on_track(course: Seq<StreamEvent>)
    requires
        forall|i: int| 0 <= i < course.len() ==> !(#[trigger] course[i] is Closed),
    ensures
        on_track(course),
    decreases course.len(),
{
    let v2 = state_after(course);
    let after = events_in(course);
    assert(notes(Seq::empty()) =~= Seq::<Told>::empty());
    if course.len() == 0 {
        let parts = Seq::<Seq<Told>>::empty();
        assert(tells_by(sent_in(course), parts) && in_a_row(parts) == Seq::<Told>::empty());
        assert(told_before(after) =~= Seq::<Told>::empty() + notes(v2.tools));
        assert(tells(sent_in(course), Seq::empty()));
    } else {
        let earlier = course.drop_last();
        assert forall|i: int| 0 <= i < earlier.len() implies !(#[trigger] earlier[i] is Closed) by {
            assert(earlier[i] == course[i]);
        }
        assert(!(course[course.len() - 1] is Closed));
        lemma_on_track(earlier);
        lemma_literals();
        let v = state_after(earlier);
        let w = after_stream(v, course.last());
        let events = events_in(earlier);
        let items = choose|items: Seq<Told>| #[trigger]
            tells(sent_in(earlier), items) && told_before(events) == items + notes(v.tools)
                && v.text == said_since(events) && v.thinking == was_thinking(events)
                && v.pending.len() == 0 && (v.text.len() == 0 || v.tools.len() == 0);
        assert(v.pending =~= Seq::empty());
        lemma_blank();
        if after.len() > events.len() {
            assert(after.drop_last() =~= events);
        }
        lemma_thoughts_are_silent(events);
        assert(v2.text =~= said_since(after));
        assert(v2.thinking == was_thinking(after));
        assert(v2.text.len() == 0 || v2.tools.len() == 0);
        if w.pending.len() == 0 {
            assert(sent_in(course) =~= sent_in(earlier));
            if w.tools != v.tools {
                assert(w.tools == v.tools.push(w.tools.last()));
                assert(notes(w.tools) =~= notes(v.tools).push(Told::Noted(w.tools.last())));
                assert(told_before(after) =~= items + notes(w.tools));
            }
            assert(told_before(after) == items + notes(v2.tools));
            assert(tells(sent_in(course), items));
        } else if v.tools.len() > 0 {
            let m = joined_with(v.tools, "\n"@);
            lemma_lines_shown(v.tools);
            lemma_tells_more(sent_in(earlier), items, m, notes(v.tools));
            assert(sent_in(course) =~= sent_in(earlier).push(m));
            let more = items + notes(v.tools);
            assert(told_before(after) =~= more + notes(v2.tools));
            assert(tells(sent_in(course), more));
        } else {
            let m = trimmed(v.text);
            let part = seq![Told::Said(m)];
            assert(shows(m, part));
            lemma_tells_more(sent_in(earlier), items, m, part);
            assert(sent_in(course) =~= sent_in(earlier).push(m));
            let more = items + part;
            assert(notes(w.tools) =~= seq![Told::Noted(w.tools.last())]);
            assert(notes(v.tools) =~= Seq::<Told>::empty());
            assert(told_before(after) =~= more + notes(v2.tools));
            assert(tells(sent_in(course), more));
        }
    }
}

proof fn lemma_blank()
    ensures
        trimmed(Seq::empty()) == Seq::<char>::empty(),
{
    law_trimming_strips_the_ends(Seq::empty());
    assert(trimmed(Seq::<char>::empty()) =~= Seq::empty());
}

/// Nothing that the agent tells is lost, and nothing else is sent. When the stream has
/// ended, the messages that were sent show in the order of the stream: each text between
/// two calls or thoughts, unless it is blank, with the white space at its ends removed, as
/// a message of its own; and a line for each call and each thought, in messages of one or
/// more lines. How long things took makes no difference to that.
pub proof fn law_owner_is_sent_all(course: Seq<StreamEvent>)
    requires
        forall|i: int| 0 <= i < course.len() ==> !(#[trigger] course[i] is Closed),
    ensures
        tells(sent_in(course.push(StreamEvent::Closed)), told(events_in(course))),
{
    lemma_on_track(course);
    let v = state_after(course);
    let events = events_in(course);
    let items = choose|items: Seq<Told>| #[trigger]
        tells(sent_in(course), items) && told_before(events) == items + notes(v.tools)
            && v.text == said_since(events) && v.thinking == was_thinking(events)
            && v.pending.len() == 0 && (v.text.len() == 0 || v.tools.len() == 0);
    let ended = course.push(StreamEvent::Closed);
    assert(ended.drop_last() =~= course);
    assert(v.pending =~= Seq::empty());
    lemma_blank();
    if v.tools.len() > 0 {
        let m = joined_with(v.tools, "\n"@);
        lemma_lines_shown(v.tools);
        lemma_tells_more(sent_in(course), items, m, notes(v.tools));
        assert(v.text =~= Seq::empty());
        assert(sent_in(ended) =~= sent_in(course).push(m));
        assert(told(events) =~= items + notes(v.tools));
    } else if trimmed(v.text).len() > 0 {
        let m = trimmed(v.text);
        let part = seq![Told::Said(m)];
        assert(shows(m, part));
        lemma_tells_more(sent_in(course), items, m, part);
        assert(sent_in(ended) =~= sent_in(course).push(m));
        assert(told(events) =~= items + part);
    } else {
        assert(sent_in(ended) =~= sent_in(course));
        assert(told(events) =~= items);
    }
}

/// What is sent at any time before the end is the beginning of what will have been told.
pub proof fn law_sent_in_the_order_told(course: Seq<StreamEvent>)
    requires
        forall|i: int| 0 <= i < course.len() ==> !(#[trigger] course[i] is Closed),
    ensures
        exists|n: int|
            0 <= n <= told(events_in(course)).len() && tells(
                sent_in(course),
                #[trigger] told(events_in(course)).take(n),
            ),
{
    lemma_on_track(course);
    let v = state_after(course);
    let events = events_in(course);
    let items = choose|items: Seq<Told>| #[trigger]
        tells(sent_in(course), items) && told_before(events) == items + notes(v.tools)
            && v.text == said_since(events) && v.thinking == was_thinking(events)
            && v.pending.len() == 0 && (v.text.len() == 0 || v.tools.len() == 0);
    assert(told(events).take(items.len() as int) =~= items);
}

/// An event that is taken in loses no text: a call, or a thought that begins, makes what was
/// said ready, whole but for the white space at its ends, behind the messages that are; a
/// piece of a message adds to the text; and any other event leaves it as it is.
pub proof fn law_event_is_taken_in(v: RendererView, event: Json)
    ensures
        ({
            let w = after_event(v, event);
            &&& is_kind(event, "tool_call"@) || (is_kind(event, "agent_thought_chunk"@)
                && !v.thinking) ==> {
                &&& w.text.len() == 0
                &&& w.tools.drop_last() == v.tools
                &&& stripped(v.text, Seq::empty()) ==> w.pending == v.pending
                &&& !stripped(v.text, Seq::empty()) ==> w.pending.drop_last() == v.pending
                    && stripped(v.text, w.pending.last())
            }
            &&& is_kind(event, "agent_message_chunk"@) ==> w.text == v.text + piece(event)
            &&& !interrupts(event) ==> w.text.take(v.text.len() as int) == v.text
        }),
{
    lemma_literals();
    law_trimming_strips_the_ends(v.text);
    let w = after_event(v, event);
    if stripped(v.text, Seq::empty()) {
        law_stripped_form_is_unique(v.text, trimmed(v.text), Seq::empty());
    } else if trimmed(v.text).len() == 0 {
        assert(trimmed(v.text) =~= Seq::empty());
    }
    if is_kind(event, "agent_message_chunk"@) {
        assert(w.text =~= v.text + piece(event));
    }
    if is_kind(event, "tool_call"@) || (is_kind(event, "agent_thought_chunk"@) && !v.thinking) {
        assert(w.tools.drop_last() =~= v.tools);
        if !stripped(v.text, Seq::empty()) {
            assert(w.pending.drop_last() =~= v.pending);
        }
    }
    if !interrupts(event) {
        assert(w.text.take(v.text.len() as int) =~= v.text);
    }
}

/// What is said right before a call, or before a thought that begins, is sent at once,
/// whole but for the white space at its ends, and the line on the call or thought is held
/// back behind the lines that are there.
pub proof fn law_text_is_sent_before_the_note(v: RendererView, line: String, event: Json)
    requires
        json_of(trimmed(line@)) == Ok::<Json, Seq<char>>(event),
        trimmed(line@).len() > 0,
        is_kind(event, "tool_call"@) || (is_kind(event, "agent_thought_chunk"@) && !v.thinking),
    ensures
        ({
            let w = after_stream(v, StreamEvent::Line(line));
            &&& w.text.len() == 0
            &&& w.tools.len() == v.tools.len() + 1
            &&& w.tools.drop_last() == v.tools
            &&& w.thinking == is_kind(event, "agent_thought_chunk"@)
            &&& stripped(v.text, Seq::empty()) ==> w.pending == v.pending
            &&& !stripped(v.text, Seq::empty()) ==> w.pending.len() == v.pending.len() + 1
                && w.pending.drop_last() == v.pending && stripped(v.text, w.pending.last())
        }),
{
    lemma_literals();
    law_trimming_strips_the_ends(v.text);
    let w = after_stream(v, StreamEvent::Line(line));
    if stripped(v.text, Seq::empty()) {
        law_stripped_form_is_unique(v.text, trimmed(v.text), Seq::empty());
    } else {
        if trimmed(v.text).len() == 0 {
            assert(trimmed(v.text) =~= Seq::empty());
        }
        assert(w.pending.drop_last() =~= v.pending);
    }
    assert(w.tools.drop_last() =~= v.tools);
}

/// Lines on calls are gathered until text comes, the time for gathering is over or the
/// stream ends; then they are sent as one message. Text is not sent when that time is over.
pub proof fn law_notes_are_gathered(v: RendererView, line: String, event: Json)
    requires
        json_of(trimmed(line@)) == Ok::<Json, Seq<char>>(event),
        trimmed(line@).len() > 0,
        v.tools.len() > 0,
    ensures
        ({
            let w = after_stream(v, StreamEvent::WindowElapsed);
            &&& w.pending == v.pending.push(joined_with(v.tools, "\n"@))
            &&& w.text == v.text
            &&& w.tools.len() == 0
        }),
        is_kind(event, "agent_message_chunk"@) ==> {
            let w = after_stream(v, StreamEvent::Line(line));
            &&& w.pending == v.pending.push(joined_with(v.tools, "\n"@))
            &&& w.text == v.text + piece(event)
            &&& w.tools.len() == 0
        },
        !is_kind(event, "agent_message_chunk"@) && v.text.len() == 0 ==> {
            let w = after_stream(v, StreamEvent::Line(line));
            &&& w.pending == v.pending
            &&& w.tools.take(v.tools.len() as int) == v.tools
        },
{
    lemma_literals();
    lemma_blank();
    let w = after_stream(v, StreamEvent::Line(line));
    if is_kind(event, "agent_message_chunk"@) {
        assert(w.text =~= v.text + piece(event));
    }
    if v.text.len() == 0 {
        assert(v.text =~= Seq::empty());
        if !is_kind(event, "agent_message_chunk"@) {
            assert(w.tools.take(v.tools.len() as int) =~= v.tools);
        }
    }
}

/// Lines that say nothing that is told change nothing.
pub proof fn law_other_lines_change_nothing(v: RendererView, line: String)
    requires
        match json_of(trimmed(line@)) {
            Ok(event) => trimmed(line@).len() == 0 || !(is_kind(event, "tool_call"@) || is_kind(
                event,
                "agent_thought_chunk"@,
            ) || is_kind(event, "agent_message_chunk"@)),
            Err(_) => true,
        },
    ensures
        after_stream(v, StreamEvent::Line(line)) == v,
{
}

/// Lines that are sent together stand one below the other.
pub proof fn law_lines_of_a_message(a: Seq<Seq<char>>, line: Seq<char>)
    ensures
        a.len() > 0 ==> joined_with(a.push(line), "\n"@) == joined_with(a, "\n"@).push('\n')
            + line,
        joined_with(seq![line], "\n"@) == line,
{
    reveal_strlit("\n");
    if a.len() > 0 {
        law_join_splits(a, seq![line], "\n"@);
        assert(a + seq![line] =~= a.push(line));
        assert(joined_with(a, "\n"@) + "\n"@ =~= joined_with(a, "\n"@).push('\n'));
    }
}

} // verus!
