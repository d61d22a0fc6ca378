//! The agent runner: how it is started, and how the stream of events that it prints
//! becomes messages for the owner.

use vstd::prelude::*;

use crate::failure::Failure;
use crate::json::{json_of, parse_json, Json, Node};
use crate::text::{
    decimal, decimal_of, from_chars, join, joined_with, law_trimming_strips_the_ends, same,
    stripped_at, texts, to_chars, trim, trimmed,
};

verus! {

/// How many characters of one argument are shown.
pub const ARG_MAX_CHARS: usize = 60;

/// How many characters of an argument list are shown.
pub const ARGS_TOTAL_MAX_CHARS: usize = 140;

/// Whether `c` is a control character.
pub open spec fn is_control(c: char) -> bool {
    (c as u32) < 0x20 || 0x7f <= (c as u32) <= 0x9f
}

/// `s` with a space in place of every control character.
pub open spec fn one_line(s: Seq<char>) -> Seq<char> {
    s.map_values(
        |c: char|
            if is_control(c) {
                ' '
            } else {
                c
            },
    )
}

/// `s` with a space in place of every control character.
pub fn sanitize_one_line(s: &str) -> (r: String)
    ensures
        r@ == one_line(s@),
{
    let chars: Vec<char> = to_chars(s);
    let mut out: String = String::new();
    let mut i: usize = 0;
    while i < chars.len()
        invariant
            i <= chars@.len(),
            chars@ == s@,
            out@ == one_line(s@).take(i as int),
        decreases chars@.len() - i,
    {
        let code: u32 = chars[i] as u32;
        out.push(
            if code < 0x20 || (0x7f <= code && code <= 0x9f) {
                ' '
            } else {
                chars[i]
            },
        );
        i += 1;
        assert(out@ =~= one_line(s@).take(i as int));
    }
    assert(out@ =~= one_line(s@));
    out
}

/// `s`, or where it has more than `max` characters a text of exactly `max` characters
/// that begins like it and ends in dots.
pub open spec fn clipped(s: Seq<char>, max: nat) -> Seq<char> {
    if s.len() <= max {
        s
    } else if max < 3 {
        Seq::new(max, |i: int| '.')
    } else {
        s.take(max - 3) + "..."@
    }
}

/// `s`, cut to `max` characters that end in dots where it is longer.
pub fn truncate_chars(s: &str, max: usize) -> (r: String)
    ensures
        r@ == clipped(s@, max as nat),
{
    let chars: Vec<char> = to_chars(s);
    if chars.len() <= max {
        return s.to_owned();
    }
    if max < 3 {
        let mut dots: String = String::new();
        let mut i: usize = 0;
        while i < max
            invariant
                i <= max,
                dots@ == Seq::new(i as nat, |j: int| '.'),
            decreases max - i,
        {
            dots.push('.');
            i += 1;
            assert(dots@ =~= Seq::new(i as nat, |j: int| '.'));
        }
        return dots;
    }
    let mut out: String = from_chars(&chars, 0, max - 3);
    assert(out@ =~= s@.take(max - 3));
    out.append("...");
    out
}

/// The text of a value: a string as it is, anything else as JSON.
pub open spec fn value_text(v: Json) -> Seq<char> {
    one_line(
        match v.node {
            Node::Text(s) => s@,
            _ => v.text@,
        },
    )
}

pub fn value_to_string(v: &Json) -> (r: String)
    ensures
        r@ == value_text(*v),
{
    match &v.node {
        Node::Text(s) => sanitize_one_line(s.as_str()),
        _ => sanitize_one_line(v.text.as_str()),
    }
}

/// One named argument of a call.
pub open spec fn argument_text(key: Seq<char>, v: Json) -> Seq<char> {
    clipped(one_line(key) + "="@ + value_text(v), ARG_MAX_CHARS as nat)
}

/// The arguments of a call: a single one without its name, several with their names.
pub open spec fn args_text(args: Json) -> Seq<char> {
    match args.node {
        Node::Object(members) => if members@.len() == 0 {
            Seq::empty()
        } else if members@.len() == 1 {
            clipped(value_text(members@[0].1), ARG_MAX_CHARS as nat)
        } else {
            clipped(
                joined_with(
                    members@.map_values(|m: (String, Json)| argument_text(m.0@, m.1)),
                    ", "@,
                ),
                ARGS_TOTAL_MAX_CHARS as nat,
            )
        },
        _ => Seq::empty(),
    }
}

/// The arguments of a call: a single one without its name, several with their names.
pub fn render_args(args: &Json) -> (r: String)
    ensures
        r@ == args_text(*args),
{
    match &args.node {
        Node::Object(members) => {
            if members.len() == 0 {
                return String::new();
            }
            if members.len() == 1 {
                return truncate_chars(value_to_string(&members[0].1).as_str(), ARG_MAX_CHARS);
            }
            let ghost all = members@.map_values(|m: (String, Json)| argument_text(m.0@, m.1));
            let mut parts: Vec<String> = Vec::new();
            let mut i: usize = 0;
            assert(texts(parts@) =~= all.take(0));
            while i < members.len()
                invariant
                    i <= members@.len(),
                    all == members@.map_values(
                        |m: (String, Json)| argument_text(m.0@, m.1),
                    ),
                    texts(parts@) == all.take(i as int),
                decreases members@.len() - i,
            {
                let ghost before = texts(parts@);
                let mut part: String = sanitize_one_line(members[i].0.as_str());
                part.append("=");
                part.append(value_to_string(&members[i].1).as_str());
                parts.push(truncate_chars(part.as_str(), ARG_MAX_CHARS));
                assert(texts(parts@) =~= before.push(all[i as int]));
                assert(all.take(i as int + 1) =~= all.take(i as int).push(all[i as int]));
                i += 1;
            }
            assert(all.take(i as int) =~= all);
            truncate_chars(join(&parts, ", ").as_str(), ARGS_TOTAL_MAX_CHARS)
        },
        _ => String::new(),
    }
}

/// The line that announces a call.
pub open spec fn tool_line(title: Seq<char>, input: Option<Json>) -> Seq<char> {
    "-# "@ + one_line(trimmed(title)) + "("@ + match input {
        Some(args) => args_text(args),
        None => Seq::empty(),
    } + ")"@
}

/// The line that announces a call.
pub fn render_tool_line(title: &str, input: Option<&Json>) -> (r: String)
    ensures
        r@ == tool_line(
            title@,
            match input {
                Some(j) => Some(*j),
                None => None,
            },
        ),
{
    let args: String = match input {
        Some(j) => render_args(j),
        None => String::new(),
    };
    let mut out: String = "-# ".to_owned();
    out.append(sanitize_one_line(trim(title).as_str()).as_str());
    out.append("(");
    out.append(args.as_str());
    out.append(")");
    out
}

/// What the renderer holds back and has ready.
pub struct RendererView {
    /// Text of the agent that may go on.
    pub text: Seq<char>,
    /// Lines on calls that may be followed by more.
    pub tools: Seq<Seq<char>>,
    /// Whether the last line stands for thinking.
    pub thinking: bool,
    /// Messages that are ready.
    pub pending: Seq<Seq<char>>,
}

/// The text is ready, unless it is blank.
pub open spec fn text_flushed(v: RendererView) -> RendererView {
    RendererView {
        text: Seq::empty(),
        pending: if trimmed(v.text).len() == 0 {
            v.pending
        } else {
            v.pending.push(trimmed(v.text))
        },
        ..v
    }
}

/// The lines on calls are ready, as one message.
pub open spec fn tools_flushed(v: RendererView) -> RendererView {
    if v.tools.len() == 0 {
        v
    } else {
        RendererView {
            tools: Seq::empty(),
            pending: v.pending.push(joined_with(v.tools, "\n"@)),
            ..v
        }
    }
}

/// Everything is ready.
pub open spec fn finished(v: RendererView) -> RendererView {
    tools_flushed(text_flushed(v))
}

/// The title of a call.
pub open spec fn call_title(event: Json) -> Seq<char> {
    match event.string_member("title"@) {
        Some(t) => t,
        None => "tool"@,
    }
}

/// The text of a chunk of the agent's message.
pub open spec fn chunk_text(event: Json) -> Option<Seq<char>> {
    match event.member("content"@) {
        Some(content) => content.string_member("text"@),
        None => None,
    }
}

/// What an event does to the renderer.
pub open spec fn after_event(v: RendererView, event: Json) -> RendererView {
    let kind = event.string_member("sessionUpdate"@);
    if kind == Some("tool_call"@) {
        let w = text_flushed(v);
        RendererView {
            tools: w.tools.push(tool_line(call_title(event), event.member("rawInput"@))),
            thinking: false,
            ..w
        }
    } else if kind == Some("agent_thought_chunk"@) {
        if v.thinking {
            v
        } else {
            let w = text_flushed(v);
            RendererView { tools: w.tools.push("-# Thinking"@), thinking: true, ..w }
        }
    } else if kind == Some("agent_message_chunk"@) {
        let w = tools_flushed(v);
        RendererView {
            text: match chunk_text(event) {
                Some(t) => w.text + t,
                None => w.text,
            },
            thinking: false,
            ..w
        }
    } else {
        v
    }
}

/// What a line of the stream does to the renderer.
pub open spec fn after_line(v: RendererView, line: Seq<char>) -> RendererView {
    if trimmed(line).len() == 0 {
        v
    } else {
        match json_of(trimmed(line)) {
            Ok(event) => after_event(v, event),
            Err(_) => v,
        }
    }
}

/// Turns the runner's events into messages, in the order in which things happened.
#[derive(Debug)]
pub struct Renderer {
    text_buf: String,
    tool_batch: Vec<String>,
    last_was_thinking: bool,
    pending: Vec<String>,
}

impl View for Renderer {
    type V = RendererView;

    closed spec fn view(&self) -> RendererView {
        RendererView {
            text: self.text_buf@,
            tools: texts(self.tool_batch@),
            thinking: self.last_was_thinking,
            pending: texts(self.pending@),
        }
    }
}

/// A renderer that has seen nothing.
pub open spec fn fresh() -> RendererView {
    RendererView {
        text: Seq::empty(),
        tools: Seq::empty(),
        thinking: false,
        pending: Seq::empty(),
    }
}

impl Renderer {
    pub fn new() -> (r: Renderer)
        ensures
            r@ == fresh(),
    {
        let r = Renderer {
            text_buf: String::new(),
            tool_batch: Vec::new(),
            last_was_thinking: false,
            pending: Vec::new(),
        };
        assert(r@.tools =~= Seq::empty());
        assert(r@.pending =~= Seq::empty());
        r
    }

    /// Whether lines on calls are held back.
    pub fn has_pending_tools(&self) -> (b: bool)
        ensures
            b == (self@.tools.len() > 0),
    {
        self.tool_batch.len() > 0
    }

    /// Takes the messages that are ready.
    pub fn take_pending(&mut self) -> (out: Vec<String>)
        ensures
            texts(out@) == old(self)@.pending,
            final(self)@ == (RendererView { pending: Seq::empty(), ..old(self)@ }),
    {
        let mut out: Vec<String> = Vec::new();
        std::mem::swap(&mut out, &mut self.pending);
        assert(texts(self.pending@) =~= Seq::empty());
        out
    }

    /// Makes the text ready.
    pub fn flush_text(&mut self)
        ensures
            final(self)@ == text_flushed(old(self)@),
    {
        let ghost before = texts(self.pending@);
        let text: String = trim(self.text_buf.as_str());
        self.text_buf = String::new();
        if !text.as_str().is_empty() {
            let ghost t = text@;
            self.pending.push(text);
            assert(texts(self.pending@) =~= before.push(t));
        }
    }

    /// Makes the lines on calls ready.
    pub fn flush_tools(&mut self)
        ensures
            final(self)@ == tools_flushed(old(self)@),
    {
        if self.tool_batch.len() > 0 {
            let ghost before = texts(self.pending@);
            let message: String = join(&self.tool_batch, "\n");
            let ghost m = message@;
            self.tool_batch = Vec::new();
            self.pending.push(message);
            assert(texts(self.tool_batch@) =~= Seq::empty());
            assert(texts(self.pending@) =~= before.push(m));
        }
    }

    /// Makes everything ready.
    pub fn finish(&mut self)
        ensures
            final(self)@ == finished(old(self)@),
    {
        self.flush_text();
        self.flush_tools();
    }

    /// Takes in one event.
    pub fn handle_event(&mut self, event: &Json)
        ensures
            final(self)@ == after_event(old(self)@, *event),
    {
        let kind: &str = match event.get_str("sessionUpdate") {
            Some(k) => k,
            None => return,
        };
        if same(kind, "tool_call") {
            self.flush_text();
            let title: &str = match event.get_str("title") {
                Some(t) => t,
                None => "tool",
            };
            let ghost before = texts(self.tool_batch@);
            let line: String = render_tool_line(title, event.get("rawInput"));
            let ghost l = line@;
            self.tool_batch.push(line);
            self.last_was_thinking = false;
            assert(texts(self.tool_batch@) =~= before.push(l));
        } else if same(kind, "agent_thought_chunk") {
            if !self.last_was_thinking {
                self.flush_text();
                let ghost before = texts(self.tool_batch@);
                self.tool_batch.push("-# Thinking".to_owned());
                self.last_was_thinking = true;
                assert(texts(self.tool_batch@) =~= before.push("-# Thinking"@));
            }
        } else if same(kind, "agent_message_chunk") {
            self.flush_tools();
            if let Some(content) = event.get("content") {
                if let Some(t) = content.get_str("text") {
                    self.text_buf.append(t);
                }
            }
            self.last_was_thinking = false;
        }
    }

    /// Takes in one line of the stream. A line that holds no event is skipped.
    pub fn handle_line(&mut self, line: &str)
        ensures
            final(self)@ == after_line(old(self)@, line@),
    {
        let text: String = trim(line);
        if text.as_str().is_empty() {
            return;
        }
        match parse_json(text.as_str()) {
            Ok(event) => self.handle_event(&event),
            Err(_) => {},
        }
    }
}

/// What comes of the runner's output stream.
#[derive(Debug)]
pub enum StreamEvent {
    /// A line was printed.
    Line(String),
    /// Lines on calls were held back for as long as they may be.
    WindowElapsed,
    /// The stream has ended.
    Closed,
}

/// What an event of the stream does to the renderer, before the messages are taken.
pub open spec fn after_stream(v: RendererView, event: StreamEvent) -> RendererView {
    match event {
        StreamEvent::Line(line) => after_line(v, line@),
        StreamEvent::WindowElapsed => tools_flushed(v),
        StreamEvent::Closed => finished(v),
    }
}

/// Takes in an event of the stream, and returns the messages to send.
pub fn stream_step(r: &mut Renderer, event: StreamEvent) -> (out: Vec<String>)
    ensures
        texts(out@) == after_stream(old(r)@, event).pending,
        final(r)@ == (RendererView {
            pending: Seq::empty(),
            ..after_stream(old(r)@, event)
        }),
{
    match event {
        StreamEvent::Line(line) => r.handle_line(line.as_str()),
        StreamEvent::WindowElapsed => r.flush_tools(),
        StreamEvent::Closed => r.finish(),
    }
    r.take_pending()
}

/// A text that is cut has exactly the length of the limit.
pub proof fn law_clipped_length(s: Seq<char>, max: nat)
    ensures
        s.len() <= max ==> clipped(s, max) == s,
        s.len() > max ==> clipped(s, max).len() == max,
{
    reveal_strlit("...");
}

/// Whether `s` holds no control character.
pub open spec fn printable(s: Seq<char>) -> bool {
    forall|i: int| 0 <= i < s.len() ==> !is_control(#[trigger] s[i])
}

proof fn lemma_clipped_printable(s: Seq<char>, max: nat)
    requires
        printable(s),
    ensures
        printable(clipped(s, max)),
{
    reveal_strlit("...");
}

proof fn lemma_joined_printable(parts: Seq<Seq<char>>, sep: Seq<char>)
    requires
        forall|i: int| 0 <= i < parts.len() ==> printable(#[trigger] parts[i]),
        printable(sep),
    ensures
        printable(joined_with(parts, sep)),
    decreases parts.len(),
{
    if parts.len() > 1 {
        lemma_joined_printable(parts.drop_last(), sep);
        assert(printable(parts[parts.len() - 1]));
    } else if parts.len() == 1 {
        assert(printable(parts[0]));
    }
}

/// The line that announces a call stays on one line, whatever the call's title and
/// arguments hold.
pub proof fn law_tool_line_is_one_line(title: Seq<char>, input: Option<Json>)
    ensures
        printable(tool_line(title, input)),
{
    reveal_strlit("-# ");
    reveal_strlit("(");
    reveal_strlit(")");
    reveal_strlit("=");
    reveal_strlit(", ");
    if input is Some {
        let args = input->0;
        if args.node is Object {
            let members = args.node->Object_0@;
            if members.len() == 1 {
                lemma_clipped_printable(value_text(members[0].1), ARG_MAX_CHARS as nat);
            } else {
                let parts = members.map_values(|m: (String, Json)| argument_text(m.0@, m.1));
                assert forall|i: int| 0 <= i < parts.len() implies printable(
                    #[trigger] parts[i],
                ) by {
                    lemma_clipped_printable(
                        one_line(members[i].0@) + "="@ + value_text(members[i].1),
                        ARG_MAX_CHARS as nat,
                    );
                }
                lemma_joined_printable(parts, ", "@);
                lemma_clipped_printable(joined_with(parts, ", "@), ARGS_TOTAL_MAX_CHARS as nat);
            }
        }
        assert(printable(args_text(args)));
    }
}

/// A text that is shown on one line keeps its length and every character but the control
/// characters, each of which is shown as a space.
pub proof fn law_one_line_keeps_characters(s: Seq<char>, i: int)
    requires
        0 <= i < s.len(),
    ensures
        one_line(s).len() == s.len(),
        (s[i] as u32) < 0x20 || 0x7f <= (s[i] as u32) <= 0x9f ==> one_line(s)[i] == ' ',
        !((s[i] as u32) < 0x20 || 0x7f <= (s[i] as u32) <= 0x9f) ==> one_line(s)[i] == s[i],
{
}

/// A text that is cut begins like the whole, as far as the limit leaves room before the
/// three dots that it ends in.
pub proof fn law_clipped_begins_like_the_whole(s: Seq<char>, max: nat, i: int)
    requires
        s.len() > max >= 3,
        0 <= i < max,
    ensures
        clipped(s, max).len() == max,
        clipped(s, max)[i] == if i < max - 3 {
            s[i]
        } else {
            '.'
        },
{
    reveal_strlit("...");
}

/// A value is shown as the text that it is, or else as JSON, in both cases on one line.
pub proof fn law_value_is_shown_as_it_is(v: Json, i: int)
    ensures
        ({
            let text = if v.node is Text {
                v.node->Text_0@
            } else {
                v.text@
            };
            &&& value_text(v).len() == text.len()
            &&& 0 <= i < text.len() ==> value_text(v)[i] == if (text[i] as u32) < 0x20 || 0x7f <= (
            text[i] as u32) <= 0x9f {
                ' '
            } else {
                text[i]
            }
        }),
{
}

/// The line on a call shows the title, and between brackets the arguments: nothing where
/// there are none; the value of a single one; and of several all names and values in their
/// order, where each of them and all together fit.
pub proof fn law_tool_line_shows_the_call(title: Seq<char>, input: Option<Json>)
    requires
        printable(title),
        input is Some && input->0.node is Object ==> {
            let members = input->0.node->Object_0@;
            forall|i: int| 0 <= i < members.len() ==> printable(#[trigger] members[i].0@)
                && members[i].1.node is Text && printable(members[i].1.node->Text_0@)
        },
    ensures
        ({
            let line = tool_line(title, input);
            let named = "-# "@ + trimmed(title) + "("@;
            match input {
                Some(Json { node: Node::Object(members), .. }) => {
                    let values = members@.map_values(|m: (String, Json)| m.1.node->Text_0@);
                    let all = members@.map_values(
                        |m: (String, Json)| m.0@ + "="@ + m.1.node->Text_0@,
                    );
                    let both = joined_with(all, ", "@);
                    &&& members@.len() == 0 ==> line == named + ")"@
                    &&& members@.len() == 1 && values[0].len() <= 60 ==> line == named + values[0]
                        + ")"@
                    &&& members@.len() > 1 && both.len() <= 140 && (forall|i: int|
                        0 <= i < all.len() ==> #[trigger] all[i].len() <= 60) ==> line == named
                        + both + ")"@
                },
                _ => line == named + ")"@,
            }
        }),
{
    lemma_trimmed_is_printable(title);
    assert(one_line(trimmed(title)) =~= trimmed(title));
    let named = "-# "@ + trimmed(title) + "("@;
    assert(named + Seq::<char>::empty() =~= named);
    if let Some(args) = input {
        if args.node is Object {
            let members = args.node->Object_0@;
            let values = members.map_values(|m: (String, Json)| m.1.node->Text_0@);
            let all = members.map_values(|m: (String, Json)| m.0@ + "="@ + m.1.node->Text_0@);
            let parts = members.map_values(|m: (String, Json)| argument_text(m.0@, m.1));
            assert forall|i: int| 0 <= i < members.len() implies one_line(members[i].0@)
                == members[i].0@ && value_text(#[trigger] members[i].1) == values[i] by {
                assert(printable(members[i].0@));
                assert(one_line(members[i].0@) =~= members[i].0@);
                assert(value_text(members[i].1) =~= values[i]);
            }
            if members.len() == 1 {
                assert(value_text(members[0].1) == values[0]);
            }
            if forall|i: int| 0 <= i < all.len() ==> #[trigger] all[i].len() <= 60 {
                assert forall|i: int| 0 <= i < all.len() implies parts[i] == all[i] by {
                    assert(value_text(members[i].1) == values[i]);
                    assert(all[i].len() <= 60);
                }
                assert(parts =~= all);
            }
        }
    }
}

/// Trimming brings no control character in.
proof fn lemma_trimmed_is_printable(s: Seq<char>)
    requires
        printable(s),
    ensures
        printable(trimmed(s)),
{
    law_trimming_strips_the_ends(s);
    let (a, b) = choose|a: int, b: int| #[trigger] stripped_at(s, trimmed(s), a, b);
    assert forall|i: int| 0 <= i < trimmed(s).len() implies !is_control(
        #[trigger] trimmed(s)[i],
    ) by {
        assert(trimmed(s)[i] == s[a + i]);
    }
}

/// Whether text and lines on calls are not held back together, so that what is held
/// back needs no order.
pub open spec fn in_order(v: RendererView) -> bool {
    v.text.len() == 0 || v.tools.len() == 0
}

/// The renderer never holds back text together with lines on calls: what happened
/// first is ready first.
pub proof fn law_order_is_kept(v: RendererView, event: StreamEvent)
    requires
        in_order(v),
    ensures
        in_order(fresh()),
        in_order(after_stream(v, event)),
{
}

/// Messages that are ready are never changed or dropped, and what an event adds does
/// not depend on them: it makes no difference when they are taken.
pub proof fn law_messages_only_added(v: RendererView, event: StreamEvent)
    ensures
        after_stream(v, event).pending == v.pending + after_stream(
            (RendererView { pending: Seq::empty(), ..v }),
            event,
        ).pending,
        (RendererView { pending: Seq::empty(), ..after_stream(v, event) }) == (RendererView {
            pending: Seq::empty(),
            ..after_stream((RendererView { pending: Seq::empty(), ..v }), event)
        }),
{
    let w = RendererView { pending: Seq::empty(), ..v };
    assert(after_stream(v, event).pending =~= v.pending + after_stream(w, event).pending);
}

/// When the stream has ended nothing is held back.
pub proof fn law_end_of_stream_sends_all(v: RendererView)
    ensures
        after_stream(v, StreamEvent::Closed).text.len() == 0,
        after_stream(v, StreamEvent::Closed).tools.len() == 0,
{
}

/// Why the agent stopped.
#[derive(Debug)]
pub struct StopNotice {
    pub reason: String,
    /// Whether the turn ended of itself.
    pub clean: bool,
}

/// Why the agent stopped, where a line of the stream says so.
pub open spec fn stop_reason(line: Seq<char>) -> Option<Seq<char>> {
    match json_of(line) {
        Ok(event) => if event.string_member("sessionUpdate"@) == Some("stop"@) {
            match event.string_member("stopReason"@) {
                Some(reason) => Some(reason),
                None => Some("(unknown)"@),
            }
        } else {
            None
        },
        Err(_) => None,
    }
}

/// Why the agent stopped, where a line of the stream says so.
pub fn observe_stop_event(line: &str) -> (r: Option<StopNotice>)
    ensures
        match r {
            Some(n) => stop_reason(line@) == Some(n.reason@) && n.clean == (n.reason@
                == "end_turn"@),
            None => stop_reason(line@) is None,
        },
{
    let event: Json = match parse_json(line) {
        Ok(v) => v,
        Err(_) => return None,
    };
    match event.get_str("sessionUpdate") {
        Some(kind) => if !same(kind, "stop") {
            return None;
        },
        None => return None,
    }
    let reason: &str = match event.get_str("stopReason") {
        Some(r) => r,
        None => "(unknown)",
    };
    Some(StopNotice { reason: reason.to_owned(), clean: same(reason, "end_turn") })
}

/// How long a run may take, in seconds.
pub const LOOM_TIMEOUT_SECS: u64 = 1800;

/// How long lines on calls may be held back, in milliseconds.
pub const TOOL_COALESCE_MILLIS: u64 = 1500;

/// The command that runs the agent, with extra environment variables for it.
#[derive(Debug)]
pub struct LoomCli {
    pub command: String,
    pub extra_env: Vec<(String, String)>,
}

/// The texts of pairs of strings.
pub open spec fn pairs(v: Seq<(String, String)>) -> Seq<(Seq<char>, Seq<char>)> {
    v.map_values(|p: (String, String)| (p.0@, p.1@))
}

/// The arguments of a run.
pub open spec fn run_args(manifest: Seq<char>, prompt: Seq<char>, logged: bool) -> Seq<Seq<char>> {
    let args = seq!["prompt"@, manifest, prompt, "--format"@, "jsonl"@];
    if logged {
        args.push("--emit-preamble"@)
    } else {
        args
    }
}

/// The failure of a run that ended badly.
pub open spec fn exit_failure(status: Seq<char>, stderr: Seq<char>) -> Seq<Seq<char>> {
    seq!["loom exited "@ + status + ": "@ + trimmed(stderr)]
}

/// The account of a command that could not be started.
pub open spec fn spawn_context(command: Seq<char>) -> Seq<char> {
    "failed to spawn `"@ + command
        + "` — is Loom installed and on PATH? (try ./scripts/run.sh, which puts node_modules/.bin first)"@
}

impl LoomCli {
    pub fn new(command: String) -> (r: LoomCli)
        ensures
            r.command@ == command@,
            pairs(r.extra_env@) == Seq::<(Seq<char>, Seq<char>)>::empty(),
    {
        let r = LoomCli { command, extra_env: Vec::new() };
        assert(pairs(r.extra_env@) =~= Seq::empty());
        r
    }

    /// The same command with one more environment variable.
    pub fn with_env(self, key: String, val: String) -> (r: LoomCli)
        ensures
            r.command@ == self.command@,
            pairs(r.extra_env@) == pairs(self.extra_env@).push((key@, val@)),
    {
        let mut r: LoomCli = self;
        let ghost before = pairs(r.extra_env@);
        r.extra_env.push((key, val));
        assert(pairs(r.extra_env@) =~= before.push((key@, val@)));
        r
    }

    /// The arguments of a run. A run that is logged prints what it sends first.
    pub fn args(&self, manifest: &str, prompt: &str, logged: bool) -> (args: Vec<String>)
        ensures
            texts(args@) == run_args(manifest@, prompt@, logged),
    {
        let mut args: Vec<String> = Vec::new();
        args.push("prompt".to_owned());
        args.push(manifest.to_owned());
        args.push(prompt.to_owned());
        args.push("--format".to_owned());
        args.push("jsonl".to_owned());
        if logged {
            args.push("--emit-preamble".to_owned());
        }
        assert(texts(args@) =~= run_args(manifest@, prompt@, logged));
        args
    }

    /// The account of a command that could not be started.
    pub fn spawn_failure(&self) -> (s: String)
        ensures
            s@ == spawn_context(self.command@),
    {
        let mut s: String = "failed to spawn `".to_owned();
        s.append(self.command.as_str());
        s.append(
            "` — is Loom installed and on PATH? (try ./scripts/run.sh, which puts node_modules/.bin first)",
        );
        s
    }
}

/// What a run that has ended comes to.
pub fn exit_outcome(success: bool, status: &str, stderr: &str) -> (r: Result<(), Failure>)
    ensures
        match r {
            Ok(_) => success,
            Err(e) => !success && e@ == exit_failure(status@, stderr@),
        },
{
    if success {
        return Ok(());
    }
    let mut message: String = "loom exited ".to_owned();
    message.append(status);
    message.append(": ");
    message.append(trim(stderr).as_str());
    Err(Failure::new(message))
}

/// The failure of a run that took too long.
pub fn timeout_failure() -> (e: Failure)
    ensures
        e@ == seq!["loom timed out after "@ + decimal_of(LOOM_TIMEOUT_SECS as nat) + "s"@],
{
    let mut message: String = "loom timed out after ".to_owned();
    message.append(decimal(LOOM_TIMEOUT_SECS).as_str());
    message.append("s");
    Failure::new(message)
}

/// The texts of a table of strings.
pub open spec fn tables(v: Seq<Vec<String>>) -> Seq<Seq<Seq<char>>> {
    v.map_values(|row: Vec<String>| texts(row@))
}

/// The texts of a table of string slices.
pub open spec fn slices(v: &[&[&str]]) -> Seq<Seq<Seq<char>>> {
    Seq::new(v@.len(), |i: int| Seq::new(v@[i]@.len(), |j: int| v@[i]@[j]@))
}

/// A stand-in for the runner that answers each call with the next of its turns.
#[derive(Debug)]
pub struct MockLoomRunner {
    turns: Vec<Vec<String>>,
    calls: Vec<(String, String)>,
}

impl MockLoomRunner {
    /// The turns that are left.
    pub closed spec fn left(self) -> Seq<Seq<Seq<char>>> {
        tables(self.turns@)
    }

    /// The manifests and prompts of the calls so far.
    pub closed spec fn made(self) -> Seq<(Seq<char>, Seq<char>)> {
        pairs(self.calls@)
    }

    pub fn new(turns: &[&[&str]]) -> (r: MockLoomRunner)
        ensures
            r.left() == slices(turns),
            r.made() == Seq::<(Seq<char>, Seq<char>)>::empty(),
    {
        let mut table: Vec<Vec<String>> = Vec::new();
        let mut i: usize = 0;
        assert(tables(table@) =~= slices(turns).take(0));
        while i < turns.len()
            invariant
                i <= turns@.len(),
                tables(table@) == slices(turns).take(i as int),
            decreases turns@.len() - i,
        {
            let ghost before = tables(table@);
            let turn: &[&str] = turns[i];
            let mut row: Vec<String> = Vec::new();
            let mut j: usize = 0;
            assert(texts(row@) =~= slices(turns)[i as int].take(0));
            while j < turn.len()
                invariant
                    i < turns@.len(),
                    turn == turns@[i as int],
                    j <= turn@.len(),
                    texts(row@) == slices(turns)[i as int].take(j as int),
                decreases turn@.len() - j,
            {
                let ghost row0 = texts(row@);
                row.push(turn[j].to_owned());
                assert(texts(row@) =~= row0.push(turn@[j as int]@));
                assert(slices(turns)[i as int].take(j as int + 1) =~= slices(turns)[i as int].take(
                    j as int,
                ).push(turn@[j as int]@));
                j += 1;
            }
            assert(texts(row@) =~= slices(turns)[i as int]);
            table.push(row);
            assert(tables(table@) =~= before.push(slices(turns)[i as int]));
            assert(slices(turns).take(i as int + 1) =~= slices(turns).take(i as int).push(
                slices(turns)[i as int],
            ));
            i += 1;
        }
        assert(slices(turns).take(i as int) =~= slices(turns));
        let r = MockLoomRunner { turns: table, calls: Vec::new() };
        assert(r.made() =~= Seq::empty());
        r
    }

    /// The manifests and prompts of the calls so far.
    pub fn calls(&self) -> (r: &Vec<(String, String)>)
        ensures
            pairs(r@) == self.made(),
    {
        &self.calls
    }

    /// Notes the call and returns the messages of the next turn.
    pub fn run(&mut self, manifest: &str, prompt: &str) -> (out: Vec<String>)
        requires
            old(self).left().len() > 0,
        ensures
            texts(out@) == old(self).left()[0],
            final(self).left() == old(self).left().skip(1),
            final(self).made() == old(self).made().push((manifest@, prompt@)),
    {
        let ghost before = self.left();
        let ghost made = self.made();
        self.calls.push((manifest.to_owned(), prompt.to_owned()));
        let out: Vec<String> = self.turns.remove(0);
        assert(self.left() =~= before.skip(1));
        assert(self.made() =~= made.push((manifest@, prompt@)));
        out
    }
}

/// Chunks of text with nothing between them become one text, in their order.
pub proof fn law_text_chunks_join(v: RendererView, a: Json, b: Json, s: Seq<char>, t: Seq<char>)
    requires
        a.string_member("sessionUpdate"@) == Some("agent_message_chunk"@),
        b.string_member("sessionUpdate"@) == Some("agent_message_chunk"@),
        chunk_text(a) == Some(s),
        chunk_text(b) == Some(t),
    ensures
        after_event(after_event(v, a), b).text == v.text + s + t,
        after_event(after_event(v, a), b).pending == after_event(v, a).pending,
{
    reveal_strlit("agent_message_chunk");
    reveal_strlit("agent_thought_chunk");
    reveal_strlit("tool_call");
    assert("agent_message_chunk"@[6] != "agent_thought_chunk"@[6]);
    assert("agent_message_chunk"@.len() != "tool_call"@.len());
}

/// Thinking that goes on is announced once.
pub proof fn law_thinking_is_announced_once(v: RendererView, a: Json, b: Json)
    requires
        a.string_member("sessionUpdate"@) == Some("agent_thought_chunk"@),
        b.string_member("sessionUpdate"@) == Some("agent_thought_chunk"@),
    ensures
        after_event(after_event(v, a), b) == after_event(v, a),
{
    reveal_strlit("agent_thought_chunk");
    reveal_strlit("tool_call");
    assert("agent_thought_chunk"@.len() != "tool_call"@.len());
}

} // verus!
