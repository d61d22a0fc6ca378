//! The agent of the conversation: how it is started, and what it is asked.

use vstd::prelude::*;

use crate::events::{event_views, Event, EventKind, EventView};
use crate::failure::Failure;
use crate::text::{
    begins_with, decimal, decimal_of, finishes_with, law_stripped_form_is_unique,
    law_trimming_strips_the_ends, lemma_occurs_between, lemma_occurs_in_longer, occurs_in,
    slice_option, stripped, text_option, texts, trim, trimmed,
};
use crate::time::{format_wall, wall_text, DATE_PATTERN, UTC_PATTERN};

verus! {

/// How long a run may take, in seconds.
pub const PI_TIMEOUT_SECS: u64 = 1800;

/// How the agent is started.
#[derive(Debug)]
pub struct PiRuntime {
    pub command: String,
    pub model_arg: Option<String>,
    pub extra_args: Vec<String>,
}

/// Who said something, as the agent is told.
pub open spec fn speaker(kind: EventKind) -> Seq<char> {
    match kind {
        EventKind::User => "owner"@,
        _ => "you"@,
    }
}

/// A message as the agent is shown it. Summaries are not shown.
pub open spec fn message_text(e: EventView) -> Seq<char> {
    if e.kind == EventKind::Summary {
        Seq::empty()
    } else {
        "["@ + wall_text(e.timestamp.secs as int, "%Y-%m-%d %H:%M UTC"@) + " — "@ + speaker(e.kind)
            + "]\n"@ + trimmed(e.text) + "\n\n"@
    }
}

/// Messages as the agent is shown them.
pub open spec fn messages_text(events: Seq<EventView>) -> Seq<char>
    decreases events.len(),
{
    if events.len() == 0 {
        Seq::empty()
    } else {
        messages_text(events.drop_last()) + message_text(events.last())
    }
}

/// The part of the prompt for a summary that the history begins with.
pub open spec fn earlier_text(history: Seq<EventView>) -> Seq<char> {
    if history.len() > 0 && history[0].kind == EventKind::Summary {
        "# Earlier conversation (compacted on "@ + wall_text(
            history[0].timestamp.secs as int,
            "%Y-%m-%d"@,
        ) + ")\n\n"@ + trimmed(history[0].text) + "\n\n---\n\n"@
    } else {
        Seq::empty()
    }
}

/// The messages of a history, behind the summary that it may begin with.
pub open spec fn recent(history: Seq<EventView>) -> Seq<EventView> {
    if history.len() > 0 && history[0].kind == EventKind::Summary {
        history.skip(1)
    } else {
        history
    }
}

/// The part of the prompt for the messages of the history.
pub open spec fn recent_text(history: Seq<EventView>) -> Seq<char> {
    if recent(history).len() == 0 {
        Seq::empty()
    } else {
        "# Recent DM conversation (oldest -> newest)\n\n"@ + messages_text(recent(history))
            + "---\n\n"@
    }
}

/// What the agent is asked for a message.
pub open spec fn prompt_text(history: Seq<EventView>, user_message: Seq<char>) -> Seq<char> {
    earlier_text(history) + recent_text(history) + "# Owner just sent\n\n"@ + trimmed(user_message)
        + "\n\nRespond as Glass. Discord DM register — conversational, not a doc. AGENTS.md tells you who you are and where memory lives.\n"@
}

/// The part of the summary prompt for an earlier summary.
pub open spec fn prior_text(prior: Option<Seq<char>>) -> Seq<char> {
    match prior {
        Some(p) => "# Previous summary (from earlier compactions — fold this in)\n\n"@ + trimmed(p)
            + "\n\n"@,
        None => Seq::empty(),
    }
}

/// What the agent is asked for a summary.
pub open spec fn summary_prompt_text(
    prior: Option<Seq<char>>,
    transcript: Seq<EventView>,
) -> Seq<char> {
    "You are summarizing your own past conversation with the owner so it fits in your context window going forward. Produce a thorough but compact summary capturing:\n- Names, dates, places, projects, and other concrete facts mentioned\n- Decisions made and conclusions reached\n- Ongoing threads / open questions\n- The owner's current concerns and emotional register\n- Anything you committed to or said you'd remember\n\nWrite in your own voice, first person (\"I told her...\", \"we figured out...\"). It will appear at the start of your context next turn as 'earlier conversation', so write it for future-you, not for the owner.\n\n"@
        + prior_text(prior) + "# Conversation chunk to add into the summary\n\n"@ + messages_text(
        transcript,
    ) + "\nProduce the new combined summary now. Output only the summary body."@
}

/// Whether the calendar covers the times of events.
pub open spec fn dated(events: Seq<EventView>) -> bool {
    forall|i: int| 0 <= i < events.len() ==> (#[trigger] events[i]).timestamp.wf()
}

/// The arguments of a run.
pub open spec fn pi_args(
    model: Option<Seq<char>>,
    extra: Seq<Seq<char>>,
    prompt: Seq<char>,
) -> Seq<Seq<char>> {
    (match model {
        Some(m) => seq!["--model"@, m],
        None => Seq::empty(),
    }) + extra + seq!["-p"@, prompt]
}

fn message_of(e: &Event) -> (s: String)
    requires
        e@.timestamp.wf(),
    ensures
        s@ == message_text(e@),
{
    let who: &str = match e.kind() {
        EventKind::User => "owner",
        EventKind::Agent => "you",
        EventKind::Summary => return String::new(),
    };
    let mut s: String = "[".to_owned();
    s.append(format_wall(e.timestamp().secs, UTC_PATTERN).as_str());
    s.append(" — ");
    s.append(who);
    s.append("]\n");
    s.append(trim(e.text()).as_str());
    s.append("\n\n");
    s
}

fn messages_of(events: &[Event], from: usize) -> (s: String)
    requires
        from <= events@.len(),
        dated(event_views(events@)),
    ensures
        s@ == messages_text(event_views(events@).skip(from as int)),
{
    let ghost all = event_views(events@).skip(from as int);
    let mut s: String = String::new();
    let mut i: usize = from;
    assert(all.take(0) =~= Seq::empty());
    while i < events.len()
        invariant
            from <= i <= events@.len(),
            all == event_views(events@).skip(from as int),
            dated(event_views(events@)),
            s@ == messages_text(all.take(i - from)),
        decreases events@.len() - i,
    {
        assert(event_views(events@)[i as int].timestamp.wf());
        assert(all.take(i - from + 1).drop_last() =~= all.take(i - from));
        assert(all.take(i - from + 1).last() == events@[i as int]@);
        s.append(message_of(&events[i]).as_str());
        i += 1;
    }
    assert(all.take(i - from) =~= all);
    s
}

impl PiRuntime {
    pub fn new(command: String) -> (r: PiRuntime)
        ensures
            r.command@ == command@,
            r.model_arg is None,
            texts(r.extra_args@) == Seq::<Seq<char>>::empty(),
    {
        let r = PiRuntime { command, model_arg: None, extra_args: Vec::new() };
        assert(texts(r.extra_args@) =~= Seq::empty());
        r
    }

    /// The same with this model.
    pub fn with_model(self, model_arg: Option<String>) -> (r: PiRuntime)
        ensures
            r == (PiRuntime { model_arg, ..self }),
    {
        let mut r: PiRuntime = self;
        r.model_arg = model_arg;
        r
    }

    /// The same with these extra arguments.
    pub fn with_extra_args(self, args: Vec<String>) -> (r: PiRuntime)
        ensures
            r == (PiRuntime { extra_args: args, ..self }),
    {
        let mut r: PiRuntime = self;
        r.extra_args = args;
        r
    }

    /// What the agent is asked for a message, given the history before it.
    pub fn build_prompt(history: &[Event], user_message: &str) -> (s: String)
        requires
            dated(event_views(history@)),
        ensures
            s@ == prompt_text(event_views(history@), user_message@),
    {
        let ghost all = event_views(history@);
        let mut s: String = String::new();
        let mut start: usize = 0;
        if history.len() > 0 {
            assert(all[0] == history@[0]@);
            if let Event::Summary { timestamp, body } = &history[0] {
                assert(all[0].timestamp.wf());
                s = "# Earlier conversation (compacted on ".to_owned();
                s.append(format_wall(timestamp.secs, DATE_PATTERN).as_str());
                s.append(")\n\n");
                s.append(trim(body.as_str()).as_str());
                s.append("\n\n---\n\n");
                start = 1;
            }
        }
        assert(s@ == earlier_text(all));
        assert(all.skip(0) =~= all);
        assert(recent(all) == all.skip(start as int));
        let mut messages: String = String::new();
        if start < history.len() {
            messages = "# Recent DM conversation (oldest -> newest)\n\n".to_owned();
            messages.append(messages_of(history, start).as_str());
            messages.append("---\n\n");
        }
        s.append(messages.as_str());
        s.append("# Owner just sent\n\n");
        s.append(trim(user_message).as_str());
        s.append(
            "\n\nRespond as Glass. Discord DM register — conversational, not a doc. AGENTS.md tells you who you are and where memory lives.\n",
        );
        s
    }

    /// What the agent is asked for a summary, which takes in an earlier one.
    pub fn build_summary_prompt(prior_summary: Option<&str>, transcript: &[Event]) -> (s: String)
        requires
            dated(event_views(transcript@)),
        ensures
            s@ == summary_prompt_text(slice_option(prior_summary), event_views(transcript@)),
    {
        let mut s: String =
            "You are summarizing your own past conversation with the owner so it fits in your context window going forward. Produce a thorough but compact summary capturing:\n- Names, dates, places, projects, and other concrete facts mentioned\n- Decisions made and conclusions reached\n- Ongoing threads / open questions\n- The owner's current concerns and emotional register\n- Anything you committed to or said you'd remember\n\nWrite in your own voice, first person (\"I told her...\", \"we figured out...\"). It will appear at the start of your context next turn as 'earlier conversation', so write it for future-you, not for the owner.\n\n".to_owned();
        let mut prior: String = String::new();
        if let Some(p) = prior_summary {
            prior = "# Previous summary (from earlier compactions — fold this in)\n\n".to_owned();
            prior.append(trim(p).as_str());
            prior.append("\n\n");
        }
        s.append(prior.as_str());
        s.append("# Conversation chunk to add into the summary\n\n");
        assert(event_views(transcript@).skip(0) =~= event_views(transcript@));
        s.append(messages_of(transcript, 0).as_str());
        s.append("\nProduce the new combined summary now. Output only the summary body.");
        s
    }

    /// The arguments of a run with `prompt`.
    pub fn args(&self, prompt: &str) -> (args: Vec<String>)
        ensures
            texts(args@) == pi_args(
                text_option(self.model_arg),
                texts(self.extra_args@),
                prompt@,
            ),
    {
        let mut args: Vec<String> = Vec::new();
        if let Some(model) = &self.model_arg {
            args.push("--model".to_owned());
            args.push(model.clone());
        }
        let ghost head = texts(args@);
        let mut i: usize = 0;
        assert(head =~= head + texts(self.extra_args@).take(0));
        while i < self.extra_args.len()
            invariant
                i <= self.extra_args@.len(),
                texts(args@) == head + texts(self.extra_args@).take(i as int),
            decreases self.extra_args@.len() - i,
        {
            let ghost before = texts(args@);
            args.push(self.extra_args[i].clone());
            assert(texts(args@) =~= before.push(texts(self.extra_args@)[i as int]));
            assert(texts(args@) =~= head + texts(self.extra_args@).take(i as int + 1));
            i += 1;
        }
        assert(texts(self.extra_args@).take(i as int) =~= texts(self.extra_args@));
        args.push("-p".to_owned());
        args.push(prompt.to_owned());
        assert(texts(args@) =~= head + texts(self.extra_args@) + seq!["-p"@, prompt@]);
        assert(head =~= match self.model_arg {
            Some(m) => seq!["--model"@, m@],
            None => Seq::empty(),
        });
        args
    }

    /// The account of a command that could not be started.
    pub fn spawn_failure(&self) -> (s: String)
        ensures
            s@ == "failed to spawn `"@ + self.command@ + "` — is Pi installed and on PATH?"@,
    {
        let mut s: String = "failed to spawn `".to_owned();
        s.append(self.command.as_str());
        s.append("` — is Pi installed and on PATH?");
        s
    }
}

/// What a run that has ended comes to: its output, trimmed, or why there is none.
pub open spec fn pi_reply(
    success: bool,
    status: Seq<char>,
    stdout: Seq<char>,
    stderr: Seq<char>,
) -> Result<Seq<char>, Seq<Seq<char>>> {
    if !success {
        Err(seq!["pi exited "@ + status + ": "@ + trimmed(stderr)])
    } else if trimmed(stdout).len() == 0 {
        Err(seq!["pi returned an empty response"@])
    } else {
        Ok(trimmed(stdout))
    }
}

/// What a run that has ended comes to.
pub fn reply_of(success: bool, status: &str, stdout: &str, stderr: &str) -> (r: Result<
    String,
    Failure,
>)
    ensures
        match r {
            Ok(s) => pi_reply(success, status@, stdout@, stderr@) == Ok::<Seq<char>, Seq<Seq<char>>>(
                s@,
            ),
            Err(e) => pi_reply(success, status@, stdout@, stderr@) == Err::<
                Seq<char>,
                Seq<Seq<char>>,
            >(e@),
        },
{
    if !success {
        let mut message: String = "pi exited ".to_owned();
        message.append(status);
        message.append(": ");
        message.append(trim(stderr).as_str());
        return Err(Failure::new(message));
    }
    let reply: String = trim(stdout);
    if reply.as_str().is_empty() {
        return Err(Failure::new("pi returned an empty response".to_owned()));
    }
    Ok(reply)
}

/// The failure of a run that took too long.
pub fn pi_timeout_failure() -> (e: Failure)
    ensures
        e@ == seq!["pi timed out after "@ + decimal_of(PI_TIMEOUT_SECS as nat) + "s"@],
{
    let mut message: String = "pi timed out after ".to_owned();
    message.append(decimal(PI_TIMEOUT_SECS).as_str());
    message.append("s");
    Failure::new(message)
}

/// The events that are no summaries, in order.
pub open spec fn no_summaries(events: Seq<EventView>) -> Seq<EventView>
    decreases events.len(),
{
    if events.len() == 0 {
        Seq::empty()
    } else if events.last().kind == EventKind::Summary {
        no_summaries(events.drop_last())
    } else {
        no_summaries(events.drop_last()).push(events.last())
    }
}

/// The events that are no summaries, in order.
pub fn without_summaries(events: &[Event]) -> (out: Vec<Event>)
    ensures
        event_views(out@) == no_summaries(event_views(events@)),
{
    let ghost all = event_views(events@);
    let mut out: Vec<Event> = Vec::new();
    let mut i: usize = 0;
    assert(event_views(out@) =~= Seq::empty());
    while i < events.len()
        invariant
            i <= events@.len(),
            all == event_views(events@),
            event_views(out@) == no_summaries(all.take(i as int)),
        decreases events@.len() - i,
    {
        let ghost before = event_views(out@);
        assert(all.take(i as int + 1).drop_last() =~= all.take(i as int));
        assert(all.take(i as int + 1).last() == events@[i as int]@);
        if !events[i].is_summary() {
            out.push(events[i].copy());
            assert(event_views(out@) =~= before.push(events@[i as int]@));
        }
        i += 1;
    }
    assert(all.take(i as int) =~= all);
    out
}

/// Leaving summaries out changes nothing of what the agent is shown.
pub proof fn law_summaries_are_not_shown(events: Seq<EventView>)
    ensures
        messages_text(no_summaries(events)) == messages_text(events),
    decreases events.len(),
{
    if events.len() > 0 {
        law_summaries_are_not_shown(events.drop_last());
        let rest = no_summaries(events.drop_last());
        if events.last().kind == EventKind::Summary {
            assert(messages_text(events) =~= messages_text(events.drop_last()));
        } else {
            assert(rest.push(events.last()).drop_last() =~= rest);
        }
    }
}

/// A message as the agent is shown it: when it was sent, in UTC, who said it, and the text
/// `t`.
pub open spec fn shown_as(e: EventView, t: Seq<char>) -> Seq<char> {
    "["@ + wall_text(e.timestamp.secs as int, "%Y-%m-%d %H:%M UTC"@) + (if e.kind
        == EventKind::User {
        " — owner]\n"@
    } else {
        " — you]\n"@
    }) + t + "\n\n"@
}

/// A message is shown with its instant in UTC, whatever its offset, with the one who said
/// it, and with its whole text but for the white space at its ends.
pub proof fn law_message_is_shown_whole(e: EventView, t: Seq<char>)
    requires
        stripped(e.text, t),
    ensures
        e.kind != EventKind::Summary ==> messages_text(seq![e]) == shown_as(e, t),
        e.kind == EventKind::Summary ==> messages_text(seq![e]).len() == 0,
{
    law_trimming_strips_the_ends(e.text);
    law_stripped_form_is_unique(e.text, t, trimmed(e.text));
    reveal_with_fuel(messages_text, 2);
    assert(seq![e].drop_last() =~= Seq::empty());
    reveal_strlit(" — ");
    reveal_strlit("owner");
    reveal_strlit("you");
    reveal_strlit("]\n");
    reveal_strlit(" — owner]\n");
    reveal_strlit(" — you]\n");
    assert(" — "@ + "owner"@ + "]\n"@ =~= " — owner]\n"@);
    assert(" — "@ + "you"@ + "]\n"@ =~= " — you]\n"@);
    if e.kind != EventKind::Summary {
        let time = "["@ + wall_text(e.timestamp.secs as int, "%Y-%m-%d %H:%M UTC"@);
        assert(messages_text(seq![e]) =~= time + (" — "@ + speaker(e.kind) + "]\n"@) + t
            + "\n\n"@);
    }
}

/// Messages are shown one after the other, the oldest first, and none is left out.
pub proof fn law_messages_are_shown_in_order(a: Seq<EventView>, b: Seq<EventView>)
    ensures
        messages_text(a + b) == messages_text(a) + messages_text(b),
    decreases b.len(),
{
    if b.len() == 0 {
        assert(a + b =~= a);
        assert(messages_text(a + b) =~= messages_text(a) + messages_text(b));
    } else {
        law_messages_are_shown_in_order(a, b.drop_last());
        assert((a + b).drop_last() =~= a + b.drop_last());
        assert(messages_text(a + b) =~= messages_text(a) + messages_text(b));
    }
}

proof fn lemma_message_occurs(events: Seq<EventView>, i: int, t: Seq<char>)
    requires
        0 <= i < events.len(),
        events[i].kind != EventKind::Summary,
        stripped(events[i].text, t),
    ensures
        occurs_in(shown_as(events[i], t), messages_text(events)),
{
    let e = events[i];
    assert(events =~= events.take(i) + (seq![e] + events.skip(i + 1)));
    law_messages_are_shown_in_order(events.take(i), seq![e] + events.skip(i + 1));
    law_messages_are_shown_in_order(seq![e], events.skip(i + 1));
    law_message_is_shown_whole(e, t);
    lemma_occurs_between(
        messages_text(events.take(i)),
        shown_as(e, t),
        messages_text(events.skip(i + 1)),
    );
    assert(messages_text(events.take(i)) + shown_as(e, t) + messages_text(events.skip(i + 1))
        =~= messages_text(events));
}

/// The prompt for a message shows the whole history: each message of it, whoever said it,
/// and the summary that it may begin with; and behind that the message itself, whole but
/// for the white space at its ends.
pub proof fn law_prompt_shows_the_whole_history(
    history: Seq<EventView>,
    user_message: Seq<char>,
    i: int,
    t: Seq<char>,
    said: Seq<char>,
)
    requires
        0 <= i < history.len() ==> stripped(history[i].text, t),
        stripped(user_message, said),
    ensures
        0 <= i < history.len() && history[i].kind != EventKind::Summary ==> occurs_in(
            shown_as(history[i], t),
            prompt_text(history, user_message),
        ),
        i == 0 < history.len() && history[0].kind == EventKind::Summary ==> begins_with(
            prompt_text(history, user_message),
            "# Earlier conversation (compacted on "@ + wall_text(
                history[0].timestamp.secs as int,
                "%Y-%m-%d"@,
            ) + ")\n\n"@ + t,
        ),
        finishes_with(
            prompt_text(history, user_message),
            "# Owner just sent\n\n"@ + said
                + "\n\nRespond as Glass. Discord DM register — conversational, not a doc. AGENTS.md tells you who you are and where memory lives.\n"@,
        ),
{
    law_trimming_strips_the_ends(user_message);
    law_stripped_form_is_unique(user_message, said, trimmed(user_message));
    let s = prompt_text(history, user_message);
    let tail = "# Owner just sent\n\n"@ + said
        + "\n\nRespond as Glass. Discord DM register — conversational, not a doc. AGENTS.md tells you who you are and where memory lives.\n"@;
    assert(s =~= earlier_text(history) + recent_text(history) + tail);
    assert(s.subrange(s.len() - tail.len(), s.len() as int) =~= tail);
    if 0 <= i < history.len() {
        let led = history[0].kind == EventKind::Summary;
        if history[i].kind != EventKind::Summary {
            let at = if led {
                i - 1
            } else {
                i
            };
            assert(recent(history)[at] == history[i]);
            lemma_message_occurs(recent(history), at, t);
            let title = "# Recent DM conversation (oldest -> newest)\n\n"@;
            lemma_occurs_in_longer(
                shown_as(history[i], t),
                earlier_text(history) + title,
                messages_text(recent(history)),
                "---\n\n"@ + tail,
            );
            assert(earlier_text(history) + title + messages_text(recent(history)) + ("---\n\n"@
                + tail) =~= s);
        } else if i == 0 {
            law_trimming_strips_the_ends(history[0].text);
            law_stripped_form_is_unique(history[0].text, t, trimmed(history[0].text));
            let head = "# Earlier conversation (compacted on "@ + wall_text(
                history[0].timestamp.secs as int,
                "%Y-%m-%d"@,
            ) + ")\n\n"@ + t;
            assert(s.subrange(0, head.len() as int) =~= head);
        }
    }
}

/// The prompt for a summary shows every message that is to be summarised, and the earlier
/// summary, if there is one, whole but for the white space at its ends.
pub proof fn law_summary_prompt_shows_all(
    prior: Option<Seq<char>>,
    transcript: Seq<EventView>,
    i: int,
    t: Seq<char>,
    p: Seq<char>,
)
    requires
        0 <= i < transcript.len() ==> stripped(transcript[i].text, t),
        prior matches Some(text) ==> stripped(text, p),
    ensures
        0 <= i < transcript.len() && transcript[i].kind != EventKind::Summary ==> occurs_in(
            shown_as(transcript[i], t),
            summary_prompt_text(prior, transcript),
        ),
        prior is Some ==> occurs_in(
            "# Previous summary (from earlier compactions — fold this in)\n\n"@ + p + "\n\n"@,
            summary_prompt_text(prior, transcript),
        ),
{
    let s = summary_prompt_text(prior, transcript);
    let shown = messages_text(transcript);
    let chunk = "# Conversation chunk to add into the summary\n\n"@;
    let tail = "\nProduce the new combined summary now. Output only the summary body."@;
    let head = s.take(s.len() - tail.len() - shown.len() - chunk.len() - prior_text(prior).len());
    assert(s =~= head + prior_text(prior) + chunk + shown + tail);
    if 0 <= i < transcript.len() && transcript[i].kind != EventKind::Summary {
        lemma_message_occurs(transcript, i, t);
        lemma_occurs_in_longer(
            shown_as(transcript[i], t),
            head + prior_text(prior) + chunk,
            shown,
            tail,
        );
    }
    if prior is Some {
        law_trimming_strips_the_ends(prior->0);
        law_stripped_form_is_unique(prior->0, p, trimmed(prior->0));
        let text = "# Previous summary (from earlier compactions — fold this in)\n\n"@ + p
            + "\n\n"@;
        lemma_occurs_between(head, text, chunk + shown + tail);
        assert(head + text + (chunk + shown + tail) =~= s);
    }
}

/// A run is given the prompt last, behind its flag; before it come all extra arguments in
/// their order, and before them the model, if there is one, behind its flag.
pub proof fn law_arguments_of_a_run(
    model: Option<Seq<char>>,
    extra: Seq<Seq<char>>,
    prompt: Seq<char>,
)
    ensures
        ({
            let args = pi_args(model, extra, prompt);
            let n = args.len() as int;
            &&& args[n - 1] == prompt
            &&& args[n - 2] == "-p"@
            &&& args.subrange(n - 2 - extra.len(), n - 2) == extra
            &&& model is None ==> n == extra.len() + 2
            &&& model matches Some(m) ==> n == extra.len() + 4 && args[0] == "--model"@ && args[1]
                == m
        }),
{
    let args = pi_args(model, extra, prompt);
    let n = args.len() as int;
    assert(args.subrange(n - 2 - extra.len(), n - 2) =~= extra);
}

/// A run answers exactly where it went well and printed anything but white space, and the
/// answer is all that it printed but for the white space at its ends.
pub proof fn law_reply_is_what_was_printed(
    success: bool,
    status: Seq<char>,
    stdout: Seq<char>,
    stderr: Seq<char>,
    t: Seq<char>,
)
    requires
        stripped(stdout, t),
    ensures
        success && t.len() > 0 ==> pi_reply(success, status, stdout, stderr) == Ok::<
            Seq<char>,
            Seq<Seq<char>>,
        >(t),
        !success || t.len() == 0 ==> pi_reply(success, status, stdout, stderr) is Err,
{
    law_trimming_strips_the_ends(stdout);
    law_stripped_form_is_unique(stdout, t, trimmed(stdout));
}

/// A run that failed is told with its status, and with what it printed to say why.
pub proof fn law_failed_run_says_why(
    status: Seq<char>,
    stdout: Seq<char>,
    stderr: Seq<char>,
    t: Seq<char>,
)
    requires
        stripped(stderr, t),
    ensures
        pi_reply(false, status, stdout, stderr) matches Err(e) && e.len() == 1 && e[0]
            == "pi exited "@ + status + ": "@ + t,
{
    law_trimming_strips_the_ends(stderr);
    law_stripped_form_is_unique(stderr, t, trimmed(stderr));
}

/// Events that are no summaries all stay, in their order.
pub proof fn law_only_summaries_are_left_out(a: Seq<EventView>, e: EventView, b: Seq<EventView>)
    ensures
        no_summaries(a + b) == no_summaries(a) + no_summaries(b),
        no_summaries(seq![e]) == if e.kind == EventKind::Summary {
            Seq::empty()
        } else {
            seq![e]
        },
    decreases b.len(),
{
    reveal_with_fuel(no_summaries, 2);
    assert(seq![e].drop_last() =~= Seq::empty());
    assert(no_summaries(seq![e]) =~= if e.kind == EventKind::Summary {
        Seq::empty()
    } else {
        seq![e]
    });
    if b.len() == 0 {
        assert(a + b =~= a);
        assert(no_summaries(a + b) =~= no_summaries(a) + no_summaries(b));
    } else {
        law_only_summaries_are_left_out(a, e, b.drop_last());
        assert((a + b).drop_last() =~= a + b.drop_last());
        assert(no_summaries(a + b) =~= no_summaries(a) + no_summaries(b));
    }
}

/// What the prompt for a message ends with: the message, and what is asked of the agent.
pub open spec fn closing(said: Seq<char>) -> Seq<char> {
    "# Owner just sent\n\n"@ + said
        + "\n\nRespond as Glass. Discord DM register — conversational, not a doc. AGENTS.md tells you who you are and where memory lives.\n"@
}

proof fn lemma_prompt_parts(history: Seq<EventView>, user_message: Seq<char>, said: Seq<char>)
    requires
        stripped(user_message, said),
    ensures
        prompt_text(history, user_message) == earlier_text(history) + recent_text(history)
            + closing(said),
{
    assert(said == trimmed(user_message)) by {
        law_trimming_strips_the_ends(user_message);
        law_stripped_form_is_unique(user_message, said, trimmed(user_message));
    }
    assert(prompt_text(history, user_message) =~= earlier_text(history) + recent_text(history)
        + closing(said));
}

/// Without a history the prompt is nothing but the message and what is asked; a summary
/// alone brings just its own part.
pub proof fn law_prompt_without_messages(
    history: Seq<EventView>,
    user_message: Seq<char>,
    said: Seq<char>,
)
    requires
        stripped(user_message, said),
    ensures
        history.len() == 0 ==> prompt_text(history, user_message) == closing(said),
        history.len() == 1 && history[0].kind == EventKind::Summary ==> prompt_text(
            history,
            user_message,
        ) == earlier_text(history) + closing(said),
{
    lemma_prompt_parts(history, user_message, said);
    let none = Seq::<char>::empty();
    if history.len() == 0 {
        assert(none + none + closing(said) =~= closing(said));
    } else if history.len() == 1 && history[0].kind == EventKind::Summary {
        assert(recent_text(history) == none);
        assert(earlier_text(history) + none =~= earlier_text(history));
    }
}

/// The first message of a history brings a heading and a line below it to the prompt.
pub proof fn law_prompt_with_the_first_message(
    e: EventView,
    user_message: Seq<char>,
    t: Seq<char>,
    said: Seq<char>,
)
    requires
        e.kind != EventKind::Summary,
        stripped(e.text, t),
        stripped(user_message, said),
    ensures
        prompt_text(seq![e], user_message)
            == "# Recent DM conversation (oldest -> newest)\n\n"@ + shown_as(e, t) + "---\n\n"@
            + closing(said),
{
    lemma_prompt_parts(seq![e], user_message, said);
    law_message_is_shown_whole(e, t);
    let shown = recent_text(seq![e]);
    assert(recent(seq![e]) == seq![e]);
    assert(Seq::<char>::empty() + shown =~= shown);
}

/// The prompt grows with the history by just what is added to it: a further message stands
/// between those before it and the line below them.
pub proof fn law_prompt_grows_by_each_message(
    history: Seq<EventView>,
    e: EventView,
    user_message: Seq<char>,
    t: Seq<char>,
    said: Seq<char>,
)
    requires
        e.kind != EventKind::Summary,
        stripped(e.text, t),
        stripped(user_message, said),
        recent(history).len() > 0,
    ensures
        exists|before: Seq<char>|
            {
                &&& prompt_text(history, user_message) == #[trigger] grown(
                    before,
                    Seq::empty(),
                    said,
                )
                &&& prompt_text(history.push(e), user_message) == grown(
                    before,
                    shown_as(e, t),
                    said,
                )
            },
{
    let more = history.push(e);
    lemma_prompt_parts(history, user_message, said);
    lemma_prompt_parts(more, user_message, said);
    law_message_is_shown_whole(e, t);
    assert(earlier_text(more) == earlier_text(history));
    assert(recent(more) =~= recent(history) + seq![e]);
    law_messages_are_shown_in_order(recent(history), seq![e]);
    let title = "# Recent DM conversation (oldest -> newest)\n\n"@;
    let before = earlier_text(history) + (title + messages_text(recent(history)));
    assert(earlier_text(history) + recent_text(history) + closing(said) =~= grown(
        before,
        Seq::empty(),
        said,
    ));
    assert(earlier_text(more) + recent_text(more) + closing(said) =~= grown(
        before,
        shown_as(e, t),
        said,
    ));
}

/// A prompt that begins with `before` and `added`, and then has the line below the messages
/// and its closing.
pub open spec fn grown(before: Seq<char>, added: Seq<char>, said: Seq<char>) -> Seq<char> {
    before + added + "---\n\n"@ + closing(said)
}

/// The prompt for a summary grows with the transcript by just what is added to it, right
/// before its last sentence; and an earlier summary brings just its own part.
pub proof fn law_summary_prompt_grows_by_each_message(
    prior: Option<Seq<char>>,
    transcript: Seq<EventView>,
    e: EventView,
    t: Seq<char>,
)
    requires
        e.kind != EventKind::Summary,
        stripped(e.text, t),
    ensures
        ({
            let end = "\nProduce the new combined summary now. Output only the summary body."@;
            let p = summary_prompt_text(prior, transcript);
            let before = p.take(p.len() - end.len());
            &&& p == before + end
            &&& summary_prompt_text(prior, transcript.push(e)) == before + shown_as(e, t) + end
        }),
{
    law_message_is_shown_whole(e, t);
    law_messages_are_shown_in_order(transcript, seq![e]);
    assert(transcript.push(e) =~= transcript + seq![e]);
    let end = "\nProduce the new combined summary now. Output only the summary body."@;
    let p = summary_prompt_text(prior, transcript);
    let before = p.take(p.len() - end.len());
    let more = summary_prompt_text(prior, transcript.push(e));
    assert(p =~= before + end);
    assert(more =~= before + shown_as(e, t) + end);
}

} // verus!
