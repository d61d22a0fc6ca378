//! What callers of the library can rely on, stated of the calls themselves.

use vstd::prelude::*;

use crate::bus::{
    actionable, acts, format_prompt, AuthorId, BotLoop, BusAction, BusEvent, IncomingDm,
    TYPING_REFRESH_SECS,
};
use crate::chunk::{
    chunk_message, cut_where_needed, law_chunks_fit, law_message_is_cut_where_needed, splittable,
};
use crate::cli::{law_removal_is_reported, parse_command, remove_report, Command, Report};
use crate::compaction::{
    compact, law_compacted_when_long, law_kept_tail_is_just_enough,
    law_plan_hands_over_what_it_replaces, plan_compaction, tokens, CompactionLimits,
    CompactionPlan,
};
use crate::config::{Config, Environment};
use crate::cron::{
    cron_context, heads, law_appended_entry_comes_last, law_new_entry_keeps_the_request,
    law_poll_fires_what_is_due, law_poll_keeps_recurring_entries, law_poll_makes_up_nothing,
    law_remove_takes_only_what_is_named, lists_heads, names_only, new_entry, run_status, CronEntry,
    CronStore, RemoveResult, DEFAULT_POLL_INTERVAL_SECS,
};
use crate::cron_poll::{
    entry_views, law_one_shot_fires_when_its_time_has_come, law_poll_keeps_ids_and_prompts,
    poll_with, same_but_fired, PollResult,
};
use crate::cron_view::{law_time_left_is_rounded_down, relative_delta};
use crate::cron_when::{
    cron_slots, five_field, law_date_in_future, law_expression_is_read_whole, parse_cron, parse_when, slots_of,
    when_given, when_outcome,
};
use crate::discord::{
    accept_live, law_missed_are_replayed_in_order, law_missed_are_the_operators,
    law_no_missed_message_is_lost, missed, missed_dms, reply_chunks, same_message, taken_late,
    ChannelMessage, CATCHUP_LIMIT, MESSAGE_LIMIT,
};
use crate::dm_log::{Direction, DmEntry, DmLog};
use crate::events::{event_views, Event, EventKind, EventView};
use crate::failure::Failure;
use crate::ids::{encode_id, law_id_length, law_neighbours_differ_at_once};
use crate::invocation_log::{
    law_printed_line_is_recorded_whole, log_line, EndLine, InvocationContext, InvocationLog,
    InvocationStatus, StartLine, Trigger,
};
use crate::json::{json_of, Json, Node};
use crate::jsonl::{
    data_lines, data_views, fits_line, frame_lines, law_read_gives_back_what_was_written, DataLine,
};
use crate::loom::{
    exit_outcome, observe_stop_event, pairs, stream_step, LoomCli, Renderer, StopNotice,
    StreamEvent, LOOM_TIMEOUT_SECS, TOOL_COALESCE_MILLIS,
};
use crate::mcp::{answer_line, law_requests_with_an_id_are_answered, McpAnswer};
use crate::memory::{
    agents_footer, agents_header, block_views, blocks_text, by_file_name, law_every_note_is_shown,
    law_note_is_shown_whole, render_agents_md, Block,
};
use crate::models::{
    distinct_names, law_choice_is_unambiguous, names, ModelsConfig, ResolvedModel,
};
use crate::orchestrator_socket::{
    dispatch, queued, request_id, CoalesceAction, CoalesceEvent, Coalescer, Dispatch, Request,
    Response, SEND_DM_COALESCE_MILLIS, SEND_DM_MAX_WAIT_MILLIS,
};
use crate::paths::{joined_path, law_one_separator};
use crate::pi::{
    law_prompt_shows_the_whole_history, law_reply_is_what_was_printed, reply_of, shown_as,
    PiRuntime, PI_TIMEOUT_SECS,
};
use crate::poller::{law_due_entries_are_begun, Poller, PollerEvent};
use crate::spike::{
    check_for_builtin_tool_calls, law_builtin_calls_are_all_found, message_calls_builtin,
    strictly_in_order,
};
use crate::text::{
    begins_with, byte_len, debug_text, decimal_of, finishes_with, is_white, joined_with,
    law_join_shows_each, law_stripped_form_is_unique, law_trimming_strips_the_ends,
    lemma_occurs_in_longer, lines_of, number_of, occurs_in, slice_option, stripped, text_option,
    texts, trim, trimmed, word_count,
};
use crate::time::{
    clock_reading, moment_of, now_given, rfc3339_text, wall_reading, wall_text, Moment,
};
use crate::transcript::{
    is_kind, law_event_is_taken_in, law_text_is_sent_before_the_note, piece,
};
use crate::turn::{
    law_agent_is_given_the_summary_and_the_rest, law_agent_is_given_the_whole_conversation,
    message_added, split_trailing, summary_then_message, EngineView, StageView, TurnEngine,
    TurnRequest,
};

verus! {

/// Trimming gives back the text with only the white space at its ends removed.
pub proof fn law_trim_strips_the_ends(s: &str, r: String)
    requires
        call_ensures(trim, (s,), r),
    ensures
        stripped(s@, r@),
{
    law_trimming_strips_the_ends(s@);
}

/// The prompt for a message is the local time at which it was sent, the seconds of its
/// instant and its offset together, in brackets, and then its whole text.
pub proof fn law_format_prompt_shows_local_time(msg: &IncomingDm, s: String)
    requires
        call_ensures(format_prompt, (msg,), s),
    ensures
        s@ == "["@ + wall_text(msg.timestamp.secs + msg.timestamp.offset, "%Y-%m-%d %H:%M"@) + "] "@
            + msg.content@,
{
}

/// Two messages with the same text that were sent at the same local reading of the clock
/// make the same prompt; and a message of the same instant at an offset that is `shift`
/// seconds further on makes that of one sent so many seconds later.
pub proof fn law_format_prompt_follows_the_offset(
    a: &IncomingDm,
    b: &IncomingDm,
    s: String,
    t: String,
)
    requires
        call_ensures(format_prompt, (a,), s),
        call_ensures(format_prompt, (b,), t),
        a.content@ == b.content@,
        a.timestamp.secs - b.timestamp.secs == b.timestamp.offset - a.timestamp.offset,
    ensures
        s@ == t@,
{
}

/// A message is acted on exactly where it is the owner's and holds anything but white
/// space.
pub proof fn law_actionable_messages(msg: &IncomingDm, owner: AuthorId, r: bool)
    requires
        call_ensures(actionable, (msg, owner), r),
    ensures
        r <==> msg.author == owner && exists|i: int|
            0 <= i < msg.content@.len() && !is_white(#[trigger] msg.content@[i]),
{
    law_trimming_strips_the_ends(msg.content@);
    law_stripped_form_is_unique(msg.content@, trimmed(msg.content@), trimmed(msg.content@));
}

/// A step of the conversation on a message of the owner starts a run with the message's
/// prompt, whatever went on before, and records the message and the run first.
pub proof fn law_step_answers_the_owner(
    bot: &mut BotLoop,
    msg: IncomingDm,
    out: Vec<BusAction>,
    i: int,
)
    requires
        call_ensures(BotLoop::step, (bot, BusEvent::Dm(msg)), out),
        msg.author == old(bot)@.owner,
        0 <= i < msg.content@.len(),
        !is_white(msg.content@[i]),
    ensures
        ({
            let n = out@.len() as int;
            let prompt = "["@ + wall_text(
                msg.timestamp.secs + msg.timestamp.offset,
                "%Y-%m-%d %H:%M"@,
            ) + "] "@ + msg.content@;
            &&& n >= 3
            &&& out@[n - 1] matches BusAction::StartRun(asked) && asked@ == prompt
            &&& out@[n - 2] matches BusAction::OpenRecord(c) && c.prompt@ == prompt && c.manifest@
                == old(bot)@.manifest && c.channel == Some(msg.channel.0) && c.cron_id is None
                && c.trigger == Trigger::Dm
            &&& out@[n - 3] matches BusAction::LogInbound(text) && text@ == msg.content@
            &&& old(bot)@.turn is Some ==> n == 5 && out@[0] is StopRun && (
            out@[1] matches BusAction::CloseRecord(s) && s is Cancelled)
            &&& old(bot)@.turn is None ==> n == 3
            &&& final(bot)@.turn is Some
            &&& final(bot)@.turn->0.channel == msg.channel
            &&& final(bot)@.owner == old(bot)@.owner
        }),
{
    crate::bus::law_owner_is_heard(old(bot)@, msg, i);
    let all = acts(out@);
    assert(all.len() == out@.len());
    assert(forall|k: int| 0 <= k < out@.len() ==> all[k] == (#[trigger] out@[k])@);
}

/// A step on what the agent says sends it, unchanged, to where the turn's message came
/// from, and records it first.
pub proof fn law_step_passes_words_on(bot: &mut BotLoop, said: String, out: Vec<BusAction>)
    requires
        call_ensures(BotLoop::step, (bot, BusEvent::Said(said)), out),
        old(bot)@.turn is Some,
    ensures
        out@.len() == 2,
        out@[0] matches BusAction::LogOutbound(text) && text@ == said@,
        out@[1] matches BusAction::Reply(to, text) && to == old(bot)@.turn->0.channel && text@
            == said@,
        final(bot)@ == old(bot)@,
{
    let all = acts(out@);
    assert(all.len() == out@.len());
    assert(forall|k: int| 0 <= k < out@.len() ==> all[k] == (#[trigger] out@[k])@);
}

/// The pieces of a message each fit the limit; a message that fits is one piece; and one
/// that does not is cut at its line ends where it can be, and only where it has to be.
pub proof fn law_chunk_message_cuts_where_needed(s: &str, max: usize, out: Vec<String>, i: int)
    requires
        splittable(s@, max as nat),
        call_ensures(chunk_message, (s, max), out),
    ensures
        0 <= i < out@.len() ==> byte_len(out@[i]@) <= max,
        byte_len(s@) <= max ==> out@.len() == 1 && out@[0]@ == s@,
        byte_len(s@) > max ==> cut_where_needed(texts(out@), lines_of(s@), max as nat),
{
    law_chunks_fit(s@, max as nat);
    law_message_is_cut_where_needed(s@, max as nat);
    assert(texts(out@).len() == out@.len());
    if 0 <= i < out@.len() {
        assert(texts(out@)[i] == out@[i]@);
    }
    if byte_len(s@) <= max {
        assert(texts(out@)[0] == out@[0]@);
    }
}

/// A new entry has the id that it was given, and asks for what was asked for with only the
/// white space at its ends removed, whatever its length and number of lines.
pub proof fn law_new_entry_keeps_the_prompt(
    what: &str,
    when: Option<&str>,
    cron: Option<&str>,
    now: &Moment,
    first: Option<Moment>,
    second: Option<Moment>,
    id: String,
    e: CronEntry,
)
    requires
        call_ensures(
            new_entry,
            (what, when, cron, now, first, second, id),
            Ok::<CronEntry, Failure>(e),
        ),
    ensures
        stripped(what@, e.what@),
        e.what@.len() > 0,
        e.id@ == id@,
        text_option(e.cron) == slice_option(cron),
        e.fire_at is Some <==> when is Some,
        cron is Some ==> text_option(e.last_fired_at) == Some(
            rfc3339_text(now.secs as int, now.nanos as int, now.offset as int),
        ),
        (when is Some) == (cron is None),
{
    law_new_entry_keeps_the_request(
        what@,
        slice_option(when),
        slice_option(cron),
        *now,
        first,
        second,
        id@,
        e@,
    );
}

/// An entry that is added to a store stands behind all the others, which stay as they were,
/// under the id that is answered, and asks for the whole of what was asked for; a request
/// that is refused changes nothing.
pub proof fn law_append_keeps_the_prompt(
    store: &mut CronStore,
    what: &str,
    when: Option<&str>,
    cron: Option<&str>,
    now: &Moment,
    r: Result<String, Failure>,
)
    requires
        call_ensures(CronStore::append, (store, what, when, cron, now), r),
    ensures
        r is Err ==> final(store).spec_entries() == old(store).spec_entries(),
        r matches Ok(id) ==> {
            let n = old(store).spec_entries().len() as int;
            let after = final(store).spec_entries();
            &&& after.len() == n + 1
            &&& after.take(n) == old(store).spec_entries()
            &&& after[n].id == id@
            &&& id@.len() == 12
            &&& stripped(what@, after[n].what)
            &&& after[n].cron == slice_option(cron)
            &&& after[n].fire_at is Some <==> when is Some
        },
{
    law_appended_entry_comes_last(
        old(store).spec_entries(),
        what@,
        slice_option(when),
        slice_option(cron),
        *now,
        final(store).spec_entries(),
        r,
    );
    if r is Ok {
        let n = old(store).spec_entries().len() as int;
        assert(final(store).spec_entries().take(n) =~= final(store).spec_entries().drop_last());
    }
}

/// An entry is removed, or named as one of several, only if the text, less the white space
/// at its ends, is its id or the first characters of its id. Where no id begins with the
/// text, or several do, the entries stay.
pub proof fn law_remove_goes_by_the_first_characters(
    store: &mut CronStore,
    text: &str,
    needle: Seq<char>,
    r: Result<RemoveResult, Failure>,
)
    requires
        call_ensures(CronStore::remove, (store, text), r),
        stripped(text@, needle),
    ensures
        ({
            let before = old(store).spec_entries();
            let after = final(store).spec_entries();
            match r {
                Err(_) => needle.len() == 0 && after == before,
                Ok(RemoveResult::NotFound) => {
                    &&& after == before
                    &&& forall|k: int|
                        0 <= k < before.len() ==> !heads(needle, (#[trigger] before[k]).id)
                },
                Ok(RemoveResult::Removed(e)) => exists|at: int| #[trigger]
                    names_only(needle, before, at) && e@ == before[at] && after == before.take(at)
                        + before.skip(at + 1),
                Ok(RemoveResult::Ambiguous(ids)) => {
                    &&& after == before
                    &&& exists|at: Seq<int>| #[trigger]
                        lists_heads(needle, before, at) && at.len() == ids@.len() && at.len() > 1
                            && forall|i: int|
                            0 <= i < at.len() ==> #[trigger] ids@[i]@ == before[at[i]].id
                },
            }
        }),
{
    law_trimming_strips_the_ends(text@);
    law_stripped_form_is_unique(text@, needle, trimmed(text@));
    law_remove_takes_only_what_is_named(
        old(store).spec_entries(),
        needle,
        final(store).spec_entries(),
        r,
    );
}

/// The run for a due entry is recorded with the entry's prompt and id.
pub proof fn law_run_for_an_entry(entry: &CronEntry, manifest: &str, c: InvocationContext)
    requires
        call_ensures(cron_context, (entry, manifest), c),
    ensures
        c.prompt@ == entry.what@,
        c.cron_id is Some,
        c.cron_id->0@ == entry.id@,
        c.manifest@ == manifest@,
        c.trigger == Trigger::Cron,
{
}

/// A run is a success exactly where it ended well, and a failure tells every message.
pub proof fn law_status_of_a_run(r: &Result<(), Failure>, s: InvocationStatus, i: int)
    requires
        call_ensures(run_status, (r,), s),
    ensures
        r is Ok <==> s is Succeeded,
        r matches Err(f) ==> (s matches InvocationStatus::Failed(report) && (0 <= i < f@.len()
            ==> occurs_in(f@[i], report@))),
{
    if let Err(f) = r {
        if 0 <= i < f@.len() {
            law_join_shows_each(f@, ": "@, i);
        }
    }
}

/// What the agent said before a call, or before a thought that begins, is sent with the
/// line of the call or thought at the latest, as a message of its own, whole but for the
/// white space at its ends.
pub proof fn law_stream_step_sends_what_was_said(
    r: &mut Renderer,
    line: String,
    event: Json,
    out: Vec<String>,
)
    requires
        call_ensures(stream_step, (r, StreamEvent::Line(line)), out),
        json_of(trimmed(line@)) == Ok::<Json, Seq<char>>(event),
        trimmed(line@).len() > 0,
        is_kind(event, "tool_call"@) || (is_kind(event, "agent_thought_chunk"@) && !old(r)@.thinking),
    ensures
        final(r)@.text.len() == 0,
        final(r)@.tools.len() == old(r)@.tools.len() + 1,
        final(r)@.tools.drop_last() == old(r)@.tools,
        final(r)@.pending.len() == 0,
        stripped(old(r)@.text, Seq::empty()) ==> texts(out@) == old(r)@.pending,
        !stripped(old(r)@.text, Seq::empty()) ==> out@.len() == old(r)@.pending.len() + 1
            && stripped(old(r)@.text, out@[out@.len() - 1]@) && texts(out@).drop_last()
            == old(r)@.pending,
{
    law_text_is_sent_before_the_note(old(r)@, line, event);
    assert(texts(out@).len() == out@.len());
    if out@.len() > 0 {
        assert(texts(out@)[out@.len() - 1] == out@[out@.len() - 1]@);
    }
}

/// At the end of the stream everything that was held back is sent: the text, whole but for
/// the white space at its ends, and then the lines, as one message.
pub proof fn law_stream_step_sends_the_rest(r: &mut Renderer, out: Vec<String>)
    requires
        call_ensures(stream_step, (r, StreamEvent::Closed), out),
        old(r)@.pending.len() == 0,
    ensures
        final(r)@.text.len() == 0,
        final(r)@.tools.len() == 0,
        final(r)@.pending.len() == 0,
        ({
            let blank = stripped(old(r)@.text, Seq::empty());
            let lines = old(r)@.tools.len() > 0;
            &&& out@.len() == (if blank {
                0int
            } else {
                1
            }) + (if lines {
                1int
            } else {
                0
            })
            &&& !blank ==> stripped(old(r)@.text, out@[0]@)
            &&& lines ==> out@[out@.len() - 1]@ == joined_with(
                old(r)@.tools,
                "\n"@,
            )
        }),
{
    let v = old(r)@;
    law_trimming_strips_the_ends(v.text);
    if stripped(v.text, Seq::empty()) {
        law_stripped_form_is_unique(v.text, trimmed(v.text), Seq::empty());
    } else if trimmed(v.text).len() == 0 {
        assert(trimmed(v.text) =~= Seq::empty());
    }
    assert(texts(out@).len() == out@.len());
    if out@.len() > 0 {
        assert(texts(out@)[0] == out@[0]@);
        assert(texts(out@)[out@.len() - 1] == out@[out@.len() - 1]@);
    }
}

/// A line tells why the agent stopped exactly where it is an event that says so, and then
/// with the reason that it gives; only the end of the turn is a clean stop.
pub proof fn law_stop_is_noticed(line: &str, event: Json, r: Option<StopNotice>)
    requires
        call_ensures(observe_stop_event, (line,), r),
    ensures
        json_of(line@) is Err ==> r is None,
        json_of(line@) == Ok::<Json, Seq<char>>(event) ==> {
            &&& r is Some <==> event.string_member("sessionUpdate"@) == Some("stop"@)
            &&& r matches Some(n) ==> {
                &&& event.string_member("stopReason"@) matches Some(reason) ==> n.reason@ == reason
                &&& event.string_member("stopReason"@) is None ==> n.reason@ == "(unknown)"@
                &&& n.clean <==> n.reason@ == "end_turn"@
            }
        },
{
}

/// A run that ended badly is a failure, which tells its status and what it printed to say
/// why.
pub proof fn law_bad_exit_is_told(
    success: bool,
    status: &str,
    stderr: &str,
    t: Seq<char>,
    r: Result<(), Failure>,
)
    requires
        call_ensures(exit_outcome, (success, status, stderr), r),
        stripped(stderr@, t),
    ensures
        r is Ok <==> success,
        r matches Err(e) ==> e@.len() == 1 && e@[0] == "loom exited "@ + status@ + ": "@ + t,
{
    law_trimming_strips_the_ends(stderr@);
    law_stripped_form_is_unique(stderr@, t, trimmed(stderr@));
}

/// A message that a tool wants sent is handed over with only the white space at its ends
/// removed, and refused only where it is blank; the schedule stays as it is. The answer to
/// a refusal carries the id of the request.
pub proof fn law_dispatch_of_a_message(
    content: String,
    store: &mut CronStore,
    id: String,
    now: &Moment,
    d: Dispatch,
)
    requires
        call_ensures(dispatch, (Request::SendDm { content }, store, id, now), d),
    ensures
        final(store).spec_entries() == old(store).spec_entries(),
        d matches Dispatch::Queue(s) ==> stripped(content@, s@) && s@.len() > 0,
        d matches Dispatch::Answer(a) ==> stripped(content@, Seq::empty()) && a.id@ == id@ && !a.ok
            && a.error is Some,
{
    law_trimming_strips_the_ends(content@);
    if trimmed(content@).len() == 0 {
        assert(trimmed(content@) =~= Seq::empty());
    }
}

/// A prompt that a tool wants scheduled is answered under the id of the request: with the
/// id of the entry, which then stands behind the others and asks for the whole of what was
/// asked for; or with why it was refused, and then the schedule stays as it is.
pub proof fn law_dispatch_of_a_schedule(
    what: String,
    when: Option<String>,
    cron: Option<String>,
    store: &mut CronStore,
    id: String,
    now: &Moment,
    d: Dispatch,
)
    requires
        call_ensures(dispatch, (Request::Schedule { what, when, cron }, store, id, now), d),
    ensures
        d is Answer,
        d matches Dispatch::Answer(a) ==> {
            let before = old(store).spec_entries();
            let after = final(store).spec_entries();
            &&& a.id@ == id@
            &&& !a.ok ==> after == before && a.error is Some && a.entry_id is None
            &&& a.ok ==> after.len() == before.len() + 1 && after.drop_last() == before && a.error
                is None && text_option(a.entry_id) == Some(after.last().id) && stripped(
                what@,
                after.last().what,
            ) && after.last().cron == text_option(cron)
        },
{
    let r = choose|r: Result<String, Failure>|
        {
            &&& #[trigger] crate::cron::append_outcome(
                old(store).spec_entries(),
                what@,
                text_option(when),
                text_option(cron),
                *now,
                final(store).spec_entries(),
                r,
            )
            &&& d matches Dispatch::Answer(a) && a@ == crate::orchestrator_socket::schedule_answer(
                id@,
                r,
            )
        };
    law_appended_entry_comes_last(
        old(store).spec_entries(),
        what@,
        text_option(when),
        text_option(cron),
        *now,
        final(store).spec_entries(),
        r,
    );
}

/// A message that was handed over is answered under the id of its request, and well exactly
/// where it was taken.
pub proof fn law_answer_to_a_message(id: String, taken: bool, r: Response)
    requires
        call_ensures(queued, (id, taken), r),
    ensures
        r.id@ == id@,
        r.ok == taken,
        r.error is None <==> taken,
        r.entry_id is None,
{
}

/// The prompt that is built for a message shows every message of the history that is no
/// summary, with the one who said it, and ends with the message itself.
pub proof fn law_built_prompt_shows_everything(
    history: &[Event],
    user_message: &str,
    i: int,
    t: Seq<char>,
    said: Seq<char>,
    s: String,
)
    requires
        call_ensures(PiRuntime::build_prompt, (history, user_message), s),
        0 <= i < history@.len(),
        stripped(history@[i]@.text, t),
        stripped(user_message@, said),
    ensures
        history@[i]@.kind != EventKind::Summary ==> occurs_in(shown_as(history@[i]@, t), s@),
        finishes_with(
            s@,
            "# Owner just sent\n\n"@ + said
                + "\n\nRespond as Glass. Discord DM register — conversational, not a doc. AGENTS.md tells you who you are and where memory lives.\n"@,
        ),
{
    assert(event_views(history@)[i] == history@[i]@);
    law_prompt_shows_the_whole_history(event_views(history@), user_message@, i, t, said);
}

/// A turn that begins without a compaction hands the agent the whole conversation: the
/// history that is given, followed by the event of the message, is exactly the live
/// conversation then, and both logs have grown by that event alone.
pub proof fn law_turn_hands_over_the_conversation(
    engine: &mut TurnEngine,
    said: String,
    r: TurnRequest,
)
    requires
        call_ensures(TurnEngine::begin, (engine, said), r),
        r is Run,
    ensures
        ({
            let before = old(engine)@.history;
            let after = final(engine)@.history;
            let n = before.current.len() as int;
            &&& r->message@ == said@
            &&& event_views(r->prior@) == before.current
            &&& after.current == event_views(r->prior@).push(after.current[n])
            &&& after.current[n].text == said@
            &&& after.current[n].kind == EventKind::User
            &&& after.audit == before.audit.push(after.current[n])
        }),
{
    let e = choose|e: EventView|
        message_added(old(engine)@, said@, e, final(engine)@, r@);
    law_agent_is_given_the_whole_conversation(old(engine)@, said@, e, final(engine)@, r@);
    assert(final(engine)@.history.current[old(engine)@.history.current.len() as int] == e);
}

/// A reply ends the turn, and is added to both logs as it is, behind all that was there.
pub proof fn law_reply_is_remembered(engine: &mut TurnEngine, reply: String)
    requires
        call_ensures(TurnEngine::replied, (engine, reply), ()),
    ensures
        ({
            let before = old(engine)@.history;
            let after = final(engine)@.history;
            let n = before.current.len() as int;
            &&& after.current == before.current.push(after.current[n])
            &&& after.current[n].text == reply@
            &&& after.current[n].kind == EventKind::Agent
            &&& after.audit == before.audit.push(after.current[n])
            &&& final(engine)@.stage is Idle
            &&& final(engine)@.limits == old(engine)@.limits
        }),
{
    let e = choose|e: EventView|
        {
            &&& #[trigger] crate::turn::says(e, EventKind::Agent, reply@)
            &&& final(engine)@ == (EngineView {
                history: crate::turn::with_event(old(engine)@.history, e),
                stage: StageView::Idle,
                ..old(engine)@
            })
        };
    assert(final(engine)@.history.current[old(engine)@.history.current.len() as int] == e);
}

/// A conversation that ends with a message of the user is parted into that message and all
/// that was before it; any other is refused.
pub proof fn law_trailing_message_is_split_off(
    current: &Vec<Event>,
    r: Result<(String, Vec<Event>), Failure>,
)
    requires
        call_ensures(split_trailing, (current,), r),
    ensures
        ({
            let all = event_views(current@);
            &&& r is Ok <==> all.len() > 0 && all[all.len() - 1].kind == EventKind::User
            &&& r matches Ok((message, prior)) ==> message@ == all[all.len() - 1].text
                && event_views(prior@) == all.take(all.len() - 1)
        }),
{
    let all = event_views(current@);
    if all.len() > 0 {
        assert(all.drop_last() =~= all.take(all.len() - 1));
    }
}

/// Once the summary that was asked for is there, the agent is handed the summary and every
/// event that it does not stand for; that, followed by the event of the message, is exactly
/// the live conversation then, and the audit log has grown by the two events alone.
pub proof fn law_turn_goes_on_after_a_summary(
    engine: &mut TurnEngine,
    body: String,
    r: TurnRequest,
    cut: nat,
    said: Seq<char>,
)
    requires
        call_ensures(TurnEngine::summarized, (engine, body), r),
        old(engine)@.stage == StageView::Summarizing(cut, said),
        cut <= old(engine)@.history.current.len(),
    ensures
        ({
            let before = old(engine)@.history;
            let after = final(engine)@.history;
            let n = after.current.len() - 1;
            &&& r is Run
            &&& r->message@ == said
            &&& after.current == event_views(r->prior@).push(after.current[n])
            &&& after.current[n].text == said
            &&& after.current[n].kind == EventKind::User
            &&& after.current[0].text == body@
            &&& after.current[0].kind == EventKind::Summary
            &&& event_views(r->prior@).skip(1) == before.current.skip(cut as int)
            &&& after.audit == before.audit.push(after.current[0]).push(after.current[n])
        }),
{
    let (summary, folded, e) = choose|summary: EventView, folded: EngineView, e: EventView|
        summary_then_message(old(engine)@, body@, summary, folded, e, final(engine)@, r@);
    law_agent_is_given_the_summary_and_the_rest(
        old(engine)@,
        body@,
        summary,
        folded,
        e,
        final(engine)@,
        r@,
    );
    let before = old(engine)@.history;
    let after = final(engine)@.history;
    let prior = event_views(r->prior@);
    assert(after.current[after.current.len() - 1] == e);
    assert(after.current[0] == prior[0]);
    assert(prior.skip(1) =~= before.current.skip(cut as int));
}

/// What is compacted keeps every event from the cut on, behind the summary.
pub proof fn law_compact_keeps_the_recent_events(
    current: &Vec<Event>,
    cut: usize,
    summary: Event,
    out: Vec<Event>,
    i: int,
)
    requires
        call_ensures(compact, (current, cut, summary), out),
        cut <= current@.len(),
    ensures
        out@.len() == current@.len() - cut + 1,
        out@[0]@ == summary@,
        cut <= i < current@.len() ==> out@[i - cut + 1]@ == current@[i]@,
{
    let all = event_views(out@);
    assert(all.len() == out@.len());
    assert(all[0] == out@[0]@);
    if cut <= i < current@.len() {
        assert(all[i - cut + 1] == out@[i - cut + 1]@);
        assert(event_views(current@)[i] == current@[i]@);
    }
}

/// A plan hands over exactly the events before its cut, and leaves at least the tokens that
/// are to be kept; there is one exactly where the conversation has reached the threshold and
/// less than all of it is enough to be kept.
pub proof fn law_plan_is_made_when_long(
    current: &Vec<Event>,
    limits: &CompactionLimits,
    r: Option<CompactionPlan>,
    i: int,
)
    requires
        call_ensures(plan_compaction, (current, limits), r),
    ensures
        ({
            let all = event_views(current@);
            &&& r is Some <==> tokens(all) >= limits.threshold_tokens && exists|k: int|
                0 < k < all.len() && tokens(#[trigger] all.subrange(k, all.len() as int))
                    >= limits.keep_recent_tokens
            &&& r matches Some(plan) ==> {
                let led = all[0].kind == EventKind::Summary;
                &&& 0 < plan.cut < all.len()
                &&& tokens(all.skip(plan.cut as int)) >= limits.keep_recent_tokens
                &&& plan.transcript@.len() == if led {
                    plan.cut - 1
                } else {
                    plan.cut as int
                }
                &&& text_option(plan.prior_summary) == if led {
                    Some(all[0].text)
                } else {
                    None
                }
                &&& 0 <= i < plan.cut && (i > 0 || !led) ==> plan.transcript@[if led {
                    i - 1
                } else {
                    i
                }]@ == all[i]
            }
        }),
{
    let all = event_views(current@);
    law_compacted_when_long(all, *limits);
    if let Some(plan) = r {
        law_kept_tail_is_just_enough(all, *limits);
        let at = if 0 <= i < plan.cut {
            i
        } else {
            0
        };
        law_plan_hands_over_what_it_replaces(all, *limits, at);
        assert(event_views(plan.transcript@).len() == plan.transcript@.len());
        assert(forall|k: int|
            0 <= k < plan.transcript@.len() ==> event_views(plan.transcript@)[k]
                == (#[trigger] plan.transcript@[k])@);
    }
}

/// A live message is taken in exactly where it is no bot's and was sent directly, with its
/// author, its conversation, its text and its instant.
pub proof fn law_live_message_is_taken_in(msg: &ChannelMessage, r: Option<IncomingDm>)
    requires
        call_ensures(accept_live, (msg,), r),
    ensures
        r is Some <==> !msg.author_is_bot && !msg.in_guild,
        r matches Some(dm) ==> dm.author == msg.author && dm.channel == msg.channel && dm.content@
            == msg.content@ && dm.timestamp.secs == msg.timestamp.secs && dm.timestamp.nanos
            == msg.timestamp.nanos,
{
}

/// Every missed message that the operator sent directly, unless it is blank, is taken in,
/// with its text.
pub proof fn law_missed_message_is_taken_in(
    messages: &Vec<ChannelMessage>,
    operator: AuthorId,
    out: Vec<IncomingDm>,
    at: int,
    i: int,
)
    requires
        call_ensures(missed_dms, (messages, operator), out),
        0 <= at < messages@.len(),
        messages@[at].author == operator,
        !messages@[at].author_is_bot,
        !messages@[at].in_guild,
        0 <= i < messages@[at].content@.len(),
        !is_white(messages@[at].content@[i]),
    ensures
        exists|k: int|
            0 <= k < out@.len() && (#[trigger] out@[k]).content@ == messages@[at].content@
                && out@[k].timestamp.secs == messages@[at].timestamp.secs && out@[k].channel
                == messages@[at].channel,
{
    law_no_missed_message_is_lost(messages@, operator, at, i);
    let all = missed(messages@, operator);
    let k = choose|k: int| 0 <= k < all.len() && all[k] == messages@[at];
    assert(same_message(all[k], out@[k]));
    assert(out@[k].content@ == messages@[at].content@);
}

/// Nothing is replayed that the operator did not send directly, or that is blank, and the
/// oldest comes first.
pub proof fn law_only_missed_messages_are_replayed(
    messages: &Vec<ChannelMessage>,
    operator: AuthorId,
    out: Vec<IncomingDm>,
    k: int,
    l: int,
)
    requires
        call_ensures(missed_dms, (messages, operator), out),
        forall|i: int, j: int|
            0 <= i < j < messages@.len() ==> messages@[j].timestamp.up_to(messages@[i].timestamp),
        0 <= k < l < out@.len(),
    ensures
        out@[k].author == operator,
        trimmed(out@[k].content@).len() > 0,
        out@[k].timestamp.secs <= out@[l].timestamp.secs,
{
    let all = missed(messages@, operator);
    law_missed_are_the_operators(messages@, operator);
    law_missed_are_replayed_in_order(messages@, operator);
    assert(same_message(all[k], out@[k]));
    assert(same_message(all[l], out@[l]));
    assert(taken_late(all[k], operator));
    assert(all[k].timestamp.up_to(all[l].timestamp));
}

/// A reply is sent in pieces that fit the platform's limit, and as one where it fits whole.
pub proof fn law_reply_fits_the_platform(content: &str, out: Vec<String>, i: int)
    requires
        call_ensures(reply_chunks, (content,), out),
    ensures
        0 <= i < out@.len() ==> byte_len(out@[i]@) <= 1900,
        byte_len(content@) <= 1900 ==> out@.len() == 1 && out@[0]@ == content@,
{
    assert(texts(out@).len() == out@.len());
    if byte_len(content@) <= 1900 {
        assert(texts(out@)[0] == out@[0]@);
    }
}

/// Messages that come in wait as long as both times allow, or are sent as one, with an
/// empty line between each two, in their order; none is lost.
pub proof fn law_coalescer_loses_nothing(
    c: &mut Coalescer,
    m: String,
    elapsed: u64,
    act: CoalesceAction,
)
    requires
        call_ensures(Coalescer::step, (c, CoalesceEvent::Message(m), elapsed), act),
    ensures
        match act {
            CoalesceAction::Post(s) => elapsed >= old(c).max_wait() && s@ == joined_with(
                old(c).waiting().push(m@),
                "\n\n"@,
            ) && final(c).waiting().len() == 0,
            CoalesceAction::Wait(w) => elapsed < old(c).max_wait() && final(c).waiting()
                == old(c).waiting().push(m@) && w <= old(c).coalesce() && w + elapsed
                <= old(c).max_wait() && (w == old(c).coalesce() || w + elapsed
                == old(c).max_wait()),
            CoalesceAction::Exit => false,
        },
{
}

/// When the wait is over what waits is sent as one message, and nothing waits any more.
pub proof fn law_coalescer_sends_what_waits(
    c: &mut Coalescer,
    elapsed: u64,
    event: CoalesceEvent,
    act: CoalesceAction,
)
    requires
        call_ensures(Coalescer::step, (c, event, elapsed), act),
        !(event is Message),
        old(c).waiting().len() > 0,
    ensures
        act matches CoalesceAction::Post(s) && s@ == joined_with(old(c).waiting(), "\n\n"@),
        final(c).waiting().len() == 0,
{
}

/// An expression that is understood has five fields, and stands for what the full
/// expression on second 0 in any year stands for.
pub proof fn law_cron_expression_is_read(
    expr: &str,
    t: Seq<char>,
    r: Result<::cron::Schedule, Failure>,
)
    requires
        call_ensures(parse_cron, (expr,), r),
        stripped(expr@, t),
    ensures
        r is Ok <==> word_count(expr@) == 5 && cron_slots("0 "@ + t + " *"@) is Ok,
        r matches Ok(s) ==> cron_slots("0 "@ + t + " *"@) == Ok::<Set<int>, Seq<char>>(slots_of(s)),
{
    law_expression_is_read_whole(expr@, t);
}

/// The account of a time: how long it is until then is rounded down, in the two largest
/// units that count.
pub proof fn law_delta_is_rounded_down(total: i64, s: String, days: nat, hours: nat, mins: nat)
    requires
        call_ensures(relative_delta, (total,), s),
    ensures
        total < 0 ==> s@ == "overdue"@,
        0 <= total < 60 ==> s@ == "in <1m"@,
        0 < mins < 60 && mins * 60 <= total < mins * 60 + 60 ==> s@ == "in "@ + decimal_of(mins)
            + "m"@,
        0 < hours < 24 && mins < 60 && hours * 3600 + mins * 60 <= total < hours * 3600 + mins * 60
            + 60 ==> s@ == "in "@ + decimal_of(hours) + "h "@ + decimal_of(mins) + "m"@,
        0 < days && hours < 24 && days * 86400 + hours * 3600 <= total < days * 86400 + hours * 3600
            + 3600 ==> s@ == "in "@ + decimal_of(days) + "d "@ + decimal_of(hours) + "h"@,
{
    law_time_left_is_rounded_down(total as int, days, hours, mins);
}

/// A poll of entries with their next slots: each that fires, and each that stays, was there,
/// with the same id, prompt, time and expression.
pub proof fn law_poll_rewrites_nothing(
    entries: Vec<CronEntry>,
    now: &Moment,
    slots: &Vec<Option<Moment>>,
    r: PollResult,
    i: int,
)
    requires
        call_ensures(poll_with, (entries, now, slots), r),
    ensures
        0 <= i < r.fire@.len() ==> exists|k: int|
            0 <= k < entries@.len() && same_but_fired((#[trigger] entries@[k])@, r.fire@[i]@),
        0 <= i < r.keep@.len() ==> exists|k: int|
            0 <= k < entries@.len() && same_but_fired((#[trigger] entries@[k])@, r.keep@[i]@),
{
    let all = entry_views(entries@);
    law_poll_keeps_ids_and_prompts(all, *now, slots@, i);
    if 0 <= i < r.fire@.len() {
        assert(entry_views(r.fire@)[i] == r.fire@[i]@);
        let k = choose|k: int|
            0 <= k < all.len() && same_but_fired(#[trigger] all[k], r.fire@[i]@);
        assert(all[k] == entries@[k]@);
    }
    if 0 <= i < r.keep@.len() {
        assert(entry_views(r.keep@)[i] == r.keep@[i]@);
        let k = choose|k: int|
            0 <= k < all.len() && same_but_fired(#[trigger] all[k], r.keep@[i]@);
        assert(all[k] == entries@[k]@);
    }
}

/// A poll of a single entry for one time: it fires as it is once its time has come, and is
/// kept as it is until then.
pub proof fn law_poll_of_a_one_shot(
    entries: Vec<CronEntry>,
    now: &Moment,
    slots: &Vec<Option<Moment>>,
    r: PollResult,
    m: Moment,
)
    requires
        call_ensures(poll_with, (entries, now, slots), r),
        entries@.len() == 1,
        slots@.len() == 1,
        entries@[0].fire_at is Some,
        entries@[0].cron is None,
        moment_of(entries@[0].fire_at->0@) == Some(m),
    ensures
        ({
            let due = now.secs > m.secs || (now.secs == m.secs && now.nanos >= m.nanos);
            &&& due ==> r.fire@.len() == 1 && r.keep@.len() == 0 && r.fire@[0]@ == entries@[0]@
            &&& !due ==> r.fire@.len() == 0 && r.keep@.len() == 1 && r.keep@[0]@ == entries@[0]@
        }),
{
    let e = entries@[0]@;
    law_one_shot_fires_when_its_time_has_come(e, *now, slots@[0], m);
    assert(entry_views(entries@) =~= seq![e]);
    assert(slots@ =~= seq![slots@[0]]);
    assert(entry_views(r.fire@).len() == r.fire@.len());
    assert(entry_views(r.keep@).len() == r.keep@.len());
    if r.fire@.len() > 0 {
        assert(entry_views(r.fire@)[0] == r.fire@[0]@);
    }
    if r.keep@.len() > 0 {
        assert(entry_views(r.keep@)[0] == r.keep@[0]@);
    }
}

/// A line that was printed is recorded whole, unless it is blank, with a single line feed at
/// its end.
pub proof fn law_log_line_keeps_the_line(raw: &str, r: Option<String>)
    requires
        call_ensures(log_line, (raw,), r),
    ensures
        r is Some <==> exists|i: int| 0 <= i < raw@.len() && !is_white(#[trigger] raw@[i]),
        r matches Some(line) ==> {
            let n = line@.len() - 1;
            &&& 0 <= n <= raw@.len()
            &&& line@[n] == '\n'
            &&& forall|i: int| 0 <= i < n ==> #[trigger] line@[i] == raw@[i]
            &&& forall|i: int| n <= i < raw@.len() ==> #[trigger] raw@[i] == '\n'
            &&& n > 0 ==> raw@[n - 1] != '\n'
        },
{
    law_printed_line_is_recorded_whole(raw@);
}

/// The footer of a run tells when it ended, how, and the milliseconds that it took, which
/// are never negative.
pub proof fn law_footer_of_a_run(
    log: InvocationLog,
    status: InvocationStatus,
    now: &Moment,
    e: EndLine,
)
    requires
        call_ensures(InvocationLog::complete, (log, status, now), e),
    ensures
        e.ended_at@ == rfc3339_text(now.secs as int, now.nanos as int, now.offset as int),
        status is Succeeded ==> e.status@ == "ok"@ && e.error is None,
        status is Cancelled ==> e.status@ == "cancelled"@ && e.error is None,
        status matches InvocationStatus::Failed(m) ==> e.status@ == "error"@ && text_option(e.error)
            == Some(m@),
        e.duration_ms >= 0,
{
}

/// The settings are those of the environment; a default stands only for one that is not
/// set.
pub proof fn law_settings_of_an_environment(env: Environment, r: Result<Config, Failure>)
    requires
        call_ensures(Config::from_env, (env,), r),
    ensures
        r is Ok <==> {
            &&& env.discord_token is Ok
            &&& env.owner_id is Ok
            &&& number_of(env.owner_id->Ok_0@) is Some
            &&& number_of(env.owner_id->Ok_0@)->0 <= 0xffff_ffff_ffff_ffff
            &&& env.system_data is Some || env.data_dir is Some
        },
        r matches Ok(c) ==> {
            &&& c.discord_token@ == env.discord_token->Ok_0@
            &&& number_of(env.owner_id->Ok_0@) == Some(c.owner_id.0 as nat)
            &&& env.loom_command matches Some(s) ==> c.loom_command@ == s@
            &&& env.loom_command is None ==> c.loom_command@ == "loom"@
            &&& env.manifest matches Some(s) ==> c.manifest@ == s@
            &&& env.manifest is None ==> c.manifest@ == "./manifests/glass.toml"@
            &&& env.cron_manifest matches Some(s) ==> c.cron_manifest@ == s@
            &&& env.cron_manifest is None ==> c.cron_manifest@ == "./manifests/cron.toml"@
            &&& env.system_data matches Some(s) ==> c.system_data@ == s@
            &&& env.system_data is None ==> finishes_with(c.system_data@, "Glass"@) && c.system_data@.take(
                env.data_dir->0@.len() as int,
            ) == env.data_dir->0@
        },
{
    if let Ok(c) = r {
        if env.system_data is None {
            law_one_separator(env.data_dir->0@, "Glass"@);
            let path = c.system_data@;
            assert(path.skip(path.len() - "Glass"@.len()) =~= path.subrange(
                path.len() - "Glass"@.len(),
                path.len() as int,
            ));
        }
    }
}

/// The runner is given the prompt and the manifest as they are.
pub proof fn law_runner_is_given_the_prompt(
    cli: &LoomCli,
    manifest: &str,
    prompt: &str,
    logged: bool,
    args: Vec<String>,
)
    requires
        call_ensures(LoomCli::args, (cli, manifest, prompt, logged), args),
    ensures
        args@.len() == if logged {
            6int
        } else {
            5int
        },
        args@[0]@ == "prompt"@,
        args@[1]@ == manifest@,
        args@[2]@ == prompt@,
        logged ==> args@[5]@ == "--emit-preamble"@,
{
    assert(texts(args@).len() == args@.len());
    assert(forall|i: int| 0 <= i < args@.len() ==> texts(args@)[i] == (#[trigger] args@[i])@);
}

/// A run of the agent of the conversation is given the prompt last, as it is.
pub proof fn law_agent_is_given_the_prompt(pi: &PiRuntime, prompt: &str, args: Vec<String>)
    requires
        call_ensures(PiRuntime::args, (pi, prompt), args),
    ensures
        ({
            let n = args@.len() as int;
            let extra = pi.extra_args@.len() as int;
            &&& n == extra + 2 + if pi.model_arg is Some {
                2int
            } else {
                0int
            }
            &&& args@[n - 1]@ == prompt@
            &&& args@[n - 2]@ == "-p"@
            &&& forall|i: int|
                0 <= i < extra ==> args@[n - 2 - extra + i]@ == (#[trigger] pi.extra_args@[i])@
            &&& pi.model_arg matches Some(m) ==> args@[0]@ == "--model"@ && args@[1]@ == m@
        }),
{
    let all = texts(args@);
    assert(all.len() == args@.len());
    assert(forall|i: int| 0 <= i < args@.len() ==> all[i] == (#[trigger] args@[i])@);
    let extra = texts(pi.extra_args@);
    let n = args@.len() as int;
    assert forall|i: int| 0 <= i < pi.extra_args@.len() implies args@[n - 2
        - pi.extra_args@.len() + i]@ == (#[trigger] pi.extra_args@[i])@ by {
        assert(extra[i] == pi.extra_args@[i]@);
        assert(all[n - 2 - extra.len() + i] == extra[i]);
    }
}

/// The reply of a run is all that it printed but for the white space at its ends, and there
/// is one exactly where the run went well and printed something.
pub proof fn law_reply_of_a_run(
    success: bool,
    status: &str,
    stdout: &str,
    stderr: &str,
    t: Seq<char>,
    r: Result<String, Failure>,
)
    requires
        call_ensures(reply_of, (success, status, stdout, stderr), r),
        stripped(stdout@, t),
    ensures
        r is Ok <==> success && t.len() > 0,
        r matches Ok(s) ==> s@ == t,
{
    law_reply_is_what_was_printed(success, status@, stdout@, stderr@, t);
}

/// The request on a line is answered under its own id, as JSON, exactly where it has one
/// that is not null.
pub proof fn law_answer_carries_the_id(line: &str, request: Json, r: Option<McpAnswer>, i: int)
    requires
        call_ensures(answer_line, (line,), r),
        json_of(line@) == Ok::<Json, Seq<char>>(request),
        0 <= i < line@.len(),
        !is_white(line@[i]),
    ensures
        r is Some <==> request.member("id"@) is Some && !(request.member("id"@)->0.node is Null),
        r matches Some(a) ==> a.id@ == request.member("id"@)->0.text@,
{
    law_requests_with_an_id_are_answered(line@, i);
}

/// Every note is in what is rendered, under its name and whole but for the white space at
/// its ends.
pub proof fn law_rendered_notes(blocks: Vec<Block>, s: String, i: int, t: Seq<char>)
    requires
        call_ensures(render_agents_md, (blocks,), s),
        0 <= i < blocks@.len(),
        stripped(blocks@[i].body@, t),
    ensures
        occurs_in(
            "\n---\n## block: "@ + (if blocks@[i].stem is Some {
                blocks@[i].stem->0@
            } else {
                "block"@
            }) + "\n\n"@ + t + "\n"@,
            s@,
        ),
{
    let all = block_views(blocks@);
    assert(all[i] == blocks@[i]@);
    law_every_note_is_shown(all, i);
    law_note_is_shown_whole(all[i], t);
    lemma_occurs_in_longer(
        blocks_text(seq![all[i]]),
        agents_header(),
        blocks_text(by_file_name(all)),
        agents_footer(),
    );
}

/// What is removed is printed with its id; otherwise the program exits badly and prints
/// nothing but an error.
pub proof fn law_report_of_a_removal(r: &RemoveResult, asked: &str, report: Report, i: int)
    requires
        call_ensures(remove_report, (r, asked), report),
    ensures
        report.code == 0 <==> r is Removed,
        report.code == 0 || report.code == 1,
        r matches RemoveResult::Removed(e) ==> report.err@.len() == 0 && begins_with(
            report.out@,
            "Removed cron entry "@ + e.id@ + ".\n"@,
        ),
        !(r is Removed) ==> report.out@.len() == 0 && occurs_in(debug_text(asked@), report.err@),
        r matches RemoveResult::Ambiguous(ids) ==> (0 <= i < ids@.len() ==> occurs_in(
            "  "@ + ids@[i]@ + "\n"@,
            report.err@,
        )),
{
    law_removal_is_reported(*r, asked@, i);
}

/// A step of the runs for due entries begins the first of those that came due, with its own
/// prompt, and leaves the others to wait in their order.
pub proof fn law_poller_begins_what_is_due(
    poller: &mut Poller,
    due: Vec<CronEntry>,
    out: Vec<BusAction>,
    i: int,
)
    requires
        call_ensures(Poller::step, (poller, PollerEvent::Due(due)), out),
        due@.len() > 0,
    ensures
        out@.len() == 2,
        out@[0] matches BusAction::OpenRecord(c) && c.prompt@ == due@[0].what@ && text_option(
            c.cron_id,
        ) == Some(due@[0].id@) && c.manifest@ == old(poller)@.manifest,
        out@[1] matches BusAction::StartRun(asked) && asked@ == due@[0].what@,
        final(poller)@.running,
        final(poller)@.waiting.len() == due@.len() - 1,
        0 <= i < due@.len() - 1 ==> final(poller)@.waiting[i] == due@[i + 1]@,
{
    law_due_entries_are_begun(old(poller)@, due);
    let all = acts(out@);
    assert(all.len() == out@.len());
    assert(forall|k: int| 0 <= k < out@.len() ==> all[k] == (#[trigger] out@[k])@);
}

/// An identifier has the length that was asked for, and numbers that differ in their lowest
/// digit have identifiers that differ in their first symbol.
pub proof fn law_identifier_of_a_number(n: u128, m: u128, len: usize, a: String, b: String)
    requires
        call_ensures(encode_id, (n, len), a),
        call_ensures(encode_id, (m, len), b),
    ensures
        a@.len() == len,
        len > 0 && n % 32 != m % 32 ==> a@[0] != b@[0],
{
    law_id_length(n as nat, len as nat);
    if len > 0 && n % 32 != m % 32 {
        law_neighbours_differ_at_once(n as nat, m as nat, len as nat);
    }
}

/// The records of a file are read back as they were written, each with the number of its
/// line.
pub proof fn law_file_gives_back_its_records(
    records: &Vec<String>,
    text: String,
    raw: &str,
    out: Vec<DataLine>,
    i: int,
)
    requires
        call_ensures(frame_lines, (records,), text),
        call_ensures(data_lines, (raw,), out),
        raw@ == text@,
        forall|k: int|
            0 <= k < records@.len() ==> fits_line((#[trigger] records@[k])@) && trimmed(
                records@[k]@,
            ).len() > 0,
    ensures
        out@.len() == records@.len(),
        0 <= i < records@.len() ==> out@[i].text@ == records@[i]@ && out@[i].number == i + 1,
{
    let all = texts(records@);
    assert forall|k: int| 0 <= k < all.len() implies fits_line(#[trigger] all[k]) && trimmed(
        all[k],
    ).len() > 0 by {
        assert(all[k] == records@[k]@);
    }
    law_read_gives_back_what_was_written(all);
    assert(data_views(out@).len() == out@.len());
    if 0 <= i < records@.len() {
        assert(data_views(out@)[i] == (out@[i].number as int, out@[i].text@));
        assert(all[i] == records@[i]@);
    }
}

/// What is known of an event, an entry, an answer or a note is all of it: nothing is left
/// out of what contracts speak of.
pub proof fn law_views_tell_everything(e: Event, c: CronEntry, r: Response, b: Block)
    ensures
        e matches Event::UserMessage { timestamp, content } ==> e@.kind == EventKind::User
            && e@.timestamp == timestamp && e@.text == content@,
        e matches Event::AgentMessage { timestamp, content } ==> e@.kind == EventKind::Agent
            && e@.timestamp == timestamp && e@.text == content@,
        e matches Event::Summary { timestamp, body } ==> e@.kind == EventKind::Summary
            && e@.timestamp == timestamp && e@.text == body@,
        c@.id == c.id@ && c@.what == c.what@,
        c.fire_at is None <==> c@.fire_at is None,
        c.fire_at matches Some(s) ==> c@.fire_at == Some(s@),
        c.cron is None <==> c@.cron is None,
        c.cron matches Some(s) ==> c@.cron == Some(s@),
        c.last_fired_at is None <==> c@.last_fired_at is None,
        c.last_fired_at matches Some(s) ==> c@.last_fired_at == Some(s@),
        r@.id == r.id@ && r@.ok == r.ok,
        r.error is None <==> r@.error is None,
        r.error matches Some(s) ==> r@.error == Some(s@),
        r.entry_id is None <==> r@.entry_id is None,
        r.entry_id matches Some(s) ==> r@.entry_id == Some(s@),
        b@.file_name == b.file_name@ && b@.body == b.body@,
        b.stem is None <==> b@.stem is None,
        b.stem matches Some(s) ==> b@.stem == Some(s@),
{
}

/// The account of a run is kept under the directory that was given, in a file that is called
/// by the local time at which the run started, and its header tells that time and what the
/// run is for.
pub proof fn law_record_is_kept_where_asked(
    dir: &str,
    context: InvocationContext,
    now: &Moment,
    id: &str,
    r: (InvocationLog, StartLine),
)
    requires
        call_ensures(InvocationLog::open_as, (dir, context, now, id), r),
    ensures
        ({
            let path = r.0.spec_path();
            let name = wall_text(now.secs + now.offset, "%Y-%m-%d_%H%M%S"@) + "-"@ + id@
                + ".jsonl"@;
            &&& path.take(dir@.len() as int) == dir@
            &&& path.skip(path.len() - name.len()) == name
            &&& path.len() <= dir@.len() + 1 + name.len()
            &&& r.1.started_at@ == rfc3339_text(
                now.secs as int,
                now.nanos as int,
                now.offset as int,
            )
            &&& r.1.context.prompt@ == context.prompt@
            &&& r.1.context.manifest@ == context.manifest@
            &&& r.1.context.trigger == context.trigger
            &&& r.1.context.channel == context.channel
        }),
{
    let name = wall_text(now.secs + now.offset, "%Y-%m-%d_%H%M%S"@) + "-"@ + id@ + ".jsonl"@;
    law_one_separator(dir@, name);
}

/// A turn that is given up leaves all that was said in both logs, and another can begin.
pub proof fn law_abandoned_turn_keeps_the_history(engine: &mut TurnEngine)
    requires
        call_ensures(TurnEngine::abandon, (engine,), ()),
    ensures
        final(engine)@.history == old(engine)@.history,
        final(engine)@.limits == old(engine)@.limits,
        final(engine)@.stage is Idle,
{
}

/// An event is made of the very text that was said, and dated when the clock was read.
pub proof fn law_events_hold_what_was_said(text: String, u: Event, a: Event, s: Event)
    requires
        call_ensures(Event::user, (text,), u),
        call_ensures(Event::agent, (text,), a),
        call_ensures(Event::summary, (text,), s),
    ensures
        u@.text == text@ && u@.kind == EventKind::User && now_given(u@.timestamp),
        a@.text == text@ && a@.kind == EventKind::Agent && now_given(a@.timestamp),
        s@.text == text@ && s@.kind == EventKind::Summary && now_given(s@.timestamp),
{
}

/// A message is recorded as it is, with the time and the way that it went.
pub proof fn law_message_is_recorded_as_it_is(
    log: &DmLog,
    direction: Direction,
    content: &str,
    now: &Moment,
    e: DmEntry,
)
    requires
        call_ensures(DmLog::entry, (log, direction, content, now), e),
    ensures
        e.content@ == content@,
        e.direction == direction,
        e.at@ == rfc3339_text(now.secs as int, now.nanos as int, now.offset as int),
{
}

/// Where there is a model of the name that was chosen, it is the one that is taken, with all
/// that is known of it; and only where there is none the choice fails.
pub proof fn law_chosen_model_is_taken(
    config: &ModelsConfig,
    r: Result<ResolvedModel, Failure>,
    i: int,
)
    requires
        call_ensures(ModelsConfig::resolve, (config,), r),
        distinct_names(config.models@),
        0 <= i < config.models@.len(),
        config.models@[i].0@ == config.selected@,
    ensures
        r matches Ok(m) && m.name@ == config.selected@ && m.context_window_tokens
            == config.models@[i].1.context_window_tokens && m.compaction_threshold_bits
            == config.models@[i].1.compaction_threshold_bits && m.keep_recent_tokens
            == config.models@[i].1.keep_recent_tokens && text_option(m.pi_arg) == text_option(
            config.models@[i].1.pi_arg,
        ) && texts(m.extra_pi_args@) == texts(config.models@[i].1.extra_pi_args@),
{
    assert(names(config.models@)[i] == config.selected@);
    assert(names(config.models@).contains(config.selected@));
    if let Ok(m) = r {
        let k = choose|k: int|
            0 <= k < config.models@.len() && (#[trigger] config.models@[k]).0@ == config.selected@
                && config.models@[k].1@ == m.model();
        law_choice_is_unambiguous(config.models@, i, k);
    }
}

/// The built-in tools that a session called are told by name, in order and each once: all of
/// them, and no others.
pub proof fn law_builtin_tools_are_told(raw: &Json, called: Vec<String>, name: Seq<char>)
    requires
        call_ensures(check_for_builtin_tool_calls, (Some(raw),), called),
    ensures
        raw.node matches Node::List(messages) ==> (texts(called@).contains(name) <==> exists|i: int|
            0 <= i < messages@.len() && message_calls_builtin(#[trigger] messages@[i], name)),
        strictly_in_order(texts(called@)),
{
    law_builtin_calls_are_all_found(*raw, name);
}

/// What the arguments ask to be removed is asked for as it was written.
pub proof fn law_removal_is_asked_for(args: &Vec<String>, c: Command)
    requires
        call_ensures(parse_command, (args,), c),
    ensures
        c is Daemon <==> args@.len() == 0,
        c is CronRemove <==> args@.len() == 3 && args@[0]@ == "cron"@ && args@[1]@ == "rm"@,
        c matches Command::CronRemove(id) ==> id@ == args@[2]@,
        c is CronList <==> args@.len() == 2 && args@[0]@ == "cron"@ && args@[1]@ == "list"@,
        c is Help <==> args@.len() == 1 && (args@[0]@ == "help"@ || args@[0]@ == "-h"@
            || args@[0]@ == "--help"@),
{
    let all = texts(args@);
    assert(all.len() == args@.len());
    assert(forall|i: int| 0 <= i < args@.len() ==> all[i] == (#[trigger] args@[i])@);
}

/// A date that is accepted lies in the future, at the very reading of the local time.
pub proof fn law_accepted_date_lies_ahead(
    input: &str,
    now: &Moment,
    t: Seq<char>,
    m: Moment,
    r: Result<Moment, Failure>,
)
    requires
        call_ensures(parse_when, (input, now), r),
        r == Ok::<Moment, Failure>(m),
        stripped(input@, t),
        clock_reading(t, "%H:%M"@) is None,
    ensures
        m.secs > now.secs || (m.secs == now.secs && m.nanos > now.nanos),
        wall_reading(t, "%Y-%m-%d %H:%M"@) == Some(m.secs + m.offset),
{
    law_trimming_strips_the_ends(input@);
    law_stripped_form_is_unique(input@, t, trimmed(input@));
    let (first, second) = choose|first: Option<Moment>, second: Option<Moment>|
        {
            &&& #[trigger] when_given(input@, *now, first, second)
            &&& when_outcome(input@, *now, first, second) == Ok::<Moment, Seq<Seq<char>>>(m)
        };
    law_date_in_future(input@, *now, first, second, m);
}

/// The files of the daemon all lie in its directory for data, each under its own name, and
/// the runner is told where the socket and the record of messages are.
pub proof fn law_files_of_the_daemon(
    c: &Config,
    log: String,
    socket: String,
    entries: String,
    runs: String,
    cli: LoomCli,
)
    requires
        call_ensures(Config::dm_log_path, (c,), log),
        call_ensures(Config::socket_path, (c,), socket),
        call_ensures(Config::cron_path, (c,), entries),
        call_ensures(Config::invocations_dir, (c,), runs),
        call_ensures(Config::runner, (c,), cli),
    ensures
        log@.take(c.system_data@.len() as int) == c.system_data@ && finishes_with(
            log@,
            "dm-log.jsonl"@,
        ),
        socket@.take(c.system_data@.len() as int) == c.system_data@ && finishes_with(
            socket@,
            "orchestrator.sock"@,
        ),
        entries@.take(c.system_data@.len() as int) == c.system_data@ && finishes_with(
            entries@,
            "cron.jsonl"@,
        ),
        runs@.take(c.system_data@.len() as int) == c.system_data@ && finishes_with(
            runs@,
            "invocations"@,
        ),
        cli.command@ == c.loom_command@,
        pairs(cli.extra_env@) == seq![
            ("GLASS_ORCHESTRATOR_SOCK"@, socket@),
            ("GLASS_DM_LOG"@, log@),
        ],
{
    lemma_path_ends(c.system_data@, "dm-log.jsonl"@);
    lemma_path_ends(c.system_data@, "orchestrator.sock"@);
    lemma_path_ends(c.system_data@, "cron.jsonl"@);
    lemma_path_ends(c.system_data@, "invocations"@);
}

proof fn lemma_path_ends(base: Seq<char>, name: Seq<char>)
    ensures
        joined_path(base, name).take(base.len() as int) == base,
        finishes_with(joined_path(base, name), name),
{
    law_one_separator(base, name);
    let path = joined_path(base, name);
    assert(path.skip(path.len() - name.len()) =~= path.subrange(
        path.len() - name.len(),
        path.len() as int,
    ));
}

/// The id of a request is read wherever its line is JSON; a line that is not is refused with
/// what is wrong with it.
pub proof fn law_request_id_is_read(line: &str, r: Result<String, Failure>)
    requires
        call_ensures(request_id, (line,), r),
    ensures
        r is Ok <==> json_of(line@) is Ok,
        json_of(line@) matches Ok(v) ==> (v.string_member("id"@) matches Some(id) ==> (
        r matches Ok(s) && s@ == id)),
        json_of(line@) matches Err(cause) ==> (r matches Err(e) && e@.last() == cause),
{
}

/// How long things take and how large they may be: runs are given half an hour, lines on
/// calls are gathered for a second and a half, messages of tools for two seconds at a time
/// and ten in all, due entries are looked for twice a minute, and the typing indicator is
/// refreshed before it fades.
pub proof fn law_times_and_limits()
    ensures
        LOOM_TIMEOUT_SECS == 30 * 60,
        PI_TIMEOUT_SECS == 30 * 60,
        2 * TOOL_COALESCE_MILLIS == 3 * 1000,
        SEND_DM_COALESCE_MILLIS == 2 * 1000,
        SEND_DM_MAX_WAIT_MILLIS == 10 * 1000,
        2 * DEFAULT_POLL_INTERVAL_SECS == 60,
        TYPING_REFRESH_SECS == 7,
        CATCHUP_LIMIT == 100,
        MESSAGE_LIMIT == 2000 - 100,
{
}

/// A poll of a store fires every entry whose one time has come and keeps the others, fires
/// and keeps nothing else, and leaves the file's name as it is.
pub proof fn law_poll_of_a_store(
    store: &mut CronStore,
    now: &Moment,
    fire: Vec<CronEntry>,
    i: int,
    m: Moment,
)
    requires
        call_ensures(CronStore::poll_due, (store, now), fire),
        0 <= i < old(store).spec_entries().len(),
    ensures
        ({
            let before = old(store).spec_entries();
            let after = final(store).spec_entries();
            let e = before[i];
            let due = now.secs > m.secs || (now.secs == m.secs && now.nanos >= m.nanos);
            &&& final(store).spec_path() == old(store).spec_path()
            &&& fire@.len() <= before.len()
            &&& e.fire_at is Some && e.cron is None && moment_of(e.fire_at->0) == Some(m) ==> if due {
                entry_views(fire@).contains(e)
            } else {
                after.contains(e)
            }
            &&& e.fire_at is None && e.cron is Some && five_field(e.cron->0) is Ok ==> exists|k: int|
                0 <= k < after.len() && same_but_fired(e, #[trigger] after[k])
        }),
{
    let before = old(store).spec_entries();
    let after = final(store).spec_entries();
    let e = before[i];
    law_poll_makes_up_nothing(before, *now, entry_views(fire@), after, 0);
    assert(entry_views(fire@).len() == fire@.len());
    if e.fire_at is Some && e.cron is None && moment_of(e.fire_at->0) == Some(m) {
        law_poll_fires_what_is_due(before, *now, entry_views(fire@), after, i, m);
    }
    if e.fire_at is None && e.cron is Some && five_field(e.cron->0) is Ok {
        law_poll_keeps_recurring_entries(before, *now, entry_views(fire@), after, i);
    }
}

/// An event that is taken in loses no text: before the line of a call, or of a thought that
/// begins, what was said is ready as a message of its own, behind those that were.
pub proof fn law_event_loses_no_text(r: &mut Renderer, event: &Json)
    requires
        call_ensures(Renderer::handle_event, (r, event), ()),
    ensures
        is_kind(*event, "tool_call"@) || (is_kind(*event, "agent_thought_chunk"@) && !old(r)@.thinking) ==> {
            &&& final(r)@.text.len() == 0
            &&& final(r)@.tools.drop_last() == old(r)@.tools
            &&& stripped(old(r)@.text, Seq::empty()) ==> final(r)@.pending == old(r)@.pending
            &&& !stripped(old(r)@.text, Seq::empty()) ==> final(r)@.pending.drop_last()
                == old(r)@.pending && stripped(old(r)@.text, final(r)@.pending.last())
        },
        is_kind(*event, "agent_message_chunk"@) ==> final(r)@.text == old(r)@.text + piece(*event),
        !(is_kind(*event, "tool_call"@) || is_kind(*event, "agent_thought_chunk"@)) ==> final(r)@.text.take(old(r)@.text.len() as int) == old(r)@.text,
{
    law_event_is_taken_in(old(r)@, *event);
}

} // verus!
