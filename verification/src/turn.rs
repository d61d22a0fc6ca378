//! One turn of a conversation: the history is compacted if it has grown long, the
//! user's message is added, the agent is asked, and its reply is added.

use vstd::prelude::*;

use crate::compaction::{
    compact, compacted, plan_compaction, plan_for, CompactionLimits, CompactionPlan, PlanView,
};
use crate::events::{copy_events, event_views, Event, EventKind, EventView};
use crate::failure::Failure;
use crate::time::now_given;

verus! {

/// The two logs of a conversation.
#[derive(Debug)]
pub struct History {
    /// Every event there ever was.
    pub audit: Vec<Event>,
    /// The live conversation, which is compacted.
    pub current: Vec<Event>,
}

/// What the two logs say.
pub struct HistoryView {
    pub audit: Seq<EventView>,
    pub current: Seq<EventView>,
}

impl View for History {
    type V = HistoryView;

    open spec fn view(&self) -> HistoryView {
        HistoryView { audit: event_views(self.audit@), current: event_views(self.current@) }
    }
}

/// The history with an event behind both logs.
pub open spec fn with_event(h: HistoryView, e: EventView) -> HistoryView {
    HistoryView { audit: h.audit.push(e), current: h.current.push(e) }
}

/// The history with a summary in place of the first `cut` events of the live
/// conversation.
pub open spec fn with_summary(h: HistoryView, cut: nat, summary: EventView) -> HistoryView {
    HistoryView { audit: h.audit.push(summary), current: compacted(h.current, cut, summary) }
}

impl History {
    /// Adds an event to both logs.
    pub fn append_event(&mut self, event: Event)
        ensures
            final(self)@ == with_event(old(self)@, event@),
    {
        let ghost before = self@;
        let ghost e = event@;
        self.audit.push(event.copy());
        self.current.push(event);
        assert(event_views(self.audit@) =~= before.audit.push(e));
        assert(event_views(self.current@) =~= before.current.push(e));
    }

    /// Puts a summary in place of the first `cut` events of the live conversation.
    pub fn fold(&mut self, cut: usize, summary: Event)
        requires
            cut <= old(self)@.current.len(),
        ensures
            final(self)@ == with_summary(old(self)@, cut as nat, summary@),
    {
        let ghost before = self@;
        let ghost s = summary@;
        self.audit.push(summary.copy());
        self.current = compact(&self.current, cut, summary);
        assert(event_views(self.audit@) =~= before.audit.push(s));
    }
}

/// The failure of a live conversation that does not end in a message of the user.
pub open spec fn no_trailing_message() -> Seq<Seq<char>> {
    seq!["expected trailing UserMessage in current log after append; log malformed"@]
}

/// Splits off the user's message that a conversation ends with.
pub fn split_trailing(current: &Vec<Event>) -> (r: Result<(String, Vec<Event>), Failure>)
    ensures
        ({
            let all = event_views(current@);
            if all.len() > 0 && all.last().kind == EventKind::User {
                r matches Ok((message, prior)) && message@ == all.last().text && event_views(prior@)
                    == all.drop_last()
            } else {
                r matches Err(e) && e@ == no_trailing_message()
            }
        }),
{
    let ghost all = event_views(current@);
    let n: usize = current.len();
    if n > 0 {
        assert(all.last() == current@[n - 1]@);
        if let Event::UserMessage { content, .. } = &current[n - 1] {
            let prior: Vec<Event> = copy_events(current, 0, n - 1);
            assert(all.subrange(0, n - 1) =~= all.drop_last());
            return Ok((content.clone(), prior));
        }
    }
    Err(
        Failure::new(
            "expected trailing UserMessage in current log after append; log malformed".to_owned(),
        ),
    )
}

/// What the agent is asked for.
#[derive(Debug)]
pub enum TurnRequest {
    /// A summary of older events.
    Summarize(CompactionPlan),
    /// A reply to the user's message, given the events before it.
    Run { prior: Vec<Event>, message: String },
}

/// What the agent is asked for.
pub enum RequestView {
    Summarize(PlanView),
    Run(Seq<EventView>, Seq<char>),
}

impl View for TurnRequest {
    type V = RequestView;

    open spec fn view(&self) -> RequestView {
        match self {
            TurnRequest::Summarize(plan) => RequestView::Summarize(plan@),
            TurnRequest::Run { prior, message } => RequestView::Run(event_views(prior@), message@),
        }
    }
}

/// How far a turn is.
pub enum StageView {
    /// No turn is in progress.
    Idle,
    /// A summary of the first events is awaited; then comes the user's message.
    Summarizing(nat, Seq<char>),
    /// A reply is awaited.
    Running,
}

/// Where the conversation stands.
pub struct EngineView {
    pub history: HistoryView,
    pub limits: CompactionLimits,
    pub stage: StageView,
}

#[derive(Debug)]
enum Stage {
    Idle,
    Summarizing { cut: usize, user_text: String },
    Running,
}

/// Takes a conversation through its turns, one at a time.
#[derive(Debug)]
pub struct TurnEngine {
    history: History,
    limits: CompactionLimits,
    stage: Stage,
}

impl View for TurnEngine {
    type V = EngineView;

    closed spec fn view(&self) -> EngineView {
        EngineView {
            history: self.history@,
            limits: self.limits,
            stage: match self.stage {
                Stage::Idle => StageView::Idle,
                Stage::Summarizing { cut, user_text } => StageView::Summarizing(
                    cut as nat,
                    user_text@,
                ),
                Stage::Running => StageView::Running,
            },
        }
    }
}

/// Whether `e` is an event of this kind that says `text`, dated when the clock was read.
pub open spec fn says(e: EventView, kind: EventKind, text: Seq<char>) -> bool {
    e.kind == kind && e.text == text && e.timestamp.wf() && now_given(e.timestamp)
}

/// Whether the user's message `user_text` was added to `before` as the event `e`, and a
/// reply to it is awaited.
pub open spec fn message_added(
    before: EngineView,
    user_text: Seq<char>,
    e: EventView,
    after: EngineView,
    request: RequestView,
) -> bool {
    &&& says(e, EventKind::User, user_text)
    &&& after == (EngineView {
        history: with_event(before.history, e),
        stage: StageView::Running,
        ..before
    })
    &&& request == RequestView::Run(before.history.current, user_text)
}

/// Whether `summary` was put in place of the first events of `before`, which gives
/// `folded`.
pub open spec fn summary_added(
    before: EngineView,
    cut: nat,
    body: Seq<char>,
    summary: EventView,
    folded: EngineView,
) -> bool {
    &&& says(summary, EventKind::Summary, body)
    &&& folded == (EngineView {
        history: with_summary(before.history, cut, summary),
        stage: StageView::Running,
        ..before
    })
}

/// Whether the awaited summary was taken into `before`, which gives `folded`, and then
/// the user's message was added to that.
pub open spec fn summary_then_message(
    before: EngineView,
    body: Seq<char>,
    summary: EventView,
    folded: EngineView,
    e: EventView,
    after: EngineView,
    request: RequestView,
) -> bool {
    &&& before.stage matches StageView::Summarizing(cut, user_text) && summary_added(
        before,
        cut,
        body,
        summary,
        folded,
    ) && message_added(folded, user_text, e, after, request)
}

impl TurnEngine {
    /// A summary that is awaited replaces no more events than there are.
    pub open spec fn valid(self) -> bool {
        self@.stage matches StageView::Summarizing(cut, _) ==> cut <= self@.history.current.len()
    }

    /// A conversation with this history, between turns.
    pub fn new(history: History, limits: CompactionLimits) -> (r: TurnEngine)
        ensures
            r@ == (EngineView { history: history@, limits, stage: StageView::Idle }),
            r.valid(),
    {
        TurnEngine { history, limits, stage: Stage::Idle }
    }

    /// The conversation's logs.
    pub fn history(&self) -> (r: &History)
        ensures
            r@ == self@.history,
    {
        &self.history
    }

    fn ask(&mut self, user_text: String) -> (r: TurnRequest)
        ensures
            exists|e: EventView|
                message_added(old(self)@, user_text@, e, final(self)@, r@),
    {
        let ghost before = self@;
        let ghost said = user_text@;
        let event: Event = Event::user(user_text);
        let ghost e = event@;
        self.stage = Stage::Running;
        self.history.append_event(event);
        let ghost now = self.history@.current;
        assert(now.last() == e);
        assert(now.drop_last() =~= before.history.current);
        match split_trailing(&self.history.current) {
            Ok((message, prior)) => {
                let r = TurnRequest::Run { prior, message };
                assert(message_added(before, said, e, self@, r@));
                r
            },
            Err(_) => {
                assert(false);
                TurnRequest::Run { prior: Vec::new(), message: String::new() }
            },
        }
    }

    /// Begins a turn with the user's message. A summary is asked for first where the
    /// history has grown long; the message is added behind it.
    pub fn begin(&mut self, user_text: String) -> (r: TurnRequest)
        requires
            old(self)@.stage is Idle,
        ensures
            final(self).valid(),
            match plan_for(old(self)@.history.current, old(self)@.limits) {
                Some(plan) => {
                    &&& r@ == RequestView::Summarize(plan)
                    &&& final(self)@ == (EngineView {
                        stage: StageView::Summarizing(plan.cut, user_text@),
                        ..old(self)@
                    })
                },
                None => exists|e: EventView|
                    message_added(old(self)@, user_text@, e, final(self)@, r@),
            },
    {
        match plan_compaction(&self.history.current, &self.limits) {
            Some(plan) => {
                proof {
                    law_plan_fits(self@);
                }
                self.stage = Stage::Summarizing { cut: plan.cut, user_text };
                TurnRequest::Summarize(plan)
            },
            None => self.ask(user_text),
        }
    }

    /// Takes in the summary that was asked for, and goes on with the user's message.
    pub fn summarized(&mut self, body: String) -> (r: TurnRequest)
        requires
            old(self)@.stage is Summarizing,
            old(self).valid(),
        ensures
            final(self).valid(),
            exists|summary: EventView, folded: EngineView, e: EventView|
                summary_then_message(old(self)@, body@, summary, folded, e, final(self)@, r@),
    {
        let ghost before = self@;
        let summary: Event = Event::summary(body);
        let ghost s = summary@;
        let mut cut: usize = 0;
        let mut user_text: String = String::new();
        if let Stage::Summarizing { cut: at, user_text: text } = &self.stage {
            cut = *at;
            user_text = text.clone();
        }
        let ghost said = user_text@;
        assert(before.stage == StageView::Summarizing(cut as nat, said));
        self.stage = Stage::Running;
        self.history.fold(cut, summary);
        let ghost folded = self@;
        assert(summary_added(before, cut as nat, body@, s, folded));
        let r: TurnRequest = self.ask(user_text);
        let ghost e = choose|e: EventView| message_added(folded, said, e, self@, r@);
        assert(summary_then_message(before, body@, s, folded, e, self@, r@));
        r
    }

    /// Takes in the agent's reply, which ends the turn.
    pub fn replied(&mut self, reply: String)
        requires
            old(self)@.stage is Running,
        ensures
            final(self).valid(),
            exists|e: EventView|
                {
                    &&& #[trigger] says(e, EventKind::Agent, reply@)
                    &&& final(self)@ == (EngineView {
                        history: with_event(old(self)@.history, e),
                        stage: StageView::Idle,
                        ..old(self)@
                    })
                },
    {
        let event: Event = Event::agent(reply);
        let ghost e = event@;
        self.stage = Stage::Idle;
        self.history.append_event(event);
        assert(says(e, EventKind::Agent, reply@));
    }

    /// Gives up the turn in progress: what was added stays.
    pub fn abandon(&mut self)
        ensures
            final(self)@ == (EngineView { stage: StageView::Idle, ..old(self)@ }),
            final(self).valid(),
    {
        self.stage = Stage::Idle;
    }
}

/// A compaction plan fits the conversation that it was made for, so that a summary that
/// was asked for can be taken in.
pub proof fn law_plan_fits(v: EngineView)
    requires
        plan_for(v.history.current, v.limits) is Some,
    ensures
        plan_for(v.history.current, v.limits)->0.cut < v.history.current.len(),
{
    crate::compaction::law_kept_tail_is_just_enough(v.history.current, v.limits);
}

/// The audit log only ever grows: neither an event nor a compaction takes anything out
/// of it.
pub proof fn law_audit_only_grows(h: HistoryView, e: EventView, cut: nat)
    ensures
        with_event(h, e).audit == h.audit.push(e),
        with_summary(h, cut, e).audit == h.audit.push(e),
        h.audit == with_event(h, e).audit.drop_last(),
        h.audit == with_summary(h, cut, e).audit.drop_last(),
{
    assert(h.audit.push(e).drop_last() =~= h.audit);
}

/// A compaction keeps the recent events of the live conversation as they are, behind
/// the summary.
pub proof fn law_recent_events_survive(h: HistoryView, cut: nat, summary: EventView, i: int)
    requires
        cut <= i < h.current.len(),
    ensures
        with_summary(h, cut, summary).current[i - cut + 1] == h.current[i],
        with_summary(h, cut, summary).current[0] == summary,
{
}

/// Without a compaction both logs stay the same as each other.
pub proof fn law_logs_agree_without_compaction(h: HistoryView, e: EventView)
    requires
        h.audit == h.current,
    ensures
        with_event(h, e).audit == with_event(h, e).current,
{
}

/// Once a turn has begun, the user's message ends the live conversation, behind all that
/// was there.
pub proof fn law_message_ends_the_conversation(
    before: EngineView,
    user_text: Seq<char>,
    e: EventView,
    after: EngineView,
    request: RequestView,
)
    requires
        message_added(before, user_text, e, after, request),
    ensures
        after.history.current.last() == e,
        after.history.current.drop_last() == before.history.current,
        e.text == user_text,
{
    assert(after.history.current.drop_last() =~= before.history.current);
}

/// A summary that was asked for leads the live conversation, and the user's message ends
/// it.
pub proof fn law_summary_leads_the_conversation(
    before: EngineView,
    body: Seq<char>,
    summary: EventView,
    folded: EngineView,
    e: EventView,
    after: EngineView,
    request: RequestView,
)
    requires
        summary_then_message(before, body, summary, folded, e, after, request),
    ensures
        after.history.current[0] == summary,
        after.history.current.last() == e,
        request matches RequestView::Run(prior, _) && prior.len() > 0 && prior[0] == summary,
{
}

/// The history that the agent is given with a message, followed by that message's event,
/// is exactly the live conversation after the message was added: nothing of it is left
/// out. The agent is asked for a reply to the very text, and both logs get the same event.
pub proof fn law_agent_is_given_the_whole_conversation(
    before: EngineView,
    user_text: Seq<char>,
    e: EventView,
    after: EngineView,
    request: RequestView,
)
    requires
        message_added(before, user_text, e, after, request),
    ensures
        request matches RequestView::Run(prior, message) && prior.push(e)
            == after.history.current && prior == before.history.current && message == user_text,
        e.text == user_text,
        e.kind == EventKind::User,
        after.history.audit == before.history.audit.push(e),
        after.history.current.len() == before.history.current.len() + 1,
        after.limits == before.limits,
        after.stage is Running,
{
}

/// After a summary the same holds: the agent is given the summary and every event that it
/// does not stand for, and its history followed by the message's event is exactly the live
/// conversation. The audit log keeps all that it had, and gets both events.
pub proof fn law_agent_is_given_the_summary_and_the_rest(
    before: EngineView,
    body: Seq<char>,
    summary: EventView,
    folded: EngineView,
    e: EventView,
    after: EngineView,
    request: RequestView,
)
    requires
        summary_then_message(before, body, summary, folded, e, after, request),
        before.stage->Summarizing_0 <= before.history.current.len(),
    ensures
        ({
            let cut = before.stage->Summarizing_0 as int;
            let said = before.stage->Summarizing_1;
            let old_events = before.history.current;
            &&& request matches RequestView::Run(prior, message) && prior.push(e)
                == after.history.current && message == said && prior == seq![summary]
                + old_events.subrange(cut, old_events.len() as int)
            &&& summary.text == body
            &&& summary.kind == EventKind::Summary
            &&& e.text == said
            &&& e.kind == EventKind::User
            &&& after.history.audit == before.history.audit.push(summary).push(e)
            &&& after.limits == before.limits
            &&& after.stage is Running
        }),
{
    let cut = before.stage->Summarizing_0 as int;
    let old_events = before.history.current;
    assert(folded.history.current =~= seq![summary] + old_events.subrange(
        cut,
        old_events.len() as int,
    ));
}

/// A turn without a compaction leaves the conversation as it was, followed by the user's
/// message and the agent's reply; and the agent is given both, behind all that was there,
/// with the next message.
pub proof fn law_next_turn_remembers_this_one(
    before: EngineView,
    said: Seq<char>,
    e: EventView,
    asked: EngineView,
    request: RequestView,
    reply: EventView,
    next_said: Seq<char>,
    next_e: EventView,
    after: EngineView,
    next_request: RequestView,
)
    requires
        message_added(before, said, e, asked, request),
        message_added(
            (EngineView {
                history: with_event(asked.history, reply),
                stage: StageView::Idle,
                ..asked
            }),
            next_said,
            next_e,
            after,
            next_request,
        ),
    ensures
        next_request == RequestView::Run(
            before.history.current + seq![e, reply],
            next_said,
        ),
        after.history.current == before.history.current + seq![e, reply, next_e],
        after.history.audit == before.history.audit + seq![e, reply, next_e],
{
    assert(before.history.current.push(e).push(reply) =~= before.history.current + seq![e, reply]);
    assert(after.history.current =~= before.history.current + seq![e, reply, next_e]);
    assert(after.history.audit =~= before.history.audit + seq![e, reply, next_e]);
}

/// An event that is added stands at the end of both logs, behind everything that was
/// there.
pub proof fn law_event_is_added_to_both_logs(h: HistoryView, e: EventView, i: int)
    ensures
        with_event(h, e).audit.len() == h.audit.len() + 1,
        with_event(h, e).current.len() == h.current.len() + 1,
        with_event(h, e).audit[h.audit.len() as int] == e,
        with_event(h, e).current[h.current.len() as int] == e,
        0 <= i < h.audit.len() ==> with_event(h, e).audit[i] == h.audit[i],
        0 <= i < h.current.len() ==> with_event(h, e).current[i] == h.current[i],
{
}

} // verus!
