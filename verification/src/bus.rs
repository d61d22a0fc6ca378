//! The conversation with the owner: which messages are acted on, what the agent is
//! asked, and what is done as a turn runs its course.

use vstd::prelude::*;

use crate::failure::{account, headline, Failure};
use crate::invocation_log::{
    ContextView, InvocationContext, InvocationStatus, StatusView, Trigger,
};
use crate::text::{
    is_white, law_join_shows_each, law_stripped_form_is_unique, law_trimming_strips_the_ends,
    lemma_occurs_between, occurs_in, trim, trimmed,
};
use crate::time::{format_wall, wall_text, Moment, MAX_SECS, MINUTE_PATTERN, MIN_SECS};

pub use crate::chunk::chunk_message;

verus! {

/// How often the typing indicator is refreshed, in seconds.
pub const TYPING_REFRESH_SECS: u64 = 7;

/// Who sent a message.
#[derive(Clone, Copy, Debug, PartialEq, Eq, Hash, Structural)]
pub struct AuthorId(pub u64);

/// The conversation that a message belongs to.
#[derive(Clone, Copy, Debug, PartialEq, Eq, Hash, Structural)]
pub struct ConversationId(pub u64);

/// A direct message that came in.
#[derive(Debug)]
pub struct IncomingDm {
    pub author: AuthorId,
    pub channel: ConversationId,
    pub content: String,
    /// When it was sent, in local time.
    pub timestamp: Moment,
}

impl IncomingDm {
    /// Whether the calendar covers the time at which the message was sent.
    pub open spec fn wf(self) -> bool {
        self.timestamp.wf() && MIN_SECS <= self.timestamp.wall() <= MAX_SECS
    }
}

/// What the agent is asked for a message: the time at which it was sent, and its text.
pub open spec fn prompt_of(msg: IncomingDm) -> Seq<char> {
    "["@ + wall_text(msg.timestamp.wall(), "%Y-%m-%d %H:%M"@) + "] "@ + msg.content@
}

/// What the agent is asked for a message.
pub fn format_prompt(msg: &IncomingDm) -> (s: String)
    requires
        msg.wf(),
    ensures
        s@ == prompt_of(*msg),
{
    let mut s: String = "[".to_owned();
    s.append(format_wall(msg.timestamp.secs + msg.timestamp.offset as i64, MINUTE_PATTERN).as_str());
    s.append("] ");
    s.append(msg.content.as_str());
    s
}

/// Whether a message is acted on: it is the owner's and not blank.
pub open spec fn acted_on(msg: IncomingDm, owner: AuthorId) -> bool {
    msg.author == owner && trimmed(msg.content@).len() > 0
}

/// Whether a message is acted on: it is the owner's and not blank.
pub fn actionable(msg: &IncomingDm, owner: AuthorId) -> (b: bool)
    ensures
        b == acted_on(*msg, owner),
{
    msg.author == owner && !trim(msg.content.as_str()).as_str().is_empty()
}

/// Something that happens to the conversation.
#[derive(Debug)]
pub enum BusEvent {
    /// A message came in.
    Dm(IncomingDm),
    /// No more messages will come in.
    Closed,
    /// The agent's run ended.
    RunEnded(Result<(), Failure>),
    /// The agent said something.
    Said(String),
    /// The agent has nothing more to say.
    SaidAll,
    /// It is time to refresh the typing indicator.
    TypingTick,
}

/// Something to be done for the conversation.
#[derive(Debug)]
pub enum BusAction {
    /// Record a message from the owner.
    LogInbound(String),
    /// Open the record of a run.
    OpenRecord(InvocationContext),
    /// Run the agent with a prompt.
    StartRun(String),
    /// Give up the run.
    StopRun,
    /// Record a message to the owner.
    LogOutbound(String),
    /// Send a message.
    Reply(ConversationId, String),
    /// Show the typing indicator.
    ShowTyping(ConversationId),
    /// Complete the record of the run.
    CloseRecord(InvocationStatus),
    /// Leave the loop.
    Exit,
}

/// The texts of something to be done.
pub enum Act {
    LogInbound(Seq<char>),
    OpenRecord(ContextView),
    StartRun(Seq<char>),
    StopRun,
    LogOutbound(Seq<char>),
    Reply(ConversationId, Seq<char>),
    ShowTyping(ConversationId),
    CloseRecord(StatusView),
    Exit,
}

impl View for BusAction {
    type V = Act;

    open spec fn view(&self) -> Act {
        match self {
            BusAction::LogInbound(s) => Act::LogInbound(s@),
            BusAction::OpenRecord(c) => Act::OpenRecord(c@),
            BusAction::StartRun(s) => Act::StartRun(s@),
            BusAction::StopRun => Act::StopRun,
            BusAction::LogOutbound(s) => Act::LogOutbound(s@),
            BusAction::Reply(c, s) => Act::Reply(*c, s@),
            BusAction::ShowTyping(c) => Act::ShowTyping(*c),
            BusAction::CloseRecord(s) => Act::CloseRecord(s@),
            BusAction::Exit => Act::Exit,
        }
    }
}

pub open spec fn acts(v: Seq<BusAction>) -> Seq<Act> {
    v.map_values(|a: BusAction| a@)
}

/// How the agent's run ended, if it did: well, or with these messages.
pub enum RunView {
    Running,
    Succeeded,
    Failed(Seq<Seq<char>>),
}

/// The turn in progress.
pub struct TurnView {
    pub channel: ConversationId,
    pub run: RunView,
    /// Whether it is known that no more messages will come in.
    pub closed: bool,
}

/// Where the conversation stands.
pub struct LoopView {
    pub owner: AuthorId,
    pub manifest: Seq<char>,
    pub turn: Option<TurnView>,
}

/// How the agent's run ended.
pub open spec fn run_view(r: Result<(), Failure>) -> RunView {
    match r {
        Ok(_) => RunView::Succeeded,
        Err(e) => RunView::Failed(e@),
    }
}

/// Whether the run goes on.
pub open spec fn is_running(v: LoopView) -> bool {
    v.turn matches Some(t) && t.run is Running
}

/// Whether an event can come where the conversation stands.
pub open spec fn expects(v: LoopView, event: BusEvent) -> bool {
    match event {
        BusEvent::Dm(msg) => msg.wf() && listens(v),
        BusEvent::Closed => listens(v),
        BusEvent::RunEnded(_) => is_running(v),
        BusEvent::Said(_) => v.turn is Some,
        BusEvent::SaidAll => v.turn is Some,
        BusEvent::TypingTick => is_running(v),
    }
}

/// Whether messages are waited for.
pub open spec fn listens(v: LoopView) -> bool {
    v.turn matches Some(t) ==> t.run is Running && !t.closed
}

/// The context of the run for a message.
pub open spec fn dm_context(v: LoopView, msg: IncomingDm) -> ContextView {
    ContextView {
        trigger: Trigger::Dm,
        manifest: v.manifest,
        prompt: prompt_of(msg),
        cron_id: None,
        channel: Some(msg.channel.0),
    }
}

/// What is done to begin a turn.
pub open spec fn begin_acts(v: LoopView, msg: IncomingDm) -> Seq<Act> {
    seq![
        Act::LogInbound(msg.content@),
        Act::OpenRecord(dm_context(v, msg)),
        Act::StartRun(prompt_of(msg)),
    ]
}

/// The turn that begins with a message.
pub open spec fn begun(v: LoopView, msg: IncomingDm) -> LoopView {
    LoopView {
        turn: Some(TurnView { channel: msg.channel, run: RunView::Running, closed: false }),
        ..v
    }
}

/// What the owner is told of a turn that failed.
pub open spec fn failure_notice(chain: Seq<Seq<char>>) -> Seq<char> {
    "⚠️ turn failed: `"@ + headline(chain) + "`"@
}

/// What is done to end a turn.
pub open spec fn end_acts(t: TurnView) -> Seq<Act> {
    match t.run {
        RunView::Succeeded => seq![Act::CloseRecord(StatusView::Succeeded)],
        RunView::Failed(chain) => seq![
            Act::LogOutbound(failure_notice(chain)),
            Act::Reply(t.channel, failure_notice(chain)),
            Act::CloseRecord(StatusView::Failed(account(chain))),
        ],
        RunView::Running => seq![
            Act::StopRun,
            Act::CloseRecord(StatusView::Failed("turn ended with no recorded result"@)),
        ],
    }
}

/// Where the conversation stands after an event.
pub open spec fn next_view(v: LoopView, event: BusEvent) -> LoopView {
    match event {
        BusEvent::Dm(msg) => if acted_on(msg, v.owner) {
            begun(v, msg)
        } else {
            v
        },
        BusEvent::Closed => match v.turn {
            Some(t) => LoopView { turn: Some(TurnView { closed: true, ..t }), ..v },
            None => v,
        },
        BusEvent::RunEnded(r) => match v.turn {
            Some(t) => LoopView { turn: Some(TurnView { run: run_view(r), ..t }), ..v },
            None => v,
        },
        BusEvent::Said(_) => v,
        BusEvent::SaidAll => LoopView { turn: None, ..v },
        BusEvent::TypingTick => v,
    }
}

/// What is done on an event.
pub open spec fn acts_on(v: LoopView, event: BusEvent) -> Seq<Act> {
    match event {
        BusEvent::Dm(msg) => if !acted_on(msg, v.owner) {
            Seq::empty()
        } else if v.turn is Some {
            seq![Act::StopRun, Act::CloseRecord(StatusView::Cancelled)] + begin_acts(v, msg)
        } else {
            begin_acts(v, msg)
        },
        BusEvent::Closed => if v.turn is Some {
            Seq::empty()
        } else {
            seq![Act::Exit]
        },
        BusEvent::RunEnded(_) => Seq::empty(),
        BusEvent::Said(s) => match v.turn {
            Some(t) => seq![Act::LogOutbound(s@), Act::Reply(t.channel, s@)],
            None => Seq::empty(),
        },
        BusEvent::SaidAll => match v.turn {
            Some(t) => end_acts(t),
            None => Seq::empty(),
        },
        BusEvent::TypingTick => match v.turn {
            Some(t) => seq![Act::ShowTyping(t.channel)],
            None => Seq::empty(),
        },
    }
}

/// The turn in progress.
#[derive(Debug)]
struct Turn {
    channel: ConversationId,
    run_result: Option<Result<(), Failure>>,
    bus_closed: bool,
}

/// The conversation with the owner.
#[derive(Debug)]
pub struct BotLoop {
    owner: AuthorId,
    manifest: String,
    turn: Option<Turn>,
}

impl View for BotLoop {
    type V = LoopView;

    closed spec fn view(&self) -> LoopView {
        LoopView {
            owner: self.owner,
            manifest: self.manifest@,
            turn: match self.turn {
                Some(t) => Some(
                    TurnView {
                        channel: t.channel,
                        run: match t.run_result {
                            Some(r) => run_view(r),
                            None => RunView::Running,
                        },
                        closed: t.bus_closed,
                    },
                ),
                None => None,
            },
        }
    }
}

impl BotLoop {
    /// A conversation with `owner` in which nothing has happened; the agent is run
    /// with `manifest`.
    pub fn new(owner: AuthorId, manifest: String) -> (r: BotLoop)
        ensures
            r@ == (LoopView { owner, manifest: manifest@, turn: None }),
    {
        BotLoop { owner, manifest, turn: None }
    }

    /// Whether a turn is in progress.
    pub fn in_turn(&self) -> (b: bool)
        ensures
            b == (self@.turn is Some),
    {
        self.turn.is_some()
    }

    /// Whether the agent's run goes on.
    pub fn running(&self) -> (b: bool)
        ensures
            b == is_running(self@),
    {
        match &self.turn {
            Some(t) => t.run_result.is_none(),
            None => false,
        }
    }

    /// Whether messages are waited for.
    pub fn listening(&self) -> (b: bool)
        ensures
            b == listens(self@),
    {
        match &self.turn {
            Some(t) => t.run_result.is_none() && !t.bus_closed,
            None => true,
        }
    }

    fn begin(&mut self, msg: IncomingDm, out: &mut Vec<BusAction>)
        requires
            msg.wf(),
        ensures
            final(self)@ == begun(old(self)@, msg),
            acts(final(out)@) == acts(old(out)@) + begin_acts(old(self)@, msg),
    {
        let ghost before = acts(out@);
        let ghost v = self@;
        let prompt: String = format_prompt(&msg);
        let context = InvocationContext {
            trigger: Trigger::Dm,
            manifest: self.manifest.clone(),
            prompt: prompt.clone(),
            cron_id: None,
            channel: Some(msg.channel.0),
        };
        assert(context@ == dm_context(v, msg));
        self.turn = Some(Turn { channel: msg.channel, run_result: None, bus_closed: false });
        out.push(BusAction::LogInbound(msg.content));
        out.push(BusAction::OpenRecord(context));
        out.push(BusAction::StartRun(prompt));
        assert(acts(out@) =~= before + begin_acts(v, msg));
    }

    /// Takes in an event, and returns what is to be done, in order.
    pub fn step(&mut self, event: BusEvent) -> (out: Vec<BusAction>)
        requires
            expects(old(self)@, event),
        ensures
            final(self)@ == next_view(old(self)@, event),
            acts(out@) == acts_on(old(self)@, event),
    {
        let ghost v = self@;
        let ghost e = event;
        let mut out: Vec<BusAction> = Vec::new();
        assert(acts(out@) =~= Seq::empty());
        match event {
            BusEvent::Dm(msg) => {
                if actionable(&msg, self.owner) {
                    if self.turn.is_some() {
                        out.push(BusAction::StopRun);
                        out.push(BusAction::CloseRecord(InvocationStatus::Cancelled));
                        assert(acts(out@) =~= seq![
                            Act::StopRun,
                            Act::CloseRecord(StatusView::Cancelled),
                        ]);
                    }
                    self.begin(msg, &mut out);
                    assert(acts(out@) =~= acts_on(v, e));
                }
            },
            BusEvent::Closed => {
                match &mut self.turn {
                    Some(t) => {
                        t.bus_closed = true;
                    },
                    None => {
                        out.push(BusAction::Exit);
                    },
                }
                assert(acts(out@) =~= acts_on(v, e));
            },
            BusEvent::RunEnded(r) => {
                if let Some(t) = &mut self.turn {
                    t.run_result = Some(r);
                }
            },
            BusEvent::Said(s) => {
                if let Some(t) = &self.turn {
                    out.push(BusAction::LogOutbound(s.clone()));
                    out.push(BusAction::Reply(t.channel, s));
                }
                assert(acts(out@) =~= acts_on(v, e));
            },
            BusEvent::SaidAll => {
                if let Some(t) = &self.turn {
                    match &t.run_result {
                        Some(Ok(_)) => {
                            out.push(BusAction::CloseRecord(InvocationStatus::Succeeded));
                        },
                        Some(Err(f)) => {
                            let mut notice: String = "⚠️ turn failed: `".to_owned();
                            notice.append(f.message().as_str());
                            notice.append("`");
                            out.push(BusAction::LogOutbound(notice.clone()));
                            out.push(BusAction::Reply(t.channel, notice));
                            out.push(BusAction::CloseRecord(InvocationStatus::Failed(f.report())));
                        },
                        None => {
                            out.push(BusAction::StopRun);
                            out.push(
                                BusAction::CloseRecord(
                                    InvocationStatus::Failed(
                                        "turn ended with no recorded result".to_owned(),
                                    ),
                                ),
                            );
                        },
                    }
                }
                assert(acts(out@) =~= acts_on(v, e));
                self.turn = None;
            },
            BusEvent::TypingTick => {
                if let Some(t) = &self.turn {
                    out.push(BusAction::ShowTyping(t.channel));
                }
                assert(acts(out@) =~= acts_on(v, e));
            },
        }
        out
    }
}

/// A message of anyone but the owner, or a blank one, changes nothing and nothing is
/// done for it.
pub proof fn law_others_are_ignored(v: LoopView, msg: IncomingDm)
    requires
        msg.author != v.owner || trimmed(msg.content@).len() == 0,
    ensures
        next_view(v, BusEvent::Dm(msg)) == v,
        acts_on(v, BusEvent::Dm(msg)) == Seq::<Act>::empty(),
{
}

/// The agent is run only for a message of the owner that is not blank, with that
/// message as its prompt.
pub proof fn law_only_the_owner_starts_a_run(v: LoopView, event: BusEvent, i: int)
    requires
        0 <= i < acts_on(v, event).len(),
        acts_on(v, event)[i] is StartRun,
    ensures
        event matches BusEvent::Dm(msg) && acted_on(msg, v.owner) && acts_on(v, event)[i]
            == Act::StartRun(prompt_of(msg)),
{
}

/// Messages and typing indicators go only to the conversation of the turn in progress.
pub proof fn law_replies_go_to_the_turn(v: LoopView, event: BusEvent, i: int)
    requires
        0 <= i < acts_on(v, event).len(),
    ensures
        acts_on(v, event)[i] matches Act::Reply(c, _) ==> (v.turn matches Some(t) && t.channel == c),
        acts_on(v, event)[i] matches Act::ShowTyping(c) ==> (v.turn matches Some(t) && t.channel
            == c),
{
}

/// Every message that is sent is recorded right before, and every message that the agent
/// is run for is recorded before the run starts.
pub proof fn law_messages_are_recorded(v: LoopView, event: BusEvent, i: int)
    requires
        0 <= i < acts_on(v, event).len(),
    ensures
        acts_on(v, event)[i] matches Act::Reply(_, s) ==> i > 0 && acts_on(v, event)[i - 1]
            == Act::LogOutbound(s),
        acts_on(v, event)[i] is StartRun ==> i > 1 && (event matches BusEvent::Dm(msg)
            && acts_on(v, event)[i - 2] == Act::LogInbound(msg.content@)),
{
}

/// What an action does to the number of open records.
pub open spec fn record_change(a: Act) -> int {
    match a {
        Act::OpenRecord(_) => 1,
        Act::CloseRecord(_) => -1,
        _ => 0,
    }
}

/// How many more records are opened than completed.
pub open spec fn open_records(s: Seq<Act>) -> int
    decreases s.len(),
{
    if s.len() == 0 {
        0
    } else {
        open_records(s.drop_last()) + record_change(s.last())
    }
}

/// What an action does to the number of runs that go on.
pub open spec fn run_change(a: Act) -> int {
    match a {
        Act::StartRun(_) => 1,
        Act::StopRun => -1,
        _ => 0,
    }
}

/// How many more runs are started than given up.
pub open spec fn started_runs(s: Seq<Act>) -> int
    decreases s.len(),
{
    if s.len() == 0 {
        0
    } else {
        started_runs(s.drop_last()) + run_change(s.last())
    }
}

proof fn lemma_changes_concat(a: Seq<Act>, b: Seq<Act>)
    ensures
        open_records(a + b) == open_records(a) + open_records(b),
        started_runs(a + b) == started_runs(a) + started_runs(b),
    decreases b.len(),
{
    if b.len() == 0 {
        assert(a + b =~= a);
    } else {
        lemma_changes_concat(a, b.drop_last());
        assert((a + b).drop_last() =~= a + b.drop_last());
    }
}

pub proof fn lemma_changes_short(s: Seq<Act>)
    requires
        s.len() <= 3,
    ensures
        open_records(s) == (if s.len() > 0 {
            record_change(s[0])
        } else {
            0
        }) + (if s.len() > 1 {
            record_change(s[1])
        } else {
            0
        }) + (if s.len() > 2 {
            record_change(s[2])
        } else {
            0
        }),
        started_runs(s) == (if s.len() > 0 {
            run_change(s[0])
        } else {
            0
        }) + (if s.len() > 1 {
            run_change(s[1])
        } else {
            0
        }) + (if s.len() > 2 {
            run_change(s[2])
        } else {
            0
        }),
    decreases s.len(),
{
    if s.len() > 0 {
        lemma_changes_short(s.drop_last());
    }
}

pub open spec fn in_turn(v: LoopView) -> int {
    if v.turn is Some {
        1
    } else {
        0
    }
}

pub open spec fn runs(v: LoopView) -> int {
    if is_running(v) {
        1
    } else {
        0
    }
}

pub open spec fn ended_runs(event: BusEvent) -> int {
    if event is RunEnded {
        1
    } else {
        0
    }
}

/// A record is open exactly while a turn is in progress, and a run goes on exactly
/// while the turn's run does: what is opened is completed once, and two runs never go
/// on together.
pub proof fn law_step_is_balanced(v: LoopView, event: BusEvent)
    requires
        expects(v, event),
    ensures
        open_records(acts_on(v, event)) == in_turn(next_view(v, event)) - in_turn(v),
        started_runs(acts_on(v, event)) - ended_runs(event) == runs(next_view(v, event)) - runs(v),
{
    let s = acts_on(v, event);
    if event is Dm && s.len() > 3 {
        let msg = event->Dm_0;
        let stop = seq![Act::StopRun, Act::CloseRecord(StatusView::Cancelled)];
        lemma_changes_concat(stop, begin_acts(v, msg));
        lemma_changes_short(stop);
        lemma_changes_short(begin_acts(v, msg));
    } else {
        lemma_changes_short(s);
    }
}

/// Where the conversation stands after events.
pub open spec fn view_after(v: LoopView, events: Seq<BusEvent>) -> LoopView
    decreases events.len(),
{
    if events.len() == 0 {
        v
    } else {
        next_view(view_after(v, events.drop_last()), events.last())
    }
}

/// What is done on events.
pub open spec fn acts_after(v: LoopView, events: Seq<BusEvent>) -> Seq<Act>
    decreases events.len(),
{
    if events.len() == 0 {
        Seq::empty()
    } else {
        acts_after(v, events.drop_last()) + acts_on(
            view_after(v, events.drop_last()),
            events.last(),
        )
    }
}

/// Whether events can come one after the other.
pub open spec fn expects_all(v: LoopView, events: Seq<BusEvent>) -> bool
    decreases events.len(),
{
    events.len() > 0 ==> {
        &&& expects_all(v, events.drop_last())
        &&& expects(view_after(v, events.drop_last()), events.last())
    }
}

/// Over any course of events, every record that was opened is completed, except that
/// of the turn in progress.
pub proof fn law_every_record_is_completed(v: LoopView, events: Seq<BusEvent>)
    requires
        expects_all(v, events),
    ensures
        open_records(acts_after(v, events)) == in_turn(view_after(v, events)) - in_turn(v),
    decreases events.len(),
{
    if events.len() > 0 {
        let before = events.drop_last();
        law_every_record_is_completed(v, before);
        law_step_is_balanced(view_after(v, before), events.last());
        lemma_changes_concat(acts_after(v, before), acts_on(view_after(v, before), events.last()));
    }
}

/// Over any course of events the owner and the manifest stay the same.
pub proof fn law_owner_never_changes(v: LoopView, events: Seq<BusEvent>)
    ensures
        view_after(v, events).owner == v.owner,
        view_after(v, events).manifest == v.manifest,
    decreases events.len(),
{
    if events.len() > 0 {
        law_owner_never_changes(v, events.drop_last());
    }
}

/// A new message of the owner during a turn gives up the run, records that it was
/// given up, and begins a turn of its own.
pub proof fn law_new_message_restarts(v: LoopView, msg: IncomingDm)
    requires
        v.turn is Some,
        acted_on(msg, v.owner),
    ensures
        acts_on(v, BusEvent::Dm(msg)) == seq![
            Act::StopRun,
            Act::CloseRecord(StatusView::Cancelled),
        ] + acts_on(LoopView { turn: None, ..v }, BusEvent::Dm(msg)),
        next_view(v, BusEvent::Dm(msg)) == next_view(
            LoopView { turn: None, ..v },
            BusEvent::Dm(msg),
        ),
{
    assert(begin_acts(v, msg) =~= begin_acts(LoopView { turn: None, ..v }, msg));
}

/// The time in a prompt is what the clock on the wall reads at the message's own offset:
/// the seconds of its instant and its offset together. The message follows it whole.
pub proof fn law_prompt_shows_local_time_and_message(msg: IncomingDm)
    ensures
        ({
            let time = wall_text(msg.timestamp.secs + msg.timestamp.offset, "%Y-%m-%d %H:%M"@);
            let prompt = prompt_of(msg);
            &&& prompt.len() == time.len() + msg.content@.len() + 3
            &&& prompt[0] == '['
            &&& prompt.subrange(1, 1 + time.len() as int) == time
            &&& prompt[1 + time.len() as int] == ']'
            &&& prompt[2 + time.len() as int] == ' '
            &&& prompt.skip(3 + time.len() as int) == msg.content@
        }),
{
    reveal_strlit("[");
    reveal_strlit("] ");
    let time = wall_text(msg.timestamp.secs + msg.timestamp.offset, "%Y-%m-%d %H:%M"@);
    let prompt = prompt_of(msg);
    assert(prompt.subrange(1, 1 + time.len() as int) =~= time);
    assert(prompt.skip(3 + time.len() as int) =~= msg.content@);
}

/// Two messages with the same text that were sent at the same local reading of the clock
/// make the same prompt, whatever their instants and offsets.
pub proof fn law_same_local_time_same_prompt(a: IncomingDm, b: IncomingDm)
    requires
        a.timestamp.secs + a.timestamp.offset == b.timestamp.secs + b.timestamp.offset,
        a.content@ == b.content@,
    ensures
        prompt_of(a) == prompt_of(b),
{
}

/// A message sent at the same instant, but at an offset that is `shift` seconds further
/// on, shows a time that is `shift` seconds further on: it makes the prompt of a message
/// that was sent `shift` seconds later at the first offset.
pub proof fn law_offset_shifts_the_time(
    a: IncomingDm,
    b: IncomingDm,
    later: IncomingDm,
    shift: int,
)
    requires
        b.timestamp.secs == a.timestamp.secs,
        b.timestamp.offset == a.timestamp.offset + shift,
        later.timestamp.secs == a.timestamp.secs + shift,
        later.timestamp.offset == a.timestamp.offset,
        b.content@ == a.content@,
        later.content@ == a.content@,
    ensures
        prompt_of(b) == prompt_of(later),
        prompt_of(b) == "["@ + wall_text(
            a.timestamp.secs + a.timestamp.offset + shift,
            "%Y-%m-%d %H:%M"@,
        ) + "] "@ + a.content@,
{
}

/// A message of the owner with anything in it but white space is always answered by a
/// run: it is recorded as it is, the record of the run tells the prompt that the run is
/// started with, and the turn is held where the message came from.
pub proof fn law_owner_is_heard(v: LoopView, msg: IncomingDm, at: int)
    requires
        msg.author == v.owner,
        0 <= at < msg.content@.len(),
        !is_white(msg.content@[at]),
    ensures
        ({
            let s = acts_on(v, BusEvent::Dm(msg));
            let n = s.len() as int;
            &&& n == if v.turn is Some {
                5int
            } else {
                3int
            }
            &&& s[n - 3] == Act::LogInbound(msg.content@)
            &&& s[n - 2] matches Act::OpenRecord(c) && s[n - 1] == Act::StartRun(c.prompt)
                && c.prompt == prompt_of(msg) && c.manifest == v.manifest && c.trigger
                == Trigger::Dm && c.channel == Some(msg.channel.0) && c.cron_id is None
            &&& next_view(v, BusEvent::Dm(msg)).turn matches Some(t) && t.channel == msg.channel
                && t.run is Running && !t.closed
        }),
{
    law_trimming_strips_the_ends(msg.content@);
    law_stripped_form_is_unique(msg.content@, trimmed(msg.content@), trimmed(msg.content@));
}

/// Whatever the agent says in a turn is sent, unchanged, to where the turn's message came
/// from, and the turn goes on.
pub proof fn law_words_are_passed_on(v: LoopView, s: String)
    requires
        v.turn is Some,
    ensures
        acts_on(v, BusEvent::Said(s)).len() == 2,
        acts_on(v, BusEvent::Said(s))[0] == Act::LogOutbound(s@),
        acts_on(v, BusEvent::Said(s))[1] == Act::Reply(v.turn->0.channel, s@),
        next_view(v, BusEvent::Said(s)) == v,
        acts_on(v, BusEvent::TypingTick).len() == 1,
        acts_on(v, BusEvent::TypingTick)[0] == Act::ShowTyping(v.turn->0.channel),
        next_view(v, BusEvent::TypingTick) == v,
{
}

/// A turn ends as its run did. A run that went well sends nothing more; of one that
/// failed the owner is told the outermost message, and the record tells all of them.
pub proof fn law_turn_ends_as_its_run(v: LoopView, r: Result<(), Failure>, i: int)
    requires
        is_running(v),
        r matches Err(f) ==> 0 <= i < f@.len(),
    ensures
        ({
            let ended = next_view(v, BusEvent::RunEnded(r));
            let s = acts_on(ended, BusEvent::SaidAll);
            let last = s[s.len() - 1];
            &&& acts_on(v, BusEvent::RunEnded(r)).len() == 0
            &&& ended.turn is Some
            &&& ended.turn->0.channel == v.turn->0.channel
            &&& next_view(ended, BusEvent::SaidAll).turn is None
            &&& match r {
                Ok(_) => s.len() == 1 && last == Act::CloseRecord(StatusView::Succeeded),
                Err(f) => {
                    &&& s.len() == 3
                    &&& last matches Act::CloseRecord(StatusView::Failed(report)) && occurs_in(
                        f@[i],
                        report,
                    )
                    &&& s[1] matches Act::Reply(to, notice) && to == v.turn->0.channel && occurs_in(
                        f@[0],
                        notice,
                    ) && s[0] == Act::LogOutbound(notice)
                },
            }
        }),
{
    if let Err(f) = r {
        law_join_shows_each(f@, ": "@, i);
        lemma_occurs_between("⚠️ turn failed: `"@, f@[0], "`"@);
    }
}

/// A turn that is given up before its run has ended stops the run and is recorded as
/// failed, never as a success.
pub proof fn law_unfinished_run_is_stopped(v: LoopView)
    requires
        is_running(v),
    ensures
        ({
            let s = acts_on(v, BusEvent::SaidAll);
            &&& s.len() == 2
            &&& s[0] == Act::StopRun
            &&& s[1] matches Act::CloseRecord(StatusView::Failed(_))
        }),
{
}

/// When no more messages will come in, the loop is left at once between turns, and a turn
/// in progress is first brought to its end.
pub proof fn law_closing_waits_for_the_turn(v: LoopView)
    ensures
        acts_on(v, BusEvent::Closed).contains(Act::Exit) <==> v.turn is None,
        v.turn is Some ==> acts_on(v, BusEvent::Closed).len() == 0 && (next_view(
            v,
            BusEvent::Closed,
        ).turn matches Some(t) && t.channel == v.turn->0.channel && t.run == v.turn->0.run
            && t.closed),
        !listens(next_view(v, BusEvent::Closed)) || v.turn is None,
{
    if v.turn is None {
        assert(acts_on(v, BusEvent::Closed)[0] == Act::Exit);
    }
}

/// Messages are waited for between turns, and in a turn as long as its run goes on and it is
/// not known that none will come.
pub proof fn law_when_messages_are_waited_for(v: LoopView, t: TurnView)
    ensures
        v.turn is None ==> listens(v) && !is_running(v),
        v.turn == Some(t) ==> (listens(v) <==> t.run is Running && !t.closed) && (is_running(v)
            <==> t.run is Running),
{
}

} // verus!
