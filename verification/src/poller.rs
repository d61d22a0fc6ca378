//! Running the agent for scheduled prompts that have come due, one after the other.

use vstd::prelude::*;

use crate::bus::{acts, lemma_changes_short, open_records, started_runs, Act, BusAction};
use crate::cron::{cron_context, cron_context_of, run_status};
use crate::cron_poll::{entry_views, CronEntry, EntryView};
use crate::failure::{account, Failure};
use crate::invocation_log::{StatusView, Trigger};
use crate::text::{law_join_shows_each, occurs_in};

verus! {

/// Where the runs for due entries stand.
pub struct PollerView {
    pub manifest: Seq<char>,
    /// The entries whose runs are still to come.
    pub waiting: Seq<EntryView>,
    /// Whether a run goes on.
    pub running: bool,
}

/// Something that happens to the runs for due entries.
#[derive(Debug)]
pub enum PollerEvent {
    /// Entries came due.
    Due(Vec<CronEntry>),
    /// Due entries could not be looked for.
    PollFailed,
    /// The agent's run ended.
    RunEnded(Result<(), Failure>),
}

/// What is done to begin the run for an entry.
pub open spec fn begin_entry(manifest: Seq<char>, e: EntryView) -> Seq<Act> {
    seq![Act::OpenRecord(cron_context_of(e, manifest)), Act::StartRun(e.what)]
}

/// What is done to go on with the entries that wait.
pub open spec fn next_acts(manifest: Seq<char>, waiting: Seq<EntryView>) -> Seq<Act> {
    if waiting.len() == 0 {
        Seq::empty()
    } else {
        begin_entry(manifest, waiting[0])
    }
}

/// Where the runs stand once the next one has begun.
pub open spec fn next_run(manifest: Seq<char>, waiting: Seq<EntryView>) -> PollerView {
    if waiting.len() == 0 {
        PollerView { manifest, waiting, running: false }
    } else {
        PollerView { manifest, waiting: waiting.skip(1), running: true }
    }
}

/// How a run ended, in its record.
pub open spec fn ended_status(r: Result<(), Failure>) -> StatusView {
    match r {
        Ok(_) => StatusView::Succeeded,
        Err(e) => StatusView::Failed(account(e@)),
    }
}

/// Whether there is nothing left to run.
pub open spec fn at_rest(v: PollerView) -> bool {
    !v.running && v.waiting.len() == 0
}

/// Whether an event can come where the runs stand: entries are looked for only when
/// there is nothing left to run.
pub open spec fn poller_expects(v: PollerView, event: PollerEvent) -> bool {
    match event {
        PollerEvent::Due(_) => at_rest(v),
        PollerEvent::PollFailed => at_rest(v),
        PollerEvent::RunEnded(_) => v.running,
    }
}

/// Where the runs stand after an event.
pub open spec fn poller_next(v: PollerView, event: PollerEvent) -> PollerView {
    match event {
        PollerEvent::Due(entries) => next_run(v.manifest, entry_views(entries@)),
        PollerEvent::PollFailed => v,
        PollerEvent::RunEnded(_) => next_run(v.manifest, v.waiting),
    }
}

/// What is done on an event.
pub open spec fn poller_acts(v: PollerView, event: PollerEvent) -> Seq<Act> {
    match event {
        PollerEvent::Due(entries) => next_acts(v.manifest, entry_views(entries@)),
        PollerEvent::PollFailed => Seq::empty(),
        PollerEvent::RunEnded(r) => seq![Act::CloseRecord(ended_status(r))] + next_acts(
            v.manifest,
            v.waiting,
        ),
    }
}

/// Runs the agent for entries that came due.
#[derive(Debug)]
pub struct Poller {
    manifest: String,
    waiting: Vec<CronEntry>,
    running: bool,
}

impl View for Poller {
    type V = PollerView;

    closed spec fn view(&self) -> PollerView {
        PollerView {
            manifest: self.manifest@,
            waiting: entry_views(self.waiting@),
            running: self.running,
        }
    }
}

impl Poller {
    /// Nothing to run; the agent will be run with `manifest`.
    pub fn new(manifest: String) -> (r: Poller)
        ensures
            r@ == (PollerView { manifest: manifest@, waiting: Seq::empty(), running: false }),
    {
        let r = Poller { manifest, waiting: Vec::new(), running: false };
        assert(r@.waiting =~= Seq::empty());
        r
    }

    /// Whether a run goes on.
    pub fn is_running(&self) -> (b: bool)
        ensures
            b == self@.running,
    {
        self.running
    }

    fn go_on(&mut self, out: &mut Vec<BusAction>)
        ensures
            final(self)@ == next_run(old(self)@.manifest, old(self)@.waiting),
            acts(final(out)@) == acts(old(out)@) + next_acts(
                old(self)@.manifest,
                old(self)@.waiting,
            ),
    {
        let ghost before = acts(out@);
        let ghost v = self@;
        if self.waiting.len() == 0 {
            self.running = false;
            assert(acts(out@) =~= before + next_acts(v.manifest, v.waiting));
            return;
        }
        let entry: CronEntry = self.waiting.remove(0);
        self.running = true;
        assert(self@.waiting =~= v.waiting.skip(1));
        let context = cron_context(&entry, self.manifest.as_str());
        out.push(BusAction::OpenRecord(context));
        out.push(BusAction::StartRun(entry.what));
        assert(acts(out@) =~= before + begin_entry(v.manifest, v.waiting[0]));
    }

    /// Takes in an event, and returns what is to be done, in order.
    pub fn step(&mut self, event: PollerEvent) -> (out: Vec<BusAction>)
        requires
            poller_expects(old(self)@, event),
        ensures
            final(self)@ == poller_next(old(self)@, event),
            acts(out@) == poller_acts(old(self)@, event),
    {
        let ghost v = self@;
        let mut out: Vec<BusAction> = Vec::new();
        assert(acts(out@) =~= Seq::empty());
        match event {
            PollerEvent::Due(entries) => {
                self.waiting = entries;
                self.go_on(&mut out);
                assert(acts(out@) =~= next_acts(v.manifest, entry_views(entries@)));
            },
            PollerEvent::PollFailed => {},
            PollerEvent::RunEnded(r) => {
                out.push(BusAction::CloseRecord(run_status(&r)));
                assert(acts(out@) =~= seq![Act::CloseRecord(ended_status(r))]);
                self.go_on(&mut out);
            },
        }
        out
    }
}

/// The entries that wait are run one after the other, in their order: a run begins only
/// when none goes on, and every record is completed before the next is opened.
pub proof fn law_entries_run_in_turn(v: PollerView, r: Result<(), Failure>)
    requires
        v.running,
        v.waiting.len() > 0,
    ensures
        poller_acts(v, PollerEvent::RunEnded(r)) == seq![
            Act::CloseRecord(ended_status(r)),
            Act::OpenRecord(cron_context_of(v.waiting[0], v.manifest)),
            Act::StartRun(v.waiting[0].what),
        ],
        poller_next(v, PollerEvent::RunEnded(r)).waiting == v.waiting.skip(1),
        poller_next(v, PollerEvent::RunEnded(r)).running,
{
    assert(poller_acts(v, PollerEvent::RunEnded(r)) =~= seq![
        Act::CloseRecord(ended_status(r)),
        Act::OpenRecord(cron_context_of(v.waiting[0], v.manifest)),
        Act::StartRun(v.waiting[0].what),
    ]);
}

pub open spec fn running_runs(v: PollerView) -> int {
    if v.running {
        1
    } else {
        0
    }
}

pub open spec fn ended(event: PollerEvent) -> int {
    if event is RunEnded {
        1
    } else {
        0
    }
}

/// A record is open exactly while a run goes on, and two runs never go on together.
pub proof fn law_poller_is_balanced(v: PollerView, event: PollerEvent)
    requires
        poller_expects(v, event),
    ensures
        open_records(poller_acts(v, event)) == running_runs(poller_next(v, event)) - running_runs(
            v,
        ),
        started_runs(poller_acts(v, event)) - ended(event) == running_runs(poller_next(v, event))
            - running_runs(v),
{
    lemma_changes_short(poller_acts(v, event));
}

/// When the last run has ended nothing goes on, and entries are looked for again.
pub proof fn law_poller_comes_to_rest(v: PollerView, r: Result<(), Failure>, due: Vec<CronEntry>)
    requires
        v.running,
        v.waiting.len() == 0,
    ensures
        poller_acts(v, PollerEvent::RunEnded(r)) == seq![Act::CloseRecord(ended_status(r))],
        poller_expects(poller_next(v, PollerEvent::RunEnded(r)), PollerEvent::Due(due)),
{
    assert(poller_acts(v, PollerEvent::RunEnded(r)) =~= seq![Act::CloseRecord(ended_status(r))]);
}

/// The prompt of a run is the prompt of the entry, and messages are sent to nobody: what
/// the agent says on its own account stays in the record.
pub proof fn law_poller_sends_nothing(v: PollerView, event: PollerEvent, i: int)
    requires
        0 <= i < poller_acts(v, event).len(),
    ensures
        !(poller_acts(v, event)[i] is Reply),
        !(poller_acts(v, event)[i] is LogOutbound),
{
}

/// The prompts of entries, in order.
pub open spec fn prompts_of(entries: Seq<EntryView>) -> Seq<Seq<char>> {
    entries.map_values(|e: EntryView| e.what)
}

/// The prompts that the agent is run with, in order.
pub open spec fn prompts_run(s: Seq<Act>) -> Seq<Seq<char>>
    decreases s.len(),
{
    if s.len() == 0 {
        Seq::empty()
    } else {
        match s.last() {
            Act::StartRun(prompt) => prompts_run(s.drop_last()).push(prompt),
            _ => prompts_run(s.drop_last()),
        }
    }
}

/// The prompts of the entries that come due with an event.
pub open spec fn prompts_due(event: PollerEvent) -> Seq<Seq<char>> {
    match event {
        PollerEvent::Due(entries) => prompts_of(entry_views(entries@)),
        _ => Seq::empty(),
    }
}

/// Where the runs stand after events.
pub open spec fn poller_after(v: PollerView, events: Seq<PollerEvent>) -> PollerView
    decreases events.len(),
{
    if events.len() == 0 {
        v
    } else {
        poller_next(poller_after(v, events.drop_last()), events.last())
    }
}

/// What is done on events.
pub open spec fn poller_acts_after(v: PollerView, events: Seq<PollerEvent>) -> Seq<Act>
    decreases events.len(),
{
    if events.len() == 0 {
        Seq::empty()
    } else {
        poller_acts_after(v, events.drop_last()) + poller_acts(
            poller_after(v, events.drop_last()),
            events.last(),
        )
    }
}

/// Whether events can come one after the other.
pub open spec fn poller_expects_all(v: PollerView, events: Seq<PollerEvent>) -> bool
    decreases events.len(),
{
    events.len() > 0 ==> {
        &&& poller_expects_all(v, events.drop_last())
        &&& poller_expects(poller_after(v, events.drop_last()), events.last())
    }
}

/// The prompts of all the entries that come due with events, in order.
pub open spec fn prompts_due_in(events: Seq<PollerEvent>) -> Seq<Seq<char>>
    decreases events.len(),
{
    if events.len() == 0 {
        Seq::empty()
    } else {
        prompts_due_in(events.drop_last()) + prompts_due(events.last())
    }
}

proof fn lemma_prompts_run_concat(a: Seq<Act>, b: Seq<Act>)
    ensures
        prompts_run(a + b) == prompts_run(a) + prompts_run(b),
    decreases b.len(),
{
    if b.len() == 0 {
        assert(a + b =~= a);
        assert(prompts_run(a) + prompts_run(b) =~= prompts_run(a));
    } else {
        lemma_prompts_run_concat(a, b.drop_last());
        assert((a + b).drop_last() =~= a + b.drop_last());
        assert(prompts_run(a + b) =~= prompts_run(a) + prompts_run(b));
    }
}

proof fn lemma_next_prompts(manifest: Seq<char>, waiting: Seq<EntryView>)
    ensures
        prompts_run(next_acts(manifest, waiting)) + prompts_of(
            next_run(manifest, waiting).waiting,
        ) == prompts_of(waiting),
{
    let acts = next_acts(manifest, waiting);
    if waiting.len() > 0 {
        reveal_with_fuel(prompts_run, 3);
        assert(acts.drop_last().drop_last() =~= Seq::empty());
        assert(prompts_run(acts) =~= seq![waiting[0].what]);
    }
    assert(prompts_run(acts) + prompts_of(next_run(manifest, waiting).waiting) =~= prompts_of(
        waiting,
    ));
}

/// Over any course of events, whether runs end well or badly and whatever polls fail, each
/// entry that came due is run once, in the order in which they came due: the prompts run
/// so far, and then those that wait, are all that were due.
pub proof fn law_each_due_entry_runs_once(v: PollerView, events: Seq<PollerEvent>)
    requires
        poller_expects_all(v, events),
    ensures
        prompts_run(poller_acts_after(v, events)) + prompts_of(poller_after(v, events).waiting)
            == prompts_of(v.waiting) + prompts_due_in(events),
    decreases events.len(),
{
    if events.len() == 0 {
        assert(prompts_run(poller_acts_after(v, events)) + prompts_of(v.waiting) =~= prompts_of(
            v.waiting,
        ) + prompts_due_in(events));
    } else {
        let before = poller_after(v, events.drop_last());
        let done = poller_acts_after(v, events.drop_last());
        let event = events.last();
        let acts = poller_acts(before, event);
        law_each_due_entry_runs_once(v, events.drop_last());
        lemma_prompts_run_concat(done, acts);
        match event {
            PollerEvent::Due(entries) => {
                lemma_next_prompts(before.manifest, entry_views(entries@));
            },
            PollerEvent::PollFailed => {},
            PollerEvent::RunEnded(r) => {
                let close = seq![Act::CloseRecord(ended_status(r))];
                lemma_next_prompts(before.manifest, before.waiting);
                lemma_prompts_run_concat(close, next_acts(before.manifest, before.waiting));
                reveal_with_fuel(prompts_run, 2);
                assert(close.drop_last() =~= Seq::empty());
                assert(prompts_run(close) =~= Seq::empty());
            },
        }
        let after = poller_after(v, events);
        assert(prompts_run(acts) + prompts_of(after.waiting) =~= prompts_of(before.waiting)
            + prompts_due(event));
        assert(prompts_run(poller_acts_after(v, events)) + prompts_of(after.waiting)
            =~= prompts_run(done) + (prompts_run(acts) + prompts_of(after.waiting)));
        assert(prompts_run(done) + (prompts_of(before.waiting) + prompts_due(event)) =~= (
        prompts_run(done) + prompts_of(before.waiting)) + prompts_due(event));
        assert((prompts_of(v.waiting) + prompts_due_in(events.drop_last())) + prompts_due(event)
            =~= prompts_of(v.waiting) + prompts_due_in(events));
    }
}

/// The number of runs that are still to end.
pub open spec fn runs_left(v: PollerView) -> int {
    v.waiting.len() + running_runs(v)
}

/// Polling goes on: as many runs end as entries came due, whether well or badly, and then
/// entries are looked for again; where they could not be looked for nothing is run, and
/// they are looked for again.
pub proof fn law_polling_goes_on(
    v: PollerView,
    due: Vec<CronEntry>,
    r: Result<(), Failure>,
)
    ensures
        at_rest(v) <==> poller_expects(v, PollerEvent::Due(due)),
        runs_left(v) == 0 <==> at_rest(v),
        runs_left(poller_next(v, PollerEvent::Due(due))) == due@.len(),
        v.running ==> runs_left(poller_next(v, PollerEvent::RunEnded(r))) == runs_left(v) - 1,
        poller_acts(v, PollerEvent::PollFailed) == Seq::<Act>::empty(),
        poller_next(v, PollerEvent::PollFailed) == v,
{
}

/// The first of the entries that came due is run at once, with its own prompt, and the
/// record of the run names the entry; the others wait in their order.
pub proof fn law_due_entries_are_begun(v: PollerView, due: Vec<CronEntry>)
    requires
        due@.len() > 0,
    ensures
        ({
            let s = poller_acts(v, PollerEvent::Due(due));
            let w = poller_next(v, PollerEvent::Due(due));
            &&& s.len() == 2
            &&& s[0] matches Act::OpenRecord(c) && c.prompt == due@[0].what@ && c.cron_id == Some(
                due@[0].id@,
            ) && c.manifest == v.manifest && c.trigger == Trigger::Cron && c.channel is None
            &&& s[1] == Act::StartRun(due@[0].what@)
            &&& w.running
            &&& w.manifest == v.manifest
            &&& w.waiting.len() == due@.len() - 1
            &&& forall|i: int|
                0 <= i < w.waiting.len() ==> #[trigger] w.waiting[i] == due@[i + 1]@
        }),
{
    let w = poller_next(v, PollerEvent::Due(due));
    assert forall|i: int| 0 <= i < w.waiting.len() implies #[trigger] w.waiting[i]
        == due@[i + 1]@ by {}
}

/// The record of a run is completed as the run ended: as a success, or as a failure with
/// every message that there is on it.
pub proof fn law_run_is_recorded_as_it_ended(v: PollerView, r: Result<(), Failure>, i: int)
    ensures
        ({
            let s = poller_acts(v, PollerEvent::RunEnded(r));
            &&& s.len() > 0
            &&& match r {
                Ok(_) => s[0] == Act::CloseRecord(StatusView::Succeeded),
                Err(f) => s[0] matches Act::CloseRecord(StatusView::Failed(report)) && (0 <= i
                    < f@.len() ==> occurs_in(f@[i], report)),
            }
        }),
{
    if let Err(f) = r {
        if 0 <= i < f@.len() {
            law_join_shows_each(f@, ": "@, i);
        }
    }
}

} // verus!
