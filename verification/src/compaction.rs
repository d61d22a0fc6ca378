//! Keeping the live conversation short: older events are folded into a summary, recent
//! ones stay as they are.

use vstd::prelude::*;

use crate::events::{copy_events, event_views, tokens_of, Event, EventKind, EventView};
use crate::text::text_option;

verus! {

/// When a conversation is compacted, and how much of it stays.
#[derive(Clone, Copy, Debug, PartialEq, Eq, Structural)]
pub struct CompactionLimits {
    /// The tokens from which on the conversation is compacted.
    pub threshold_tokens: usize,
    /// The tokens of recent events that stay.
    pub keep_recent_tokens: usize,
}

/// The tokens of events.
pub open spec fn tokens(events: Seq<EventView>) -> nat
    decreases events.len(),
{
    if events.len() == 0 {
        0
    } else {
        tokens(events.drop_first()) + tokens_of(events[0])
    }
}

/// The last position before `n` from which on the events hold `keep` tokens, or 0.
pub open spec fn cut_before(events: Seq<EventView>, keep: nat, n: nat) -> nat
    decreases n,
{
    if n == 0 {
        0
    } else if tokens(events.skip(n - 1)) >= keep {
        (n - 1) as nat
    } else {
        cut_before(events, keep, (n - 1) as nat)
    }
}

/// The number of events that are folded into the summary.
pub open spec fn cut_point(events: Seq<EventView>, keep: nat) -> nat {
    cut_before(events, keep, events.len())
}

/// What is to be summarised.
#[derive(Debug)]
pub struct CompactionPlan {
    /// The summary that the events begin with.
    pub prior_summary: Option<String>,
    /// The other events that are folded into the new summary.
    pub transcript: Vec<Event>,
    /// The number of events that the new summary replaces.
    pub cut: usize,
}

/// What a plan says.
pub struct PlanView {
    pub prior_summary: Option<Seq<char>>,
    pub transcript: Seq<EventView>,
    pub cut: nat,
}

impl View for CompactionPlan {
    type V = PlanView;

    open spec fn view(&self) -> PlanView {
        PlanView {
            prior_summary: text_option(self.prior_summary),
            transcript: event_views(self.transcript@),
            cut: self.cut as nat,
        }
    }
}

/// Whether events begin with a summary.
pub open spec fn begins_with_summary(events: Seq<EventView>) -> bool {
    events.len() > 0 && events[0].kind == EventKind::Summary
}

/// What is to be summarised of a conversation, if it is long enough.
pub open spec fn plan_for(events: Seq<EventView>, limits: CompactionLimits) -> Option<PlanView> {
    let cut = cut_point(events, limits.keep_recent_tokens as nat);
    if tokens(events) < limits.threshold_tokens || cut == 0 {
        None
    } else if begins_with_summary(events) {
        Some(
            PlanView {
                prior_summary: Some(events[0].text),
                transcript: events.subrange(1, cut as int),
                cut,
            },
        )
    } else {
        Some(PlanView { prior_summary: None, transcript: events.subrange(0, cut as int), cut })
    }
}

/// The live conversation after a compaction.
pub open spec fn compacted(events: Seq<EventView>, cut: nat, summary: EventView) -> Seq<EventView> {
    seq![summary] + events.skip(cut as int)
}

proof fn lemma_tokens_skip(events: Seq<EventView>, i: int)
    requires
        0 <= i < events.len(),
    ensures
        tokens(events.skip(i)) == tokens(events.skip(i + 1)) + tokens_of(events[i]),
{
    assert(events.skip(i).drop_first() =~= events.skip(i + 1));
}

proof fn lemma_tokens_shrink(events: Seq<EventView>, i: int, j: int)
    requires
        0 <= i <= j <= events.len(),
    ensures
        tokens(events.skip(j)) <= tokens(events.skip(i)),
    decreases j - i,
{
    if i < j {
        lemma_tokens_skip(events, i);
        lemma_tokens_shrink(events, i + 1, j);
    }
}

proof fn lemma_cut_before(events: Seq<EventView>, keep: nat, n: nat)
    requires
        n <= events.len(),
    ensures
        cut_before(events, keep, n) <= n,
        n > 0 ==> cut_before(events, keep, n) < n,
        cut_before(events, keep, n) > 0 ==> tokens(
            events.skip(cut_before(events, keep, n) as int),
        ) >= keep,
        forall|i: int|
            cut_before(events, keep, n) < i < n ==> tokens(#[trigger] events.skip(i)) < keep,
    decreases n,
{
    if n > 0 && tokens(events.skip(n - 1)) < keep {
        lemma_cut_before(events, keep, (n - 1) as nat);
    }
}

/// Plans the compaction of a conversation, if it is long enough.
pub fn plan_compaction(current: &Vec<Event>, limits: &CompactionLimits) -> (r: Option<CompactionPlan>)
    ensures
        match r {
            Some(plan) => plan_for(event_views(current@), *limits) == Some(plan@),
            None => plan_for(event_views(current@), *limits) is None,
        },
{
    let ghost all = event_views(current@);
    let keep: usize = limits.keep_recent_tokens;
    let mut total: usize = 0;
    let mut cut: usize = 0;
    let mut found: bool = false;
    let mut i: usize = current.len();
    assert(all.skip(all.len() as int) =~= Seq::empty());
    while i > 0
        invariant
            i <= current@.len(),
            all == event_views(current@),
            keep == limits.keep_recent_tokens,
            total == tokens(all.skip(i as int)) || (total == usize::MAX && tokens(
                all.skip(i as int),
            ) > usize::MAX),
            found ==> cut == cut_point(all, keep as nat),
            !found ==> cut == 0 && cut_point(all, keep as nat) == cut_before(
                all,
                keep as nat,
                i as nat,
            ),
        decreases i,
    {
        i -= 1;
        assert(all[i as int] == current@[i as int]@);
        proof {
            lemma_tokens_skip(all, i as int);
        }
        let more: usize = current[i].estimated_tokens();
        total = if more > usize::MAX - total {
            usize::MAX
        } else {
            total + more
        };
        if !found && total >= keep {
            cut = i;
            found = true;
        }
    }
    assert(all.skip(0) =~= all);
    if total < limits.threshold_tokens || cut == 0 {
        return None;
    }
    proof {
        lemma_cut_before(all, keep as nat, all.len());
    }
    match &current[0] {
        Event::Summary { body, .. } => {
            assert(all[0] == current@[0]@);
            Some(
                CompactionPlan {
                    prior_summary: Some(body.clone()),
                    transcript: copy_events(current, 1, cut),
                    cut,
                },
            )
        },
        _ => {
            assert(all[0] == current@[0]@);
            Some(
                CompactionPlan { prior_summary: None, transcript: copy_events(current, 0, cut), cut },
            )
        },
    }
}

/// The live conversation after a compaction: the summary, and the events that stay.
pub fn compact(current: &Vec<Event>, cut: usize, summary: Event) -> (out: Vec<Event>)
    requires
        cut <= current@.len(),
    ensures
        event_views(out@) == compacted(event_views(current@), cut as nat, summary@),
{
    let mut out: Vec<Event> = Vec::new();
    let ghost s = summary@;
    let mut tail: Vec<Event> = copy_events(current, cut, current.len());
    let ghost t = event_views(tail@);
    out.push(summary);
    out.append(&mut tail);
    assert(event_views(out@) =~= seq![s] + t);
    assert(t =~= event_views(current@).skip(cut as int));
    out
}

/// The events that stay hold at least the tokens that are to be kept, and one event
/// fewer would hold less.
pub proof fn law_kept_tail_is_just_enough(events: Seq<EventView>, limits: CompactionLimits)
    requires
        plan_for(events, limits) is Some,
    ensures
        ({
            let cut = plan_for(events, limits)->0.cut as int;
            &&& 0 < cut < events.len()
            &&& tokens(events.skip(cut)) >= limits.keep_recent_tokens
            &&& cut + 1 < events.len() ==> tokens(events.skip(cut + 1)) < limits.keep_recent_tokens
        }),
{
    lemma_cut_before(events, limits.keep_recent_tokens as nat, events.len());
}

/// No event is lost: what is handed over to be summarised, behind the summary that
/// the events may begin with, and what stays, are the events.
pub proof fn law_compaction_covers_all(events: Seq<EventView>, limits: CompactionLimits)
    requires
        plan_for(events, limits) is Some,
    ensures
        ({
            let plan = plan_for(events, limits)->0;
            let head = if begins_with_summary(events) {
                seq![events[0]]
            } else {
                Seq::empty()
            };
            &&& events == head + plan.transcript + events.skip(plan.cut as int)
            &&& begins_with_summary(events) ==> plan.prior_summary == Some(events[0].text)
        }),
{
    lemma_cut_before(events, limits.keep_recent_tokens as nat, events.len());
    let plan = plan_for(events, limits)->0;
    let head = if begins_with_summary(events) {
        seq![events[0]]
    } else {
        Seq::empty()
    };
    assert(events =~= head + plan.transcript + events.skip(plan.cut as int));
}

/// Compacting again does nothing where one compaction was enough.
pub proof fn law_second_compaction_is_idle(
    events: Seq<EventView>,
    limits: CompactionLimits,
    summary: EventView,
)
    requires
        plan_for(events, limits) is Some,
        tokens(compacted(events, plan_for(events, limits)->0.cut, summary))
            < limits.threshold_tokens,
    ensures
        plan_for(compacted(events, plan_for(events, limits)->0.cut, summary), limits) is None,
{
}

/// One compaction is enough where the threshold has room for the summary, for the tokens
/// that are to be kept, and for one event more: the oldest that stays.
pub proof fn law_one_compaction_is_enough(
    events: Seq<EventView>,
    limits: CompactionLimits,
    summary: EventView,
)
    requires
        plan_for(events, limits) is Some,
        tokens_of(summary) + limits.keep_recent_tokens + tokens_of(
            events[plan_for(events, limits)->0.cut as int],
        ) < limits.threshold_tokens,
    ensures
        plan_for(compacted(events, plan_for(events, limits)->0.cut, summary), limits) is None,
{
    let cut = plan_for(events, limits)->0.cut;
    law_kept_tail_is_just_enough(events, limits);
    law_compaction_tokens(events, cut, summary);
    lemma_tokens_skip(events, cut as int);
    if cut + 1 == events.len() {
        assert(events.skip(cut as int + 1) =~= Seq::empty());
    }
}

/// A compaction leaves the conversation shorter by what the events that were folded
/// hold, and longer by the summary.
pub proof fn law_compaction_tokens(events: Seq<EventView>, cut: nat, summary: EventView)
    requires
        cut <= events.len(),
    ensures
        tokens(compacted(events, cut, summary)) == tokens_of(summary) + tokens(
            events.skip(cut as int),
        ),
        tokens(events.skip(cut as int)) <= tokens(events),
{
    assert(compacted(events, cut, summary).drop_first() =~= events.skip(cut as int));
    assert(events.skip(0) =~= events);
    lemma_tokens_shrink(events, 0, cut as int);
}

/// Whether only the first event may be a summary.
pub open spec fn summary_leads(events: Seq<EventView>) -> bool {
    forall|i: int| 0 < i < events.len() ==> (#[trigger] events[i]).kind != EventKind::Summary
}

/// Where only the first event may be a summary, none is handed over as part of the
/// transcript, and this stays so after the compaction.
pub proof fn law_summary_leads(
    events: Seq<EventView>,
    limits: CompactionLimits,
    summary: EventView,
)
    requires
        summary_leads(events),
        plan_for(events, limits) is Some,
    ensures
        forall|i: int|
            0 <= i < plan_for(events, limits)->0.transcript.len() ==> (
            #[trigger] plan_for(events, limits)->0.transcript[i]).kind != EventKind::Summary,
        summary_leads(compacted(events, plan_for(events, limits)->0.cut, summary)),
{
    lemma_cut_before(events, limits.keep_recent_tokens as nat, events.len());
    let cut = plan_for(events, limits)->0.cut;
    let after = compacted(events, cut, summary);
    assert forall|i: int| 0 < i < after.len() implies (#[trigger] after[i]).kind
        != EventKind::Summary by {
        assert(after[i] == events[cut + i - 1]);
    }
}

/// The tokens of a conversation are those of its parts.
pub proof fn law_tokens_add_up(a: Seq<EventView>, b: Seq<EventView>)
    ensures
        tokens(a + b) == tokens(a) + tokens(b),
        a.len() == 1 ==> tokens(a) == tokens_of(a[0]),
        a.len() == 0 ==> tokens(a) == 0,
    decreases a.len(),
{
    if a.len() == 0 {
        assert(a + b =~= b);
    } else {
        assert((a + b).drop_first() =~= a.drop_first() + b);
        law_tokens_add_up(a.drop_first(), b);
        reveal_with_fuel(tokens, 2);
    }
}

/// A conversation is compacted exactly where it has reached the threshold and less than
/// all of it is enough to be kept.
pub proof fn law_compacted_when_long(events: Seq<EventView>, limits: CompactionLimits)
    ensures
        plan_for(events, limits) is Some <==> tokens(events) >= limits.threshold_tokens && exists|
            i: int,
        |
            0 < i < events.len() && tokens(#[trigger] events.subrange(i, events.len() as int))
                >= limits.keep_recent_tokens,
{
    let keep = limits.keep_recent_tokens as nat;
    let cut = cut_point(events, keep) as int;
    lemma_cut_before(events, keep, events.len());
    if cut > 0 {
        assert(events.skip(cut) =~= events.subrange(cut, events.len() as int));
        assert(tokens(events.subrange(cut, events.len() as int)) >= keep);
    }
    if exists|i: int|
        0 < i < events.len() && tokens(#[trigger] events.subrange(i, events.len() as int))
            >= keep {
        let i = choose|i: int|
            0 < i < events.len() && tokens(#[trigger] events.subrange(i, events.len() as int))
                >= keep;
        assert(events.skip(i) =~= events.subrange(i, events.len() as int));
        assert(cut > 0);
    }
}

/// What is handed over to be summarised is what the new summary replaces: the summary that
/// the events begin with, if they do, as the prior one, and the others, one by one.
pub proof fn law_plan_hands_over_what_it_replaces(
    events: Seq<EventView>,
    limits: CompactionLimits,
    i: int,
)
    requires
        plan_for(events, limits) is Some,
        0 <= i < plan_for(events, limits)->0.cut,
    ensures
        ({
            let plan = plan_for(events, limits)->0;
            if events[0].kind == EventKind::Summary {
                &&& plan.prior_summary == Some(events[0].text)
                &&& plan.transcript.len() == plan.cut - 1
                &&& i > 0 ==> plan.transcript[i - 1] == events[i]
            } else {
                &&& plan.prior_summary is None
                &&& plan.transcript.len() == plan.cut
                &&& plan.transcript[i] == events[i]
            }
        }),
{
    lemma_cut_before(events, limits.keep_recent_tokens as nat, events.len());
}

/// A compacted conversation is the summary followed by every event from the cut on.
pub proof fn law_compacted_conversation(
    events: Seq<EventView>,
    cut: nat,
    summary: EventView,
    i: int,
)
    requires
        cut <= events.len(),
    ensures
        compacted(events, cut, summary).len() == events.len() - cut + 1,
        compacted(events, cut, summary)[0] == summary,
        cut <= i < events.len() ==> compacted(events, cut, summary)[i - cut + 1] == events[i],
{
}

} // verus!
