//! Which scheduled prompts fire at a given time, and which stay.

use vstd::prelude::*;

use crate::cron_when::{
    answers, answers_at, five_field, lemma_slot_given, moment_given, next_slot, parse_cron,
    slot_given,
};
use crate::text::{copy_option, text_option};
use crate::time::{
    moment_of, parse_rfc3339, rfc3339_text, text_of, to_rfc3339, Moment, MAX_SECS, YEAR_0,
    YEAR_9999,
};

verus! {

/// A scheduled prompt: it fires once, at `fire_at`, or again and again, as `cron` says.
#[derive(Clone, Debug, PartialEq, Eq)]
pub struct CronEntry {
    pub id: String,
    pub what: String,
    pub fire_at: Option<String>,
    pub cron: Option<String>,
    pub last_fired_at: Option<String>,
}

/// The texts of a scheduled prompt.
pub struct EntryView {
    pub id: Seq<char>,
    pub what: Seq<char>,
    pub fire_at: Option<Seq<char>>,
    pub cron: Option<Seq<char>>,
    pub last_fired_at: Option<Seq<char>>,
}

impl View for CronEntry {
    type V = EntryView;

    open spec fn view(&self) -> EntryView {
        EntryView {
            id: self.id@,
            what: self.what@,
            fire_at: text_option(self.fire_at),
            cron: text_option(self.cron),
            last_fired_at: text_option(self.last_fired_at),
        }
    }
}

/// The entries' texts.
pub open spec fn entry_views(v: Seq<CronEntry>) -> Seq<EntryView> {
    v.map_values(|e: CronEntry| e@)
}

impl CronEntry {
    /// A copy of the entry.
    pub fn copy(&self) -> (r: CronEntry)
        ensures
            r@ == self@,
    {
        CronEntry {
            id: self.id.clone(),
            what: self.what.clone(),
            fire_at: copy_option(&self.fire_at),
            cron: copy_option(&self.cron),
            last_fired_at: copy_option(&self.last_fired_at),
        }
    }
}

/// The moment after which a recurring entry's next slot is looked up: when it last
/// fired, or now where that cannot be read.
pub open spec fn slot_base(e: EntryView, now: Moment) -> Moment {
    match e.last_fired_at {
        Some(text) => match moment_of(text) {
            Some(m) => m,
            None => now,
        },
        None => now,
    }
}

/// The readings that an entry recurs on: none unless it recurs on a readable expression.
pub open spec fn recurring_slots(e: EntryView) -> Option<Set<int>> {
    match (e.fire_at, e.cron) {
        (None, Some(expr)) => match five_field(expr) {
            Ok(slots) => Some(slots),
            Err(_) => None,
        },
        _ => None,
    }
}

/// Whether `slot` can be the next slot of an entry: none unless the entry recurs on a
/// readable expression, and otherwise what the look-up after the base gave, which is the
/// first that follows the base, or none.
pub open spec fn slot_possible(e: EntryView, now: Moment, slot: Option<Moment>) -> bool {
    match recurring_slots(e) {
        Some(slots) => {
            &&& slot_given(slots, slot_base(e, now), slot)
            &&& answers(slots, slot_base(e, now), slot)
        },
        None => slot is None,
    }
}

/// What becomes of an entry at a poll.
pub enum Verdict {
    /// It is left as it is.
    Keep,
    /// It fires and is gone.
    Fire,
    /// It fires and stays, with the time of the poll as its last firing.
    FireAgain,
    /// It cannot be understood and is gone.
    Discard,
}

/// What becomes of an entry at a poll, given its next slot.
pub open spec fn verdict(e: EntryView, now: Moment, slot: Option<Moment>) -> Verdict {
    match (e.fire_at, e.cron) {
        (Some(text), None) => match moment_of(text) {
            Some(m) => if m.up_to(now) {
                Verdict::Fire
            } else {
                Verdict::Keep
            },
            None => Verdict::Discard,
        },
        (None, Some(expr)) => if five_field(expr) is Err {
            Verdict::Discard
        } else if slot matches Some(m) && m.up_to(now) {
            Verdict::FireAgain
        } else {
            Verdict::Keep
        },
        _ => Verdict::Discard,
    }
}

/// The entry, last fired at the time of the poll.
pub open spec fn refired(e: EntryView, now: Moment) -> EntryView {
    EntryView { last_fired_at: Some(text_of(now)), ..e }
}

/// The entries that one entry contributes to those that fire.
pub open spec fn fires(e: EntryView, now: Moment, slot: Option<Moment>) -> Seq<EntryView> {
    match verdict(e, now, slot) {
        Verdict::Fire => seq![e],
        Verdict::FireAgain => seq![refired(e, now)],
        _ => Seq::empty(),
    }
}

/// The entries that one entry contributes to those that stay.
pub open spec fn stays(e: EntryView, now: Moment, slot: Option<Moment>) -> Seq<EntryView> {
    match verdict(e, now, slot) {
        Verdict::Keep => seq![e],
        Verdict::FireAgain => seq![refired(e, now)],
        _ => Seq::empty(),
    }
}

/// The entries that fire at a poll, given their next slots, in order.
pub open spec fn poll_fires(
    entries: Seq<EntryView>,
    now: Moment,
    slots: Seq<Option<Moment>>,
) -> Seq<EntryView>
    decreases entries.len(),
{
    if entries.len() == 0 || slots.len() == 0 {
        Seq::empty()
    } else {
        poll_fires(entries.drop_last(), now, slots.drop_last()) + fires(
            entries.last(),
            now,
            slots.last(),
        )
    }
}

/// The entries that stay after a poll, given their next slots, in order.
pub open spec fn poll_stays(
    entries: Seq<EntryView>,
    now: Moment,
    slots: Seq<Option<Moment>>,
) -> Seq<EntryView>
    decreases entries.len(),
{
    if entries.len() == 0 || slots.len() == 0 {
        Seq::empty()
    } else {
        poll_stays(entries.drop_last(), now, slots.drop_last()) + stays(
            entries.last(),
            now,
            slots.last(),
        )
    }
}

/// Whether `slots` can be the next slots of `entries`.
pub open spec fn slots_possible(
    entries: Seq<EntryView>,
    now: Moment,
    slots: Seq<Option<Moment>>,
) -> bool {
    &&& slots.len() == entries.len()
    &&& forall|i: int| 0 <= i < entries.len() ==> slot_possible(entries[i], now, #[trigger] slots[i])
}

/// Whether the text of a moment is read as that moment.
pub open spec fn reads_back(m: Moment) -> bool {
    moment_of(text_of(m)) == Some(m)
}

/// What a poll decided: the entries that fire, and those that stay.
#[derive(Debug, PartialEq, Eq)]
pub struct PollResult {
    pub fire: Vec<CronEntry>,
    pub keep: Vec<CronEntry>,
}

/// The moment after which a recurring entry's next slot is looked up.
fn base_of(entry: &CronEntry, now: &Moment) -> (m: Moment)
    requires
        now.wf(),
        now.secs < MAX_SECS,
    ensures
        m == slot_base(entry@, *now),
        m.wf(),
        m.secs < MAX_SECS,
{
    match &entry.last_fired_at {
        Some(text) => match parse_rfc3339(text.as_str()) {
            Some(m) => m,
            None => *now,
        },
        None => *now,
    }
}

/// The next slot of a recurring entry.
pub(crate) fn upcoming(entry: &CronEntry, now: &Moment) -> (slot: Option<Moment>)
    requires
        now.wf(),
        now.secs < MAX_SECS,
    ensures
        slot_possible(entry@, *now, slot),
{
    match (&entry.fire_at, &entry.cron) {
        (None, Some(expr)) => match parse_cron(expr.as_str()) {
            Ok(schedule) => {
                let base: Moment = base_of(entry, now);
                let slot: Option<Moment> = next_slot(&schedule, &base);
                proof {
                    lemma_slot_given(schedule, base, slot);
                }
                slot
            },
            Err(_) => None,
        },
        _ => None,
    }
}

/// Decides what becomes of one entry, given its next slot.
fn judge(entry: &CronEntry, now: &Moment, slot: &Option<Moment>) -> (v: Verdict)
    ensures
        v == verdict(entry@, *now, *slot),
{
    match (&entry.fire_at, &entry.cron) {
        (Some(text), None) => match parse_rfc3339(text.as_str()) {
            Some(m) => if m.is_up_to(now) {
                Verdict::Fire
            } else {
                Verdict::Keep
            },
            None => Verdict::Discard,
        },
        (None, Some(expr)) => match parse_cron(expr.as_str()) {
            Err(_) => Verdict::Discard,
            Ok(_) => match slot {
                Some(m) => if m.is_up_to(now) {
                    Verdict::FireAgain
                } else {
                    Verdict::Keep
                },
                None => Verdict::Keep,
            },
        },
        _ => Verdict::Discard,
    }
}

/// Decides which entries fire at `now` and which stay, given their next slots.
pub fn poll_with(entries: Vec<CronEntry>, now: &Moment, slots: &Vec<Option<Moment>>) -> (r: PollResult)
    requires
        now.wf(),
        slots@.len() == entries@.len(),
    ensures
        entry_views(r.fire@) == poll_fires(entry_views(entries@), *now, slots@),
        entry_views(r.keep@) == poll_stays(entry_views(entries@), *now, slots@),
        now.readable() ==> reads_back(*now),
{
    let stamp: String = to_rfc3339(now);
    let mut fire: Vec<CronEntry> = Vec::new();
    let mut keep: Vec<CronEntry> = Vec::new();
    let ghost all = entry_views(entries@);
    let mut i: usize = 0;
    assert(entry_views(fire@) =~= Seq::empty());
    assert(entry_views(keep@) =~= Seq::empty());
    while i < entries.len()
        invariant
            i <= entries@.len(),
            stamp@ == text_of(*now),
            slots@.len() == entries@.len(),
            all == entry_views(entries@),
            entry_views(fire@) == poll_fires(all.take(i as int), *now, slots@.take(i as int)),
            entry_views(keep@) == poll_stays(all.take(i as int), *now, slots@.take(i as int)),
        decreases entries@.len() - i,
    {
        let ghost fire0 = entry_views(fire@);
        let ghost keep0 = entry_views(keep@);
        let entry: &CronEntry = &entries[i];
        assert(all[i as int] == entry@);
        match judge(entry, now, &slots[i]) {
            Verdict::Fire => {
                fire.push(entry.copy());
            },
            Verdict::Keep => {
                keep.push(entry.copy());
            },
            Verdict::FireAgain => {
                let mut updated: CronEntry = entry.copy();
                updated.last_fired_at = Some(stamp.clone());
                assert(updated@ == refired(entry@, *now));
                fire.push(updated.copy());
                keep.push(updated);
            },
            Verdict::Discard => {},
        }
        proof {
            let n = i as int + 1;
            assert(all.take(n).drop_last() =~= all.take(i as int));
            assert(slots@.take(n).drop_last() =~= slots@.take(i as int));
            assert(entry_views(fire@) =~= fire0 + fires(entry@, *now, slots@[i as int]));
            assert(entry_views(keep@) =~= keep0 + stays(entry@, *now, slots@[i as int]));
        }
        i += 1;
    }
    assert(all.take(i as int) =~= all);
    assert(slots@.take(i as int) =~= slots@);
    PollResult { fire, keep }
}

/// Decides which entries fire at `now` and which stay.
pub fn poll_due_pure(entries: Vec<CronEntry>, now: &Moment) -> (r: PollResult)
    requires
        now.wf(),
        now.secs < MAX_SECS,
    ensures
        exists|slots: Seq<Option<Moment>>|
            {
                &&& #[trigger] slots_possible(entry_views(entries@), *now, slots)
                &&& entry_views(r.fire@) == poll_fires(entry_views(entries@), *now, slots)
                &&& entry_views(r.keep@) == poll_stays(entry_views(entries@), *now, slots)
            },
        now.readable() ==> reads_back(*now),
{
    let mut slots: Vec<Option<Moment>> = Vec::new();
    let mut i: usize = 0;
    while i < entries.len()
        invariant
            i <= entries@.len(),
            now.wf(),
            now.secs < MAX_SECS,
            slots@.len() == i,
            forall|j: int|
                0 <= j < i ==> slot_possible(
                    entry_views(entries@)[j],
                    *now,
                    #[trigger] slots@[j],
                ),
        decreases entries@.len() - i,
    {
        slots.push(upcoming(&entries[i], now));
        i += 1;
    }
    assert(slots_possible(entry_views(entries@), *now, slots@));
    poll_with(entries, now, &slots)
}

/// A slot is later than the moment after which it was looked up, unless the clock
/// on the wall is further ahead at the slot than right after that moment.
pub proof fn law_slot_is_later(
    slots: Set<int>,
    base: Moment,
    slot: Moment,
    before: int,
    offset: int,
)
    requires
        answers_at(slots, base, Some(slot), before, offset),
        slot.offset <= offset,
    ensures
        !slot.up_to(base),
        slot.secs > base.secs,
{
}

/// A slot that has elapsed makes its entry fire: `w` is a reading after the entry's last
/// firing that its expression admits and the time zone has, at the moment `m`, which is no
/// later than now. This leaves out entries right after whose last firing the clock is set
/// back, or that fired before the year 0, and slots between which and `m` it is set back.
pub proof fn law_elapsed_slot_fires(
    e: EntryView,
    now: Moment,
    slot: Option<Moment>,
    before: int,
    offset: int,
    w: int,
    m: Moment,
)
    requires
        recurring_slots(e) matches Some(slots) && slots.contains(w) && answers_at(
            slots,
            slot_base(e, now),
            slot,
            before,
            offset,
        ),
        before <= offset,
        YEAR_0 <= slot_base(e, now).secs + before,
        slot_base(e, now).secs + offset < w < YEAR_9999,
        !moment_given(None, w),
        m.wall() == w,
        m.up_to(now),
        slot matches Some(s) ==> m.offset <= s.offset,
    ensures
        verdict(e, now, slot) == Verdict::FireAgain,
        fires(e, now, slot) == seq![refired(e, now)],
{
    let slots = recurring_slots(e)->0;
    assert(slots.contains(w));
    assert(slot is Some);
    assert(slot->0.wall() <= w);
    assert(slot->0.up_to(m));
}

/// A recurring entry that has just fired does not fire again at the same time,
/// however many slots it had missed: the next slot is looked up from now on.
pub proof fn law_fired_entry_rests(e: EntryView, now: Moment, slot: Option<Moment>)
    requires
        reads_back(now),
        e.fire_at is None,
        e.cron is Some,
        slot matches Some(m) ==> !m.up_to(now),
    ensures
        slot_base(refired(e, now), now) == now,
        fires(refired(e, now), now, slot).len() == 0,
{
}

/// Whether the machine's time zone gives every look-up of a slot a single answer.
pub open spec fn zone_is_steady() -> bool {
    forall|slots: Set<int>, base: Moment, a: Option<Moment>, b: Option<Moment>|
        #![trigger slot_given(slots, base, a), slot_given(slots, base, b)]
        slot_given(slots, base, a) && slot_given(slots, base, b) ==> a == b
}

/// Whether the slots that the machine's time zone gives after `now` lie after it.
pub open spec fn zone_goes_on(now: Moment) -> bool {
    forall|slots: Set<int>, slot: Option<Moment>| #[trigger]
        slot_given(slots, now, slot) ==> (slot matches Some(m) ==> !m.up_to(now))
}

/// Whether an entry that a poll left does not fire at a poll at the same time, whatever
/// slot is looked up for it.
spec fn rests(e: EntryView, now: Moment) -> bool {
    &&& pending(e, now)
    &&& forall|slot: Option<Moment>| #[trigger]
        slot_possible(e, now, slot) ==> (slot matches Some(m) ==> !m.up_to(now))
}

proof fn lemma_what_stays_rests(
    entries: Seq<EntryView>,
    now: Moment,
    slots: Seq<Option<Moment>>,
)
    requires
        reads_back(now),
        zone_is_steady(),
        zone_goes_on(now),
        slots_possible(entries, now, slots),
    ensures
        forall|i: int|
            0 <= i < poll_stays(entries, now, slots).len() ==> rests(
                #[trigger] poll_stays(entries, now, slots)[i],
                now,
            ),
    decreases entries.len(),
{
    if entries.len() > 0 {
        let e = entries.last();
        let slot = slots.last();
        let before = poll_stays(entries.drop_last(), now, slots.drop_last());
        let added = stays(e, now, slot);
        assert(slots_possible(entries.drop_last(), now, slots.drop_last())) by {
            assert forall|i: int| 0 <= i < entries.drop_last().len() implies slot_possible(
                entries.drop_last()[i],
                now,
                #[trigger] slots.drop_last()[i],
            ) by {
                assert(slots.drop_last()[i] == slots[i]);
            }
        }
        lemma_what_stays_rests(entries.drop_last(), now, slots.drop_last());
        assert(slot == slots[slots.len() - 1]);
        assert(slot_possible(e, now, slot));
        assert forall|i: int| 0 <= i < (before + added).len() implies rests(
            #[trigger] (before + added)[i],
            now,
        ) by {
            if i < before.len() {
                assert((before + added)[i] == before[i]);
            } else {
                let k = (before + added)[i];
                assert(k == added[i - before.len()]);
                assert(rests(k, now)) by {
                    assert forall|s: Option<Moment>| #[trigger]
                        slot_possible(k, now, s) implies (s matches Some(m) ==> !m.up_to(now)) by {
                        if recurring_slots(k) is Some {
                            assert(recurring_slots(k) == recurring_slots(e));
                            assert(slot_given(recurring_slots(e)->0, slot_base(k, now), s));
                            assert(slot_given(recurring_slots(e)->0, slot_base(e, now), slot));
                        }
                    }
                }
            }
        }
    }
}

/// Polling again, at the same time, what a poll left fires nothing and changes nothing:
/// however many slots were missed, each entry has fired once. The two conditions on the
/// machine's time zone leave out polls between which it changes, and times after which it
/// gives a slot that lies before them.
pub proof fn law_polling_again_changes_nothing(
    entries: Seq<EntryView>,
    now: Moment,
    slots: Seq<Option<Moment>>,
    again: Seq<Option<Moment>>,
)
    requires
        reads_back(now),
        zone_is_steady(),
        zone_goes_on(now),
        slots_possible(entries, now, slots),
        slots_possible(poll_stays(entries, now, slots), now, again),
    ensures
        poll_fires(poll_stays(entries, now, slots), now, again) == Seq::<EntryView>::empty(),
        poll_stays(poll_stays(entries, now, slots), now, again) == poll_stays(
            entries,
            now,
            slots,
        ),
{
    let keep = poll_stays(entries, now, slots);
    lemma_what_stays_rests(entries, now, slots);
    assert forall|i: int| 0 <= i < keep.len() implies pending(#[trigger] keep[i], now) by {
        assert(rests(keep[i], now));
    }
    assert forall|i: int| 0 <= i < again.len() implies (#[trigger] again[i] matches Some(m)
        ==> !m.up_to(now)) by {
        assert(rests(keep[i], now));
        assert(slot_possible(keep[i], now, again[i]));
    }
    law_idle_poll_changes_nothing(keep, now, again);
    assert(poll_fires(keep, now, again) =~= Seq::empty());
}

/// An entry fires at most once in a poll.
pub proof fn law_fires_at_most_once(
    entries: Seq<EntryView>,
    now: Moment,
    slots: Seq<Option<Moment>>,
)
    ensures
        poll_fires(entries, now, slots).len() <= entries.len(),
        poll_stays(entries, now, slots).len() <= entries.len(),
    decreases entries.len(),
{
    if entries.len() > 0 && slots.len() > 0 {
        law_fires_at_most_once(entries.drop_last(), now, slots.drop_last());
    }
}

/// A one-shot entry that stays after a poll is not due yet, and a recurring entry that
/// stays can be read: nothing that fired once, and nothing corrupt, is kept.
pub proof fn law_only_pending_entries_stay(
    entries: Seq<EntryView>,
    now: Moment,
    slots: Seq<Option<Moment>>,
)
    ensures
        forall|i: int|
            0 <= i < poll_stays(entries, now, slots).len() ==> pending(
                #[trigger] poll_stays(entries, now, slots)[i],
                now,
            ),
    decreases entries.len(),
{
    if entries.len() > 0 && slots.len() > 0 {
        let before = poll_stays(entries.drop_last(), now, slots.drop_last());
        let added = stays(entries.last(), now, slots.last());
        law_only_pending_entries_stay(entries.drop_last(), now, slots.drop_last());
        assert forall|i: int| 0 <= i < (before + added).len() implies pending(
            #[trigger] (before + added)[i],
            now,
        ) by {
            if i < before.len() {
                assert((before + added)[i] == before[i]);
            } else {
                assert((before + added)[i] == added[i - before.len()]);
            }
        }
    }
}

/// Whether an entry waits for a later time.
pub open spec fn pending(e: EntryView, now: Moment) -> bool {
    match (e.fire_at, e.cron) {
        (Some(text), None) => moment_of(text) matches Some(m) && !m.up_to(now),
        (None, Some(expr)) => five_field(expr) is Ok,
        _ => false,
    }
}

/// Polling what a poll left, at the same time, fires nothing where every next slot
/// lies in the future.
pub proof fn law_second_poll_is_quiet(
    entries: Seq<EntryView>,
    now: Moment,
    slots: Seq<Option<Moment>>,
    later_slots: Seq<Option<Moment>>,
)
    requires
        forall|i: int|
            0 <= i < later_slots.len() ==> (#[trigger] later_slots[i] matches Some(m)
                ==> !m.up_to(now)),
    ensures
        poll_fires(poll_stays(entries, now, slots), now, later_slots).len() == 0,
{
    law_only_pending_entries_stay(entries, now, slots);
    lemma_pending_do_not_fire(poll_stays(entries, now, slots), now, later_slots);
}

proof fn lemma_pending_do_not_fire(
    entries: Seq<EntryView>,
    now: Moment,
    slots: Seq<Option<Moment>>,
)
    requires
        forall|i: int| 0 <= i < entries.len() ==> pending(#[trigger] entries[i], now),
        forall|i: int|
            0 <= i < slots.len() ==> (#[trigger] slots[i] matches Some(m) ==> !m.up_to(now)),
    ensures
        poll_fires(entries, now, slots).len() == 0,
    decreases entries.len(),
{
    if entries.len() > 0 && slots.len() > 0 {
        assert(entries.last() == entries[entries.len() - 1]);
        assert(slots.last() == slots[slots.len() - 1]);
        lemma_pending_do_not_fire(entries.drop_last(), now, slots.drop_last());
    }
}

/// Where every entry can be read and waits for a later time, a poll changes nothing.
pub proof fn law_idle_poll_changes_nothing(
    entries: Seq<EntryView>,
    now: Moment,
    slots: Seq<Option<Moment>>,
)
    requires
        slots.len() == entries.len(),
        forall|i: int| 0 <= i < entries.len() ==> pending(#[trigger] entries[i], now),
        forall|i: int|
            0 <= i < slots.len() ==> (#[trigger] slots[i] matches Some(m) ==> !m.up_to(now)),
    ensures
        poll_stays(entries, now, slots) == entries,
        poll_fires(entries, now, slots).len() == 0,
    decreases entries.len(),
{
    lemma_pending_do_not_fire(entries, now, slots);
    if entries.len() > 0 {
        assert(entries.last() == entries[entries.len() - 1]);
        assert(slots.last() == slots[slots.len() - 1]);
        law_idle_poll_changes_nothing(entries.drop_last(), now, slots.drop_last());
        assert(poll_stays(entries, now, slots) =~= entries);
    } else {
        assert(poll_stays(entries, now, slots) =~= entries);
    }
}

/// What becomes of an entry at a poll does not depend on the others, and all stay in their
/// order.
pub proof fn law_entries_are_polled_alone(
    a: Seq<EntryView>,
    a_slots: Seq<Option<Moment>>,
    b: Seq<EntryView>,
    b_slots: Seq<Option<Moment>>,
    now: Moment,
)
    requires
        a.len() == a_slots.len(),
        b.len() == b_slots.len(),
    ensures
        poll_fires(a + b, now, a_slots + b_slots) == poll_fires(a, now, a_slots) + poll_fires(
            b,
            now,
            b_slots,
        ),
        poll_stays(a + b, now, a_slots + b_slots) == poll_stays(a, now, a_slots) + poll_stays(
            b,
            now,
            b_slots,
        ),
    decreases b.len(),
{
    let all = a + b;
    let slots = a_slots + b_slots;
    if b.len() == 0 {
        assert(all =~= a);
        assert(slots =~= a_slots);
        assert(poll_fires(all, now, slots) =~= poll_fires(a, now, a_slots) + poll_fires(
            b,
            now,
            b_slots,
        ));
        assert(poll_stays(all, now, slots) =~= poll_stays(a, now, a_slots) + poll_stays(
            b,
            now,
            b_slots,
        ));
    } else {
        law_entries_are_polled_alone(a, a_slots, b.drop_last(), b_slots.drop_last(), now);
        assert(all.drop_last() =~= a + b.drop_last());
        assert(slots.drop_last() =~= a_slots + b_slots.drop_last());
        assert(poll_fires(all, now, slots) =~= poll_fires(a, now, a_slots) + poll_fires(
            b,
            now,
            b_slots,
        ));
        assert(poll_stays(all, now, slots) =~= poll_stays(a, now, a_slots) + poll_stays(
            b,
            now,
            b_slots,
        ));
    }
}

proof fn lemma_single(e: EntryView, now: Moment, slot: Option<Moment>)
    ensures
        poll_fires(seq![e], now, seq![slot]) == fires(e, now, slot),
        poll_stays(seq![e], now, seq![slot]) == stays(e, now, slot),
{
    reveal_with_fuel(poll_fires, 2);
    reveal_with_fuel(poll_stays, 2);
    assert(seq![e].drop_last() =~= Seq::empty());
    assert(poll_fires(seq![e], now, seq![slot]) =~= fires(e, now, slot));
    assert(poll_stays(seq![e], now, seq![slot]) =~= stays(e, now, slot));
}

/// Whether the second count of a moment has come, at `now`.
pub open spec fn has_come(m: Moment, now: Moment) -> bool {
    now.secs > m.secs || (now.secs == m.secs && now.nanos >= m.nanos)
}

/// An entry for one time fires from that time on, exactly as it is, and is gone then;
/// until then it stays, exactly as it is.
pub proof fn law_one_shot_fires_when_its_time_has_come(
    e: EntryView,
    now: Moment,
    slot: Option<Moment>,
    m: Moment,
)
    requires
        e.fire_at is Some,
        e.cron is None,
        moment_of(e.fire_at->0) == Some(m),
    ensures
        poll_fires(seq![e], now, seq![slot]) == if has_come(m, now) {
            seq![e]
        } else {
            Seq::empty()
        },
        poll_stays(seq![e], now, seq![slot]) == if has_come(m, now) {
            Seq::empty()
        } else {
            seq![e]
        },
{
    lemma_single(e, now, slot);
}

/// A recurring entry always stays, under its id, with its prompt and its expression. Where
/// its next slot has come it fires, once, and both that and what stays tell the time of the
/// poll as its last firing; otherwise it is left exactly as it is.
pub proof fn law_recurring_entry_fires_when_its_slot_has_come(
    e: EntryView,
    now: Moment,
    slot: Option<Moment>,
)
    requires
        e.fire_at is None,
        e.cron is Some,
        five_field(e.cron->0) is Ok,
    ensures
        ({
            let fire = poll_fires(seq![e], now, seq![slot]);
            let keep = poll_stays(seq![e], now, seq![slot]);
            &&& keep.len() == 1
            &&& keep[0].id == e.id
            &&& keep[0].what == e.what
            &&& keep[0].cron == e.cron
            &&& keep[0].fire_at is None
            &&& if slot matches Some(m) && has_come(m, now) {
                &&& fire == keep
                &&& keep[0].last_fired_at == Some(
                    rfc3339_text(now.secs as int, now.nanos as int, now.offset as int),
                )
            } else {
                &&& fire.len() == 0
                &&& keep[0] == e
            }
        }),
{
    lemma_single(e, now, slot);
}

/// An entry whose time or expression cannot be read, or that has both or none, is dropped.
pub proof fn law_unreadable_entry_is_dropped(e: EntryView, now: Moment, slot: Option<Moment>)
    requires
        match (e.fire_at, e.cron) {
            (Some(text), None) => moment_of(text) is None,
            (None, Some(expr)) => five_field(expr) is Err,
            _ => true,
        },
    ensures
        poll_fires(seq![e], now, seq![slot]).len() == 0,
        poll_stays(seq![e], now, seq![slot]).len() == 0,
{
    lemma_single(e, now, slot);
}

/// Whether two entries are the same but for when they last fired.
pub open spec fn same_but_fired(a: EntryView, b: EntryView) -> bool {
    a.id == b.id && a.what == b.what && a.fire_at == b.fire_at && a.cron == b.cron
}

/// What fires and what stays was there before the poll, with the same id, prompt and time:
/// a poll makes up nothing and rewrites no prompt.
pub proof fn law_poll_keeps_ids_and_prompts(
    entries: Seq<EntryView>,
    now: Moment,
    slots: Seq<Option<Moment>>,
    i: int,
)
    ensures
        0 <= i < poll_fires(entries, now, slots).len() ==> exists|k: int|
            0 <= k < entries.len() && same_but_fired(
                #[trigger] entries[k],
                poll_fires(entries, now, slots)[i],
            ),
        0 <= i < poll_stays(entries, now, slots).len() ==> exists|k: int|
            0 <= k < entries.len() && same_but_fired(
                #[trigger] entries[k],
                poll_stays(entries, now, slots)[i],
            ),
    decreases entries.len(),
{
    if entries.len() > 0 && slots.len() > 0 {
        let earlier = entries.drop_last();
        let n = entries.len() - 1;
        law_poll_keeps_ids_and_prompts(earlier, now, slots.drop_last(), i);
        let fire0 = poll_fires(earlier, now, slots.drop_last());
        let keep0 = poll_stays(earlier, now, slots.drop_last());
        let fire = poll_fires(entries, now, slots);
        let keep = poll_stays(entries, now, slots);
        if 0 <= i < fire.len() {
            if i < fire0.len() {
                let k = choose|k: int|
                    0 <= k < earlier.len() && same_but_fired(#[trigger] earlier[k], fire0[i]);
                assert(entries[k] == earlier[k]);
                assert(same_but_fired(entries[k], fire[i]));
            } else {
                assert(fire[i] == fires(entries.last(), now, slots.last())[i - fire0.len()]);
                assert(same_but_fired(entries[n], fire[i]));
            }
        }
        if 0 <= i < keep.len() {
            if i < keep0.len() {
                let k = choose|k: int|
                    0 <= k < earlier.len() && same_but_fired(#[trigger] earlier[k], keep0[i]);
                assert(entries[k] == earlier[k]);
                assert(same_but_fired(entries[k], keep[i]));
            } else {
                assert(keep[i] == stays(entries.last(), now, slots.last())[i - keep0.len()]);
                assert(same_but_fired(entries[n], keep[i]));
            }
        }
    }
}

/// The next slot of a recurring entry is looked up from its last firing on, where that can
/// be read, and from now on otherwise; and the look-up is for the entry's own expression.
pub proof fn law_slots_count_from_the_last_firing(
    e: EntryView,
    now: Moment,
    slot: Option<Moment>,
    expr: Seq<char>,
    slots: Set<int>,
    last: Moment,
)
    requires
        e.fire_at is None,
        e.cron == Some(expr),
        five_field(expr) == Ok::<Set<int>, Seq<Seq<char>>>(slots),
        slot_possible(e, now, slot),
    ensures
        e.last_fired_at matches Some(t) && moment_of(t) == Some(last) ==> slot_given(
            slots,
            last,
            slot,
        ) && answers(slots, last, slot),
        e.last_fired_at is None || moment_of(e.last_fired_at->0) is None ==> slot_given(
            slots,
            now,
            slot,
        ) && answers(slots, now, slot),
{
}

} // verus!
