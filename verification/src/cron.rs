//! Scheduled prompts: how a list of entries changes as they are added, removed and
//! fired.

use vstd::prelude::*;

use crate::cron_poll::{
    entry_views, has_come, law_entries_are_polled_alone,
    law_one_shot_fires_when_its_time_has_come, law_poll_keeps_ids_and_prompts,
    law_recurring_entry_fires_when_its_slot_has_come, pending, poll_fires, poll_stays, reads_back,
    same_but_fired, slot_base, slots_possible,
    verdict, Verdict,
};
use crate::cron_when::{
    first_moment, five_field, has_tomorrow, second_moment, when_given, when_outcome,
};
use crate::failure::{account, Failure};
use crate::ids::{clock_gave, clock_id, id_of, law_id_length};
use crate::invocation_log::{ContextView, InvocationContext, InvocationStatus, StatusView, Trigger};
use crate::text::{
    begins_with, is_white, law_stripped_form_is_unique, law_trimming_strips_the_ends, same,
    slice_option, starts_with, stripped, texts, trim, trimmed,
};
use crate::time::{moment_of, rfc3339_text, text_of, to_rfc3339, Moment, MAX_SECS};

pub use crate::cron_poll::{poll_due_pure, poll_with, CronEntry, EntryView, PollResult};
pub use crate::cron_view::format_entry_line;
pub use crate::cron_when::{decide_when, parse_cron, parse_when};

verus! {

/// The entry for a request to schedule, or the failure of one that cannot be met.
pub open spec fn schedule_outcome(
    what: Seq<char>,
    when: Option<Seq<char>>,
    cron: Option<Seq<char>>,
    now: Moment,
    first: Option<Moment>,
    second: Option<Moment>,
    id: Seq<char>,
) -> Result<EntryView, Seq<Seq<char>>> {
    let entry = EntryView {
        id,
        what: trimmed(what),
        fire_at: None,
        cron: None,
        last_fired_at: None,
    };
    if trimmed(what).len() == 0 {
        Err(seq!["'what' is required"@])
    } else {
        match (when, cron) {
            (None, None) => Err(seq!["must specify either 'when' or 'cron'"@]),
            (Some(_), Some(_)) => Err(seq!["'when' and 'cron' are mutually exclusive"@]),
            (Some(w), None) => match when_outcome(w, now, first, second) {
                Ok(m) => Ok(EntryView { fire_at: Some(text_of(m)), ..entry }),
                Err(e) => Err(e),
            },
            (None, Some(c)) => match five_field(c) {
                Ok(_) => Ok(
                    EntryView { cron: Some(c), last_fired_at: Some(text_of(now)), ..entry },
                ),
                Err(e) => Err(seq!["invalid cron expression: "@ + c] + e),
            },
        }
    }
}

/// Whether the time of a new entry is read back from its text, where it can be.
pub open spec fn time_read_back(
    when: Option<Seq<char>>,
    cron: Option<Seq<char>>,
    now: Moment,
    first: Option<Moment>,
    second: Option<Moment>,
) -> bool {
    match (when, cron) {
        (Some(w), None) => when_outcome(w, now, first, second) matches Ok(m) ==> (m.readable()
            ==> reads_back(m)),
        (None, Some(c)) => five_field(c) is Ok ==> (now.readable() ==> reads_back(now)),
        _ => true,
    }
}

/// The entry for a request to schedule `what`, once at `when` or again and again as
/// `cron` says, given the moments for the readings of `when`.
pub fn new_entry(
    what: &str,
    when: Option<&str>,
    cron: Option<&str>,
    now: &Moment,
    first: Option<Moment>,
    second: Option<Moment>,
    id: String,
) -> (r: Result<CronEntry, Failure>)
    requires
        has_tomorrow(*now),
        first matches Some(m) ==> m.wf(),
        second matches Some(m) ==> m.wf(),
    ensures
        match r {
            Ok(e) => schedule_outcome(
                what@,
                slice_option(when),
                slice_option(cron),
                *now,
                first,
                second,
                id@,
            ) == Ok::<EntryView, Seq<Seq<char>>>(e@),
            Err(e) => schedule_outcome(
                what@,
                slice_option(when),
                slice_option(cron),
                *now,
                first,
                second,
                id@,
            ) == Err::<EntryView, Seq<Seq<char>>>(e@),
        },
        r is Ok ==> time_read_back(slice_option(when), slice_option(cron), *now, first, second),
{
    let what: String = trim(what);
    if what.as_str().is_empty() {
        return Err(Failure::new("'what' is required".to_owned()));
    }
    match (when, cron) {
        (None, None) => Err(Failure::new("must specify either 'when' or 'cron'".to_owned())),
        (Some(_), Some(_)) => Err(
            Failure::new("'when' and 'cron' are mutually exclusive".to_owned()),
        ),
        (Some(w), None) => match decide_when(w, now, first, second) {
            Ok(m) => Ok(
                CronEntry {
                    id,
                    what,
                    fire_at: Some(to_rfc3339(&m)),
                    cron: None,
                    last_fired_at: None,
                },
            ),
            Err(e) => Err(e),
        },
        (None, Some(c)) => match parse_cron(c) {
            Ok(_) => Ok(
                CronEntry {
                    id,
                    what,
                    fire_at: None,
                    cron: Some(c.to_owned()),
                    last_fired_at: Some(to_rfc3339(now)),
                },
            ),
            Err(e) => {
                let mut message: String = "invalid cron expression: ".to_owned();
                message.append(c);
                Err(e.context(message))
            },
        },
    }
}

/// An identifier of twelve symbols, from the machine's clock.
pub fn short_id() -> (id: String)
    ensures
        exists|n: nat| #[trigger] clock_gave(n) && id@ == id_of(n, 12),
{
    clock_id(12)
}

/// Outcome of [`CronStore::remove`].
#[derive(Debug, PartialEq, Eq)]
pub enum RemoveResult {
    /// The entry was removed.
    Removed(CronEntry),
    /// No entry's id is, or begins with, the text.
    NotFound,
    /// Several entries' ids begin with the text, and it is not the id of one of them
    /// alone; nothing was removed.
    Ambiguous(Vec<String>),
}

/// The scheduled entries, and the file that they are kept in.
#[derive(Debug)]
pub struct CronStore {
    path: String,
    entries: Vec<CronEntry>,
}

/// The positions of the entries whose id begins with `prefix`, in order.
pub open spec fn matching(entries: Seq<EntryView>, prefix: Seq<char>) -> Seq<int>
    decreases entries.len(),
{
    if entries.len() == 0 {
        Seq::empty()
    } else {
        let before = matching(entries.drop_last(), prefix);
        if begins_with(entries.last().id, prefix) {
            before.push(entries.len() - 1)
        } else {
            before
        }
    }
}

/// The positions of the entries that have this id, in order.
pub open spec fn having(entries: Seq<EntryView>, id: Seq<char>) -> Seq<int>
    decreases entries.len(),
{
    if entries.len() == 0 {
        Seq::empty()
    } else {
        let before = having(entries.drop_last(), id);
        if entries.last().id == id {
            before.push(entries.len() - 1)
        } else {
            before
        }
    }
}

/// The positions of the entries that a text picks: that of the one entry whose id it is,
/// or else those of all whose id begins with it.
pub open spec fn picked(entries: Seq<EntryView>, text: Seq<char>) -> Seq<int> {
    if having(entries, text).len() == 1 {
        having(entries, text)
    } else {
        matching(entries, text)
    }
}

proof fn lemma_positions(entries: Seq<EntryView>, text: Seq<char>)
    ensures
        forall|i: int|
            0 <= i < matching(entries, text).len() ==> 0 <= #[trigger] matching(entries, text)[i]
                < entries.len(),
        forall|i: int|
            0 <= i < having(entries, text).len() ==> 0 <= #[trigger] having(entries, text)[i]
                < entries.len(),
    decreases entries.len(),
{
    if entries.len() > 0 {
        let begun = matching(entries.drop_last(), text);
        let exact = having(entries.drop_last(), text);
        lemma_positions(entries.drop_last(), text);
        assert forall|i: int| 0 <= i < matching(entries, text).len() implies 0
            <= #[trigger] matching(entries, text)[i] < entries.len() by {
            if i < begun.len() {
                assert(matching(entries, text)[i] == begun[i]);
            }
        }
        assert forall|i: int| 0 <= i < having(entries, text).len() implies 0 <= #[trigger] having(
            entries,
            text,
        )[i] < entries.len() by {
            if i < exact.len() {
                assert(having(entries, text)[i] == exact[i]);
            }
        }
    }
}

/// The positions as numbers.
spec fn positions(v: Seq<usize>) -> Seq<int> {
    v.map_values(|k: usize| k as int)
}

impl CronStore {
    pub closed spec fn spec_path(self) -> Seq<char> {
        self.path@
    }

    pub closed spec fn spec_entries(self) -> Seq<EntryView> {
        entry_views(self.entries@)
    }

    /// A store kept at `path`, with nothing in it.
    pub fn new(path: String) -> (r: CronStore)
        ensures
            r.spec_path() == path@,
            r.spec_entries() == Seq::<EntryView>::empty(),
    {
        let r = CronStore { path, entries: Vec::new() };
        assert(r.spec_entries() =~= Seq::empty());
        r
    }

    /// The same store with the entries that its file holds.
    pub fn with_entries(self, entries: Vec<CronEntry>) -> (r: CronStore)
        ensures
            r.spec_path() == self.spec_path(),
            r.spec_entries() == entry_views(entries@),
    {
        CronStore { path: self.path, entries }
    }

    /// The file that the entries are kept in.
    pub fn path(&self) -> (r: &str)
        ensures
            r@ == self.spec_path(),
    {
        self.path.as_str()
    }

    /// The entries, in the order in which they were added.
    pub fn list(&self) -> (r: &Vec<CronEntry>)
        ensures
            entry_views(r@) == self.spec_entries(),
    {
        &self.entries
    }

    /// Adds an entry for `what`, once at `when` or again and again as `cron` says, and
    /// returns its id. Nothing changes where the request is refused.
    pub fn append(
        &mut self,
        what: &str,
        when: Option<&str>,
        cron: Option<&str>,
        now: &Moment,
    ) -> (r: Result<String, Failure>)
        requires
            has_tomorrow(*now),
        ensures
            final(self).spec_path() == old(self).spec_path(),
            append_outcome(
                old(self).spec_entries(),
                what@,
                slice_option(when),
                slice_option(cron),
                *now,
                final(self).spec_entries(),
                r,
            ),
    {
        let first: Option<Moment> = match when {
            Some(w) => first_moment(w, now),
            None => None,
        };
        let second: Option<Moment> = match when {
            Some(w) => second_moment(w, now),
            None => None,
        };
        let id: String = short_id();
        let ghost n = choose|n: nat| #[trigger] clock_gave(n) && id@ == id_of(n, 12);
        let ghost before = self.spec_entries();
        let answer: String = id.clone();
        match new_entry(what, when, cron, now, first, second, id) {
            Ok(entry) => {
                let ghost e = entry@;
                self.entries.push(entry);
                assert(self.spec_entries() =~= before.push(e));
                assert(append_given(slice_option(when), *now, first, second, n));
                Ok(answer)
            },
            Err(e) => {
                assert(append_given(slice_option(when), *now, first, second, n));
                Err(e)
            },
        }
    }

    /// Removes the entry whose id is the text, or else the one whose id alone begins with
    /// it.
    pub fn remove(&mut self, id_or_prefix: &str) -> (r: Result<RemoveResult, Failure>)
        ensures
            final(self).spec_path() == old(self).spec_path(),
            remove_outcome(
                old(self).spec_entries(),
                trimmed(id_or_prefix@),
                final(self).spec_entries(),
                r,
            ),
    {
        let needle: String = trim(id_or_prefix);
        if needle.as_str().is_empty() {
            return Err(Failure::new("id is required".to_owned()));
        }
        let ghost all = self.spec_entries();
        let mut exact: Vec<usize> = Vec::new();
        let mut begun: Vec<usize> = Vec::new();
        let mut i: usize = 0;
        assert(positions(exact@) =~= Seq::empty());
        assert(positions(begun@) =~= Seq::empty());
        while i < self.entries.len()
            invariant
                i <= self.entries@.len(),
                all == self.spec_entries(),
                self.spec_path() == old(self).spec_path(),
                positions(exact@) == having(all.take(i as int), needle@),
                positions(begun@) == matching(all.take(i as int), needle@),
            decreases self.entries@.len() - i,
        {
            let ghost exact0 = positions(exact@);
            let ghost begun0 = positions(begun@);
            assert(all.take(i as int + 1).drop_last() =~= all.take(i as int));
            assert(all[i as int].id == self.entries@[i as int].id@);
            if same(self.entries[i].id.as_str(), needle.as_str()) {
                exact.push(i);
                assert(positions(exact@) =~= exact0.push(i as int));
            }
            if starts_with(self.entries[i].id.as_str(), needle.as_str()) {
                begun.push(i);
                assert(positions(begun@) =~= begun0.push(i as int));
            }
            i += 1;
        }
        assert(all.take(i as int) =~= all);
        let found: Vec<usize> = if exact.len() == 1 {
            exact
        } else {
            begun
        };
        let ghost hits = picked(all, needle@);
        proof {
            assert(positions(found@) == hits);
            lemma_positions(all, needle@);
            assert(forall|j: int| 0 <= j < found@.len() ==> hits[j] == #[trigger] found@[j] as int);
            assert(hits.len() == found@.len());
        }
        if found.len() == 0 {
            Ok(RemoveResult::NotFound)
        } else if found.len() == 1 {
            let at: usize = found[0];
            assert(hits[0] == at);
            let removed: CronEntry = self.entries.remove(at);
            assert(self.spec_entries() =~= all.remove(at as int));
            Ok(RemoveResult::Removed(removed))
        } else {
            let mut ids: Vec<String> = Vec::new();
            let mut j: usize = 0;
            while j < found.len()
                invariant
                    j <= found@.len(),
                    all == self.spec_entries(),
                    self.spec_path() == old(self).spec_path(),
                    hits.len() == found@.len(),
                    forall|j: int| 0 <= j < found@.len() ==> hits[j] == #[trigger] found@[j] as int,
                    forall|j: int| 0 <= j < found@.len() ==> #[trigger] found@[j] < all.len(),
                    texts(ids@) == hits.take(j as int).map_values(|k: int| all[k].id),
                decreases found@.len() - j,
            {
                let ghost ids0 = texts(ids@);
                ids.push(self.entries[found[j]].id.clone());
                assert(texts(ids@) =~= ids0.push(all[hits[j as int]].id));
                assert(hits.take(j as int + 1).map_values(|k: int| all[k].id) =~= hits.take(
                    j as int,
                ).map_values(|k: int| all[k].id).push(all[hits[j as int]].id));
                j += 1;
            }
            assert(hits.take(j as int) =~= hits);
            Ok(RemoveResult::Ambiguous(ids))
        }
    }

    /// Takes the entries that are due at `now`. The survivors stay: one-shot entries that
    /// fired are gone, recurring ones have `now` as their last firing, and entries that
    /// cannot be understood are dropped.
    pub fn poll_due(&mut self, now: &Moment) -> (fire: Vec<CronEntry>)
        requires
            now.wf(),
            now.secs < MAX_SECS,
        ensures
            final(self).spec_path() == old(self).spec_path(),
            now.readable() ==> reads_back(*now),
            poll_outcome(
                old(self).spec_entries(),
                *now,
                entry_views(fire@),
                final(self).spec_entries(),
            ),
    {
        let ghost before = self.spec_entries();
        let mut all: Vec<CronEntry> = Vec::new();
        let mut i: usize = 0;
        assert(entry_views(all@) =~= before.take(0));
        while i < self.entries.len()
            invariant
                i <= self.entries@.len(),
                before == self.spec_entries(),
                self.spec_path() == old(self).spec_path(),
                entry_views(all@) == before.take(i as int),
            decreases self.entries@.len() - i,
        {
            let ghost all0 = entry_views(all@);
            all.push(self.entries[i].copy());
            assert(entry_views(all@) =~= all0.push(before[i as int]));
            assert(before.take(i as int + 1) =~= before.take(i as int).push(before[i as int]));
            i += 1;
        }
        assert(before.take(i as int) =~= before);
        let r: PollResult = poll_due_pure(all, now);
        self.entries = r.keep;
        r.fire
    }
}

/// Whether the machine's time zone and clock gave these moments and this number for a
/// request to schedule.
pub open spec fn append_given(
    when: Option<Seq<char>>,
    now: Moment,
    first: Option<Moment>,
    second: Option<Moment>,
    n: nat,
) -> bool {
    &&& when matches Some(w) ==> when_given(w, now, first, second)
    &&& clock_gave(n)
}

/// What a request to schedule does to the entries and answers.
pub open spec fn append_outcome(
    before: Seq<EntryView>,
    what: Seq<char>,
    when: Option<Seq<char>>,
    cron: Option<Seq<char>>,
    now: Moment,
    after: Seq<EntryView>,
    r: Result<String, Failure>,
) -> bool {
    exists|first: Option<Moment>, second: Option<Moment>, n: nat|
        {
            &&& #[trigger] append_given(when, now, first, second, n)
            &&& match schedule_outcome(what, when, cron, now, first, second, id_of(n, 12)) {
                Ok(entry) => {
                    &&& after == before.push(entry)
                    &&& r matches Ok(id) && id@ == entry.id
                    &&& time_read_back(when, cron, now, first, second)
                },
                Err(e) => after == before && (r matches Err(f) && f@ == e),
            }
        }
}

/// What a poll does to the entries, and which of them fire: with next slots that the
/// machine's time zone gave.
pub open spec fn poll_outcome(
    before: Seq<EntryView>,
    now: Moment,
    fire: Seq<EntryView>,
    after: Seq<EntryView>,
) -> bool {
    exists|slots: Seq<Option<Moment>>|
        {
            &&& #[trigger] slots_possible(before, now, slots)
            &&& fire == poll_fires(before, now, slots)
            &&& after == poll_stays(before, now, slots)
        }
}

/// What a request to remove does to the entries and answers.
pub open spec fn remove_outcome(
    before: Seq<EntryView>,
    needle: Seq<char>,
    after: Seq<EntryView>,
    r: Result<RemoveResult, Failure>,
) -> bool {
    let hits = picked(before, needle);
    if needle.len() == 0 {
        after == before && (r matches Err(f) && f@ == seq!["id is required"@])
    } else if hits.len() == 0 {
        after == before && r == Ok::<RemoveResult, Failure>(RemoveResult::NotFound)
    } else if hits.len() == 1 {
        after == before.remove(hits[0]) && (r matches Ok(RemoveResult::Removed(e)) && e@
            == before[hits[0]])
    } else {
        after == before && (r matches Ok(RemoveResult::Ambiguous(ids)) && texts(ids@)
            == hits.map_values(|k: int| before[k].id))
    }
}

/// Removing an entry by its id undoes adding it, where no other entry has that id.
pub proof fn law_remove_undoes_append(before: Seq<EntryView>, entry: EntryView)
    requires
        forall|i: int| 0 <= i < before.len() ==> (#[trigger] before[i]).id != entry.id,
    ensures
        picked(before.push(entry), entry.id) == seq![before.len() as int],
        before.push(entry).remove(before.len() as int) == before,
{
    let all = before.push(entry);
    assert forall|i: int| 0 <= i < all.len() && i != before.len() implies (#[trigger] all[i]).id
        != entry.id by {
        assert(all[i] == before[i]);
    }
    law_full_id_is_unambiguous(all, before.len() as int);
    assert(all.remove(before.len() as int) =~= before);
}

/// The id of a new entry is not changed by trimming it, so that it can be given back
/// as it is.
pub proof fn law_new_id_is_trimmed(n: nat)
    ensures
        trimmed(id_of(n, 12)) == id_of(n, 12),
        id_of(n, 12).len() == 12,
{
    law_id_length(n, 12);
    lemma_id_symbols(n, 12);
    let id = id_of(n, 12);
    assert(!is_white(id[0]));
    assert(!is_white(id[11]));
}

proof fn lemma_id_symbols(n: nat, len: nat)
    ensures
        forall|i: int| 0 <= i < id_of(n, len).len() ==> !is_white(#[trigger] id_of(n, len)[i]),
    decreases len,
{
    if len > 0 {
        let rest = id_of(n / 32, (len - 1) as nat);
        lemma_id_symbols(n / 32, (len - 1) as nat);
        assert forall|i: int| 0 <= i < id_of(n, len).len() implies !is_white(
            #[trigger] id_of(n, len)[i],
        ) by {
            if i > 0 {
                assert(id_of(n, len)[i] == rest[i - 1]);
            }
        }
    }
}

/// How often due entries are looked for, in seconds.
pub const DEFAULT_POLL_INTERVAL_SECS: u64 = 30;

/// What a run of the agent for a due entry is for.
pub open spec fn cron_context_of(e: EntryView, manifest: Seq<char>) -> ContextView {
    ContextView {
        trigger: Trigger::Cron,
        manifest,
        prompt: e.what,
        cron_id: Some(e.id),
        channel: None,
    }
}

/// What a run of the agent for a due entry is for.
pub fn cron_context(entry: &CronEntry, manifest: &str) -> (c: InvocationContext)
    ensures
        c@ == cron_context_of(entry@, manifest@),
{
    InvocationContext {
        trigger: Trigger::Cron,
        manifest: manifest.to_owned(),
        prompt: entry.what.clone(),
        cron_id: Some(entry.id.clone()),
        channel: None,
    }
}

/// What a run of the agent came to.
pub fn run_status(r: &Result<(), Failure>) -> (s: InvocationStatus)
    ensures
        s@ == match r {
            Ok(_) => StatusView::Succeeded,
            Err(e) => StatusView::Failed(account(e@)),
        },
{
    match r {
        Ok(_) => InvocationStatus::Succeeded,
        Err(e) => InvocationStatus::Failed(e.report()),
    }
}

/// A new one-shot entry does not fire at once, and fires when its time has come.
pub proof fn law_new_one_shot_waits(
    what: Seq<char>,
    when: Seq<char>,
    now: Moment,
    first: Option<Moment>,
    second: Option<Moment>,
    id: Seq<char>,
    m: Moment,
    later: Moment,
)
    requires
        trimmed(what).len() > 0,
        when_outcome(when, now, first, second) == Ok::<Moment, Seq<Seq<char>>>(m),
        !m.up_to(now),
        reads_back(m),
    ensures
        ({
            let e = schedule_outcome(what, Some(when), None, now, first, second, id)->Ok_0;
            &&& schedule_outcome(what, Some(when), None, now, first, second, id) is Ok
            &&& verdict(e, now, None) == Verdict::Keep
            &&& m.up_to(later) ==> verdict(e, later, None) == Verdict::Fire
        }),
{
}

/// The slots of a new recurring entry are counted from now on, and not from before it
/// was added.
pub proof fn law_new_recurring_entry_starts_now(
    what: Seq<char>,
    cron: Seq<char>,
    now: Moment,
    id: Seq<char>,
    later: Moment,
)
    requires
        trimmed(what).len() > 0,
        five_field(cron) is Ok,
        reads_back(now),
    ensures
        ({
            let e = schedule_outcome(what, None, Some(cron), now, None, None, id)->Ok_0;
            &&& schedule_outcome(what, None, Some(cron), now, None, None, id) is Ok
            &&& slot_base(e, later) == now
            &&& pending(e, now)
        }),
{
}

/// A full id picks out its entry, where no other entry has that id: whatever other ids
/// begin with it.
pub proof fn law_full_id_is_unambiguous(entries: Seq<EntryView>, at: int)
    requires
        0 <= at < entries.len(),
        forall|i: int|
            0 <= i < entries.len() && i != at ==> (#[trigger] entries[i]).id != entries[at].id,
    ensures
        picked(entries, entries[at].id) == seq![at],
{
    lemma_having_only(entries, entries[at].id, at);
}

proof fn lemma_having_only(entries: Seq<EntryView>, id: Seq<char>, at: int)
    requires
        forall|i: int| 0 <= i < entries.len() && i != at ==> (#[trigger] entries[i]).id != id,
        0 <= at < entries.len() ==> entries[at].id == id,
    ensures
        having(entries, id) == if 0 <= at < entries.len() {
            seq![at]
        } else {
            Seq::empty()
        },
    decreases entries.len(),
{
    if entries.len() > 0 {
        let before = entries.drop_last();
        assert forall|i: int| 0 <= i < before.len() && i != at implies (#[trigger] before[i]).id
            != id by {
            assert(before[i] == entries[i]);
        }
        lemma_having_only(before, id, at);
        assert(entries.last() == entries[entries.len() - 1]);
    }
    assert(having(entries, id) =~= if 0 <= at < entries.len() {
        seq![at]
    } else {
        Seq::empty()
    });
}

/// The prompt of a new entry is the text that was asked for with only the white space at
/// its ends removed, whatever its length and number of lines; and the entry has the id,
/// the schedule and the one kind of time that were asked for.
pub proof fn law_new_entry_keeps_the_request(
    what: Seq<char>,
    when: Option<Seq<char>>,
    cron: Option<Seq<char>>,
    now: Moment,
    first: Option<Moment>,
    second: Option<Moment>,
    id: Seq<char>,
    e: EntryView,
)
    requires
        schedule_outcome(what, when, cron, now, first, second, id) == Ok::<
            EntryView,
            Seq<Seq<char>>,
        >(e),
    ensures
        stripped(what, e.what),
        e.what.len() > 0,
        e.id == id,
        e.cron == cron,
        e.fire_at is Some <==> when is Some,
        e.last_fired_at is Some <==> cron is Some,
        (when is Some) == (cron is None),
        e.fire_at matches Some(t) ==> (when_outcome(when->0, now, first, second) matches Ok(m) && t
            == rfc3339_text(m.secs as int, m.nanos as int, m.offset as int)),
        e.last_fired_at matches Some(t) ==> t == rfc3339_text(
            now.secs as int,
            now.nanos as int,
            now.offset as int,
        ),
{
    law_trimming_strips_the_ends(what);
}

/// A request to schedule is met exactly where it asks for something but white space, at
/// one kind of time, and that time can be understood.
pub proof fn law_request_is_met_or_refused(
    what: Seq<char>,
    when: Option<Seq<char>>,
    cron: Option<Seq<char>>,
    now: Moment,
    first: Option<Moment>,
    second: Option<Moment>,
    id: Seq<char>,
)
    ensures
        schedule_outcome(what, when, cron, now, first, second, id) is Ok <==> {
            &&& exists|i: int| 0 <= i < what.len() && !is_white(#[trigger] what[i])
            &&& when is Some <==> cron is None
            &&& when matches Some(w) ==> when_outcome(w, now, first, second) is Ok
            &&& cron matches Some(c) ==> five_field(c) is Ok
        },
{
    law_trimming_strips_the_ends(what);
    law_stripped_form_is_unique(what, trimmed(what), trimmed(what));
}

/// An entry that is added stands behind all the others, which stay as they were, under the
/// id that is answered; a request that is refused changes nothing.
pub proof fn law_appended_entry_comes_last(
    before: Seq<EntryView>,
    what: Seq<char>,
    when: Option<Seq<char>>,
    cron: Option<Seq<char>>,
    now: Moment,
    after: Seq<EntryView>,
    r: Result<String, Failure>,
)
    requires
        append_outcome(before, what, when, cron, now, after, r),
    ensures
        r is Err ==> after == before,
        r matches Ok(id) ==> after.len() == before.len() + 1 && after.drop_last() == before
            && after.last().id == id@ && id@.len() == 12 && stripped(what, after.last().what)
            && after.last().cron == cron && (after.last().fire_at is Some <==> when is Some) && (cron
            is Some ==> after.last().last_fired_at == Some(
            rfc3339_text(now.secs as int, now.nanos as int, now.offset as int),
        )) && (when matches Some(w) ==> exists|first: Option<Moment>, second: Option<Moment>|
            #[trigger] when_given(w, now, first, second) && (when_outcome(
                w,
                now,
                first,
                second,
            ) matches Ok(m) && after.last().fire_at == Some(
                rfc3339_text(m.secs as int, m.nanos as int, m.offset as int),
            ))),
{
    let (first, second, n) = choose|first: Option<Moment>, second: Option<Moment>, n: nat|
        {
            &&& #[trigger] append_given(when, now, first, second, n)
            &&& match schedule_outcome(what, when, cron, now, first, second, id_of(n, 12)) {
                Ok(entry) => {
                    &&& after == before.push(entry)
                    &&& r matches Ok(id) && id@ == entry.id
                    &&& time_read_back(when, cron, now, first, second)
                },
                Err(e) => after == before && (r matches Err(f) && f@ == e),
            }
        };
    if let Ok(entry) = schedule_outcome(what, when, cron, now, first, second, id_of(n, 12)) {
        law_new_entry_keeps_the_request(
            what,
            when,
            cron,
            now,
            first,
            second,
            id_of(n, 12),
            entry,
        );
        law_id_length(n, 12);
        assert(after.drop_last() =~= before);
        if let Some(w) = when {
            assert(when_given(w, now, first, second));
        }
    }
}

/// What the agent is asked for a due entry is what was asked for when the entry was
/// scheduled, and the record of the run names the entry.
pub proof fn law_run_asks_what_was_scheduled(
    what: Seq<char>,
    when: Option<Seq<char>>,
    cron: Option<Seq<char>>,
    now: Moment,
    first: Option<Moment>,
    second: Option<Moment>,
    id: Seq<char>,
    e: EntryView,
    manifest: Seq<char>,
)
    requires
        schedule_outcome(what, when, cron, now, first, second, id) == Ok::<
            EntryView,
            Seq<Seq<char>>,
        >(e),
    ensures
        stripped(what, cron_context_of(e, manifest).prompt),
        cron_context_of(e, manifest).cron_id == Some(id),
        cron_context_of(e, manifest).manifest == manifest,
        cron_context_of(e, manifest).trigger == Trigger::Cron,
        cron_context_of(e, manifest).channel is None,
{
    law_trimming_strips_the_ends(what);
}

/// Whether `text` is the first characters of `id`, or all of them.
pub open spec fn heads(text: Seq<char>, id: Seq<char>) -> bool {
    text.len() <= id.len() && forall|j: int| 0 <= j < text.len() ==> #[trigger] id[j] == text[j]
}

/// Whether `text` names the entry at `at` and no other: its id begins with the text, and
/// either the id is the text and no other id is, or no other id begins with it.
pub open spec fn names_only(text: Seq<char>, entries: Seq<EntryView>, at: int) -> bool {
    &&& 0 <= at < entries.len()
    &&& heads(text, entries[at].id)
    &&& ({
        ||| entries[at].id == text && forall|k: int|
            0 <= k < entries.len() && k != at ==> (#[trigger] entries[k]).id != text
        ||| forall|k: int|
            0 <= k < entries.len() && k != at ==> !heads(text, (#[trigger] entries[k]).id)
    })
}

/// Whether `at` lists in order the positions of all entries whose id begins with `text`.
pub open spec fn lists_heads(text: Seq<char>, entries: Seq<EntryView>, at: Seq<int>) -> bool {
    &&& forall|i: int|
        0 <= i < at.len() ==> 0 <= #[trigger] at[i] < entries.len() && heads(
            text,
            entries[at[i]].id,
        )
    &&& forall|i: int, j: int| 0 <= i < j < at.len() ==> at[i] < at[j]
    &&& forall|k: int|
        0 <= k < entries.len() && heads(text, (#[trigger] entries[k]).id) ==> at.contains(k)
}

proof fn lemma_matching_lists(entries: Seq<EntryView>, text: Seq<char>)
    ensures
        lists_heads(text, entries, matching(entries, text)),
    decreases entries.len(),
{
    if entries.len() > 0 {
        let earlier = entries.drop_last();
        let n = entries.len() - 1;
        let was = matching(earlier, text);
        let at = matching(entries, text);
        lemma_matching_lists(earlier, text);
        lemma_heads(entries[n].id, text);
        assert forall|i: int| 0 <= i < at.len() implies 0 <= #[trigger] at[i] < entries.len()
            && heads(text, entries[at[i]].id) by {
            if i < was.len() {
                assert(at[i] == was[i]);
                assert(earlier[was[i]] == entries[at[i]]);
            }
        }
        assert forall|i: int, j: int| 0 <= i < j < at.len() implies at[i] < at[j] by {
            assert(at[i] == was[i]);
            if j < was.len() {
                assert(at[j] == was[j]);
            }
        }
        assert forall|k: int|
            0 <= k < entries.len() && heads(text, (#[trigger] entries[k]).id) implies at.contains(
            k,
        ) by {
            if k < n {
                assert(earlier[k] == entries[k]);
                assert(was.contains(k));
                let i = choose|i: int| 0 <= i < was.len() && was[i] == k;
                assert(at[i] == k);
            } else {
                assert(at[at.len() - 1] == k);
            }
        }
    }
}

proof fn lemma_heads(id: Seq<char>, text: Seq<char>)
    ensures
        begins_with(id, text) == heads(text, id),
{
    if heads(text, id) {
        assert(id.subrange(0, text.len() as int) =~= text);
    } else if begins_with(id, text) {
        assert forall|j: int| 0 <= j < text.len() implies #[trigger] id[j] == text[j] by {
            assert(id.subrange(0, text.len() as int)[j] == id[j]);
        }
    }
}

proof fn lemma_having_lists(entries: Seq<EntryView>, id: Seq<char>)
    ensures
        forall|i: int|
            0 <= i < having(entries, id).len() ==> 0 <= #[trigger] having(entries, id)[i]
                < entries.len() && entries[having(entries, id)[i]].id == id,
        forall|i: int, j: int|
            0 <= i < j < having(entries, id).len() ==> having(entries, id)[i] < having(
                entries,
                id,
            )[j],
        forall|k: int|
            0 <= k < entries.len() && (#[trigger] entries[k]).id == id ==> having(
                entries,
                id,
            ).contains(k),
    decreases entries.len(),
{
    if entries.len() > 0 {
        let earlier = entries.drop_last();
        let n = entries.len() - 1;
        let was = having(earlier, id);
        let at = having(entries, id);
        lemma_having_lists(earlier, id);
        assert forall|i: int| 0 <= i < at.len() implies 0 <= #[trigger] at[i] < entries.len()
            && entries[at[i]].id == id by {
            if i < was.len() {
                assert(at[i] == was[i]);
                assert(earlier[was[i]] == entries[at[i]]);
            }
        }
        assert forall|i: int, j: int| 0 <= i < j < at.len() implies at[i] < at[j] by {
            assert(at[i] == was[i]);
            if j < was.len() {
                assert(at[j] == was[j]);
            }
        }
        assert forall|k: int|
            0 <= k < entries.len() && (#[trigger] entries[k]).id == id implies at.contains(k) by {
            if k < n {
                assert(earlier[k] == entries[k]);
                let i = choose|i: int| 0 <= i < was.len() && was[i] == k;
                assert(at[i] == k);
            } else {
                assert(at[at.len() - 1] == k);
            }
        }
    }
}

/// An entry is removed, or named as one of several, only if the text is its id or the
/// first characters of its id. The one that is removed is the only one that the text
/// names, and the others stay as they are, in their order. Where no id begins with the
/// text, or several do, all entries stay.
pub proof fn law_remove_takes_only_what_is_named(
    before: Seq<EntryView>,
    needle: Seq<char>,
    after: Seq<EntryView>,
    r: Result<RemoveResult, Failure>,
)
    requires
        remove_outcome(before, needle, after, r),
    ensures
        match r {
            Err(_) => needle.len() == 0 && after == before,
            Ok(RemoveResult::NotFound) => {
                &&& after == before
                &&& needle.len() > 0
                &&& forall|k: int|
                    0 <= k < before.len() ==> !heads(needle, (#[trigger] before[k]).id)
            },
            Ok(RemoveResult::Removed(e)) => exists|at: int|
                #[trigger] names_only(needle, before, at) && e@ == before[at] && after
                    == before.take(at) + before.skip(at + 1) && needle.len() > 0,
            Ok(RemoveResult::Ambiguous(ids)) => {
                &&& after == before
                &&& ids@.len() > 1
                &&& forall|at: int| !names_only(needle, before, at)
                &&& exists|at: Seq<int>|
                    #[trigger] lists_heads(needle, before, at) && at.len() == ids@.len() && forall|
                        i: int,
                    |
                        0 <= i < at.len() ==> #[trigger] ids@[i]@ == before[at[i]].id
            },
        },
{
    if needle.len() > 0 {
        let exact = having(before, needle);
        let begun = matching(before, needle);
        lemma_matching_lists(before, needle);
        lemma_having_lists(before, needle);
        if exact.len() == 1 {
            let at = exact[0];
            assert forall|k: int| 0 <= k < before.len() && k != at implies (#[trigger] before[k]).id
                != needle by {
                if before[k].id == needle {
                    assert(exact.contains(k));
                }
            }
            assert(names_only(needle, before, at));
            assert(before.remove(at) =~= before.take(at) + before.skip(at + 1));
        } else if begun.len() == 0 {
            assert forall|k: int| 0 <= k < before.len() implies !heads(
                needle,
                (#[trigger] before[k]).id,
            ) by {
                if heads(needle, before[k].id) {
                    assert(begun.contains(k));
                }
            }
        } else if begun.len() == 1 {
            let at = begun[0];
            assert forall|k: int| 0 <= k < before.len() && k != at implies !heads(
                needle,
                (#[trigger] before[k]).id,
            ) by {
                if heads(needle, before[k].id) {
                    assert(begun.contains(k));
                }
            }
            assert(names_only(needle, before, at));
            assert(before.remove(at) =~= before.take(at) + before.skip(at + 1));
        } else {
            let ids = r->Ok_0->Ambiguous_0;
            assert(texts(ids@).len() == begun.len());
            assert forall|i: int| 0 <= i < begun.len() implies #[trigger] ids@[i]@
                == before[begun[i]].id by {
                assert(texts(ids@)[i] == ids@[i]@);
            }
            assert forall|at: int| !names_only(needle, before, at) by {
                if names_only(needle, before, at) {
                    if before[at].id == needle && forall|k: int|
                        0 <= k < before.len() && k != at ==> (#[trigger] before[k]).id != needle {
                        lemma_having_only(before, needle, at);
                    } else {
                        let a = begun[0];
                        let b = begun[1];
                        assert(a < b);
                        assert(heads(needle, before[a].id) && heads(needle, before[b].id));
                        assert(a == at && b == at);
                    }
                }
            }
            assert(lists_heads(needle, before, begun));
        }
    }
}

proof fn lemma_entry_among_others(
    before: Seq<EntryView>,
    now: Moment,
    slots: Seq<Option<Moment>>,
    i: int,
    x: EntryView,
)
    requires
        slots.len() == before.len(),
        0 <= i < before.len(),
    ensures
        poll_fires(seq![before[i]], now, seq![slots[i]]).contains(x) ==> poll_fires(
            before,
            now,
            slots,
        ).contains(x),
        poll_stays(seq![before[i]], now, seq![slots[i]]).contains(x) ==> poll_stays(
            before,
            now,
            slots,
        ).contains(x),
{
    let e = seq![before[i]];
    let s = seq![slots[i]];
    let a = before.take(i);
    let b = before.skip(i + 1);
    let sa = slots.take(i);
    let sb = slots.skip(i + 1);
    assert(before =~= a + (e + b));
    assert(slots =~= sa + (s + sb));
    law_entries_are_polled_alone(a, sa, e + b, s + sb, now);
    law_entries_are_polled_alone(e, s, b, sb, now);
    let n = poll_fires(a, now, sa).len() as int;
    let m = poll_stays(a, now, sa).len() as int;
    let fires = poll_fires(e, now, s);
    let stays = poll_stays(e, now, s);
    if fires.contains(x) {
        let k = choose|k: int| 0 <= k < fires.len() && fires[k] == x;
        assert(poll_fires(before, now, slots)[n + k] == x);
    }
    if stays.contains(x) {
        let k = choose|k: int| 0 <= k < stays.len() && stays[k] == x;
        assert(poll_stays(before, now, slots)[m + k] == x);
    }
}

/// A poll fires every entry whose one time has come, exactly as it is, and keeps every other
/// one exactly as it is, whatever else there is.
pub proof fn law_poll_fires_what_is_due(
    before: Seq<EntryView>,
    now: Moment,
    fire: Seq<EntryView>,
    after: Seq<EntryView>,
    i: int,
    m: Moment,
)
    requires
        poll_outcome(before, now, fire, after),
        0 <= i < before.len(),
        before[i].fire_at is Some,
        before[i].cron is None,
        moment_of(before[i].fire_at->0) == Some(m),
    ensures
        has_come(m, now) ==> fire.contains(before[i]),
        !has_come(m, now) ==> after.contains(before[i]),
{
    let slots = choose|slots: Seq<Option<Moment>>|
        {
            &&& #[trigger] slots_possible(before, now, slots)
            &&& fire == poll_fires(before, now, slots)
            &&& after == poll_stays(before, now, slots)
        };
    let e = before[i];
    law_one_shot_fires_when_its_time_has_come(e, now, slots[i], m);
    lemma_entry_among_others(before, now, slots, i, e);
    assert(seq![e][0] == e);
}

/// A poll keeps every recurring entry that can be read, with its id, its prompt and its
/// expression, whether it fires or not.
pub proof fn law_poll_keeps_recurring_entries(
    before: Seq<EntryView>,
    now: Moment,
    fire: Seq<EntryView>,
    after: Seq<EntryView>,
    i: int,
)
    requires
        poll_outcome(before, now, fire, after),
        0 <= i < before.len(),
        before[i].fire_at is None,
        before[i].cron is Some,
        five_field(before[i].cron->0) is Ok,
    ensures
        exists|k: int| 0 <= k < after.len() && same_but_fired(before[i], #[trigger] after[k]),
{
    let slots = choose|slots: Seq<Option<Moment>>|
        {
            &&& #[trigger] slots_possible(before, now, slots)
            &&& fire == poll_fires(before, now, slots)
            &&& after == poll_stays(before, now, slots)
        };
    let e = before[i];
    law_recurring_entry_fires_when_its_slot_has_come(e, now, slots[i]);
    let kept = poll_stays(seq![e], now, seq![slots[i]]);
    assert(kept.contains(kept[0]));
    lemma_entry_among_others(before, now, slots, i, kept[0]);
    let k = choose|k: int| 0 <= k < after.len() && after[k] == kept[0];
    assert(same_but_fired(e, after[k]));
}

/// What a poll fires, and what it keeps, was there, with the same id, prompt and time.
pub proof fn law_poll_makes_up_nothing(
    before: Seq<EntryView>,
    now: Moment,
    fire: Seq<EntryView>,
    after: Seq<EntryView>,
    i: int,
)
    requires
        poll_outcome(before, now, fire, after),
    ensures
        fire.len() <= before.len(),
        after.len() <= before.len(),
        0 <= i < fire.len() ==> exists|k: int|
            0 <= k < before.len() && same_but_fired(#[trigger] before[k], fire[i]),
        0 <= i < after.len() ==> exists|k: int|
            0 <= k < before.len() && same_but_fired(#[trigger] before[k], after[i]),
{
    let slots = choose|slots: Seq<Option<Moment>>|
        {
            &&& #[trigger] slots_possible(before, now, slots)
            &&& fire == poll_fires(before, now, slots)
            &&& after == poll_stays(before, now, slots)
        };
    law_poll_keeps_ids_and_prompts(before, now, slots, i);
    crate::cron_poll::law_fires_at_most_once(before, now, slots);
}

} // verus!
