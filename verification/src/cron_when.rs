//! When a scheduled prompt falls: cron expressions and the `when` texts that people
//! and agents write.

use vstd::prelude::*;

use crate::failure::Failure;
use crate::text::{
    begins_with, count_words, debug_of, debug_text, finishes_with, law_stripped_form_is_unique,
    law_trimming_strips_the_ends, lemma_occurs_between, occurs_in, stripped, trim, trimmed,
    word_count,
};
use crate::time::{
    clock_reading, day_start, parse_clock, parse_wall, resolve_wall, rfc3339_text, show_wall,
    start_of_day,
    text_of, to_rfc3339, wall_plain_text, wall_reading, Moment, CLOCK_PATTERN, DAY, MAX_SECS,
    MINUTE_PATTERN, MIN_SECS, YEAR_0, YEAR_9999,
};

verus! {

#[verifier::external_type_specification]
#[verifier::external_body]
pub struct ExSchedule(::cron::Schedule);

/// The wall clock readings that a schedule admits (`cron::Schedule::includes`).
pub uninterp spec fn slots_of(schedule: ::cron::Schedule) -> Set<int>;

/// What `cron::Schedule::from_str` makes of an expression: the readings that the
/// schedule admits, or the text of the error.
pub uninterp spec fn cron_slots(expr: Seq<char>) -> Result<Set<int>, Seq<char>>;

/// `cron::Schedule::from_str`: the result is the named one, a schedule or the text
/// of the error.
#[verifier::external_body]
fn read_schedule(expr: &str) -> (r: Result<::cron::Schedule, String>)
    ensures
        match r {
            Ok(s) => cron_slots(expr@) == Ok::<Set<int>, Seq<char>>(slots_of(s)),
            Err(e) => cron_slots(expr@) == Err::<Set<int>, Seq<char>>(e@),
        },
{
    match <::cron::Schedule as std::str::FromStr>::from_str(expr) {
        Ok(s) => Ok(s),
        Err(e) => Err(e.to_string()),
    }
}

/// Whether `m` is an answer to the look-up of `wall` in the machine's time zone.
pub closed spec fn moment_given(m: Option<Moment>, wall: int) -> bool {
    wall == wall as i64 && call_ensures(resolve_wall, (wall as i64,), m)
}

/// Whether the machine's time zone answers none for every reading of `slots` after `from`
/// and before `to`.
pub open spec fn passed_over(slots: Set<int>, from: int, to: int) -> bool {
    forall|w: int| #[trigger] slots.contains(w) && from < w < to ==> moment_given(None, w)
}

/// What holds of the slot that is looked up after `base`, where the local time is `before`
/// seconds east of UTC at `base` and `offset` seconds right after it. It is a whole second
/// that the schedule admits, and the clock on the wall reads more there than at `base`.
/// It is the first one: the time zone answers none for any reading in between, and where
/// there is no slot, for any reading at all. That it is the first is not said where the
/// clock is set back right after `base`, or `base` lies before the year 0.
pub open spec fn answers_at(
    slots: Set<int>,
    base: Moment,
    slot: Option<Moment>,
    before: int,
    offset: int,
) -> bool {
    &&& -DAY < before < DAY
    &&& -DAY < offset < DAY
    &&& slot matches Some(m) ==> {
        &&& m.wf()
        &&& m.nanos == 0
        &&& 0 <= m.wall() <= YEAR_9999
        &&& slots.contains(m.wall())
        &&& base.secs + offset < m.wall()
    }
    &&& before <= offset && YEAR_0 <= base.secs + before ==> passed_over(
        slots,
        base.secs + offset,
        match slot {
            Some(m) => m.wall(),
            None => YEAR_9999 as int,
        },
    )
}

/// What holds of the slot that is looked up after `base`.
pub open spec fn answers(slots: Set<int>, base: Moment, slot: Option<Moment>) -> bool {
    exists|before: int, offset: int| answers_at(slots, base, slot, before, offset)
}

/// `cron::Schedule::after` with `chrono::Local`, and the first item of the iterator: the
/// first reading after `base` that the schedule admits and the machine's time zone has, or
/// none. Readings that are passed over are those for which `from_local_datetime` has no
/// moment. Of the two instants of a reading that the time zone has twice `chrono` picks
/// one, which need not lie after `base`.
#[verifier::external_body]
pub(crate) fn next_slot(schedule: &::cron::Schedule, base: &Moment) -> (r: Option<Moment>)
    requires
        base.wf(),
        base.secs < MAX_SECS,
    ensures
        answers(slots_of(*schedule), *base, r),
{
    let t = chrono::DateTime::from_timestamp(base.secs, base.nanos).unwrap().with_timezone(&chrono::Local);
    schedule.after(&t).next().map(
        |s| Moment { secs: s.timestamp(), nanos: s.timestamp_subsec_nanos(), offset: s.offset().local_minus_utc() },
    )
}

/// Whether `slot` is an answer to the look-up, in the machine's time zone, of the slot
/// after `base` of a schedule that admits `slots`.
pub closed spec fn slot_given(slots: Set<int>, base: Moment, slot: Option<Moment>) -> bool {
    exists|schedule: ::cron::Schedule| #[trigger]
        slots_of(schedule) == slots && call_ensures(next_slot, (&schedule, &base), slot)
}

/// What a look-up returns is an answer to it.
pub(crate) proof fn lemma_slot_given(schedule: ::cron::Schedule, base: Moment, slot: Option<Moment>)
    requires
        call_ensures(next_slot, (&schedule, &base), slot),
    ensures
        slot_given(slots_of(schedule), base, slot),
{
}

/// The full expression for a five-field one: on second 0, in any year.
pub open spec fn full_expression(expr: Seq<char>) -> Seq<char> {
    "0 "@ + trimmed(expr) + " *"@
}

/// The failure for an expression.
pub open spec fn bad_expression(expr: Seq<char>) -> Seq<char> {
    "invalid 5-field cron expression: "@ + expr
}

/// What a five-field expression stands for: nothing where it is not understood, or has
/// another number of fields.
pub open spec fn five_field(expr: Seq<char>) -> Result<Set<int>, Seq<Seq<char>>> {
    match cron_slots(full_expression(expr)) {
        Ok(slots) => if word_count(expr) == 5 {
            Ok(slots)
        } else {
            Err(seq![bad_expression(expr)])
        },
        Err(cause) => Err(seq![bad_expression(expr), cause]),
    }
}

/// Reads a five-field cron expression: minute, hour, day of month, month, day of week.
/// Any other number of fields is refused.
pub fn parse_cron(expr: &str) -> (r: Result<::cron::Schedule, Failure>)
    ensures
        match r {
            Ok(s) => five_field(expr@) == Ok::<Set<int>, Seq<Seq<char>>>(slots_of(s)),
            Err(e) => five_field(expr@) == Err::<Set<int>, Seq<Seq<char>>>(e@),
        },
        word_count(expr@) != 5 ==> r is Err,
{
    let mut full: String = "0 ".to_owned();
    full.append(trim(expr).as_str());
    full.append(" *");
    let mut message: String = "invalid 5-field cron expression: ".to_owned();
    message.append(expr);
    match read_schedule(full.as_str()) {
        Ok(s) => if count_words(expr) == 5 {
            Ok(s)
        } else {
            Err(Failure::new(message))
        },
        Err(cause) => {
            let e: Failure = Failure::new(cause).context(message);
            assert(e@ =~= seq![bad_expression(expr@), cause@]);
            Err(e)
        },
    }
}

/// Whether a moment reads `wall`, or is none.
pub open spec fn reads(m: Option<Moment>, wall: int) -> bool {
    m matches Some(x) ==> x.wf() && x.nanos == 0 && x.wall() == wall
}

/// The failure for a reading that the local time has never or twice.
pub open spec fn unresolved(wall: int) -> Seq<Seq<char>> {
    seq![
        "when: "@ + wall_plain_text(wall)
            + " is ambiguous or invalid in local time (likely a DST transition); try a different minute"@,
    ]
}

/// The failure for a moment that is not in the future.
pub open spec fn already_past(m: Moment, now: Moment) -> Seq<Seq<char>> {
    seq!["when: "@ + text_of(m) + " is in the past (now is "@ + text_of(now) + ")"@]
}

/// The failure for a text that is neither a time of day nor a date with one.
pub open spec fn unreadable(input: Seq<char>) -> Seq<Seq<char>> {
    seq![
        "when: expected 'HH:MM' (next 24h, local) or 'YYYY-MM-DD HH:MM' (local), got "@
            + debug_text(input),
    ]
}

/// The reading for a time of day on the day of `now`.
pub open spec fn today_at(now: Moment, clock: int) -> int {
    day_start(now.wall()) + clock
}

/// When a `when` text falls, where the first reading it stands for is the moment
/// `first`, and the same time on the next day is the moment `second`.
pub open spec fn when_outcome(
    input: Seq<char>,
    now: Moment,
    first: Option<Moment>,
    second: Option<Moment>,
) -> Result<Moment, Seq<Seq<char>>> {
    let text = trimmed(input);
    match clock_reading(text, "%H:%M"@) {
        Some(clock) => match first {
            None => Err(unresolved(today_at(now, clock))),
            Some(today) => if !today.up_to(now) {
                Ok(today)
            } else {
                match second {
                    None => Err(unresolved(today_at(now, clock) + DAY)),
                    Some(tomorrow) => Ok(tomorrow),
                }
            },
        },
        None => match wall_reading(text, "%Y-%m-%d %H:%M"@) {
            Some(wall) => match first {
                None => Err(unresolved(wall)),
                Some(m) => if m.up_to(now) {
                    Err(already_past(m, now))
                } else {
                    Ok(m)
                },
            },
            None => Err(unreadable(text)),
        },
    }
}

/// Whether the time zone can give these moments for the readings of a `when` text.
pub open spec fn when_possible(
    input: Seq<char>,
    now: Moment,
    first: Option<Moment>,
    second: Option<Moment>,
) -> bool {
    let text = trimmed(input);
    match clock_reading(text, "%H:%M"@) {
        Some(clock) => reads(first, today_at(now, clock)) && reads(
            second,
            today_at(now, clock) + DAY,
        ),
        None => wall_reading(text, "%Y-%m-%d %H:%M"@) matches Some(wall) ==> reads(first, wall),
    }
}

/// Whether `first` is the answer to the look-up of the first reading of a `when` text: none
/// for a text that has no reading.
pub open spec fn first_given(input: Seq<char>, now: Moment, first: Option<Moment>) -> bool {
    let text = trimmed(input);
    match clock_reading(text, "%H:%M"@) {
        Some(clock) => moment_given(first, today_at(now, clock)),
        None => match wall_reading(text, "%Y-%m-%d %H:%M"@) {
            Some(wall) => moment_given(first, wall),
            None => first is None,
        },
    }
}

/// Whether `second` is the answer to the look-up of a time of day on the next day: none
/// for a text that is no time of day.
pub open spec fn second_given(input: Seq<char>, now: Moment, second: Option<Moment>) -> bool {
    match clock_reading(trimmed(input), "%H:%M"@) {
        Some(clock) => moment_given(second, today_at(now, clock) + DAY),
        None => second is None,
    }
}

/// Whether the machine's time zone gave these moments for the readings of a `when` text.
pub open spec fn when_given(
    input: Seq<char>,
    now: Moment,
    first: Option<Moment>,
    second: Option<Moment>,
) -> bool {
    &&& when_possible(input, now, first, second)
    &&& first_given(input, now, first)
    &&& second_given(input, now, second)
}

/// Whether the calendar covers the day of `now` and the next one.
pub open spec fn has_tomorrow(now: Moment) -> bool {
    now.wf() && MIN_SECS <= now.wall() && now.wall() + 2 * DAY <= MAX_SECS
}

/// The reading that a `when` text stands for.
#[derive(Clone, Copy, Debug, PartialEq, Eq, Structural)]
pub enum WhenReading {
    /// A time of day: today at this reading, or a day later.
    Clock(i64),
    /// A date with a time of day.
    Date(i64),
    Unreadable,
}

/// The reading that a `when` text stands for, given today.
pub open spec fn reading_of(input: Seq<char>, now: Moment, r: WhenReading) -> bool {
    let text = trimmed(input);
    match clock_reading(text, "%H:%M"@) {
        Some(clock) => r == WhenReading::Clock(today_at(now, clock) as i64) && today_at(now, clock)
            == r->Clock_0,
        None => match wall_reading(text, "%Y-%m-%d %H:%M"@) {
            Some(wall) => r == WhenReading::Date(wall as i64) && wall == r->Date_0,
            None => r is Unreadable,
        },
    }
}

/// The reading that a `when` text stands for.
fn read_when(input: &str, now: &Moment) -> (r: WhenReading)
    requires
        has_tomorrow(*now),
    ensures
        reading_of(input@, *now, r),
        r matches WhenReading::Clock(w) ==> MIN_SECS <= w && w + DAY <= MAX_SECS,
        r matches WhenReading::Date(w) ==> MIN_SECS <= w <= MAX_SECS,
{
    let text: String = trim(input);
    match parse_clock(text.as_str(), CLOCK_PATTERN) {
        Some(clock) => WhenReading::Clock(start_of_day(now.secs + now.offset as i64) + clock as i64),
        None => match parse_wall(text.as_str(), MINUTE_PATTERN) {
            Some(wall) => WhenReading::Date(wall),
            None => WhenReading::Unreadable,
        },
    }
}

fn unresolved_failure(wall: i64) -> (e: Failure)
    requires
        MIN_SECS <= wall <= MAX_SECS,
    ensures
        e@ == unresolved(wall as int),
{
    let mut message: String = "when: ".to_owned();
    message.append(show_wall(wall).as_str());
    message.append(
        " is ambiguous or invalid in local time (likely a DST transition); try a different minute",
    );
    Failure::new(message)
}

/// When a `when` text falls, given the moments for its readings.
pub fn decide_when(
    input: &str,
    now: &Moment,
    first: Option<Moment>,
    second: Option<Moment>,
) -> (r: Result<Moment, Failure>)
    requires
        has_tomorrow(*now),
        first matches Some(m) ==> m.wf(),
    ensures
        match r {
            Ok(m) => when_outcome(input@, *now, first, second) == Ok::<Moment, Seq<Seq<char>>>(m),
            Err(e) => when_outcome(input@, *now, first, second) == Err::<Moment, Seq<Seq<char>>>(
                e@,
            ),
        },
{
    match read_when(input, now) {
        WhenReading::Clock(wall) => match first {
            None => Err(unresolved_failure(wall)),
            Some(today) => if !today.is_up_to(now) {
                Ok(today)
            } else {
                match second {
                    None => Err(unresolved_failure(wall + DAY)),
                    Some(tomorrow) => Ok(tomorrow),
                }
            },
        },
        WhenReading::Date(wall) => match first {
            None => Err(unresolved_failure(wall)),
            Some(m) => if m.is_up_to(now) {
                let mut message: String = "when: ".to_owned();
                message.append(to_rfc3339(&m).as_str());
                message.append(" is in the past (now is ");
                message.append(to_rfc3339(now).as_str());
                message.append(")");
                Err(Failure::new(message))
            } else {
                Ok(m)
            },
        },
        WhenReading::Unreadable => {
            let mut message: String =
                "when: expected 'HH:MM' (next 24h, local) or 'YYYY-MM-DD HH:MM' (local), got ".to_owned();
            message.append(debug_of(trim(input).as_str()).as_str());
            Err(Failure::new(message))
        },
    }
}

/// The moment for the first reading of a `when` text.
pub(crate) fn first_moment(input: &str, now: &Moment) -> (r: Option<Moment>)
    requires
        has_tomorrow(*now),
    ensures
        forall|second: Option<Moment>| #[trigger]
            second_possible(input@, *now, second) ==> when_possible(input@, *now, r, second),
        first_given(input@, *now, r),
        r matches Some(m) ==> m.wf(),
{
    match read_when(input, now) {
        WhenReading::Clock(wall) => resolve_wall(wall),
        WhenReading::Date(wall) => resolve_wall(wall),
        WhenReading::Unreadable => None,
    }
}

/// Whether the time zone can give this moment for a time of day on the next day.
pub open spec fn second_possible(input: Seq<char>, now: Moment, second: Option<Moment>) -> bool {
    clock_reading(trimmed(input), "%H:%M"@) matches Some(clock) ==> reads(
        second,
        today_at(now, clock) + DAY,
    )
}

/// The moment for a time of day on the next day.
pub(crate) fn second_moment(input: &str, now: &Moment) -> (r: Option<Moment>)
    requires
        has_tomorrow(*now),
    ensures
        second_possible(input@, *now, r),
        second_given(input@, *now, r),
        r matches Some(m) ==> m.wf(),
{
    match read_when(input, now) {
        WhenReading::Clock(wall) => resolve_wall(wall + DAY),
        _ => None,
    }
}

/// Reads the `when` of an entry: `HH:MM` is the next such time of day, today or
/// tomorrow; `YYYY-MM-DD HH:MM` is that moment, which must be in the future.
pub fn parse_when(input: &str, now: &Moment) -> (r: Result<Moment, Failure>)
    requires
        has_tomorrow(*now),
    ensures
        when_result(input@, *now, r),
{
    let first: Option<Moment> = first_moment(input, now);
    let second: Option<Moment> = second_moment(input, now);
    let r = decide_when(input, now, first, second);
    assert(when_given(input@, *now, first, second));
    r
}

/// Whether `r` is what a `when` text comes to with moments that the time zone gave.
pub open spec fn when_result(input: Seq<char>, now: Moment, r: Result<Moment, Failure>) -> bool {
    exists|first: Option<Moment>, second: Option<Moment>|
        {
            &&& #[trigger] when_given(input, now, first, second)
            &&& match r {
                Ok(m) => when_outcome(input, now, first, second) == Ok::<Moment, Seq<Seq<char>>>(m),
                Err(e) => when_outcome(input, now, first, second) == Err::<Moment, Seq<Seq<char>>>(
                    e@,
                ),
            }
        }
}

/// A time of day falls today or tomorrow, when the clock on the wall reads it; today only
/// where that lies in the future.
pub proof fn law_clock_is_today_or_tomorrow(
    input: Seq<char>,
    now: Moment,
    first: Option<Moment>,
    second: Option<Moment>,
    m: Moment,
)
    requires
        clock_reading(trimmed(input), "%H:%M"@) is Some,
        when_possible(input, now, first, second),
        when_outcome(input, now, first, second) == Ok::<Moment, Seq<Seq<char>>>(m),
    ensures
        ({
            let today = today_at(now, clock_reading(trimmed(input), "%H:%M"@)->0);
            ||| m.wall() == today && !m.up_to(now)
            ||| m.wall() == today + DAY
        }),
{
}

/// A time of day falls within the next 24 hours, where the time zone keeps its
/// offset over today and tomorrow.
pub proof fn law_clock_within_a_day(
    input: Seq<char>,
    now: Moment,
    first: Option<Moment>,
    second: Option<Moment>,
    m: Moment,
)
    requires
        has_tomorrow(now),
        clock_reading(trimmed(input), "%H:%M"@) matches Some(clock) && 0 <= clock < DAY,
        when_possible(input, now, first, second),
        when_outcome(input, now, first, second) == Ok::<Moment, Seq<Seq<char>>>(m),
        first matches Some(today) ==> today.offset == now.offset,
        second matches Some(tomorrow) ==> tomorrow.offset == now.offset,
    ensures
        !m.up_to(now),
        m.secs <= now.secs + DAY,
{
    let start = day_start(now.wall());
    assert(start <= now.wall() < start + DAY);
}

/// A date that is accepted lies in the future, and the local time reads it there.
pub proof fn law_date_in_future(
    input: Seq<char>,
    now: Moment,
    first: Option<Moment>,
    second: Option<Moment>,
    m: Moment,
)
    requires
        clock_reading(trimmed(input), "%H:%M"@) is None,
        when_possible(input, now, first, second),
        when_outcome(input, now, first, second) == Ok::<Moment, Seq<Seq<char>>>(m),
    ensures
        !m.up_to(now),
        wall_reading(trimmed(input), "%Y-%m-%d %H:%M"@) == Some(m.wall()),
{
}

/// An expression is read with the second and the year filled in around its text, less the
/// white space at its ends; what it then stands for is taken where it has five fields.
pub proof fn law_expression_is_read_whole(expr: Seq<char>, t: Seq<char>)
    requires
        stripped(expr, t),
    ensures
        ({
            let full = cron_slots("0 "@ + t + " *"@);
            &&& five_field(expr) is Ok <==> word_count(expr) == 5 && full is Ok
            &&& five_field(expr) matches Ok(slots) ==> full == Ok::<Set<int>, Seq<char>>(slots)
            &&& full matches Err(cause) ==> (five_field(expr) matches Err(e) && e.last() == cause)
        }),
{
    assert(t == trimmed(expr)) by {
        law_trimming_strips_the_ends(expr);
        law_stripped_form_is_unique(expr, t, trimmed(expr));
    }
    assert(full_expression(expr) == "0 "@ + t + " *"@);
}

/// An expression that is refused is named in the failure.
pub proof fn law_refused_expression_is_named(expr: Seq<char>)
    requires
        five_field(expr) is Err,
    ensures
        finishes_with(five_field(expr)->Err_0[0], expr),
{
    let s = bad_expression(expr);
    assert(s.subrange(s.len() - expr.len(), s.len() as int) =~= expr);
}

/// A time of day is met today where that lies after now, and otherwise tomorrow; it is
/// refused only where the local time does not have the reading that is needed.
pub proof fn law_clock_is_met(
    input: Seq<char>,
    now: Moment,
    first: Option<Moment>,
    second: Option<Moment>,
    t: Seq<char>,
)
    requires
        stripped(input, t),
        clock_reading(t, "%H:%M"@) is Some,
    ensures
        ({
            let r = when_outcome(input, now, first, second);
            match first {
                None => r is Err,
                Some(today) => if today.secs > now.secs || (today.secs == now.secs && today.nanos
                    > now.nanos) {
                    r == Ok::<Moment, Seq<Seq<char>>>(today)
                } else {
                    match second {
                        None => r is Err,
                        Some(tomorrow) => r == Ok::<Moment, Seq<Seq<char>>>(tomorrow),
                    }
                },
            }
        }),
{
    law_trimming_strips_the_ends(input);
    law_stripped_form_is_unique(input, t, trimmed(input));
}

/// A date is met exactly where the local time has it and it lies after now; a text that is
/// neither a time of day nor a date is refused with its text.
pub proof fn law_date_is_met(
    input: Seq<char>,
    now: Moment,
    first: Option<Moment>,
    second: Option<Moment>,
    t: Seq<char>,
)
    requires
        stripped(input, t),
        clock_reading(t, "%H:%M"@) is None,
    ensures
        ({
            let r = when_outcome(input, now, first, second);
            let dated = wall_reading(t, "%Y-%m-%d %H:%M"@) is Some;
            &&& dated && (first matches Some(m) && (m.secs > now.secs || (m.secs == now.secs
                && m.nanos > now.nanos))) ==> r == Ok::<Moment, Seq<Seq<char>>>(first->0)
            &&& dated && (first matches Some(m) && !(m.secs > now.secs || (m.secs == now.secs
                && m.nanos > now.nanos))) ==> r is Err
            &&& dated && first is None ==> r is Err
            &&& !dated ==> (r matches Err(e) && e.len() == 1 && occurs_in(debug_text(t), e[0]))
        }),
{
    law_trimming_strips_the_ends(input);
    law_stripped_form_is_unique(input, t, trimmed(input));
    let head = "when: expected 'HH:MM' (next 24h, local) or 'YYYY-MM-DD HH:MM' (local), got "@;
    lemma_occurs_between(head, debug_text(t), Seq::empty());
    assert(head + debug_text(t) + Seq::<char>::empty() =~= head + debug_text(t));
}

/// The local readings that are looked up for a time of day are that time on the day of
/// `now`, in local time, and the same time a day later; for a date it is the date itself.
pub proof fn law_readings_that_are_looked_up(
    input: Seq<char>,
    now: Moment,
    first: Option<Moment>,
    second: Option<Moment>,
    t: Seq<char>,
    start: int,
)
    requires
        stripped(input, t),
        when_given(input, now, first, second),
        start % 86400 == 0,
        start <= now.secs + now.offset < start + 86400,
    ensures
        clock_reading(t, "%H:%M"@) matches Some(clock) ==> moment_given(first, start + clock)
            && moment_given(second, start + clock + 86400) && (first matches Some(m) ==> m.secs
            + m.offset == start + clock) && (second matches Some(m) ==> m.secs + m.offset == start
            + clock + 86400),
        clock_reading(t, "%H:%M"@) is None ==> (wall_reading(t, "%Y-%m-%d %H:%M"@) matches Some(w)
            ==> moment_given(first, w) && (first matches Some(m) ==> m.secs + m.offset == w)),
{
    law_trimming_strips_the_ends(input);
    law_stripped_form_is_unique(input, t, trimmed(input));
    let w = now.secs + now.offset;
    assert(now.wall() == w);
    assert(day_start(w) == start);
}

/// A time that cannot be met is refused with the reading that the local time does not have:
/// that of today, or where today's has passed, that of tomorrow; a date that has passed is
/// refused with its moment and the time of the request.
pub proof fn law_refusals_name_the_time(
    input: Seq<char>,
    now: Moment,
    first: Option<Moment>,
    second: Option<Moment>,
    t: Seq<char>,
    start: int,
)
    requires
        stripped(input, t),
        start % 86400 == 0,
        start <= now.secs + now.offset < start + 86400,
        when_outcome(input, now, first, second) is Err,
    ensures
        ({
            let e = when_outcome(input, now, first, second)->Err_0[0];
            match clock_reading(t, "%H:%M"@) {
                Some(clock) => if first is None {
                    begins_with(e, "when: "@ + wall_plain_text(start + clock))
                } else {
                    begins_with(e, "when: "@ + wall_plain_text(start + clock + 86400))
                },
                None => wall_reading(t, "%Y-%m-%d %H:%M"@) matches Some(w) ==> if first is None {
                    begins_with(e, "when: "@ + wall_plain_text(w))
                } else {
                    let m = first->0;
                    e == "when: "@ + rfc3339_text(m.secs as int, m.nanos as int, m.offset as int)
                        + " is in the past (now is "@ + rfc3339_text(
                        now.secs as int,
                        now.nanos as int,
                        now.offset as int,
                    ) + ")"@
                },
            }
        }),
{
    law_trimming_strips_the_ends(input);
    law_stripped_form_is_unique(input, t, trimmed(input));
    assert(day_start(now.secs + now.offset) == start);
    let e = when_outcome(input, now, first, second)->Err_0[0];
    match clock_reading(t, "%H:%M"@) {
        Some(clock) => {
            let wall = if first is None {
                start + clock
            } else {
                start + clock + 86400
            };
            lemma_unresolved_begins(wall);
        },
        None => {
            if let Some(w) = wall_reading(t, "%Y-%m-%d %H:%M"@) {
                lemma_unresolved_begins(w);
            }
        },
    }
}

proof fn lemma_unresolved_begins(wall: int)
    ensures
        begins_with(unresolved(wall)[0], "when: "@ + wall_plain_text(wall)),
{
    let head = "when: "@ + wall_plain_text(wall);
    assert(unresolved(wall)[0].subrange(0, head.len() as int) =~= head);
}

} // verus!
