//! Moments in time: an instant together with the offset from UTC at which it is
//! read. Calendar arithmetic, the machine's time zone and the text forms come from
//! `chrono`.

use vstd::prelude::*;

verus! {

/// The first second that a calendar date can be given for.
pub const MIN_SECS: i64 = -8334601228800;

/// The last second that a calendar date can be given for.
pub const MAX_SECS: i64 = 8210266876799;

/// The first second of the year 0.
pub const YEAR_0: i64 = -62167219200;

/// The last second of the year 9999.
pub const YEAR_9999: i64 = 253402300799;

pub const DAY: i64 = 86400;

/// `%Y-%m-%d %H:%M`: the pattern of the dates that people read.
pub const MINUTE_PATTERN: &'static str = "%Y-%m-%d %H:%M";

/// `%H:%M`: the pattern of a time of day.
pub const CLOCK_PATTERN: &'static str = "%H:%M";

/// `%Y-%m-%d_%H%M%S`: the pattern of the dates in file names.
pub const STAMP_PATTERN: &'static str = "%Y-%m-%d_%H%M%S";

/// `%Y-%m-%d`: the pattern of a day.
pub const DATE_PATTERN: &'static str = "%Y-%m-%d";

/// `%Y-%m-%d %H:%M UTC`: the pattern of the dates that the agent reads.
pub const UTC_PATTERN: &'static str = "%Y-%m-%d %H:%M UTC";

/// An instant, `secs` seconds and `nanos` nanoseconds after the Unix epoch, read
/// `offset` seconds east of UTC. A leap second is the second before it with
/// `nanos` of a billion or more.
#[derive(Clone, Copy, Debug, PartialEq, Eq, Hash, Structural)]
pub struct Moment {
    pub secs: i64,
    pub nanos: u32,
    pub offset: i32,
}

impl Moment {
    /// Whether the calendar covers the moment.
    pub open spec fn wf(self) -> bool {
        &&& MIN_SECS <= self.secs <= MAX_SECS
        &&& self.nanos < 1_000_000_000 || (self.nanos < 2_000_000_000 && self.secs % 60 == 59)
        &&& -DAY < self.offset < DAY
    }

    /// What the clock on the wall reads, in seconds, at the moment's offset.
    pub open spec fn wall(self) -> int {
        self.secs + self.offset
    }

    /// Whether the moment is no later than `other`.
    pub open spec fn up_to(self, other: Moment) -> bool {
        self.secs < other.secs || (self.secs == other.secs && self.nanos <= other.nanos)
    }

    /// Whether the moment is no later than `other`.
    pub fn is_up_to(&self, other: &Moment) -> (r: bool)
        ensures
            r == self.up_to(*other),
    {
        self.secs < other.secs || (self.secs == other.secs && self.nanos <= other.nanos)
    }

    /// Whether the moment's text form can be read back.
    pub open spec fn readable(self) -> bool {
        &&& YEAR_0 <= self.wall() <= YEAR_9999
        &&& self.nanos < 1_000_000_000
        &&& self.offset % 60 == 0
    }
}

/// The RFC 3339 text of a moment, as `chrono::DateTime::to_rfc3339` writes it.
pub uninterp spec fn rfc3339_text(secs: int, nanos: int, offset: int) -> Seq<char>;

/// The moment that an RFC 3339 text stands for, as
/// `chrono::DateTime::parse_from_rfc3339` reads it, or none where it reads none.
pub uninterp spec fn rfc3339_moment(text: Seq<char>) -> Option<(int, int, int)>;

/// The text of a wall clock reading under a pattern, as
/// `chrono::NaiveDateTime::format` writes it.
pub uninterp spec fn wall_text(wall: int, pattern: Seq<char>) -> Seq<char>;

/// The plain text of a wall clock reading, as the `Display` of
/// `chrono::NaiveDateTime` writes it.
pub uninterp spec fn wall_plain_text(wall: int) -> Seq<char>;

/// The second of the day that a text stands for under a pattern, as
/// `chrono::NaiveTime::parse_from_str` reads it, or none where it reads none.
pub uninterp spec fn clock_reading(text: Seq<char>, pattern: Seq<char>) -> Option<int>;

/// The wall clock reading that a text stands for under a pattern, as
/// `chrono::NaiveDateTime::parse_from_str` reads it, or none where it reads none.
pub uninterp spec fn wall_reading(text: Seq<char>, pattern: Seq<char>) -> Option<int>;

/// The whole seconds between two instants, as `chrono` subtracts them.
pub uninterp spec fn seconds_from(
    secs: int,
    nanos: int,
    since_secs: int,
    since_nanos: int,
) -> int;

/// The whole milliseconds between two instants, as `chrono` subtracts them.
pub uninterp spec fn millis_from(
    secs: int,
    nanos: int,
    since_secs: int,
    since_nanos: int,
) -> int;

/// The RFC 3339 text of a moment.
pub open spec fn text_of(m: Moment) -> Seq<char> {
    rfc3339_text(m.secs as int, m.nanos as int, m.offset as int)
}

/// The moment that an RFC 3339 text stands for.
pub open spec fn moment_of(text: Seq<char>) -> Option<Moment> {
    match rfc3339_moment(text) {
        Some((secs, nanos, offset)) => Some(
            Moment { secs: secs as i64, nanos: nanos as u32, offset: offset as i32 },
        ),
        None => None,
    }
}

/// The start of the day in which the clock on the wall reads `wall`.
pub open spec fn day_start(wall: int) -> int {
    wall - wall % (DAY as int)
}

/// The start of the day in which the clock on the wall reads `wall`.
pub fn start_of_day(wall: i64) -> (start: i64)
    requires
        MIN_SECS <= wall <= MAX_SECS,
    ensures
        start == day_start(wall as int),
        MIN_SECS <= start <= wall,
{
    if wall >= 0 {
        wall - wall % DAY
    } else {
        let back: i64 = (-(wall + 1)) % DAY;
        assert(wall as int % 86400 == 86399 - back);
        wall - (DAY - 1 - back)
    }
}

/// The quotient of `a` and `b`, rounded toward zero.
pub open spec fn toward_zero(a: int, b: int) -> int
    recommends
        b > 0,
{
    if a < 0 {
        -((-a) / b)
    } else {
        a / b
    }
}

/// `chrono::DateTime::to_rfc3339`: the result is the named text. Where the year has
/// four digits, the offset is whole minutes and the second is no leap second,
/// `parse_from_rfc3339` reads the same moment from it.
#[verifier::external_body]
pub(crate) fn to_rfc3339(m: &Moment) -> (text: String)
    requires
        m.wf(),
    ensures
        text@ == rfc3339_text(m.secs as int, m.nanos as int, m.offset as int),
        m.readable() ==> rfc3339_moment(text@) == Some(
            (m.secs as int, m.nanos as int, m.offset as int),
        ),
{
    let zone = chrono::FixedOffset::east_opt(m.offset).unwrap();
    chrono::DateTime::from_timestamp(m.secs, m.nanos).unwrap().with_timezone(&zone).to_rfc3339()
}

/// `chrono::DateTime::parse_from_rfc3339`: the result is the named moment. What it
/// reads is a date in the years 0 to 9999 at an offset of less than a day.
#[verifier::external_body]
pub(crate) fn parse_rfc3339(text: &str) -> (r: Option<Moment>)
    ensures
        match r {
            Some(m) => {
                &&& rfc3339_moment(text@) == Some((m.secs as int, m.nanos as int, m.offset as int))
                &&& m.wf()
                &&& YEAR_0 <= m.wall() <= YEAR_9999
            },
            None => rfc3339_moment(text@) is None,
        },
{
    match chrono::DateTime::parse_from_rfc3339(text) {
        Ok(t) => Some(
            Moment {
                secs: t.timestamp(),
                nanos: t.timestamp_subsec_nanos(),
                offset: t.offset().local_minus_utc(),
            },
        ),
        Err(_) => None,
    }
}

/// `chrono::DateTime::with_timezone` with `chrono::Local`: the same instant, read at
/// the offset that the machine's time zone has at that instant. Nothing more is
/// said of the offset: it rests on the machine.
#[verifier::external_body]
pub(crate) fn to_local(m: &Moment) -> (r: Moment)
    requires
        m.wf(),
    ensures
        r.wf(),
        r.secs == m.secs,
        r.nanos == m.nanos,
{
    let t = chrono::DateTime::from_timestamp(m.secs, m.nanos).unwrap().with_timezone(&chrono::Local);
    Moment { secs: m.secs, nanos: m.nanos, offset: t.offset().local_minus_utc() }
}

/// Whether `r` is an answer to the look-up of `m` in the machine's time zone: the same
/// instant, read in local time.
pub closed spec fn local_given(m: Moment, r: Moment) -> bool {
    call_ensures(to_local, (&m,), r)
}

/// What a look-up returns is an answer to it.
pub(crate) proof fn lemma_local_given(m: Moment, r: Moment)
    requires
        call_ensures(to_local, (&m,), r),
    ensures
        local_given(m, r),
{
}

/// `chrono::TimeZone::from_local_datetime` of `chrono::Local`, followed by `single`: a
/// moment at which the machine's time zone reads `wall`, or none where it reads
/// `wall` never or twice. Which moment, and when there is none, rests on the machine.
#[verifier::external_body]
pub(crate) fn resolve_wall(wall: i64) -> (r: Option<Moment>)
    requires
        MIN_SECS <= wall <= MAX_SECS,
    ensures
        r matches Some(m) ==> m.wf() && m.nanos == 0 && m.wall() == wall,
{
    let naive = chrono::DateTime::from_timestamp(wall, 0).unwrap().naive_utc();
    chrono::TimeZone::from_local_datetime(&chrono::Local, &naive).single().map(
        |t| Moment { secs: t.timestamp(), nanos: 0, offset: t.offset().local_minus_utc() },
    )
}

/// `chrono::NaiveDateTime::format`: the result is the named text. A pattern that
/// `chrono` cannot format is left out.
#[verifier::external_body]
pub(crate) fn format_wall(wall: i64, pattern: &str) -> (text: String)
    requires
        MIN_SECS <= wall <= MAX_SECS,
        known_pattern(pattern@),
    ensures
        text@ == wall_text(wall as int, pattern@),
{
    chrono::DateTime::from_timestamp(wall, 0).unwrap().naive_utc().format(pattern).to_string()
}

/// The patterns under which this library writes dates.
pub open spec fn known_pattern(pattern: Seq<char>) -> bool {
    ||| pattern == "%Y-%m-%d %H:%M"@
    ||| pattern == "%Y-%m-%d"@
    ||| pattern == "%Y-%m-%d %H:%M UTC"@
    ||| pattern == "%Y-%m-%d_%H%M%S"@
}

/// The `Display` of `chrono::NaiveDateTime`: the result is the named text.
#[verifier::external_body]
pub(crate) fn show_wall(wall: i64) -> (text: String)
    requires
        MIN_SECS <= wall <= MAX_SECS,
    ensures
        text@ == wall_plain_text(wall as int),
{
    chrono::DateTime::from_timestamp(wall, 0).unwrap().naive_utc().to_string()
}

/// `chrono::NaiveTime::parse_from_str`: the result is the named reading, a second of
/// a day.
#[verifier::external_body]
pub(crate) fn parse_clock(text: &str, pattern: &str) -> (r: Option<u32>)
    requires
        pattern@ == "%H:%M"@,
    ensures
        match r {
            Some(t) => clock_reading(text@, pattern@) == Some(t as int) && t < DAY,
            None => clock_reading(text@, pattern@) is None,
        },
{
    match chrono::NaiveTime::parse_from_str(text, pattern) {
        Ok(t) => Some(chrono::Timelike::num_seconds_from_midnight(&t)),
        Err(_) => None,
    }
}

/// `chrono::NaiveDateTime::parse_from_str`: the result is the named reading, within
/// the calendar.
#[verifier::external_body]
pub(crate) fn parse_wall(text: &str, pattern: &str) -> (r: Option<i64>)
    requires
        pattern@ == "%Y-%m-%d %H:%M"@,
    ensures
        match r {
            Some(w) => wall_reading(text@, pattern@) == Some(w as int) && MIN_SECS <= w <= MAX_SECS,
            None => wall_reading(text@, pattern@) is None,
        },
{
    match chrono::NaiveDateTime::parse_from_str(text, pattern) {
        Ok(t) => Some(t.and_utc().timestamp()),
        Err(_) => None,
    }
}

/// The difference of two `chrono::DateTime`s in whole seconds
/// (`signed_duration_since`, `num_seconds`): the result is the named number. Where
/// neither is a leap second it is the difference rounded toward zero.
#[verifier::external_body]
pub(crate) fn seconds_between(later: &Moment, earlier: &Moment) -> (r: i64)
    requires
        later.wf(),
        earlier.wf(),
    ensures
        r == seconds_from(
            later.secs as int,
            later.nanos as int,
            earlier.secs as int,
            earlier.nanos as int,
        ),
        later.nanos < 1_000_000_000 && earlier.nanos < 1_000_000_000 ==> r == toward_zero(
            (later.secs - earlier.secs) * 1_000_000_000 + (later.nanos - earlier.nanos),
            1_000_000_000,
        ),
{
    let a = chrono::DateTime::from_timestamp(later.secs, later.nanos).unwrap();
    let b = chrono::DateTime::from_timestamp(earlier.secs, earlier.nanos).unwrap();
    a.signed_duration_since(b).num_seconds()
}

/// The difference of two `chrono::DateTime`s in whole milliseconds
/// (`signed_duration_since`, `num_milliseconds`): the result is the named number.
/// Where neither is a leap second it is the difference rounded toward zero.
#[verifier::external_body]
pub(crate) fn millis_between(later: &Moment, earlier: &Moment) -> (r: i64)
    requires
        later.wf(),
        earlier.wf(),
    ensures
        r == millis_from(
            later.secs as int,
            later.nanos as int,
            earlier.secs as int,
            earlier.nanos as int,
        ),
        later.nanos < 1_000_000_000 && earlier.nanos < 1_000_000_000 ==> r == toward_zero(
            (later.secs - earlier.secs) * 1_000_000_000 + (later.nanos - earlier.nanos),
            1_000_000,
        ),
{
    let a = chrono::DateTime::from_timestamp(later.secs, later.nanos).unwrap();
    let b = chrono::DateTime::from_timestamp(earlier.secs, earlier.nanos).unwrap();
    a.signed_duration_since(b).num_milliseconds()
}

/// `chrono::Utc::now`: the current instant, after the Unix epoch, read in UTC.
/// Which instant rests on the machine's clock; a clock set before the Unix epoch
/// makes `chrono` panic.
#[verifier::external_body]
pub(crate) fn utc_now() -> (m: Moment)
    ensures
        m.wf(),
        m.secs >= 0,
        m.nanos < 1_000_000_000,
        m.offset == 0,
{
    let t = chrono::Utc::now();
    Moment { secs: t.timestamp(), nanos: t.timestamp_subsec_nanos(), offset: 0 }
}

/// Whether `m` is what the machine's clock gave as the current instant.
pub closed spec fn now_given(m: Moment) -> bool {
    call_ensures(utc_now, (), m)
}

/// What the clock returns is what it gave.
pub(crate) proof fn lemma_now_given(m: Moment)
    requires
        call_ensures(utc_now, (), m),
    ensures
        now_given(m),
{
}

/// A day begins at a whole number of days, no more than a day before any reading in it.
pub proof fn law_start_of_a_day(wall: int, other: int)
    ensures
        day_start(wall) <= wall < day_start(wall) + 86400,
        day_start(wall) % 86400 == 0,
        day_start(wall) <= other < day_start(wall) + 86400 ==> day_start(other) == day_start(wall),
{
}

/// Moments are in the order of their nanoseconds since the epoch, whatever their offsets.
pub proof fn law_order_of_moments(a: Moment, b: Moment)
    requires
        a.nanos < 1_000_000_000,
        b.nanos < 1_000_000_000,
    ensures
        a.up_to(b) <==> a.secs * 1_000_000_000 + a.nanos <= b.secs * 1_000_000_000 + b.nanos,
{
}

/// What the clock on the wall reads is as far ahead of the instant as the offset says.
pub proof fn law_offset_is_east(m: Moment)
    ensures
        m.wall() - m.offset == m.secs,
{
}

/// A division toward zero leaves a remainder of the dividend's sign, smaller than the
/// divisor.
pub proof fn law_division_toward_zero(a: int, b: int)
    requires
        b > 0,
    ensures
        a >= 0 ==> toward_zero(a, b) * b <= a < toward_zero(a, b) * b + b,
        a <= 0 ==> toward_zero(a, b) * b - b < a <= toward_zero(a, b) * b,
{
    let q = (if a < 0 { -a } else { a }) / b;
    let x = if a < 0 { -a } else { a };
    assert(q * b <= x < q * b + b) by (nonlinear_arith)
        requires
            q == x / b,
            b > 0,
    ;
    assert((-q) * b == -(q * b)) by (nonlinear_arith);
}

} // verus!
