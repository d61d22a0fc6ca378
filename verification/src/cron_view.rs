//! How a scheduled prompt is shown to people.

use vstd::prelude::*;

use crate::cron_poll::{slot_possible, upcoming, CronEntry, EntryView};
use crate::text::{
    begins_with, decimal, decimal_of, finishes_with, from_chars, law_stripped_form_is_unique,
    law_trimming_strips_the_ends, lemma_occurs_between, occurs_in, stripped, text_option, to_chars,
    trim, trimmed,
};
use crate::time::{
    format_wall, lemma_local_given, local_given, moment_of, parse_rfc3339, seconds_between, seconds_from, to_local, wall_text,
    Moment, MAX_SECS, MINUTE_PATTERN, MIN_SECS,
};

verus! {

/// How many characters of a prompt are shown.
pub const PROMPT_PREVIEW_CHARS: usize = 120;

/// How long it is until a time that is `total` seconds away.
pub open spec fn delta_text(total: int) -> Seq<char> {
    let days = (total / 86400) as nat;
    let hours = (total % 86400 / 3600) as nat;
    let mins = (total % 3600 / 60) as nat;
    if total < 0 {
        "overdue"@
    } else if days > 0 {
        "in "@ + decimal_of(days) + "d "@ + decimal_of(hours) + "h"@
    } else if hours > 0 {
        "in "@ + decimal_of(hours) + "h "@ + decimal_of(mins) + "m"@
    } else if mins > 0 {
        "in "@ + decimal_of(mins) + "m"@
    } else {
        "in <1m"@
    }
}

/// How long it is until a time that is `total` seconds away.
pub fn relative_delta(total: i64) -> (s: String)
    ensures
        s@ == delta_text(total as int),
{
    if total < 0 {
        return "overdue".to_owned();
    }
    let total: u64 = total as u64;
    let days: u64 = total / 86_400;
    let hours: u64 = (total % 86_400) / 3_600;
    let mins: u64 = (total % 3_600) / 60;
    if days > 0 {
        let mut s: String = "in ".to_owned();
        s.append(decimal(days).as_str());
        s.append("d ");
        s.append(decimal(hours).as_str());
        s.append("h");
        s
    } else if hours > 0 {
        let mut s: String = "in ".to_owned();
        s.append(decimal(hours).as_str());
        s.append("h ");
        s.append(decimal(mins).as_str());
        s.append("m");
        s
    } else if mins > 0 {
        let mut s: String = "in ".to_owned();
        s.append(decimal(mins).as_str());
        s.append("m");
        s
    } else {
        "in <1m".to_owned()
    }
}

/// `s` on one line: every line feed is a space.
pub open spec fn on_one_line(s: Seq<char>) -> Seq<char> {
    s.map_values(
        |c: char|
            if c == '\n' {
                ' '
            } else {
                c
            },
    )
}

/// `s` on one line, cut to `max` characters that end in three dots where it is longer.
pub open spec fn preview(s: Seq<char>, max: nat) -> Seq<char> {
    let line = on_one_line(s);
    if line.len() <= max {
        line
    } else {
        line.take(if max < 3 {
            0
        } else {
            max - 3
        }) + "..."@
    }
}

/// `s` on one line, cut to `max` characters that end in three dots where it is longer.
pub fn truncate_chars(s: &str, max: usize) -> (r: String)
    ensures
        r@ == preview(s@, max as nat),
{
    let chars: Vec<char> = to_chars(s);
    let mut line: Vec<char> = Vec::new();
    let mut i: usize = 0;
    while i < chars.len()
        invariant
            i <= chars@.len(),
            chars@ == s@,
            line@ == on_one_line(s@).take(i as int),
        decreases chars@.len() - i,
    {
        line.push(
            if chars[i] == '\n' {
                ' '
            } else {
                chars[i]
            },
        );
        i += 1;
        assert(line@ =~= on_one_line(s@).take(i as int));
    }
    assert(line@ =~= on_one_line(s@));
    if line.len() <= max {
        let r: String = from_chars(&line, 0, line.len());
        assert(r@ =~= line@);
        return r;
    }
    let keep: usize = if max < 3 {
        0
    } else {
        max - 3
    };
    let mut r: String = from_chars(&line, 0, keep);
    assert(r@ =~= line@.take(keep as int));
    r.append("...");
    r
}

/// A cut prompt is never longer than the limit, unless the limit has no room for the
/// dots.
pub proof fn law_preview_fits(s: Seq<char>, max: nat)
    requires
        max >= 3,
    ensures
        preview(s, max).len() <= max,
{
    reveal_strlit("...");
}

/// The local times that are shown for an entry.
#[derive(Clone, Copy, Debug, PartialEq, Eq, Structural)]
pub struct EntryTimes {
    /// When a one-shot entry fires.
    pub fires: Option<Moment>,
    /// When a recurring entry last fired.
    pub last: Option<Moment>,
    /// When a recurring entry fires next.
    pub next: Option<Moment>,
}

/// The whole seconds from `now` to `m`.
pub open spec fn seconds_until(m: Moment, now: Moment) -> int {
    seconds_from(m.secs as int, m.nanos as int, now.secs as int, now.nanos as int)
}

pub open spec fn shown(m: Moment) -> Seq<char> {
    wall_text(m.wall(), "%Y-%m-%d %H:%M"@)
}

/// The lines that show an entry, given its local times.
pub open spec fn entry_text(e: EntryView, now: Moment, times: EntryTimes) -> Seq<char> {
    let head = "  "@ + e.id;
    let body = match (e.fire_at, e.cron) {
        (Some(fire_at), None) => head + "   one-shot\n"@ + match times.fires {
            Some(m) => "    fires at: "@ + shown(m) + " ("@ + delta_text(seconds_until(m, now))
                + ")\n"@,
            None => "    fires at: <unparseable: "@ + fire_at + ">\n"@,
        },
        (None, Some(expr)) => head + "   recurring ("@ + expr + ")\n"@ + match times.last {
            Some(m) => "    last fired: "@ + shown(m) + "\n"@,
            None => Seq::empty(),
        } + match times.next {
            Some(m) => "    next fire:  "@ + shown(m) + " ("@ + delta_text(seconds_until(m, now))
                + ")\n"@,
            None => Seq::empty(),
        },
        _ => head + "   <malformed entry>\n"@,
    };
    body + "    prompt: "@ + preview(trimmed(e.what), PROMPT_PREVIEW_CHARS as nat) + "\n"@
}

/// Whether the calendar covers the local reading of a moment.
pub open spec fn showable(m: Option<Moment>) -> bool {
    m matches Some(x) ==> x.wf() && MIN_SECS <= x.wall() <= MAX_SECS
}

fn show(m: &Moment) -> (s: String)
    requires
        showable(Some(*m)),
    ensures
        s@ == shown(*m),
{
    format_wall(m.secs + m.offset as i64, MINUTE_PATTERN)
}

/// The lines that show an entry, given its local times.
pub fn entry_lines(entry: &CronEntry, now: &Moment, times: &EntryTimes) -> (s: String)
    requires
        now.wf(),
        showable(times.fires),
        showable(times.last),
        showable(times.next),
    ensures
        s@ == entry_text(entry@, *now, *times),
{
    let mut out: String = "  ".to_owned();
    out.append(entry.id.as_str());
    match (&entry.fire_at, &entry.cron) {
        (Some(fire_at), None) => {
            out.append("   one-shot\n");
            match &times.fires {
                Some(m) => {
                    let mut line: String = "    fires at: ".to_owned();
                    line.append(show(m).as_str());
                    line.append(" (");
                    line.append(relative_delta(seconds_between(m, now)).as_str());
                    line.append(")\n");
                    out.append(line.as_str());
                },
                None => {
                    let mut line: String = "    fires at: <unparseable: ".to_owned();
                    line.append(fire_at.as_str());
                    line.append(">\n");
                    out.append(line.as_str());
                },
            }
        },
        (None, Some(expr)) => {
            out.append("   recurring (");
            out.append(expr.as_str());
            out.append(")\n");
            let mut last: String = String::new();
            if let Some(m) = &times.last {
                last = "    last fired: ".to_owned();
                last.append(show(m).as_str());
                last.append("\n");
            }
            out.append(last.as_str());
            let mut next: String = String::new();
            if let Some(m) = &times.next {
                next = "    next fire:  ".to_owned();
                next.append(show(m).as_str());
                next.append(" (");
                next.append(relative_delta(seconds_between(m, now)).as_str());
                next.append(")\n");
            }
            out.append(next.as_str());
        },
        _ => {
            out.append("   <malformed entry>\n");
        },
    }
    out.append("    prompt: ");
    out.append(truncate_chars(trim(entry.what.as_str()).as_str(), PROMPT_PREVIEW_CHARS).as_str());
    out.append("\n");
    out
}

/// Whether `m` is the moment of an RFC 3339 text, read in local time, or none where
/// the text cannot be read.
pub open spec fn local_moment(text: Option<Seq<char>>, m: Option<Moment>) -> bool {
    match text {
        Some(t) => match moment_of(t) {
            Some(x) => m matches Some(y) && local_given(x, y) && y.wf() && y.secs == x.secs
                && y.nanos == x.nanos,
            None => m is None,
        },
        None => m is None,
    }
}

/// Whether these can be the local times of an entry.
pub open spec fn times_possible(e: EntryView, now: Moment, times: EntryTimes) -> bool {
    &&& local_moment(e.fire_at, times.fires)
    &&& local_moment(e.last_fired_at, times.last)
    &&& slot_possible(e, now, times.next)
}

/// The moment of an RFC 3339 text, read in local time.
fn read_local(text: &Option<String>) -> (m: Option<Moment>)
    ensures
        local_moment(text_option(*text), m),
        showable(m),
{
    match text {
        Some(t) => match parse_rfc3339(t.as_str()) {
            Some(x) => {
                let y: Moment = to_local(&x);
                proof {
                    lemma_local_given(x, y);
                }
                Some(y)
            },
            None => None,
        },
        None => None,
    }
}

/// The lines that show an entry: its id, how it fires, its times in local time, and
/// the beginning of its prompt.
pub fn format_entry_line(entry: &CronEntry, now: &Moment) -> (s: String)
    requires
        now.wf(),
        now.secs < MAX_SECS,
    ensures
        exists|times: EntryTimes| #[trigger]
            times_possible(entry@, *now, times) && s@ == entry_text(entry@, *now, times),
{
    let times = EntryTimes {
        fires: read_local(&entry.fire_at),
        last: read_local(&entry.last_fired_at),
        next: upcoming(entry, now),
    };
    assert(times_possible(entry@, *now, times));
    entry_lines(entry, now, &times)
}

/// The time that is left is told in days and hours, in hours and minutes, or in minutes,
/// rounded down: in each case the two numbers bound it from both sides.
pub proof fn law_time_left_is_rounded_down(total: int, days: nat, hours: nat, mins: nat)
    ensures
        total < 0 ==> delta_text(total) == "overdue"@,
        0 <= total < 60 ==> delta_text(total) == "in <1m"@,
        0 < mins < 60 && mins * 60 <= total < mins * 60 + 60 ==> delta_text(total) == "in "@
            + decimal_of(mins) + "m"@,
        0 < hours < 24 && mins < 60 && hours * 3600 + mins * 60 <= total < hours * 3600 + mins * 60
            + 60 ==> delta_text(total) == "in "@ + decimal_of(hours) + "h "@ + decimal_of(mins)
            + "m"@,
        0 < days && hours < 24 && days * 86400 + hours * 3600 <= total < days * 86400 + hours * 3600
            + 3600 ==> delta_text(total) == "in "@ + decimal_of(days) + "d "@ + decimal_of(hours)
            + "h"@,
{
    if 0 < mins < 60 && mins * 60 <= total < mins * 60 + 60 {
        assert(total / 86400 == 0 && total % 86400 == total);
        assert(total / 3600 == 0 && total % 3600 == total);
        assert(total / 60 == mins);
    }
    if 0 < hours < 24 && mins < 60 && hours * 3600 + mins * 60 <= total < hours * 3600 + mins * 60
        + 60 {
        assert(total / 86400 == 0 && total % 86400 == total);
        assert(total / 3600 == hours);
        let rest = total - hours * 3600;
        assert(total % 3600 == rest);
        assert(rest / 60 == mins);
    }
    if 0 < days && hours < 24 && days * 86400 + hours * 3600 <= total < days * 86400 + hours * 3600
        + 3600 {
        let rest = total - days * 86400;
        assert(total / 86400 == days && total % 86400 == rest);
        assert(rest / 3600 == hours);
    }
}

/// A prompt that is shown keeps its characters, but for line feeds, which are shown as
/// spaces; one that is too long ends in three dots, which stand at the limit.
pub proof fn law_preview_shows_the_beginning(s: Seq<char>, max: nat, i: int)
    requires
        3 <= max,
    ensures
        preview(s, max).len() == if s.len() <= max {
            s.len()
        } else {
            max
        },
        0 <= i < preview(s, max).len() && (s.len() <= max || i < max - 3) ==> preview(s, max)[i]
            == if s[i] == '\n' {
            ' '
        } else {
            s[i]
        },
        s.len() > max && max - 3 <= i < max ==> preview(s, max)[i] == '.',
{
    reveal_strlit("...");
}

/// An entry is shown with its id in front, and its prompt, less the white space at its
/// ends, behind.
pub proof fn law_entry_shows_id_and_prompt(
    e: EntryView,
    now: Moment,
    times: EntryTimes,
    what: Seq<char>,
)
    requires
        stripped(e.what, what),
    ensures
        begins_with(entry_text(e, now, times), "  "@ + e.id),
        finishes_with(
            entry_text(e, now, times),
            "    prompt: "@ + preview(what, PROMPT_PREVIEW_CHARS as nat) + "\n"@,
        ),
{
    law_trimming_strips_the_ends(e.what);
    law_stripped_form_is_unique(e.what, what, trimmed(e.what));
    let s = entry_text(e, now, times);
    let head = "  "@ + e.id;
    let tail = "    prompt: "@ + preview(what, PROMPT_PREVIEW_CHARS as nat) + "\n"@;
    assert(s.subrange(0, head.len() as int) =~= head);
    assert(s.subrange(s.len() - tail.len(), s.len() as int) =~= tail);
}

/// The line on a time: the local reading, which is the instant's seconds and its offset
/// together, and how far away it is.
pub open spec fn time_line(label: Seq<char>, m: Moment, now: Moment) -> Seq<char> {
    label + wall_text(m.secs + m.offset, "%Y-%m-%d %H:%M"@) + " ("@ + delta_text(
        seconds_from(m.secs as int, m.nanos as int, now.secs as int, now.nanos as int),
    ) + ")\n"@
}

/// A one-shot entry is shown with the local time at which it fires, or with the text of
/// its time where that cannot be read. A recurring one is shown with its expression, and
/// with the local times at which it last fired and fires next, as far as they are known.
pub proof fn law_entry_shows_its_times(e: EntryView, now: Moment, times: EntryTimes)
    ensures
        ({
            let s = entry_text(e, now, times);
            let tail = "    prompt: "@ + preview(trimmed(e.what), PROMPT_PREVIEW_CHARS as nat)
                + "\n"@;
            &&& e.fire_at is Some && e.cron is None ==> match times.fires {
                Some(m) => s == "  "@ + e.id + "   one-shot\n"@ + time_line(
                    "    fires at: "@,
                    m,
                    now,
                ) + tail,
                None => s == "  "@ + e.id + "   one-shot\n"@ + ("    fires at: <unparseable: "@
                    + e.fire_at->0 + ">\n"@) + tail,
            }
            &&& e.fire_at is None && e.cron is Some && times.last is None && times.next is None
                ==> s == "  "@ + e.id + ("   recurring ("@ + e.cron->0 + ")\n"@) + tail
            &&& e.fire_at is None && e.cron is Some ==> {
                &&& occurs_in("   recurring ("@ + e.cron->0 + ")\n"@, s)
                &&& times.next matches Some(m) ==> occurs_in(
                    time_line("    next fire:  "@, m, now),
                    s,
                )
                &&& times.last matches Some(m) ==> occurs_in(
                    "    last fired: "@ + wall_text(m.secs + m.offset, "%Y-%m-%d %H:%M"@) + "\n"@,
                    s,
                )
            }
        }),
{
    let s = entry_text(e, now, times);
    let head = "  "@ + e.id;
    let tail = "    prompt: "@ + preview(trimmed(e.what), PROMPT_PREVIEW_CHARS as nat) + "\n"@;
    if e.fire_at is Some && e.cron is None {
        let kind = "   one-shot\n"@;
        let line = match times.fires {
            Some(m) => time_line("    fires at: "@, m, now),
            None => "    fires at: <unparseable: "@ + e.fire_at->0 + ">\n"@,
        };
        assert(s =~= head + kind + line + tail);
    } else if e.fire_at is None && e.cron is Some {
        let kind = "   recurring ("@ + e.cron->0 + ")\n"@;
        let last = match times.last {
            Some(m) => "    last fired: "@ + wall_text(m.secs + m.offset, "%Y-%m-%d %H:%M"@)
                + "\n"@,
            None => Seq::empty(),
        };
        let next = match times.next {
            Some(m) => time_line("    next fire:  "@, m, now),
            None => Seq::empty(),
        };
        lemma_occurs_between(head, kind, last + next + tail);
        lemma_occurs_between(head + kind, last, next + tail);
        lemma_occurs_between(head + kind + last, next, tail);
        assert(s =~= head + kind + (last + next + tail));
        assert(s =~= head + kind + last + (next + tail));
        assert(s =~= head + kind + last + next + tail);
        if times.last is None && times.next is None {
            assert(s =~= head + kind + tail);
        }
    }
}

/// A time that is shown is the very instant of the text, and is shown exactly where the
/// text can be read.
pub proof fn law_local_time_is_the_same_instant(text: Seq<char>, x: Moment, m: Option<Moment>)
    requires
        local_moment(Some(text), m),
    ensures
        m is Some <==> moment_of(text) is Some,
        moment_of(text) == Some(x) ==> m->0.secs == x.secs && m->0.nanos == x.nanos && local_given(
            x,
            m->0,
        ),
{
}

/// The times that are shown for an entry are those of its own texts, and of its own next
/// slot.
pub proof fn law_shown_times_are_the_entrys(e: EntryView, now: Moment, times: EntryTimes)
    requires
        times_possible(e, now, times),
    ensures
        slot_possible(e, now, times.next),
        e.fire_at is None ==> times.fires is None,
        e.last_fired_at is None ==> times.last is None,
        e.fire_at matches Some(t) ==> (moment_of(t) matches Some(x) ==> (times.fires matches Some(m)
            && m.secs == x.secs && m.nanos == x.nanos && local_given(x, m))),
        e.last_fired_at matches Some(t) ==> (moment_of(t) matches Some(x) ==> (
        times.last matches Some(m) && m.secs == x.secs && m.nanos == x.nanos && local_given(x, m))),
{
}

} // verus!
