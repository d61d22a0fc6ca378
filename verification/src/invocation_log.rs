//! The record of one run of the agent: a header, the lines that the runner printed,
//! and a footer.

use vstd::prelude::*;

use crate::ids::{clock_gave, clock_id, id_of};
use crate::paths::{join_path, joined_path};
use crate::text::{
    begins_with, finishes_with, from_chars, is_white, law_stripped_form_is_unique,
    law_trimming_strips_the_ends, text_option, to_chars, trim, trimmed,
};
use crate::time::{
    format_wall, millis_between, millis_from, text_of, to_rfc3339, wall_text, Moment, MAX_SECS,
    MIN_SECS, STAMP_PATTERN,
};

verus! {

/// Why the agent was run.
#[derive(Clone, Copy, Debug, PartialEq, Eq, Structural)]
pub enum Trigger {
    /// The owner sent a message.
    Dm,
    /// A scheduled prompt came due.
    Cron,
}

impl Trigger {
    pub open spec fn spec_label(self) -> Seq<char> {
        match self {
            Trigger::Dm => "dm"@,
            Trigger::Cron => "cron"@,
        }
    }

    /// The trigger's name in the record.
    pub fn label(&self) -> (s: &'static str)
        ensures
            s@ == self.spec_label(),
    {
        match self {
            Trigger::Dm => "dm",
            Trigger::Cron => "cron",
        }
    }
}

/// What a run of the agent is for.
#[derive(Debug)]
pub struct InvocationContext {
    pub trigger: Trigger,
    pub manifest: String,
    pub prompt: String,
    /// The scheduled prompt's id.
    pub cron_id: Option<String>,
    /// The conversation that the message came from.
    pub channel: Option<u64>,
}

/// The texts of what a run is for.
pub struct ContextView {
    pub trigger: Trigger,
    pub manifest: Seq<char>,
    pub prompt: Seq<char>,
    pub cron_id: Option<Seq<char>>,
    pub channel: Option<u64>,
}

impl View for InvocationContext {
    type V = ContextView;

    open spec fn view(&self) -> ContextView {
        ContextView {
            trigger: self.trigger,
            manifest: self.manifest@,
            prompt: self.prompt@,
            cron_id: text_option(self.cron_id),
            channel: self.channel,
        }
    }
}

/// What a run came to.
#[derive(Debug)]
pub enum InvocationStatus {
    /// The runner ended well.
    Succeeded,
    /// The runner ended badly, or could not be run.
    Failed(String),
    /// The run was given up, for a newer message.
    Cancelled,
}

/// The texts of what a run came to.
pub enum StatusView {
    Succeeded,
    Failed(Seq<char>),
    Cancelled,
}

impl View for InvocationStatus {
    type V = StatusView;

    open spec fn view(&self) -> StatusView {
        match self {
            InvocationStatus::Succeeded => StatusView::Succeeded,
            InvocationStatus::Failed(m) => StatusView::Failed(m@),
            InvocationStatus::Cancelled => StatusView::Cancelled,
        }
    }
}

/// The name of what a run came to.
pub open spec fn status_label(s: StatusView) -> Seq<char> {
    match s {
        StatusView::Succeeded => "ok"@,
        StatusView::Failed(_) => "error"@,
        StatusView::Cancelled => "cancelled"@,
    }
}

/// The message of a run that ended badly.
pub open spec fn status_error(s: StatusView) -> Option<Seq<char>> {
    match s {
        StatusView::Failed(m) => Some(m),
        _ => None,
    }
}

impl InvocationStatus {
    /// The name of the status in the record.
    pub fn label(&self) -> (s: &'static str)
        ensures
            s@ == status_label(self@),
    {
        match self {
            InvocationStatus::Succeeded => "ok",
            InvocationStatus::Failed(_) => "error",
            InvocationStatus::Cancelled => "cancelled",
        }
    }

    /// The message of a run that ended badly.
    pub fn error_message(&self) -> (r: Option<&str>)
        ensures
            match r {
                Some(m) => status_error(self@) == Some(m@),
                None => status_error(self@) is None,
            },
    {
        match self {
            InvocationStatus::Failed(m) => Some(m.as_str()),
            _ => None,
        }
    }
}

/// The header of a record.
#[derive(Debug)]
pub struct StartLine {
    pub started_at: String,
    pub context: InvocationContext,
}

/// The footer of a record.
#[derive(Debug)]
pub struct EndLine {
    pub ended_at: String,
    pub status: &'static str,
    pub error: Option<String>,
    pub duration_ms: i64,
}

/// The record of a run that has started.
#[derive(Debug)]
pub struct InvocationLog {
    path: String,
    started_at: Moment,
}

/// The name of the file for a run that started when the clock on the wall read `wall`.
pub open spec fn log_file_name(wall: int, id: Seq<char>) -> Seq<char> {
    wall_text(wall, "%Y-%m-%d_%H%M%S"@) + "-"@ + id + ".jsonl"@
}

/// Whether `path` is the file under `dir` for a run that started when the clock on the
/// wall read `wall`, called by the number `n` that the machine's clock gave.
pub open spec fn is_log_path(path: Seq<char>, dir: Seq<char>, wall: int, n: nat) -> bool {
    clock_gave(n) && path == joined_path(dir, log_file_name(wall, id_of(n, 8)))
}

/// The line that a printed line adds to the record: none where it is blank, and
/// otherwise the line with a single line feed at its end.
pub open spec fn recorded_line(raw: Seq<char>) -> Option<Seq<char>> {
    if trimmed(raw).len() == 0 {
        None
    } else {
        Some(without_final_breaks(raw).push('\n'))
    }
}

/// `s` without the line feeds at its end.
pub open spec fn without_final_breaks(s: Seq<char>) -> Seq<char>
    decreases s.len(),
{
    if s.len() > 0 && s.last() == '\n' {
        without_final_breaks(s.drop_last())
    } else {
        s
    }
}

/// The line that a printed line adds to the record.
pub fn log_line(raw: &str) -> (r: Option<String>)
    ensures
        match r {
            Some(line) => recorded_line(raw@) == Some(line@),
            None => recorded_line(raw@) is None,
        },
{
    if trim(raw).as_str().is_empty() {
        return None;
    }
    let chars: Vec<char> = to_chars(raw);
    let mut end: usize = chars.len();
    assert(chars@.take(end as int) =~= chars@);
    while end > 0 && chars[end - 1] == '\n'
        invariant
            end <= chars@.len(),
            chars@ == raw@,
            without_final_breaks(raw@) == without_final_breaks(raw@.take(end as int)),
        decreases end,
    {
        assert(raw@.take(end as int).drop_last() =~= raw@.take(end as int - 1));
        end -= 1;
    }
    let mut line: String = from_chars(&chars, 0, end);
    assert(line@ =~= raw@.take(end as int));
    line.push('\n');
    Some(line)
}

/// A line without line feeds that is not blank is recorded as it is.
pub proof fn law_line_recorded_verbatim(raw: Seq<char>)
    requires
        trimmed(raw).len() > 0,
        forall|i: int| 0 <= i < raw.len() ==> raw[i] != '\n',
    ensures
        recorded_line(raw) == Some(raw.push('\n')),
{
}

/// An identifier of eight symbols, from the machine's clock.
pub fn short_id() -> (id: String)
    ensures
        exists|n: nat| #[trigger] clock_gave(n) && id@ == id_of(n, 8),
{
    clock_id(8)
}

/// The milliseconds that a run took.
pub open spec fn run_millis(started: Moment, ended: Moment) -> int {
    let d = millis_from(
        ended.secs as int,
        ended.nanos as int,
        started.secs as int,
        started.nanos as int,
    );
    if d < 0 {
        0
    } else {
        d
    }
}

impl InvocationLog {
    pub closed spec fn spec_path(self) -> Seq<char> {
        self.path@
    }

    pub closed spec fn started(self) -> Moment {
        self.started_at
    }

    /// The record of a run that starts at `now`, kept in the file called by `id`
    /// under `dir`, and its header.
    pub fn open_as(dir: &str, context: InvocationContext, now: &Moment, id: &str) -> (r: (
        InvocationLog,
        StartLine,
    ))
        requires
            now.wf(),
            MIN_SECS <= now.wall() <= MAX_SECS,
        ensures
            r.0.spec_path() == joined_path(dir@, log_file_name(now.wall(), id@)),
            r.0.started() == *now,
            r.1.started_at@ == text_of(*now),
            r.1.context == context,
    {
        let mut name: String = format_wall(now.secs + now.offset as i64, STAMP_PATTERN);
        name.append("-");
        name.append(id);
        name.append(".jsonl");
        let log = InvocationLog { path: join_path(dir, name.as_str()), started_at: *now };
        (log, StartLine { started_at: to_rfc3339(now), context })
    }

    /// The record of a run that starts at `now`, in a file of its own under `dir`, and
    /// its header.
    pub fn create(dir: &str, context: InvocationContext, now: &Moment) -> (r: (
        InvocationLog,
        StartLine,
    ))
        requires
            now.wf(),
            MIN_SECS <= now.wall() <= MAX_SECS,
        ensures
            exists|n: nat| is_log_path(r.0.spec_path(), dir@, now.wall(), n),
            r.0.started() == *now,
            r.1.started_at@ == text_of(*now),
            r.1.context == context,
    {
        let id: String = short_id();
        let ghost n = choose|n: nat| #[trigger] clock_gave(n) && id@ == id_of(n, 8);
        let r = InvocationLog::open_as(dir, context, now, id.as_str());
        assert(is_log_path(r.0.spec_path(), dir@, now.wall(), n));
        r
    }

    /// The file that the record is kept in.
    pub fn path(&self) -> (r: &str)
        ensures
            r@ == self.spec_path(),
    {
        self.path.as_str()
    }

    /// The footer of a run that ended at `now`.
    pub fn complete(self, status: InvocationStatus, now: &Moment) -> (e: EndLine)
        requires
            now.wf(),
            self.started().wf(),
        ensures
            e.ended_at@ == text_of(*now),
            e.status@ == status_label(status@),
            text_option(e.error) == status_error(status@),
            e.duration_ms == run_millis(self.started(), *now),
    {
        let millis: i64 = millis_between(now, &self.started_at);
        EndLine {
            ended_at: to_rfc3339(now),
            status: status.label(),
            error: match status.error_message() {
                Some(m) => Some(m.to_owned()),
                None => None,
            },
            duration_ms: if millis < 0 {
                0
            } else {
                millis
            },
        }
    }
}

/// A printed line is recorded exactly where it holds anything but white space, and then
/// whole: only line feeds at its end make way for a single one.
pub proof fn law_printed_line_is_recorded_whole(raw: Seq<char>)
    ensures
        recorded_line(raw) is Some <==> exists|i: int|
            0 <= i < raw.len() && !is_white(#[trigger] raw[i]),
        recorded_line(raw) matches Some(line) ==> {
            let n = line.len() - 1;
            &&& 0 <= n <= raw.len()
            &&& line[n] == '\n'
            &&& forall|i: int| 0 <= i < n ==> #[trigger] line[i] == raw[i]
            &&& forall|i: int| n <= i < raw.len() ==> #[trigger] raw[i] == '\n'
            &&& n > 0 ==> raw[n - 1] != '\n'
        },
{
    law_trimming_strips_the_ends(raw);
    law_stripped_form_is_unique(raw, trimmed(raw), trimmed(raw));
    lemma_final_breaks(raw);
}

proof fn lemma_final_breaks(s: Seq<char>)
    ensures
        ({
            let n = without_final_breaks(s).len() as int;
            &&& n <= s.len()
            &&& without_final_breaks(s) == s.take(n)
            &&& forall|i: int| n <= i < s.len() ==> #[trigger] s[i] == '\n'
            &&& n > 0 ==> s[n - 1] != '\n'
        }),
    decreases s.len(),
{
    if s.len() > 0 && s.last() == '\n' {
        let t = s.drop_last();
        lemma_final_breaks(t);
        let n = without_final_breaks(t).len() as int;
        assert(t.take(n) =~= s.take(n));
        assert forall|i: int| n <= i < s.len() implies #[trigger] s[i] == '\n' by {
            if i < s.len() - 1 {
                assert(s[i] == t[i]);
            }
        }
    } else {
        assert(s.take(s.len() as int) =~= s);
    }
}

/// The file of a record is called by the local time at which the run started and by the
/// run's identifier: runs of one time with different identifiers have different files.
pub proof fn law_each_run_has_its_file(wall: int, a: Seq<char>, b: Seq<char>)
    ensures
        begins_with(log_file_name(wall, a), wall_text(wall, "%Y-%m-%d_%H%M%S"@)),
        finishes_with(log_file_name(wall, a), "-"@ + a + ".jsonl"@),
        a != b && a.len() == b.len() ==> log_file_name(wall, a) != log_file_name(wall, b),
{
    let s = log_file_name(wall, a);
    let time = wall_text(wall, "%Y-%m-%d_%H%M%S"@);
    let tail = "-"@ + a + ".jsonl"@;
    assert(s.subrange(0, time.len() as int) =~= time);
    assert(s.subrange(s.len() - tail.len(), s.len() as int) =~= tail);
    if a.len() == b.len() && s == log_file_name(wall, b) {
        let at = (time + "-"@).len() as int;
        assert(s.subrange(at, at + a.len()) =~= a);
        assert(log_file_name(wall, b).subrange(at, at + b.len()) =~= b);
    }
}

/// The time that a run took is never negative: it is the milliseconds from its start to its
/// end, or none where the clock was set back in between.
pub proof fn law_duration_of_a_run(started: Moment, ended: Moment)
    ensures
        ({
            let d = millis_from(
                ended.secs as int,
                ended.nanos as int,
                started.secs as int,
                started.nanos as int,
            );
            &&& d >= 0 ==> run_millis(started, ended) == d
            &&& d <= 0 ==> run_millis(started, ended) == 0
        }),
{
}

/// The record tells how a run ended: each outcome has a name of its own, and a failure is
/// told with its message, which no other outcome has.
pub proof fn law_record_tells_the_outcome(a: StatusView, b: StatusView, message: Seq<char>)
    ensures
        status_label(a) == status_label(b) ==> (a is Succeeded <==> b is Succeeded) && (a is Failed
            <==> b is Failed) && (a is Cancelled <==> b is Cancelled),
        status_error(StatusView::Failed(message)) == Some(message),
        status_error(a) is Some <==> a is Failed,
        status_label(StatusView::Succeeded) == "ok"@,
        status_label(StatusView::Failed(message)) == "error"@,
        status_label(StatusView::Cancelled) == "cancelled"@,
        Trigger::Dm.spec_label() == "dm"@,
        Trigger::Cron.spec_label() == "cron"@,
{
    reveal_strlit("ok");
    reveal_strlit("error");
    reveal_strlit("cancelled");
    assert("ok"@.len() == 2 && "error"@.len() == 5 && "cancelled"@.len() == 9);
}

} // verus!
