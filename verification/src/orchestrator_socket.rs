//! Requests of the agent's tools, and the messages that they have sent to the owner.

use vstd::prelude::*;

use crate::cron::{append_outcome, CronStore};
use crate::cron_poll::EntryView;
use crate::cron_when::has_tomorrow;
use crate::failure::{account, Failure};
use crate::json::{json_of, parse_json};
use crate::text::{
    join, joined_with, law_join_shows_each, law_join_splits, lemma_occurs_in_longer, occurs_in,
    text_option, texts, trim, trimmed,
};
use crate::time::Moment;

verus! {

/// How long a message waits for another one, in milliseconds.
pub const SEND_DM_COALESCE_MILLIS: u64 = 2000;

/// How long a message waits in all, in milliseconds.
pub const SEND_DM_MAX_WAIT_MILLIS: u64 = 10000;

/// A request of a tool.
#[derive(Debug)]
pub enum Request {
    /// Send a message to the owner.
    SendDm { content: String },
    /// Schedule a prompt.
    Schedule { what: String, when: Option<String>, cron: Option<String> },
}

/// The answer to a request.
#[derive(Debug)]
pub struct Response {
    pub id: String,
    pub ok: bool,
    pub error: Option<String>,
    /// The id of the entry that was scheduled.
    pub entry_id: Option<String>,
}

/// What an answer says.
pub struct ResponseView {
    pub id: Seq<char>,
    pub ok: bool,
    pub error: Option<Seq<char>>,
    pub entry_id: Option<Seq<char>>,
}

impl View for Response {
    type V = ResponseView;

    open spec fn view(&self) -> ResponseView {
        ResponseView {
            id: self.id@,
            ok: self.ok,
            error: text_option(self.error),
            entry_id: text_option(self.entry_id),
        }
    }
}

/// The answer to a request that was met.
pub open spec fn granted(id: Seq<char>, entry_id: Option<Seq<char>>) -> ResponseView {
    ResponseView { id, ok: true, error: None, entry_id }
}

/// The answer to a request that was refused.
pub open spec fn refused(id: Seq<char>, error: Seq<char>) -> ResponseView {
    ResponseView { id, ok: false, error: Some(error), entry_id: None }
}

impl Response {
    pub fn granted(id: String, entry_id: Option<String>) -> (r: Response)
        ensures
            r@ == granted(id@, text_option(entry_id)),
    {
        Response { id, ok: true, error: None, entry_id }
    }

    pub fn refused(id: String, error: String) -> (r: Response)
        ensures
            r@ == refused(id@, error@),
    {
        Response { id, ok: false, error: Some(error), entry_id: None }
    }

    /// The answer to a request that is JSON but no request, for the reason given.
    pub fn malformed(id: String, reason: &str) -> (r: Response)
        ensures
            r@ == refused(id@, "request: "@ + reason@),
    {
        let mut error: String = "request: ".to_owned();
        error.append(reason);
        Response::refused(id, error)
    }
}

/// The id of the request on a line, or the failure of a line that is no JSON.
pub open spec fn id_on(line: Seq<char>) -> Result<Seq<char>, Seq<Seq<char>>> {
    match json_of(line) {
        Ok(v) => match v.string_member("id"@) {
            Some(id) => Ok(id),
            None => Ok("(missing id)"@),
        },
        Err(cause) => Err(seq!["request: invalid JSON"@, cause]),
    }
}

/// The id of the request on a line. It is read before the rest, so that a malformed
/// request can be answered.
pub fn request_id(line: &str) -> (r: Result<String, Failure>)
    ensures
        match r {
            Ok(id) => id_on(line@) == Ok::<Seq<char>, Seq<Seq<char>>>(id@),
            Err(e) => id_on(line@) == Err::<Seq<char>, Seq<Seq<char>>>(e@),
        },
{
    match parse_json(line) {
        Ok(v) => match v.get_str("id") {
            Some(id) => Ok(id.to_owned()),
            None => Ok("(missing id)".to_owned()),
        },
        Err(cause) => {
            let e: Failure = Failure::new(cause).context("request: invalid JSON".to_owned());
            assert(e@ =~= seq!["request: invalid JSON"@, cause@]);
            Err(e)
        },
    }
}

/// What is done for a request.
#[derive(Debug)]
pub enum Dispatch {
    /// It is answered.
    Answer(Response),
    /// A message is handed over to be sent.
    Queue(String),
}

/// What is done for a request to schedule, given what the schedule says to it.
pub open spec fn schedule_answer(id: Seq<char>, r: Result<String, Failure>) -> ResponseView {
    match r {
        Ok(entry_id) => granted(id, Some(entry_id@)),
        Err(e) => refused(id, "schedule: "@ + account(e@)),
    }
}

fn answer_schedule(id: String, r: Result<String, Failure>) -> (out: Response)
    ensures
        out@ == schedule_answer(id@, r),
{
    match r {
        Ok(entry_id) => Response::granted(id, Some(entry_id)),
        Err(e) => {
            let mut error: String = "schedule: ".to_owned();
            error.append(e.report().as_str());
            Response::refused(id, error)
        },
    }
}

/// What a request does to the schedule, and what is done for it.
pub open spec fn dispatched(
    before: Seq<EntryView>,
    req: Request,
    id: Seq<char>,
    now: Moment,
    after: Seq<EntryView>,
    d: Dispatch,
) -> bool {
    match req {
        Request::SendDm { content } => {
            &&& after == before
            &&& if trimmed(content@).len() == 0 {
                d matches Dispatch::Answer(r) && r@ == refused(id, "send_dm: empty content"@)
            } else {
                d matches Dispatch::Queue(s) && s@ == trimmed(content@)
            }
        },
        Request::Schedule { what, when, cron } => exists|r: Result<String, Failure>|
            {
                &&& #[trigger] append_outcome(
                    before,
                    what@,
                    text_option(when),
                    text_option(cron),
                    now,
                    after,
                    r,
                )
                &&& d matches Dispatch::Answer(a) && a@ == schedule_answer(id, r)
            },
    }
}

/// Meets a request: a message to be sent is handed over, a prompt is scheduled.
pub fn dispatch(req: Request, store: &mut CronStore, id: String, now: &Moment) -> (d: Dispatch)
    requires
        has_tomorrow(*now),
    ensures
        final(store).spec_path() == old(store).spec_path(),
        dispatched(
            old(store).spec_entries(),
            req,
            id@,
            *now,
            final(store).spec_entries(),
            d,
        ),
{
    match req {
        Request::SendDm { content } => {
            let content: String = trim(content.as_str());
            if content.as_str().is_empty() {
                return Dispatch::Answer(
                    Response::refused(id, "send_dm: empty content".to_owned()),
                );
            }
            Dispatch::Queue(content)
        },
        Request::Schedule { what, when, cron } => {
            let when_text: Option<&str> = match &when {
                Some(w) => Some(w.as_str()),
                None => None,
            };
            let cron_text: Option<&str> = match &cron {
                Some(c) => Some(c.as_str()),
                None => None,
            };
            let ghost before = store.spec_entries();
            let r: Result<String, Failure> = store.append(what.as_str(), when_text, cron_text, now);
            assert(append_outcome(
                before,
                what@,
                text_option(when),
                text_option(cron),
                *now,
                store.spec_entries(),
                r,
            ));
            Dispatch::Answer(answer_schedule(id, r))
        },
    }
}

/// The answer to a message that was handed over, given whether it was taken.
pub fn queued(id: String, taken: bool) -> (r: Response)
    ensures
        r@ == if taken {
            granted(id@, None)
        } else {
            refused(id@, "send_dm: dm coalescer is gone"@)
        },
{
    if taken {
        Response::granted(id, None)
    } else {
        Response::refused(id, "send_dm: dm coalescer is gone".to_owned())
    }
}

/// Something that happens to messages that wait to be sent.
#[derive(Debug)]
pub enum CoalesceEvent {
    /// One more message is to be sent.
    Message(String),
    /// No message came for as long as one was waited for.
    Quiet,
    /// No more messages will come.
    Gone,
}

/// What is done with messages that wait to be sent.
#[derive(Debug)]
pub enum CoalesceAction {
    /// Wait for another message, for so many milliseconds.
    Wait(u64),
    /// Send this message.
    Post(String),
    /// There will be nothing to do.
    Exit,
}

/// What is done with messages that wait to be sent.
pub enum CoalesceAct {
    Wait(u64),
    Post(Seq<char>),
    Exit,
}

impl View for CoalesceAction {
    type V = CoalesceAct;

    open spec fn view(&self) -> CoalesceAct {
        match self {
            CoalesceAction::Wait(w) => CoalesceAct::Wait(*w),
            CoalesceAction::Post(s) => CoalesceAct::Post(s@),
            CoalesceAction::Exit => CoalesceAct::Exit,
        }
    }
}

/// How long another message is waited for after so many milliseconds: no longer than
/// the quiet time, nor than what is left of the whole time.
pub open spec fn window(coalesce: u64, max_wait: u64, elapsed: u64) -> Option<u64> {
    if elapsed >= max_wait {
        None
    } else if coalesce <= max_wait - elapsed {
        Some(coalesce)
    } else {
        Some((max_wait - elapsed) as u64)
    }
}

/// The messages that wait after an event that comes `elapsed` milliseconds after the
/// first of them.
pub open spec fn waiting_after(
    waiting: Seq<Seq<char>>,
    event: CoalesceEvent,
    coalesce: u64,
    max_wait: u64,
    elapsed: u64,
) -> Seq<Seq<char>> {
    match event {
        CoalesceEvent::Message(m) => if window(coalesce, max_wait, elapsed) is None {
            Seq::empty()
        } else {
            waiting.push(m@)
        },
        _ => Seq::empty(),
    }
}

/// The messages as one.
pub open spec fn combined(messages: Seq<Seq<char>>) -> Seq<char> {
    joined_with(messages, "\n\n"@)
}

/// What is done on an event that comes `elapsed` milliseconds after the first message
/// that waits.
pub open spec fn coalesce_act(
    waiting: Seq<Seq<char>>,
    event: CoalesceEvent,
    coalesce: u64,
    max_wait: u64,
    elapsed: u64,
) -> CoalesceAct {
    match event {
        CoalesceEvent::Message(m) => match window(coalesce, max_wait, elapsed) {
            Some(w) => CoalesceAct::Wait(w),
            None => CoalesceAct::Post(combined(waiting.push(m@))),
        },
        _ => if waiting.len() == 0 {
            CoalesceAct::Exit
        } else {
            CoalesceAct::Post(combined(waiting))
        },
    }
}

/// Messages that wait to be sent as one.
#[derive(Debug)]
pub struct Coalescer {
    coalesce_millis: u64,
    max_wait_millis: u64,
    buffer: Vec<String>,
}

impl Coalescer {
    pub closed spec fn coalesce(self) -> u64 {
        self.coalesce_millis
    }

    pub closed spec fn max_wait(self) -> u64 {
        self.max_wait_millis
    }

    /// The messages that wait.
    pub closed spec fn waiting(self) -> Seq<Seq<char>> {
        texts(self.buffer@)
    }

    pub fn new(coalesce_millis: u64, max_wait_millis: u64) -> (r: Coalescer)
        ensures
            r.coalesce() == coalesce_millis,
            r.max_wait() == max_wait_millis,
            r.waiting() == Seq::<Seq<char>>::empty(),
    {
        let r = Coalescer { coalesce_millis, max_wait_millis, buffer: Vec::new() };
        assert(r.waiting() =~= Seq::empty());
        r
    }

    /// Whether no message waits.
    pub fn is_idle(&self) -> (b: bool)
        ensures
            b == (self.waiting().len() == 0),
    {
        self.buffer.len() == 0
    }

    /// Takes in an event that comes `elapsed` milliseconds after the first message that
    /// waits.
    pub fn step(&mut self, event: CoalesceEvent, elapsed: u64) -> (act: CoalesceAction)
        requires
            event is Quiet ==> old(self).waiting().len() > 0,
        ensures
            final(self).coalesce() == old(self).coalesce(),
            final(self).max_wait() == old(self).max_wait(),
            final(self).waiting() == waiting_after(
                old(self).waiting(),
                event,
                old(self).coalesce(),
                old(self).max_wait(),
                elapsed,
            ),
            act@ == coalesce_act(
                old(self).waiting(),
                event,
                old(self).coalesce(),
                old(self).max_wait(),
                elapsed,
            ),
    {
        let ghost before = self.waiting();
        match event {
            CoalesceEvent::Message(m) => {
                let ghost text = m@;
                self.buffer.push(m);
                assert(texts(self.buffer@) =~= before.push(text));
                if elapsed >= self.max_wait_millis {
                    return self.flush();
                }
                let left: u64 = self.max_wait_millis - elapsed;
                CoalesceAction::Wait(
                    if self.coalesce_millis <= left {
                        self.coalesce_millis
                    } else {
                        left
                    },
                )
            },
            _ => self.flush(),
        }
    }

    fn flush(&mut self) -> (act: CoalesceAction)
        ensures
            final(self).coalesce() == old(self).coalesce(),
            final(self).max_wait() == old(self).max_wait(),
            final(self).waiting() == Seq::<Seq<char>>::empty(),
            act@ == if old(self).waiting().len() == 0 {
                CoalesceAct::Exit
            } else {
                CoalesceAct::Post(combined(old(self).waiting()))
            },
    {
        if self.buffer.len() == 0 {
            assert(self.waiting() =~= Seq::empty());
            return CoalesceAction::Exit;
        }
        let message: String = join(&self.buffer, "\n\n");
        self.buffer = Vec::new();
        assert(self.waiting() =~= Seq::empty());
        CoalesceAction::Post(message)
    }
}

/// Every answer carries the id of its request, and a refusal says why.
pub proof fn law_answers_carry_the_id(
    id: Seq<char>,
    entry_id: Option<Seq<char>>,
    error: Seq<char>,
    r: Result<String, Failure>,
)
    ensures
        granted(id, entry_id).id == id,
        refused(id, error).id == id,
        schedule_answer(id, r).id == id,
        schedule_answer(id, r).ok <==> r is Ok,
        !schedule_answer(id, r).ok ==> schedule_answer(id, r).error is Some,
{
}

/// A message is either sent at once, as the last of those that wait, or waits behind
/// them: none is lost, repeated or overtaken.
pub proof fn law_messages_are_sent_in_order(
    waiting: Seq<Seq<char>>,
    m: String,
    coalesce: u64,
    max_wait: u64,
    elapsed: u64,
)
    ensures
        ({
            let event = CoalesceEvent::Message(m);
            let after = waiting_after(waiting, event, coalesce, max_wait, elapsed);
            match coalesce_act(waiting, event, coalesce, max_wait, elapsed) {
                CoalesceAct::Post(s) => s == combined(waiting.push(m@)) && after.len() == 0,
                CoalesceAct::Wait(_) => after == waiting.push(m@),
                CoalesceAct::Exit => false,
            }
        }),
{
}

/// When the wait is over, or no more messages will come, what waits is sent as one
/// message.
pub proof fn law_wait_ends_in_a_message(
    waiting: Seq<Seq<char>>,
    event: CoalesceEvent,
    coalesce: u64,
    max_wait: u64,
    elapsed: u64,
)
    requires
        !(event is Message),
        waiting.len() > 0,
    ensures
        coalesce_act(waiting, event, coalesce, max_wait, elapsed) == CoalesceAct::Post(
            combined(waiting),
        ),
        waiting_after(waiting, event, coalesce, max_wait, elapsed).len() == 0,
{
}

/// No message waits longer than the whole time, however many come.
pub proof fn law_wait_is_bounded(
    waiting: Seq<Seq<char>>,
    event: CoalesceEvent,
    coalesce: u64,
    max_wait: u64,
    elapsed: u64,
)
    ensures
        coalesce_act(waiting, event, coalesce, max_wait, elapsed) matches CoalesceAct::Wait(w) ==> w
            <= coalesce && elapsed + w <= max_wait,
{
}

/// Messages that are sent as one stand in their order, with an empty line between each two,
/// and each of them whole.
pub proof fn law_combined_message_holds_all(messages: Seq<Seq<char>>, m: Seq<char>, i: int)
    ensures
        messages.len() > 0 ==> combined(messages.push(m)) == combined(messages).push('\n').push(
            '\n',
        ) + m,
        combined(seq![m]) == m,
        0 <= i < messages.len() ==> occurs_in(messages[i], combined(messages)),
{
    reveal_strlit("\n\n");
    if messages.len() > 0 {
        law_join_splits(messages, seq![m], "\n\n"@);
        assert(messages + seq![m] =~= messages.push(m));
        assert(combined(messages) + "\n\n"@ =~= combined(messages).push('\n').push('\n'));
    }
    if 0 <= i < messages.len() {
        law_join_shows_each(messages, "\n\n"@, i);
    }
}

/// Another message is waited for as long as the quiet time and the whole time both allow,
/// and no shorter: the one that ends first is waited for in full.
pub proof fn law_wait_is_as_long_as_allowed(
    waiting: Seq<Seq<char>>,
    m: String,
    coalesce: u64,
    max_wait: u64,
    elapsed: u64,
)
    ensures
        ({
            let act = coalesce_act(
                waiting,
                CoalesceEvent::Message(m),
                coalesce,
                max_wait,
                elapsed,
            );
            &&& elapsed >= max_wait ==> act is Post
            &&& elapsed < max_wait ==> (act matches CoalesceAct::Wait(w) && (w == coalesce || w
                + elapsed == max_wait) && w <= coalesce && w + elapsed <= max_wait)
        }),
{
}

/// The messages that come in, in order.
pub open spec fn messages_in(course: Seq<(CoalesceEvent, u64)>) -> Seq<Seq<char>>
    decreases course.len(),
{
    if course.len() == 0 {
        Seq::empty()
    } else {
        let before = messages_in(course.drop_last());
        match course.last().0 {
            CoalesceEvent::Message(m) => before.push(m@),
            _ => before,
        }
    }
}

/// The messages that wait after a course of events, each with the time that it comes at.
pub open spec fn waiting_in(
    course: Seq<(CoalesceEvent, u64)>,
    coalesce: u64,
    max_wait: u64,
) -> Seq<Seq<char>>
    decreases course.len(),
{
    if course.len() == 0 {
        Seq::empty()
    } else {
        waiting_after(
            waiting_in(course.drop_last(), coalesce, max_wait),
            course.last().0,
            coalesce,
            max_wait,
            course.last().1,
        )
    }
}

/// What is sent in a course of events, in order.
pub open spec fn posts_in(
    course: Seq<(CoalesceEvent, u64)>,
    coalesce: u64,
    max_wait: u64,
) -> Seq<Seq<char>>
    decreases course.len(),
{
    if course.len() == 0 {
        Seq::empty()
    } else {
        let before = posts_in(course.drop_last(), coalesce, max_wait);
        match coalesce_act(
            waiting_in(course.drop_last(), coalesce, max_wait),
            course.last().0,
            coalesce,
            max_wait,
            course.last().1,
        ) {
            CoalesceAct::Post(s) => before.push(s),
            _ => before,
        }
    }
}

/// The parts one after the other.
pub open spec fn all_of(parts: Seq<Seq<Seq<char>>>) -> Seq<Seq<char>>
    decreases parts.len(),
{
    if parts.len() == 0 {
        Seq::empty()
    } else {
        all_of(parts.drop_last()) + parts.last()
    }
}

/// Whether each post is one or more messages, as one.
pub open spec fn posted_as(posts: Seq<Seq<char>>, parts: Seq<Seq<Seq<char>>>) -> bool {
    &&& parts.len() == posts.len()
    &&& forall|i: int|
        0 <= i < posts.len() ==> #[trigger] posts[i] == joined_with(parts[i], "\n\n"@)
            && parts[i].len() > 0
}

/// Over any course of events every message is sent once, in its order: the messages that
/// came in are those of the posts, one post after the other, and those that still wait.
pub proof fn law_every_message_is_sent_once(
    course: Seq<(CoalesceEvent, u64)>,
    coalesce: u64,
    max_wait: u64,
)
    ensures
        exists|parts: Seq<Seq<Seq<char>>>| #[trigger]
            posted_as(posts_in(course, coalesce, max_wait), parts) && all_of(parts) + waiting_in(
                course,
                coalesce,
                max_wait,
            ) == messages_in(course),
    decreases course.len(),
{
    let posts = posts_in(course, coalesce, max_wait);
    let waiting = waiting_in(course, coalesce, max_wait);
    if course.len() == 0 {
        let parts = Seq::<Seq<Seq<char>>>::empty();
        assert(posted_as(posts, parts));
        assert(all_of(parts) + waiting =~= messages_in(course));
    } else {
        let earlier = course.drop_last();
        law_every_message_is_sent_once(earlier, coalesce, max_wait);
        let posts0 = posts_in(earlier, coalesce, max_wait);
        let waiting0 = waiting_in(earlier, coalesce, max_wait);
        let parts0 = choose|parts: Seq<Seq<Seq<char>>>| #[trigger]
            posted_as(posts0, parts) && all_of(parts) + waiting0 == messages_in(earlier);
        let (event, elapsed) = course.last();
        let due = match event {
            CoalesceEvent::Message(m) => waiting0.push(m@),
            _ => waiting0,
        };
        assert(messages_in(course) =~= all_of(parts0) + due);
        if coalesce_act(waiting0, event, coalesce, max_wait, elapsed) is Post {
            let parts = parts0.push(due);
            assert(parts.drop_last() =~= parts0);
            assert(due.len() > 0);
            assert(posts == posts0.push(joined_with(due, "\n\n"@)));
            assert(parts.len() == posts.len());
            assert forall|i: int| 0 <= i < posts.len() implies #[trigger] posts[i]
                == joined_with(parts[i], "\n\n"@) && parts[i].len() > 0 by {
                if i < posts0.len() {
                    assert(posts[i] == posts0[i]);
                    assert(parts[i] == parts0[i]);
                }
            }
            assert(posted_as(posts, parts));
            assert(all_of(parts) + waiting =~= messages_in(course));
        } else {
            assert(posted_as(posts, parts0));
            assert(all_of(parts0) + waiting =~= messages_in(course));
        }
    }
}

/// A request that is met is answered with no error, and one that is refused with the reason
/// and no entry. A prompt that is scheduled is answered with the id of its entry, and where
/// that failed every message of the failure is told.
pub proof fn law_answers_say_what_happened(
    id: Seq<char>,
    entry_id: Option<Seq<char>>,
    error: Seq<char>,
    r: Result<String, Failure>,
    i: int,
)
    ensures
        granted(id, entry_id).ok && granted(id, entry_id).error is None && granted(
            id,
            entry_id,
        ).entry_id == entry_id,
        !refused(id, error).ok && refused(id, error).error == Some(error) && refused(
            id,
            error,
        ).entry_id is None,
        r matches Ok(entry) ==> schedule_answer(id, r).entry_id == Some(entry@) && schedule_answer(
            id,
            r,
        ).error is None,
        r matches Err(f) ==> schedule_answer(id, r).entry_id is None && (0 <= i < f@.len()
            ==> occurs_in(f@[i], schedule_answer(id, r).error->0)),
{
    if let Err(f) = r {
        if 0 <= i < f@.len() {
            law_join_shows_each(f@, ": "@, i);
            lemma_occurs_in_longer(f@[i], "schedule: "@, account(f@), Seq::empty());
            assert("schedule: "@ + account(f@) + Seq::<char>::empty() =~= "schedule: "@ + account(
                f@,
            ));
        }
    }
}

/// The id of a request is read wherever the line is JSON, whatever else the request holds,
/// so that it can be answered.
pub proof fn law_id_is_read_from_any_json(line: Seq<char>)
    ensures
        id_on(line) is Ok <==> json_of(line) is Ok,
        json_of(line) matches Ok(v) ==> (v.string_member("id"@) matches Some(id) ==> id_on(line)
            == Ok::<Seq<char>, Seq<Seq<char>>>(id)),
        json_of(line) matches Err(cause) ==> (id_on(line) matches Err(e) && e.last() == cause),
{
}

} // verus!
