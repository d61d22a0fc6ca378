//! Messages as the platform delivers them, and which of them are taken in.

use vstd::prelude::*;

use crate::bus::{AuthorId, ConversationId, IncomingDm};
use crate::chunk::{chunk_message, chunks_of, law_chunks_fit};
use crate::text::{
    byte_len, is_white, law_stripped_form_is_unique, law_trimming_strips_the_ends, texts, trim,
    trimmed,
};
use crate::time::{lemma_local_given, local_given, to_local, Moment, DAY, MAX_SECS, MIN_SECS};

verus! {

/// How many missed messages are asked for at most.
pub const CATCHUP_LIMIT: u8 = 100;

/// How many bytes a message may have on the platform.
pub const MESSAGE_LIMIT: usize = 1900;

/// A message as the platform delivers it.
#[derive(Debug)]
pub struct ChannelMessage {
    pub author: AuthorId,
    pub author_is_bot: bool,
    /// Whether it was sent in a server rather than directly.
    pub in_guild: bool,
    pub channel: ConversationId,
    pub content: String,
    pub timestamp: Moment,
}

impl ChannelMessage {
    /// Whether the calendar covers the time of the message wherever it is read.
    pub open spec fn wf(self) -> bool {
        self.timestamp.wf() && MIN_SECS + DAY <= self.timestamp.secs <= MAX_SECS - DAY
    }
}

/// The messages that a reply is sent as: each fits the platform's limit.
pub fn reply_chunks(content: &str) -> (out: Vec<String>)
    ensures
        texts(out@) == chunks_of(content@, MESSAGE_LIMIT as nat),
        forall|i: int|
            0 <= i < out@.len() ==> byte_len((#[trigger] out@[i])@) <= MESSAGE_LIMIT,
{
    proof {
        law_chunks_fit(content@, MESSAGE_LIMIT as nat);
    }
    let out: Vec<String> = chunk_message(content, MESSAGE_LIMIT);
    assert forall|i: int| 0 <= i < out@.len() implies byte_len((#[trigger] out@[i])@)
        <= MESSAGE_LIMIT by {
        assert(texts(out@)[i] == out@[i]@);
    }
    out
}

/// Whether a message that comes in is taken in: it is a person's and was sent directly.
pub open spec fn taken_live(msg: ChannelMessage) -> bool {
    !msg.author_is_bot && !msg.in_guild
}

/// Whether a message that was missed is taken in: it is the operator's, was sent
/// directly and is not blank.
pub open spec fn taken_late(msg: ChannelMessage, operator: AuthorId) -> bool {
    taken_live(msg) && msg.author == operator && trimmed(msg.content@).len() > 0
}

/// Whether `dm` is the message, with its time read in local time.
pub open spec fn same_message(msg: ChannelMessage, dm: IncomingDm) -> bool {
    &&& dm.author == msg.author
    &&& dm.channel == msg.channel
    &&& dm.content@ == msg.content@
    &&& local_given(msg.timestamp, dm.timestamp)
    &&& dm.timestamp.secs == msg.timestamp.secs
    &&& dm.timestamp.nanos == msg.timestamp.nanos
    &&& dm.wf()
}

/// The message, with its time read in local time.
pub fn incoming_dm_from_message(msg: &ChannelMessage) -> (dm: IncomingDm)
    requires
        msg.wf(),
    ensures
        same_message(*msg, dm),
{
    let timestamp: Moment = to_local(&msg.timestamp);
    proof {
        lemma_local_given(msg.timestamp, timestamp);
    }
    IncomingDm {
        author: msg.author,
        channel: msg.channel,
        content: msg.content.clone(),
        timestamp,
    }
}

/// The message that a live message is taken in as, if it is.
pub fn accept_live(msg: &ChannelMessage) -> (r: Option<IncomingDm>)
    requires
        msg.wf(),
    ensures
        match r {
            Some(dm) => taken_live(*msg) && same_message(*msg, dm),
            None => !taken_live(*msg),
        },
{
    if msg.author_is_bot || msg.in_guild {
        return None;
    }
    Some(incoming_dm_from_message(msg))
}

/// The missed messages that are taken in, the oldest first, where `messages` has the
/// newest first.
pub open spec fn missed(messages: Seq<ChannelMessage>, operator: AuthorId) -> Seq<ChannelMessage>
    decreases messages.len(),
{
    if messages.len() == 0 {
        Seq::empty()
    } else {
        let older = missed(messages.skip(1), operator);
        if taken_late(messages[0], operator) {
            older.push(messages[0])
        } else {
            older
        }
    }
}

/// The missed messages that are taken in, the oldest first, where `messages` has the
/// newest first.
pub fn missed_dms(messages: &Vec<ChannelMessage>, operator: AuthorId) -> (out: Vec<IncomingDm>)
    requires
        forall|i: int| 0 <= i < messages@.len() ==> (#[trigger] messages@[i]).wf(),
    ensures
        out@.len() == missed(messages@, operator).len(),
        forall|i: int|
            0 <= i < out@.len() ==> same_message(missed(messages@, operator)[i], #[trigger] out@[i]),
{
    let mut out: Vec<IncomingDm> = Vec::new();
    let mut i: usize = messages.len();
    assert(messages@.skip(i as int) =~= Seq::empty());
    while i > 0
        invariant
            i <= messages@.len(),
            forall|i: int| 0 <= i < messages@.len() ==> (#[trigger] messages@[i]).wf(),
            out@.len() == missed(messages@.skip(i as int), operator).len(),
            forall|j: int|
                0 <= j < out@.len() ==> same_message(
                    missed(messages@.skip(i as int), operator)[j],
                    #[trigger] out@[j],
                ),
        decreases i,
    {
        i -= 1;
        let msg: &ChannelMessage = &messages[i];
        proof {
            assert(messages@.skip(i as int).skip(1) =~= messages@.skip(i as int + 1));
            assert(messages@.skip(i as int)[0] == *msg);
        }
        if !msg.author_is_bot && !msg.in_guild && msg.author == operator && !trim(
            msg.content.as_str(),
        ).as_str().is_empty() {
            out.push(incoming_dm_from_message(msg));
        }
    }
    assert(messages@.skip(0) =~= messages@);
    out
}

/// Nobody but the operator is heard through missed messages.
pub proof fn law_missed_are_the_operators(messages: Seq<ChannelMessage>, operator: AuthorId)
    ensures
        forall|i: int|
            0 <= i < missed(messages, operator).len() ==> taken_late(
                #[trigger] missed(messages, operator)[i],
                operator,
            ),
    decreases messages.len(),
{
    if messages.len() > 0 {
        let older = missed(messages.skip(1), operator);
        let all = missed(messages, operator);
        law_missed_are_the_operators(messages.skip(1), operator);
        assert forall|i: int| 0 <= i < all.len() implies taken_late(
            #[trigger] all[i],
            operator,
        ) by {
            if i < older.len() {
                assert(all[i] == older[i]);
            }
        }
    }
}

/// Missed messages are replayed in the order in which they were sent.
pub proof fn law_missed_are_replayed_in_order(messages: Seq<ChannelMessage>, operator: AuthorId)
    requires
        forall|i: int, j: int|
            0 <= i < j < messages.len() ==> messages[j].timestamp.up_to(messages[i].timestamp),
    ensures
        forall|i: int, j: int|
            0 <= i < j < missed(messages, operator).len() ==> missed(
                messages,
                operator,
            )[i].timestamp.up_to(missed(messages, operator)[j].timestamp),
        forall|i: int|
            0 <= i < missed(messages, operator).len() ==> messages.contains(
                #[trigger] missed(messages, operator)[i],
            ),
    decreases messages.len(),
{
    if messages.len() > 0 {
        let rest = messages.skip(1);
        let older = missed(rest, operator);
        let all = missed(messages, operator);
        assert forall|i: int, j: int|
            0 <= i < j < rest.len() implies rest[j].timestamp.up_to(rest[i].timestamp) by {
            assert(messages[j + 1].timestamp.up_to(messages[i + 1].timestamp));
        }
        law_missed_are_replayed_in_order(rest, operator);
        assert forall|i: int| 0 <= i < older.len() implies messages.contains(older[i])
            && older[i].timestamp.up_to(messages[0].timestamp) by {
            let k = choose|k: int| 0 <= k < rest.len() && rest[k] == older[i];
            assert(messages[k + 1] == older[i]);
            assert(messages[k + 1].timestamp.up_to(messages[0].timestamp));
        }
        assert forall|i: int, j: int| 0 <= i < j < all.len() implies all[i].timestamp.up_to(
            all[j].timestamp,
        ) by {
            assert(all[i] == older[i]);
            if j < older.len() {
                assert(all[j] == older[j]);
            }
        }
        assert forall|i: int| 0 <= i < all.len() implies messages.contains(#[trigger] all[i]) by {
            if i < older.len() {
                assert(all[i] == older[i]);
            } else {
                assert(messages[0] == all[i]);
            }
        }
    }
}

/// Missed messages come out in the opposite order of that in which they are given, whatever
/// else is among them: the newest last.
pub proof fn law_missed_are_turned_round(
    newer: Seq<ChannelMessage>,
    older: Seq<ChannelMessage>,
    operator: AuthorId,
)
    ensures
        missed(newer + older, operator) == missed(older, operator) + missed(newer, operator),
    decreases newer.len(),
{
    if newer.len() == 0 {
        assert(newer + older =~= older);
        assert(missed(newer + older, operator) =~= missed(older, operator) + missed(
            newer,
            operator,
        ));
    } else {
        law_missed_are_turned_round(newer.skip(1), older, operator);
        assert((newer + older).skip(1) =~= newer.skip(1) + older);
        assert(missed(newer + older, operator) =~= missed(older, operator) + missed(
            newer,
            operator,
        ));
    }
}

/// A missed message is taken in exactly where it is the operator's, no bot's, was sent
/// directly and holds anything but white space.
pub proof fn law_which_missed_messages_are_taken(msg: ChannelMessage, operator: AuthorId)
    ensures
        missed(seq![msg], operator) == if msg.author == operator && !msg.author_is_bot
            && !msg.in_guild && exists|i: int|
            0 <= i < msg.content@.len() && !is_white(#[trigger] msg.content@[i]) {
            seq![msg]
        } else {
            Seq::empty()
        },
{
    law_trimming_strips_the_ends(msg.content@);
    law_stripped_form_is_unique(msg.content@, trimmed(msg.content@), trimmed(msg.content@));
    assert(seq![msg].skip(1) =~= Seq::empty());
    reveal_with_fuel(missed, 2);
    assert(missed(seq![msg], operator) =~= if taken_late(msg, operator) {
        seq![msg]
    } else {
        Seq::empty()
    });
}

/// No message that the operator sent directly is lost, unless it is blank.
pub proof fn law_no_missed_message_is_lost(
    messages: Seq<ChannelMessage>,
    operator: AuthorId,
    at: int,
    i: int,
)
    requires
        0 <= at < messages.len(),
        messages[at].author == operator,
        !messages[at].author_is_bot,
        !messages[at].in_guild,
        0 <= i < messages[at].content@.len(),
        !is_white(messages[at].content@[i]),
    ensures
        missed(messages, operator).contains(messages[at]),
{
    let msg = messages[at];
    let newer = messages.take(at);
    let older = messages.skip(at + 1);
    assert(messages =~= newer + (seq![msg] + older));
    law_missed_are_turned_round(newer, seq![msg] + older, operator);
    law_missed_are_turned_round(seq![msg], older, operator);
    law_which_missed_messages_are_taken(msg, operator);
    let n = missed(older, operator).len() as int;
    assert(missed(messages, operator)[n] == msg);
}

/// A live message is taken in exactly where it is no bot's and was sent directly, whoever
/// sent it and whatever it says.
pub proof fn law_which_live_messages_are_taken(msg: ChannelMessage)
    ensures
        taken_live(msg) <==> !(msg.author_is_bot || msg.in_guild),
{
}

/// A message that is taken in keeps its author, its conversation, its text and its instant;
/// only the offset at which its time is read may differ.
pub proof fn law_message_is_taken_in_whole(msg: ChannelMessage, dm: IncomingDm)
    requires
        same_message(msg, dm),
    ensures
        dm.author == msg.author,
        dm.channel == msg.channel,
        dm.content@ == msg.content@,
        dm.timestamp.secs == msg.timestamp.secs,
        dm.timestamp.nanos == msg.timestamp.nanos,
        local_given(msg.timestamp, dm.timestamp),
{
}

} // verus!
