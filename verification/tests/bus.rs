use chrono::{Local, TimeZone};
use glass::bus::{
    actionable, format_prompt, AuthorId, BotLoop, BusAction, BusEvent, ConversationId, IncomingDm,
};
use glass::failure::Failure;
use glass::invocation_log::{InvocationStatus, Trigger};
use glass::loom::MockLoomRunner;
use glass::time::Moment;

const OWNER: AuthorId = AuthorId(42);

fn ts() -> Moment {
    let t = Local.with_ymd_and_hms(2026, 5, 13, 14, 30, 0).unwrap();
    Moment { secs: t.timestamp(), nanos: 0, offset: t.offset().local_minus_utc() }
}

fn dm(author: AuthorId, channel: ConversationId, content: &str) -> IncomingDm {
    IncomingDm { author, channel, content: content.to_string(), timestamp: ts() }
}

fn prompt(content: &str) -> String {
    format!("[2026-05-13 14:30] {content}")
}

fn manifest() -> String {
    "./manifests/glass.toml".to_string()
}

/// What a conversation comes to when every run answers at once from `runner`.
struct Played {
    replies: Vec<(ConversationId, String)>,
    inbound: Vec<String>,
    outbound: Vec<String>,
    statuses: Vec<String>,
}

fn play(messages: Vec<IncomingDm>, runner: &mut MockLoomRunner) -> Played {
    let mut played =
        Played { replies: vec![], inbound: vec![], outbound: vec![], statuses: vec![] };
    let mut bot = BotLoop::new(OWNER, manifest());
    let mut events: Vec<BusEvent> = messages.into_iter().map(BusEvent::Dm).collect();
    events.push(BusEvent::Closed);
    events.reverse();
    while let Some(event) = events.pop() {
        for action in bot.step(event) {
            match action {
                BusAction::LogInbound(s) => played.inbound.push(s),
                BusAction::OpenRecord(c) => {
                    assert_eq!(c.trigger, Trigger::Dm);
                    assert_eq!(c.manifest, manifest());
                    assert_eq!(c.cron_id, None);
                }
                BusAction::StartRun(p) => {
                    events.push(BusEvent::SaidAll);
                    for m in runner.run(&manifest(), &p).into_iter().rev() {
                        events.push(BusEvent::Said(m));
                    }
                    events.push(BusEvent::RunEnded(Ok(())));
                }
                BusAction::LogOutbound(s) => played.outbound.push(s),
                BusAction::Reply(c, s) => played.replies.push((c, s)),
                BusAction::CloseRecord(s) => played.statuses.push(s.label().to_string()),
                BusAction::Exit => return played,
                BusAction::StopRun | BusAction::ShowTyping(_) => panic!("unexpected"),
            }
        }
    }
    panic!("the loop never exited");
}

#[test]
fn run_loop_replies_to_owner_and_ignores_others() {
    let mut runner = MockLoomRunner::new(&[&["echo: hi"], &["echo: still there?"]]);
    let owner_channel = ConversationId(200);
    let played = play(
        vec![
            dm(AuthorId(99), ConversationId(100), "intruder"),
            dm(OWNER, owner_channel, "hi"),
            dm(OWNER, owner_channel, "still there?"),
        ],
        &mut runner,
    );

    assert_eq!(played.replies.len(), 2, "intruder message should be ignored");
    assert_eq!(played.replies[0].0, owner_channel);
    assert_eq!(played.replies[0].1, "echo: hi");
    assert_eq!(played.replies[1].1, "echo: still there?");
    assert_eq!(
        runner.calls(),
        &vec![
            (manifest(), prompt("hi")),
            (manifest(), prompt("still there?")),
        ]
    );
    assert_eq!(played.inbound, vec!["hi", "still there?"]);
    assert_eq!(played.outbound, vec!["echo: hi", "echo: still there?"]);
    assert_eq!(played.statuses, vec!["ok", "ok"]);
}

#[test]
fn run_loop_skips_empty_messages() {
    let mut runner = MockLoomRunner::new(&[&["echo: real"]]);
    let played = play(
        vec![
            dm(OWNER, ConversationId(1), "   "),
            dm(OWNER, ConversationId(1), "real"),
        ],
        &mut runner,
    );
    assert_eq!(played.replies.len(), 1);
    assert_eq!(played.replies[0].1, "echo: real");
}

#[test]
fn new_dm_cancels_in_flight_handle_and_restarts() {
    let channel = ConversationId(1);
    let mut bot = BotLoop::new(OWNER, manifest());
    let first = bot.step(BusEvent::Dm(dm(OWNER, channel, "first")));
    assert!(matches!(first.last(), Some(BusAction::StartRun(p)) if *p == prompt("first")));
    assert!(bot.running());

    let second = bot.step(BusEvent::Dm(dm(OWNER, channel, "second")));
    assert!(matches!(&second[0], BusAction::StopRun));
    assert!(matches!(&second[1], BusAction::CloseRecord(InvocationStatus::Cancelled)));
    assert!(matches!(&second[2], BusAction::LogInbound(s) if s == "second"));
    assert!(matches!(&second[3], BusAction::OpenRecord(c) if c.prompt == prompt("second")));
    assert!(matches!(&second[4], BusAction::StartRun(p) if *p == prompt("second")));
    assert_eq!(second.len(), 5);

    let said = bot.step(BusEvent::Said(format!("reply to {}", prompt("second"))));
    assert!(
        matches!(&said[1], BusAction::Reply(c, s) if *c == channel && *s == format!("reply to {}", prompt("second")))
    );
    assert!(bot.step(BusEvent::RunEnded(Ok(()))).is_empty());
    let end = bot.step(BusEvent::SaidAll);
    assert!(matches!(&end[0], BusAction::CloseRecord(InvocationStatus::Succeeded)));
    assert!(!bot.in_turn());
}

#[test]
fn typing_indicator_refreshes_during_long_run() {
    let mut bot = BotLoop::new(OWNER, manifest());
    bot.step(BusEvent::Dm(dm(OWNER, ConversationId(1), "hi")));
    for _ in 0..9 {
        let acts = bot.step(BusEvent::TypingTick);
        assert_eq!(acts.len(), 1);
        assert!(matches!(&acts[0], BusAction::ShowTyping(c) if *c == ConversationId(1)));
    }
    let mut replies = vec![];
    for event in [BusEvent::Said("done".to_string()), BusEvent::RunEnded(Ok(())), BusEvent::SaidAll] {
        for action in bot.step(event) {
            if let BusAction::Reply(_, s) = action {
                replies.push(s);
            }
        }
    }
    assert_eq!(replies.len(), 1);
    assert_eq!(replies[0], "done");
    assert!(!bot.running());
}

#[test]
fn a_stranger_mid_turn_changes_nothing() {
    let mut bot = BotLoop::new(OWNER, manifest());
    bot.step(BusEvent::Dm(dm(OWNER, ConversationId(1), "hi")));
    assert!(bot.step(BusEvent::Dm(dm(AuthorId(7), ConversationId(2), "me too"))).is_empty());
    assert!(bot.step(BusEvent::Dm(dm(OWNER, ConversationId(1), " \n"))).is_empty());
    assert!(bot.running());
    assert!(bot.listening());
}

#[test]
fn closing_mid_turn_lets_the_turn_finish() {
    let mut bot = BotLoop::new(OWNER, manifest());
    bot.step(BusEvent::Dm(dm(OWNER, ConversationId(1), "hi")));
    assert!(bot.step(BusEvent::Closed).is_empty());
    assert!(!bot.listening());
    assert_eq!(bot.step(BusEvent::Said("still".to_string())).len(), 2);
    bot.step(BusEvent::RunEnded(Ok(())));
    bot.step(BusEvent::SaidAll);
    assert!(bot.listening());
    assert!(matches!(bot.step(BusEvent::Closed)[0], BusAction::Exit));
}

#[test]
fn a_failed_turn_is_reported_to_the_owner() {
    let channel = ConversationId(5);
    let mut bot = BotLoop::new(OWNER, manifest());
    bot.step(BusEvent::Dm(dm(OWNER, channel, "hi")));
    let failure = Failure::new("no such file".to_string()).context("manifest not found".to_string());
    bot.step(BusEvent::RunEnded(Err(failure)));
    let end = bot.step(BusEvent::SaidAll);
    assert_eq!(end.len(), 3);
    let notice = "⚠️ turn failed: `manifest not found`";
    assert!(matches!(&end[0], BusAction::LogOutbound(s) if s == notice));
    assert!(matches!(&end[1], BusAction::Reply(c, s) if *c == channel && s == notice));
    assert!(
        matches!(&end[2], BusAction::CloseRecord(InvocationStatus::Failed(m)) if m == "manifest not found: no such file")
    );
}

#[test]
fn a_turn_without_a_result_is_recorded_as_failed() {
    let mut bot = BotLoop::new(OWNER, manifest());
    bot.step(BusEvent::Dm(dm(OWNER, ConversationId(5), "hi")));
    let end = bot.step(BusEvent::SaidAll);
    assert!(matches!(&end[0], BusAction::StopRun));
    assert!(
        matches!(&end[1], BusAction::CloseRecord(InvocationStatus::Failed(m)) if m == "turn ended with no recorded result")
    );
}

#[test]
fn records_are_opened_and_completed_in_pairs() {
    let mut bot = BotLoop::new(OWNER, manifest());
    let mut open: i32 = 0;
    for n in 0..4 {
        for a in bot.step(BusEvent::Dm(dm(OWNER, ConversationId(1), &format!("m{n}")))) {
            match a {
                BusAction::OpenRecord(_) => open += 1,
                BusAction::CloseRecord(_) => open -= 1,
                _ => {}
            }
        }
        assert_eq!(open, 1);
    }
    bot.step(BusEvent::RunEnded(Ok(())));
    for a in bot.step(BusEvent::SaidAll) {
        if matches!(a, BusAction::CloseRecord(_)) {
            open -= 1;
        }
    }
    assert_eq!(open, 0);
}

#[test]
fn the_prompt_carries_the_time_of_the_message() {
    let msg = dm(OWNER, ConversationId(1), "hello");
    assert_eq!(format_prompt(&msg), "[2026-05-13 14:30] hello");
    assert!(actionable(&msg, OWNER));
    assert!(!actionable(&msg, AuthorId(1)));
}
