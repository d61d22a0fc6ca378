use glass::compaction::{compact, plan_compaction, CompactionLimits};
use glass::events::{simplify, Event, EventKind, E};
use glass::pi::{
    pi_timeout_failure, reply_of, without_summaries, PiRuntime,
};
use glass::time::Moment;
use glass::turn::{split_trailing, History, TurnEngine, TurnRequest};

fn at(rfc: &str) -> Moment {
    let t = chrono::DateTime::parse_from_rfc3339(rfc).unwrap();
    Moment { secs: t.timestamp(), nanos: 0, offset: 0 }
}

fn user(content: &str) -> Event {
    Event::UserMessage { timestamp: at("2025-11-01T09:00:00Z"), content: content.into() }
}

fn agent(content: &str) -> Event {
    Event::AgentMessage { timestamp: at("2025-11-01T09:00:30Z"), content: content.into() }
}

fn summary(body: &str) -> Event {
    Event::Summary { timestamp: at("2025-10-15T14:30:00Z"), body: body.into() }
}

fn tight() -> CompactionLimits {
    CompactionLimits { threshold_tokens: 700, keep_recent_tokens: 200 }
}

fn loose() -> CompactionLimits {
    CompactionLimits { threshold_tokens: 7_000_000, keep_recent_tokens: 1000 }
}

fn history(events: Vec<Event>) -> History {
    let audit = events.iter().map(|e| e.copy()).collect();
    History { audit, current: events }
}

/// Compacts a history if it is due, with `body` as the summary.
fn maybe_compact(h: &mut History, limits: &CompactionLimits, body: &str) -> bool {
    match plan_compaction(&h.current, limits) {
        Some(plan) => {
            h.fold(plan.cut, Event::summary(body.to_string()));
            true
        }
        None => false,
    }
}

#[test]
fn no_op_when_under_threshold() {
    let mut h = history(vec![user("hello"), agent("hi"), user("brief chat")]);
    assert!(!maybe_compact(&mut h, &loose(), "(unused)"));
    let expected = vec![E::user("hello"), E::agent("hi"), E::user("brief chat")];
    assert_eq!(simplify(&h.audit), expected);
    assert_eq!(simplify(&h.current), expected);
}

#[test]
fn rewrites_current_log_with_summary_plus_kept_tail() {
    let big = "x".repeat(800);
    let mut h = history(vec![user(&big), agent(&big), user(&big), agent(&big)]);
    assert!(maybe_compact(&mut h, &tight(), "the summary"));
    assert_eq!(
        simplify(&h.audit),
        vec![
            E::user(&big),
            E::agent(&big),
            E::user(&big),
            E::agent(&big),
            E::summary("the summary"),
        ]
    );
    assert_eq!(simplify(&h.current), vec![E::summary("the summary"), E::agent(&big)]);
}

#[test]
fn carries_prior_summary_forward_into_next_summarize_call() {
    let big = "x".repeat(800);
    let mut events = vec![summary("first summary")];
    for _ in 0..4 {
        events.push(user(&big));
        events.push(agent(&big));
    }
    let mut h = history(events);
    let plan = plan_compaction(&h.current, &tight()).unwrap();
    assert_eq!(plan.prior_summary.as_deref(), Some("first summary"));
    assert!(plan.transcript.iter().all(|e| e.kind() != EventKind::Summary));
    assert_eq!(plan.transcript.len(), 7);

    assert!(maybe_compact(&mut h, &tight(), "second summary"));
    assert_eq!(simplify(&h.current).first(), Some(&E::summary("second summary")));
}

#[test]
fn second_call_in_a_row_is_a_no_op() {
    let big = "x".repeat(800);
    let mut events = vec![];
    for _ in 0..4 {
        events.push(user(&big));
        events.push(agent(&big));
    }
    let mut h = history(events);
    assert!(maybe_compact(&mut h, &tight(), "summary"));
    assert!(!maybe_compact(&mut h, &tight(), "summary"));
}

#[test]
fn does_not_lose_kept_tail() {
    let big = "x".repeat(800);
    let mut h = history(vec![
        user(&big),
        agent(&big),
        user(&big),
        agent("specifically this kept tail event"),
    ]);
    maybe_compact(&mut h, &tight(), "summary");
    let current = simplify(&h.current);
    assert!(
        current
            .iter()
            .any(|e| matches!(e, E::Agent(s) if s == "specifically this kept tail event")),
        "expected the kept tail to be preserved verbatim, got: {current:?}"
    );
}

#[test]
fn a_small_event_is_kept_with_the_one_before_it() {
    let big = "x".repeat(800);
    let mut h = history(vec![user(&big), agent(&big), user(&big), user(&big), agent("small")]);
    assert!(maybe_compact(&mut h, &tight(), "summary"));
    assert_eq!(
        simplify(&h.current),
        vec![E::summary("summary"), E::user(&big), E::agent("small")]
    );
}

#[test]
fn nothing_is_compacted_that_is_to_be_kept() {
    let big = "x".repeat(800);
    let events = vec![user(&big), agent(&big), user(&big), agent(&big)];
    let all = CompactionLimits { threshold_tokens: 700, keep_recent_tokens: 10_000 };
    assert!(plan_compaction(&events, &all).is_none());
    let just_all = CompactionLimits { threshold_tokens: 700, keep_recent_tokens: 832 };
    assert!(plan_compaction(&events, &just_all).is_none());
    let but_one = CompactionLimits { threshold_tokens: 832, keep_recent_tokens: 624 };
    assert_eq!(plan_compaction(&events, &but_one).unwrap().cut, 1);
    let too_few = CompactionLimits { threshold_tokens: 833, keep_recent_tokens: 624 };
    assert!(plan_compaction(&events, &too_few).is_none());
    assert!(plan_compaction(&vec![], &CompactionLimits { threshold_tokens: 0, keep_recent_tokens: 0 }).is_none());
}

#[test]
fn one_compaction_is_enough_where_the_threshold_has_room() {
    let big = "x".repeat(800);
    let mut h = history(vec![user(&big), agent(&big), user(&big), agent(&big)]);
    let limits = CompactionLimits { threshold_tokens: 620, keep_recent_tokens: 400 };
    assert!(maybe_compact(&mut h, &limits, "s"));
    assert!(!maybe_compact(&mut h, &limits, "s"));
    assert_eq!(h.current.len(), 3);
}

#[test]
fn tokens_are_a_quarter_of_the_bytes_and_eight() {
    assert_eq!(user("").estimated_tokens(), 8);
    assert_eq!(user("abcdefg").estimated_tokens(), 9);
    assert_eq!(summary("éééé").estimated_tokens(), 10);
}

#[test]
fn compacting_keeps_the_tail() {
    let out = compact(&vec![user("a"), agent("b"), user("c")], 2, summary("s"));
    assert_eq!(simplify(&out), vec![E::summary("s"), E::user("c")]);
}

/// Takes a message through a turn.
fn handle(
    engine: &mut TurnEngine,
    text: &str,
    replies: &mut Vec<&str>,
    summaries: &mut Vec<&str>,
    priors: &mut Vec<Vec<E>>,
) {
    let mut request = engine.begin(text.to_string());
    if let TurnRequest::Summarize(_) = request {
        request = engine.summarized(summaries.remove(0).to_string());
    }
    match request {
        TurnRequest::Run { prior, message } => {
            assert_eq!(message, text);
            priors.push(simplify(&prior));
        }
        TurnRequest::Summarize(_) => panic!("asked twice for a summary"),
    }
    engine.replied(replies.remove(0).to_string());
}

#[test]
fn two_turns_no_compaction_both_logs_match() {
    let mut engine = TurnEngine::new(history(vec![]), loose());
    let mut replies = vec!["hi", "still here"];
    let (mut summaries, mut priors) = (vec![], vec![]);
    handle(&mut engine, "hello", &mut replies, &mut summaries, &mut priors);
    handle(&mut engine, "how are you?", &mut replies, &mut summaries, &mut priors);
    let expected = vec![
        E::user("hello"),
        E::agent("hi"),
        E::user("how are you?"),
        E::agent("still here"),
    ];
    assert_eq!(simplify(&engine.history().audit), expected);
    assert_eq!(simplify(&engine.history().current), expected);
}

#[test]
fn compaction_diverges_logs_audit_keeps_everything_current_compacts() {
    let big = "x".repeat(800);
    let mut engine = TurnEngine::new(history(vec![]), tight());
    let mut replies = vec!["r1", "r2", "r3", "r4", "r5"];
    let mut summaries = vec!["compaction summary"];
    let mut priors = vec![];
    for _ in 0..5 {
        handle(&mut engine, &big, &mut replies, &mut summaries, &mut priors);
    }
    let audit = simplify(&engine.history().audit);
    let count = |f: fn(&E) -> bool| audit.iter().filter(|e| f(e)).count();
    assert_eq!(count(|e| matches!(e, E::User(_))), 5);
    assert_eq!(count(|e| matches!(e, E::Agent(_))), 5);
    assert!(count(|e| matches!(e, E::Summary(_))) >= 1);

    let current = simplify(&engine.history().current);
    assert!(current.iter().any(|e| matches!(e, E::Summary(_))));
    assert!(current.len() < audit.len());
}

#[test]
fn runtime_receives_summary_at_head_of_prior_after_compaction() {
    let big = "x".repeat(800);
    let mut engine = TurnEngine::new(history(vec![]), tight());
    let mut replies = vec!["r1", "r2", "r3", "r4", "r5"];
    let mut summaries = vec!["compacted"];
    let mut priors = vec![];
    for _ in 0..5 {
        handle(&mut engine, &big, &mut replies, &mut summaries, &mut priors);
    }
    assert!(priors.iter().any(|p| matches!(p.first(), Some(E::Summary(_)))));
}

#[test]
fn a_turn_that_is_given_up_leaves_the_message() {
    let mut engine = TurnEngine::new(history(vec![]), loose());
    engine.begin("hello".to_string());
    engine.abandon();
    assert_eq!(simplify(&engine.history().current), vec![E::user("hello")]);
}

#[test]
fn a_log_must_end_in_a_message_of_the_user() {
    let (message, prior) = split_trailing(&vec![agent("a"), user("b")]).unwrap();
    assert_eq!(message, "b");
    assert_eq!(simplify(&prior), vec![E::agent("a")]);
    for log in [vec![], vec![user("a"), agent("b")]] {
        assert_eq!(
            split_trailing(&log).unwrap_err().message(),
            "expected trailing UserMessage in current log after append; log malformed"
        );
    }
}

fn index_of(haystack: &str, needle: &str) -> usize {
    haystack
        .find(needle)
        .unwrap_or_else(|| panic!("expected {needle:?} in prompt:\n{haystack}"))
}

#[test]
fn run_prompt_no_history_has_just_the_owner_message_section() {
    let prompt = PiRuntime::build_prompt(&[], "hello");
    assert!(!prompt.contains("Recent DM conversation"));
    assert!(!prompt.contains("Earlier conversation"));
    assert!(prompt.contains("# Owner just sent"));
    assert!(prompt.contains("hello"));
}

#[test]
fn run_prompt_orders_history_then_new_message() {
    let history = vec![user("earlier user msg"), agent("earlier agent reply")];
    let prompt = PiRuntime::build_prompt(&history, "current msg");
    let history_pos = index_of(&prompt, "earlier user msg");
    let current_pos = index_of(&prompt, "current msg");
    assert!(history_pos < current_pos);
    assert!(prompt.contains("Recent DM conversation"));
}

#[test]
fn run_prompt_orders_summary_then_recent_then_new_message() {
    let history = vec![
        summary("earlier we discussed cats"),
        user("and dogs?"),
        agent("yes also dogs"),
    ];
    let prompt = PiRuntime::build_prompt(&history, "and turtles?");
    let summary_pos = index_of(&prompt, "earlier we discussed cats");
    let recent_pos = index_of(&prompt, "and dogs?");
    let new_pos = index_of(&prompt, "and turtles?");
    assert!(summary_pos < recent_pos);
    assert!(recent_pos < new_pos);
    assert!(prompt.contains("Earlier conversation"));
}

#[test]
fn summary_prompt_with_no_prior_omits_previous_summary_section() {
    let transcript = vec![user("a"), agent("b")];
    let prompt = PiRuntime::build_summary_prompt(None, &transcript);
    assert!(!prompt.contains("Previous summary"));
    assert!(prompt.contains("a"));
    assert!(prompt.contains("b"));
}

#[test]
fn summary_prompt_carries_prior_forward() {
    let transcript = vec![user("new user msg"), agent("new agent reply")];
    let prompt = PiRuntime::build_summary_prompt(Some("prior summary text"), &transcript);
    let prior_pos = index_of(&prompt, "prior summary text");
    let user_pos = index_of(&prompt, "new user msg");
    assert!(prior_pos < user_pos);
    assert!(prompt.contains("Previous summary"));
}

#[test]
fn the_prompt_is_exact() {
    let history = vec![summary(" s "), user(" u\n"), summary("inner"), agent("a")];
    assert_eq!(
        PiRuntime::build_prompt(&history, " now "),
        "# Earlier conversation (compacted on 2025-10-15)\n\ns\n\n---\n\n# Recent DM conversation (oldest -> newest)\n\n[2025-11-01 09:00 UTC — owner]\nu\n\n[2025-11-01 09:00 UTC — you]\na\n\n---\n\n# Owner just sent\n\nnow\n\nRespond as Glass. Discord DM register — conversational, not a doc. AGENTS.md tells you who you are and where memory lives.\n"
    );
    let prompt = PiRuntime::build_summary_prompt(Some(" p "), &[user("u")]);
    assert!(prompt.ends_with("so write it for future-you, not for the owner.\n\n# Previous summary (from earlier compactions — fold this in)\n\np\n\n# Conversation chunk to add into the summary\n\n[2025-11-01 09:00 UTC — owner]\nu\n\n\nProduce the new combined summary now. Output only the summary body."));
}

#[test]
fn summaries_are_left_out_of_a_transcript() {
    let out = without_summaries(&[summary("a"), user("b"), summary("c"), agent("d")]);
    assert_eq!(simplify(&out), vec![E::user("b"), E::agent("d")]);
}

#[test]
fn the_agent_is_started_with_its_arguments() {
    let pi = PiRuntime::new("pi".to_string());
    assert_eq!(pi.args("hi"), vec!["-p", "hi"]);
    let pi = pi
        .with_model(Some("m".to_string()))
        .with_extra_args(vec!["-x".to_string(), "y".to_string()]);
    assert_eq!(pi.command, "pi");
    assert_eq!(pi.args("hi"), vec!["--model", "m", "-x", "y", "-p", "hi"]);
    assert_eq!(pi.spawn_failure(), "failed to spawn `pi` — is Pi installed and on PATH?");
    assert_eq!(pi_timeout_failure().message(), "pi timed out after 1800s");
}

#[test]
fn the_reply_of_the_agent_is_trimmed() {
    assert_eq!(reply_of(true, "0", " hi\n", "noise").unwrap(), "hi");
    assert_eq!(
        reply_of(true, "0", " \n", "").unwrap_err().message(),
        "pi returned an empty response"
    );
    assert_eq!(
        reply_of(false, "exit status: 2", "hi", " bad\n").unwrap_err().message(),
        "pi exited exit status: 2: bad"
    );
}

#[test]
fn new_events_are_dated_in_utc() {
    let e = Event::user("x".to_string());
    assert_eq!(e.kind(), EventKind::User);
    assert_eq!(e.text(), "x");
    assert_eq!(e.timestamp().offset, 0);
    assert!(e.timestamp().secs > 1_700_000_000);
    assert_eq!(Event::agent("y".to_string()).kind(), EventKind::Agent);
    assert_eq!(Event::summary("z".to_string()).kind(), EventKind::Summary);
}
