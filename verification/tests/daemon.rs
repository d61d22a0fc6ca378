use chrono::{Local, TimeZone};
use glass::bus::{AuthorId, BusAction, ConversationId};
use glass::config::{Config, Environment};
use glass::cron::{CronEntry, CronStore};
use glass::discord::{accept_live, missed_dms, ChannelMessage};
use glass::dm_log::{Direction, DmLog};
use glass::failure::Failure;
use glass::invocation_log::{
    log_line, short_id, InvocationContext, InvocationLog, InvocationStatus, Trigger,
};
use glass::jsonl::{data_lines, frame_lines};
use glass::memory::{block_stem, is_block_name, render_agents_md, Block};
use glass::models::{ModelEntry, ModelsConfig};
use glass::orchestrator_socket::{
    dispatch, queued, request_id, CoalesceAction, CoalesceEvent, Coalescer, Dispatch, Request,
    Response,
};
use glass::paths::join_path;
use glass::poller::{Poller, PollerEvent};
use glass::state::{OrchestratorState, StateStore};
use glass::time::Moment;

fn local_at(y: i32, mo: u32, d: u32, h: u32, m: u32) -> Moment {
    let t = Local.with_ymd_and_hms(y, mo, d, h, m, 0).unwrap();
    Moment { secs: t.timestamp(), nanos: 0, offset: t.offset().local_minus_utc() }
}

fn environment() -> Environment {
    Environment {
        discord_token: Ok("token".to_string()),
        owner_id: Ok("42".to_string()),
        loom_command: None,
        manifest: None,
        cron_manifest: None,
        system_data: None,
        data_dir: Some("/data".to_string()),
    }
}

#[test]
fn settings_have_defaults() {
    let c = Config::from_env(environment()).unwrap();
    assert_eq!(c.discord_token, "token");
    assert_eq!(c.owner_id, AuthorId(42));
    assert_eq!(c.loom_command, "loom");
    assert_eq!(c.manifest, "./manifests/glass.toml");
    assert_eq!(c.cron_manifest, "./manifests/cron.toml");
    assert_eq!(c.system_data, "/data/Glass");
    assert_eq!(c.dm_log_path(), "/data/Glass/dm-log.jsonl");
    assert_eq!(c.socket_path(), "/data/Glass/orchestrator.sock");
    assert_eq!(c.cron_path(), "/data/Glass/cron.jsonl");
    assert_eq!(c.invocations_dir(), "/data/Glass/invocations");
    let runner = c.runner();
    assert_eq!(runner.command, "loom");
    assert_eq!(
        runner.extra_env,
        vec![
            ("GLASS_ORCHESTRATOR_SOCK".to_string(), "/data/Glass/orchestrator.sock".to_string()),
            ("GLASS_DM_LOG".to_string(), "/data/Glass/dm-log.jsonl".to_string()),
        ]
    );
    assert_eq!(
        c.manifest_failure().message(),
        "manifest not found at ./manifests/glass.toml (set MANIFEST or run from the repo root)"
    );
}

#[test]
fn settings_that_are_set_are_taken() {
    let c = Config::from_env(Environment {
        loom_command: Some("l".to_string()),
        manifest: Some("m".to_string()),
        cron_manifest: Some("c".to_string()),
        system_data: Some("s/".to_string()),
        data_dir: None,
        ..environment()
    })
    .unwrap();
    assert_eq!((c.loom_command.as_str(), c.manifest.as_str()), ("l", "m"));
    assert_eq!(c.cron_manifest, "c");
    assert_eq!(c.cron_path(), "s/cron.jsonl");
}

#[test]
fn settings_that_are_missing_or_wrong_are_named() {
    let report = |env: Environment| Config::from_env(env).unwrap_err().report();
    let unset = || Err("environment variable not found".to_string());
    assert_eq!(
        report(Environment { discord_token: unset(), owner_id: unset(), ..environment() }),
        "DISCORD_BOT_TOKEN not set: environment variable not found"
    );
    assert_eq!(
        report(Environment { owner_id: unset(), ..environment() }),
        "OPERATOR_DISCORD_ID not set: environment variable not found"
    );
    for (bad, cause) in [
        ("", "cannot parse integer from empty string"),
        ("+", "invalid digit found in string"),
        ("-1", "invalid digit found in string"),
        ("4 2", "invalid digit found in string"),
        ("18446744073709551616", "number too large to fit in target type"),
    ] {
        assert_eq!(
            report(Environment { owner_id: Ok(bad.to_string()), ..environment() }),
            format!("OPERATOR_DISCORD_ID must be a numeric Discord user ID: {cause}")
        );
    }
    assert_eq!(
        report(Environment { data_dir: None, ..environment() }),
        "could not resolve platform data dir for default GLASS_SYSTEM_DATA"
    );
    for (text, n) in [("+18446744073709551615", u64::MAX), ("007", 7)] {
        let c = Config::from_env(Environment { owner_id: Ok(text.to_string()), ..environment() });
        assert_eq!(c.unwrap().owner_id, AuthorId(n));
    }
}

#[test]
fn paths_are_joined_with_one_slash() {
    assert_eq!(join_path("a", "b"), "a/b");
    assert_eq!(join_path("a/", "b"), "a/b");
    assert_eq!(join_path("", "b"), "b");
}

#[test]
fn append_writes_one_jsonl_line_per_entry() {
    let log = DmLog::new("dm-log.jsonl".to_string());
    let now = Moment { secs: 1_800_000_000, nanos: 0, offset: -28800 };
    let first = log.entry(Direction::In, "hello", &now);
    let second = log.entry(Direction::Out, "hi back", &now);
    assert_eq!(first.direction.label(), "in");
    assert_eq!(first.content, "hello");
    assert_eq!(second.direction.label(), "out");
    assert_eq!(second.content, "hi back");
    assert_eq!(first.at, "2027-01-15T00:00:00-08:00");
    assert_eq!(log.path(), "dm-log.jsonl");
    let file = frame_lines(&vec![first.content, second.content]);
    assert_eq!(data_lines(&file).len(), 2);
}

#[test]
fn records_come_back_from_their_lines() {
    let records = vec!["{\"a\":1}".to_string(), "{\"b\":2}".to_string()];
    let file = frame_lines(&records);
    assert_eq!(file, "{\"a\":1}\n{\"b\":2}\n");
    let lines = data_lines(&file);
    assert_eq!(lines.iter().map(|l| l.text.clone()).collect::<Vec<_>>(), records);
    assert_eq!(frame_lines(&vec![]), "");
}

#[test]
fn blank_lines_are_skipped_but_counted() {
    let lines = data_lines("\n a \r\n  \nb");
    assert_eq!(lines.len(), 2);
    assert_eq!((lines[0].number, lines[0].text.as_str()), (2, " a "));
    assert_eq!((lines[1].number, lines[1].text.as_str()), (4, "b"));
}

fn ctx_dm(prompt: &str) -> InvocationContext {
    InvocationContext {
        trigger: Trigger::Dm,
        manifest: "./manifests/glass.toml".to_string(),
        prompt: prompt.to_string(),
        cron_id: None,
        channel: Some(123),
    }
}

#[test]
fn round_trip_ok_turn_captures_start_lines_end() {
    let now = Moment { secs: 1_800_000_000, nanos: 0, offset: 3600 };
    let (log, start) = InvocationLog::open_as("/inv", ctx_dm("hi"), &now, "abcd2345");
    assert_eq!(log.path(), "/inv/2027-01-15_090000-abcd2345.jsonl");
    assert_eq!(start.started_at, "2027-01-15T09:00:00+01:00");
    assert_eq!(start.context.trigger.label(), "dm");
    assert_eq!(start.context.prompt, "hi");
    assert_eq!(start.context.channel, Some(123));
    assert_eq!(start.context.cron_id, None);

    for raw in [
        r#"{"preamble":{"systemPrompt":"…","events":[],"tools":[]}}"#,
        r#"{"sessionUpdate":"agent_message_chunk","content":{"type":"text","text":"hello"}}"#,
        r#"{"sessionUpdate":"stop","stopReason":"end_turn"}"#,
    ] {
        assert_eq!(log_line(raw).unwrap(), format!("{raw}\n"));
    }
    let end = log.complete(
        InvocationStatus::Succeeded,
        &Moment { secs: 1_800_000_002, nanos: 345_999_999, offset: 3600 },
    );
    assert_eq!(end.status, "ok");
    assert_eq!(end.error, None);
    assert_eq!(end.duration_ms, 2345);
    assert_eq!(end.ended_at, "2027-01-15T09:00:02.345999999+01:00");
}

#[test]
fn error_status_includes_message() {
    let now = local_at(2026, 5, 13, 14, 30);
    let context = InvocationContext {
        trigger: Trigger::Cron,
        manifest: "./manifests/cron.toml".to_string(),
        prompt: "wake up".to_string(),
        cron_id: Some("abc".to_string()),
        channel: None,
    };
    let (log, start) = InvocationLog::create("/inv", context, &now);
    assert_eq!(start.context.trigger.label(), "cron");
    assert_eq!(start.context.cron_id.as_deref(), Some("abc"));
    assert!(log.path().starts_with("/inv/2026-05-13_143000-"));
    assert!(log.path().ends_with(".jsonl"));
    let end = log.complete(InvocationStatus::Failed("model API blew up".to_string()), &now);
    assert_eq!(end.status, "error");
    assert_eq!(end.error.as_deref(), Some("model API blew up"));
    assert_eq!(end.duration_ms, 0);
}

#[test]
fn cancelled_status_writes_clean_footer() {
    let now = local_at(2026, 5, 13, 14, 30);
    let (log, _) = InvocationLog::create("/inv", ctx_dm("hi"), &now);
    let earlier = Moment { secs: now.secs - 5, ..now };
    let end = log.complete(InvocationStatus::Cancelled, &earlier);
    assert_eq!(end.status, "cancelled");
    assert_eq!(end.error, None);
    assert_eq!(end.duration_ms, 0);
}

#[test]
fn write_line_strips_trailing_newline() {
    assert_eq!(log_line("{\"a\":1}\n").as_deref(), Some("{\"a\":1}\n"));
    assert_eq!(log_line("{\"b\":2}").as_deref(), Some("{\"b\":2}\n"));
    assert_eq!(log_line("x\n\n").as_deref(), Some("x\n"));
    assert_eq!(log_line("x \r\n").as_deref(), Some("x \r\n"));
}

#[test]
fn empty_lines_are_silently_skipped() {
    assert_eq!(log_line(""), None);
    assert_eq!(log_line("   \n"), None);
    assert_eq!(log_line("{\"a\":1}").as_deref(), Some("{\"a\":1}\n"));
}

#[test]
fn record_ids_are_eight_symbols() {
    let id = short_id();
    assert_eq!(id.len(), 8);
    assert!(id.chars().all(|c| c.is_ascii_lowercase() || ('2'..='7').contains(&c)));
}

fn block(name: &str, body: &str) -> Block {
    Block {
        file_name: name.to_string(),
        stem: Some(block_stem(name)),
        body: body.to_string(),
    }
}

#[test]
fn renders_blocks_in_filename_sorted_order() {
    let out = render_agents_md(vec![
        block("z_focus.md", "# focus body"),
        block("a_identity.md", "# identity body"),
        block("m_style.md", "# style body"),
    ]);
    let i = out.find("identity body").unwrap();
    let s = out.find("style body").unwrap();
    let f = out.find("focus body").unwrap();
    assert!(i < s && s < f);
    assert!(out.contains("\n---\n## block: a_identity\n\n# identity body\n"));
}

#[test]
fn references_correct_history_filenames() {
    let out = render_agents_md(vec![block("identity.md", "# Identity\nGlass.")]);
    assert!(out.contains("events.jsonl"));
    assert!(out.contains("current.jsonl"));
    assert!(!out.contains("dm.jsonl"));
}

#[test]
fn second_render_overwrites_first() {
    let out = render_agents_md(vec![block("identity.md", "second version")]);
    assert!(out.contains("second version"));
    assert!(!out.contains("first version"));
}

#[test]
fn notes_are_markdown_files() {
    assert!(is_block_name("a.md"));
    assert!(is_block_name("a.b.md"));
    assert!(!is_block_name(".md"));
    assert!(!is_block_name("a.mdx"));
    assert!(!is_block_name("md"));
    assert_eq!(block_stem("a.b.md"), "a.b");
    let odd = Block { file_name: "x.md".to_string(), stem: None, body: " b ".to_string() };
    assert!(render_agents_md(vec![odd]).contains("## block: block\n\nb\n"));
}

fn model(name: &str) -> (String, ModelEntry) {
    let entry = ModelEntry {
        pi_arg: Some(format!("{name}-arg")),
        context_window_tokens: 200000,
        compaction_threshold_bits: 0.7f32.to_bits(),
        keep_recent_tokens: 30000,
        extra_pi_args: vec![],
    };
    (name.to_string(), entry)
}

#[test]
fn the_selected_model_is_resolved() {
    let cfg = ModelsConfig {
        selected: "sonnet".to_string(),
        models: vec![model("opus"), model("sonnet")],
    };
    let resolved = cfg.resolve().unwrap();
    assert_eq!(resolved.name, "sonnet");
    assert_eq!(resolved.pi_arg.as_deref(), Some("sonnet-arg"));
    assert_eq!(resolved.context_window_tokens, 200000);
    assert_eq!(f32::from_bits(resolved.compaction_threshold_bits), 0.7);
    assert_eq!(resolved.keep_recent_tokens, 30000);
}

#[test]
fn missing_selected_errors_helpfully() {
    let cfg = ModelsConfig { selected: "haiku".to_string(), models: vec![model("sonnet")] };
    let msg = cfg.resolve().unwrap_err().report();
    assert!(msg.contains("haiku"), "{msg}");
    assert!(msg.contains("sonnet"), "{msg}");
    let cfg = ModelsConfig {
        selected: "haiku".to_string(),
        models: vec![model("sonnet"), model("opus"), model("so")],
    };
    assert_eq!(
        cfg.resolve().unwrap_err().report(),
        "selected model `haiku` not found in models config; available: [\"opus\", \"so\", \"sonnet\"]"
    );
}

#[test]
fn extra_pi_args_default_to_empty() {
    let cfg = ModelsConfig { selected: "x".to_string(), models: vec![model("x")] };
    assert_eq!(cfg.resolve().unwrap().extra_pi_args, Vec::<String>::new());
}

#[test]
fn load_on_missing_file_returns_default() {
    assert_eq!(OrchestratorState::loaded(None), OrchestratorState::default());
    assert_eq!(OrchestratorState::default().last_dm_id, None);
}

#[test]
fn save_and_load_round_trip() {
    let s = OrchestratorState { last_dm_id: Some(123456789) };
    assert_eq!(OrchestratorState::loaded(Some(s)), s);
    assert_eq!(StateStore::new("state.json".to_string()).path(), "state.json");
}

fn message(author: u64, content: &str, secs: i64) -> ChannelMessage {
    ChannelMessage {
        author: AuthorId(author),
        author_is_bot: false,
        in_guild: false,
        channel: ConversationId(9),
        content: content.to_string(),
        timestamp: Moment { secs, nanos: 0, offset: 0 },
    }
}

#[test]
fn messages_are_dated_in_local_time() {
    let utc = Moment { secs: 1_800_000_000, nanos: 5, offset: 18000 };
    let dm = accept_live(&ChannelMessage { timestamp: utc, ..message(7, "hi", 0) }).unwrap();
    let local = Local.timestamp_opt(1_800_000_000, 5).unwrap();
    assert_eq!(dm.timestamp.offset, local.offset().local_minus_utc());
    assert_eq!((dm.timestamp.secs, dm.timestamp.nanos), (1_800_000_000, 5));
}

#[test]
fn live_messages_of_people_are_taken_in() {
    let dm = accept_live(&message(7, "hi", 1000)).unwrap();
    assert_eq!((dm.author, dm.channel), (AuthorId(7), ConversationId(9)));
    assert_eq!(dm.content, "hi");
    assert_eq!(dm.timestamp.secs, 1000);
    assert!(accept_live(&ChannelMessage { author_is_bot: true, ..message(7, "hi", 1000) }).is_none());
    assert!(accept_live(&ChannelMessage { in_guild: true, ..message(7, "hi", 1000) }).is_none());
}

#[test]
fn missed_messages_are_replayed_oldest_first() {
    let newest_first = vec![
        message(7, "third", 3000),
        message(8, "stranger", 2500),
        ChannelMessage { author_is_bot: true, ..message(7, "bot", 2400) },
        ChannelMessage { in_guild: true, ..message(7, "guild", 2300) },
        message(7, "  ", 2200),
        message(7, "second", 2000),
        message(7, "first", 1000),
    ];
    let out = missed_dms(&newest_first, AuthorId(7));
    let texts: Vec<&str> = out.iter().map(|d| d.content.as_str()).collect();
    assert_eq!(texts, vec!["first", "second", "third"]);
}

#[test]
fn the_id_of_a_request_is_echoed() {
    assert_eq!(request_id(r#"{"id":"a1","kind":"send_dm"}"#).unwrap(), "a1");
    assert_eq!(request_id(r#"{"id":7}"#).unwrap(), "(missing id)");
    assert_eq!(request_id("[]").unwrap(), "(missing id)");
    let err = request_id("{").unwrap_err();
    assert_eq!(err.message(), "request: invalid JSON");
    assert_eq!(
        err.report(),
        "request: invalid JSON: EOF while parsing an object at line 1 column 1"
    );
    let r = Response::malformed("a1".to_string(), "missing field `content`");
    assert_eq!((r.id.as_str(), r.ok), ("a1", false));
    assert_eq!(r.error.as_deref(), Some("request: missing field `content`"));
}

#[test]
fn requests_are_met_or_refused() {
    let now = local_at(2026, 5, 13, 14, 0);
    let mut store = CronStore::new("cron.jsonl".to_string());
    let send = |content: &str| Request::SendDm { content: content.to_string() };
    assert!(matches!(
        dispatch(send(" hi "), &mut store, "1".to_string(), &now),
        Dispatch::Queue(s) if s == "hi"
    ));
    match dispatch(send(" \n"), &mut store, "2".to_string(), &now) {
        Dispatch::Answer(r) => {
            assert_eq!(r.id, "2");
            assert_eq!(r.error.as_deref(), Some("send_dm: empty content"));
        }
        Dispatch::Queue(_) => panic!("queued"),
    }
    let r = queued("3".to_string(), true);
    assert_eq!((r.ok, r.error, r.entry_id), (true, None, None));
    let r = queued("3".to_string(), false);
    assert_eq!(r.error.as_deref(), Some("send_dm: dm coalescer is gone"));

    let schedule = |when: Option<&str>| Request::Schedule {
        what: "x".to_string(),
        when: when.map(String::from),
        cron: None,
    };
    match dispatch(schedule(Some("15:00")), &mut store, "4".to_string(), &now) {
        Dispatch::Answer(r) => {
            assert!(r.ok);
            assert_eq!(r.entry_id.as_deref(), Some(store.list()[0].id.as_str()));
        }
        Dispatch::Queue(_) => panic!("queued"),
    }
    match dispatch(schedule(None), &mut store, "5".to_string(), &now) {
        Dispatch::Answer(r) => assert_eq!(
            r.error.as_deref(),
            Some("schedule: must specify either 'when' or 'cron'")
        ),
        Dispatch::Queue(_) => panic!("queued"),
    }
    assert_eq!(store.list().len(), 1);
}

fn said(s: &str) -> CoalesceEvent {
    CoalesceEvent::Message(s.to_string())
}

#[test]
fn dm_coalescer_merges_burst_into_one_reply() {
    let mut c = Coalescer::new(50, 500);
    for content in ["first", "second", "third"] {
        assert!(matches!(c.step(said(content), 0), CoalesceAction::Wait(50)));
    }
    assert!(
        matches!(c.step(CoalesceEvent::Quiet, 50), CoalesceAction::Post(s) if s == "first\n\nsecond\n\nthird")
    );
    assert!(matches!(c.step(CoalesceEvent::Gone, 0), CoalesceAction::Exit));
}

#[test]
fn dm_coalescer_separate_messages_after_quiet_window() {
    let mut c = Coalescer::new(30, 500);
    assert!(matches!(c.step(said("first"), 0), CoalesceAction::Wait(30)));
    assert!(matches!(c.step(CoalesceEvent::Quiet, 30), CoalesceAction::Post(s) if s == "first"));
    assert!(c.is_idle());
    assert!(matches!(c.step(said("second"), 0), CoalesceAction::Wait(30)));
    assert!(matches!(c.step(CoalesceEvent::Quiet, 30), CoalesceAction::Post(s) if s == "second"));
}

#[test]
fn a_steady_stream_is_sent_when_the_whole_time_is_over() {
    let mut c = Coalescer::new(2000, 10000);
    assert!(matches!(c.step(said("a"), 0), CoalesceAction::Wait(2000)));
    assert!(matches!(c.step(said("b"), 9500), CoalesceAction::Wait(500)));
    assert!(matches!(c.step(said("c"), 10000), CoalesceAction::Post(s) if s == "a\n\nb\n\nc"));
    assert!(c.is_idle());
    assert!(matches!(c.step(said("d"), 0), CoalesceAction::Wait(2000)));
    assert!(matches!(c.step(CoalesceEvent::Gone, 1), CoalesceAction::Post(s) if s == "d"));
}

#[test]
fn due_entries_are_run_one_after_the_other() {
    let entry = |id: &str| CronEntry {
        id: id.to_string(),
        what: format!("do-{id}"),
        fire_at: None,
        cron: None,
        last_fired_at: None,
    };
    let mut p = Poller::new("cron.toml".to_string());
    assert!(p.step(PollerEvent::Due(vec![])).is_empty());
    assert!(p.step(PollerEvent::PollFailed).is_empty());
    assert!(!p.is_running());
    let acts = p.step(PollerEvent::Due(vec![entry("a"), entry("b")]));
    assert!(matches!(&acts[0], BusAction::OpenRecord(c) if c.cron_id.as_deref() == Some("a")));
    assert!(matches!(&acts[1], BusAction::StartRun(s) if s == "do-a"));
    assert_eq!(acts.len(), 2);
    let acts = p.step(PollerEvent::RunEnded(Err(Failure::new("bad".to_string()))));
    assert!(matches!(&acts[0], BusAction::CloseRecord(InvocationStatus::Failed(m)) if m == "bad"));
    assert!(matches!(&acts[1], BusAction::OpenRecord(c) if c.prompt == "do-b"));
    assert!(matches!(&acts[2], BusAction::StartRun(s) if s == "do-b"));
    let acts = p.step(PollerEvent::RunEnded(Ok(())));
    assert!(matches!(&acts[0], BusAction::CloseRecord(InvocationStatus::Succeeded)));
    assert_eq!(acts.len(), 1);
    assert!(!p.is_running());
}
