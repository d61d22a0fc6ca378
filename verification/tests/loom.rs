use glass::loom::{
    exit_outcome, observe_stop_event, sanitize_one_line, stream_step, timeout_failure,
    truncate_chars, LoomCli, MockLoomRunner, Renderer, StreamEvent, ARG_MAX_CHARS,
};

fn render(stdout: &str) -> Vec<String> {
    let mut r = Renderer::new();
    for line in stdout.lines() {
        r.handle_line(line);
    }
    r.finish();
    r.take_pending()
}

fn chunk(text: &str) -> String {
    format!(
        r#"{{"sessionUpdate":"agent_message_chunk","content":{{"type":"text","text":"{text}"}}}}"#
    )
}

#[test]
fn text_only_one_message() {
    let stdout = [
        r#"{"sessionUpdate":"agent_message_chunk","content":{"type":"text","text":"Hello "}}"#,
        "\n",
        r#"{"sessionUpdate":"agent_message_chunk","content":{"type":"text","text":"world."}}"#,
        "\n",
        r#"{"sessionUpdate":"stop","stopReason":"end_turn"}"#,
        "\n",
    ]
    .concat();
    assert_eq!(render(&stdout), vec!["Hello world."]);
}

#[test]
fn text_then_tools_then_text_interleaves() {
    let stdout = [
        r#"{"sessionUpdate":"agent_message_chunk","content":{"type":"text","text":"Sure, "}}"#,
        "\n",
        r#"{"sessionUpdate":"agent_message_chunk","content":{"type":"text","text":"looking now."}}"#,
        "\n",
        r#"{"sessionUpdate":"tool_call","toolCallId":"a","title":"bash","rawInput":{"command":"ls -la"}}"#,
        "\n",
        r#"{"sessionUpdate":"tool_call","toolCallId":"b","title":"read_file","rawInput":{"path":"_glass/soul.md"}}"#,
        "\n",
        r#"{"sessionUpdate":"agent_message_chunk","content":{"type":"text","text":"Found it."}}"#,
        "\n",
    ]
    .concat();
    assert_eq!(
        render(&stdout),
        vec![
            "Sure, looking now.".to_string(),
            "-# bash(ls -la)\n-# read_file(_glass/soul.md)".to_string(),
            "Found it.".to_string(),
        ]
    );
}

#[test]
fn consecutive_tools_with_no_text_coalesce_into_one_message() {
    let stdout = [
        r#"{"sessionUpdate":"tool_call","toolCallId":"a","title":"bash","rawInput":{"command":"ls"}}"#,
        "\n",
        r#"{"sessionUpdate":"tool_call","toolCallId":"b","title":"bash","rawInput":{"command":"pwd"}}"#,
        "\n",
        r#"{"sessionUpdate":"tool_call","toolCallId":"c","title":"write_file","rawInput":{"path":"a.md","content":"hi"}}"#,
        "\n",
    ]
    .concat();
    assert_eq!(
        render(&stdout),
        vec!["-# bash(ls)\n-# bash(pwd)\n-# write_file(path=a.md, content=hi)"]
    );
}

#[test]
fn tool_call_with_no_raw_input_renders_empty_parens() {
    let stdout = r#"{"sessionUpdate":"tool_call","toolCallId":"a","title":"bash"}"#;
    assert_eq!(render(stdout), vec!["-# bash()"]);
}

#[test]
fn tool_args_truncate_long_values_and_strip_control_chars() {
    let long = "x".repeat(120);
    let stdout = format!(
        r#"{{"sessionUpdate":"tool_call","toolCallId":"a","title":"bash","rawInput":{{"command":"echo {long}\nrun"}}}}"#
    );
    let out = render(&stdout);
    assert_eq!(out.len(), 1);
    let line = &out[0];
    assert!(
        !line.contains('\n'),
        "line should not contain a newline: {line:?}"
    );
    assert!(
        line.ends_with("...)"),
        "expected truncation suffix in {line:?}"
    );
    let inside = line.trim_start_matches("-# bash(").trim_end_matches(')');
    assert_eq!(inside.chars().count(), ARG_MAX_CHARS);
}

#[test]
fn tool_args_non_string_values_stringify() {
    let stdout = r#"{"sessionUpdate":"tool_call","toolCallId":"a","title":"find","rawInput":{"limit":42,"recursive":true}}"#;
    let out = render(stdout);
    assert_eq!(out.len(), 1);
    assert!(
        out[0] == "-# find(limit=42, recursive=true)"
            || out[0] == "-# find(recursive=true, limit=42)",
        "unexpected render: {:?}",
        out[0]
    );
}

#[test]
fn thought_chunks_dedupe_to_one_thinking_line() {
    let stdout = [
        r#"{"sessionUpdate":"agent_thought_chunk","content":{"type":"text","text":"a"}}"#,
        "\n",
        r#"{"sessionUpdate":"agent_thought_chunk","content":{"type":"text","text":"b"}}"#,
        "\n",
        r#"{"sessionUpdate":"agent_message_chunk","content":{"type":"text","text":"ok"}}"#,
        "\n",
    ]
    .concat();
    assert_eq!(
        render(&stdout),
        vec!["-# Thinking".to_string(), "ok".to_string()]
    );
}

#[test]
fn malformed_and_empty_lines_are_skipped() {
    let stdout = "\n\nnot json\n{\"sessionUpdate\":\"agent_message_chunk\",\
                  \"content\":{\"type\":\"text\",\"text\":\"hi\"}}\n";
    assert_eq!(render(stdout), vec!["hi"]);
}

#[test]
fn empty_stream_produces_no_messages() {
    assert_eq!(render(""), Vec::<String>::new());
}

#[test]
fn nested_arguments_are_shown_as_json() {
    let stdout = r#"{"sessionUpdate":"tool_call","title":" edit\tfile ","rawInput":{"a":{"z":[1,null,"q"],"b":1.5},"k\n2":" v "}}"#;
    assert_eq!(
        render(stdout),
        vec!["-# edit file(a={\"z\":[1,null,\"q\"],\"b\":1.5}, k 2= v )"]
    );
    let stdout = r#"{"sessionUpdate":"tool_call","rawInput":[1,2]}"#;
    assert_eq!(render(stdout), vec!["-# tool()"]);
}

#[test]
fn a_long_argument_list_is_cut_as_a_whole() {
    let long = "y".repeat(80);
    let stdout = format!(
        r#"{{"sessionUpdate":"tool_call","title":"t","rawInput":{{"a":"{long}","b":"{long}","c":"{long}"}}}}"#
    );
    let out = render(&stdout);
    let inside = out[0].trim_start_matches("-# t(").trim_end_matches(')');
    assert_eq!(inside.chars().count(), 140);
    assert!(inside.starts_with("a=yyy"));
    assert!(inside.ends_with("..."));
}

#[test]
fn blank_text_is_not_sent() {
    let stdout = [chunk("  "), r#"{"sessionUpdate":"agent_thought_chunk"}"#.to_string()].join("\n");
    assert_eq!(render(&stdout), vec!["-# Thinking"]);
}

#[test]
fn a_window_that_elapses_sends_the_calls() {
    let mut r = Renderer::new();
    let call = r#"{"sessionUpdate":"tool_call","title":"a"}"#.to_string();
    assert!(stream_step(&mut r, StreamEvent::Line(call)).is_empty());
    assert!(r.has_pending_tools());
    assert_eq!(stream_step(&mut r, StreamEvent::WindowElapsed), vec!["-# a()"]);
    assert!(!r.has_pending_tools());
    assert!(stream_step(&mut r, StreamEvent::Line(chunk("x"))).is_empty());
    assert_eq!(stream_step(&mut r, StreamEvent::Closed), vec!["x"]);
    assert!(stream_step(&mut r, StreamEvent::Closed).is_empty());
}

#[test]
fn a_stop_is_noticed() {
    let n = observe_stop_event(r#"{"sessionUpdate":"stop","stopReason":"end_turn"}"#).unwrap();
    assert_eq!((n.reason.as_str(), n.clean), ("end_turn", true));
    let n = observe_stop_event(r#" {"sessionUpdate":"stop","stopReason":"refusal"} "#).unwrap();
    assert_eq!((n.reason.as_str(), n.clean), ("refusal", false));
    let n = observe_stop_event(r#"{"sessionUpdate":"stop"}"#).unwrap();
    assert_eq!((n.reason.as_str(), n.clean), ("(unknown)", false));
    assert!(observe_stop_event(r#"{"sessionUpdate":"plan"}"#).is_none());
    assert!(observe_stop_event("stop").is_none());
}

#[test]
fn cut_text_has_the_length_of_the_limit() {
    assert_eq!(truncate_chars("héllo", 5), "héllo");
    assert_eq!(truncate_chars("héllo!", 5), "hé...");
    assert_eq!(truncate_chars("hello", 2), "..");
    assert_eq!(truncate_chars("hello", 0), "");
    assert_eq!(sanitize_one_line("a\u{7f}b\u{9f}c\u{a0}\r"), "a b c\u{a0} ");
}

#[test]
fn a_run_is_told_what_to_do() {
    let cli = LoomCli::new("loom".to_string()).with_env("A".to_string(), "1".to_string());
    assert_eq!(cli.command, "loom");
    assert_eq!(cli.extra_env, vec![("A".to_string(), "1".to_string())]);
    assert_eq!(cli.args("m.toml", "hi", false), vec!["prompt", "m.toml", "hi", "--format", "jsonl"]);
    assert_eq!(
        cli.args("m.toml", "hi", true),
        vec!["prompt", "m.toml", "hi", "--format", "jsonl", "--emit-preamble"]
    );
    assert_eq!(
        cli.spawn_failure(),
        "failed to spawn `loom` — is Loom installed and on PATH? (try ./scripts/run.sh, which puts node_modules/.bin first)"
    );
    assert!(exit_outcome(true, "exit status: 0", "noise").is_ok());
    assert_eq!(
        exit_outcome(false, "exit status: 1", " bad \n").unwrap_err().message(),
        "loom exited exit status: 1: bad"
    );
    assert_eq!(timeout_failure().message(), "loom timed out after 1800s");
}

#[test]
fn the_stand_in_answers_in_turn() {
    let mut runner = MockLoomRunner::new(&[&["a", "b"], &[]]);
    assert_eq!(runner.run("m", "one"), vec!["a", "b"]);
    assert_eq!(runner.run("m", "two"), Vec::<String>::new());
    assert_eq!(
        runner.calls(),
        &vec![
            ("m".to_string(), "one".to_string()),
            ("m".to_string(), "two".to_string()),
        ]
    );
}
