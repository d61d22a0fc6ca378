use glass::ids::encode_id;
use glass::json::{parse_json, Json, Node};
use glass::mcp::{answer_line, McpBody};
use glass::spike::{
    allowed_tools_verdict, blocking_verdict, check_for_builtin_tool_calls, collect_records,
    disallowed_tools_verdict, passthrough_verdict, prompt_length_verdict, records_verdict,
    search_for_tool_use, AgentResponse, PromptVerdict, RecordsVerdict,
};
use glass::spike_setup::{
    all_passed, allowed_tools_request, build_realistic_glass_prompt, builtin_tools,
    disallowed_tools_request, passthrough_request, records_request, repeat, select_tests,
    Selection,
};
use glass::text::{
    contains, count_words, decimal, ends_with, join, lines, sorted, starts_with, trim,
};

#[test]
fn json_keeps_its_order_and_its_text() {
    let v = parse_json(r#" { "b" : 1 , "a" : [ true , null , "x\n" ] } "#).unwrap();
    assert_eq!(v.text, r#"{"b":1,"a":[true,null,"x\n"]}"#);
    assert_eq!(v.get("b").unwrap().text, "1");
    let list = v.get_array("a").unwrap();
    assert!(matches!(list[0].node, Node::Bool(true)));
    assert!(matches!(list[1].node, Node::Null));
    assert_eq!(list[2].as_str(), Some("x\n"));
    assert!(v.get("c").is_none());
    assert!(v.get_str("b").is_none());
    assert!(parse_json("{").is_err());
    assert_eq!(parse_json("").unwrap_err(), "EOF while parsing a value at line 1 column 0");
}

fn answer(line: &str) -> (String, McpBody) {
    let a = answer_line(line).unwrap();
    (a.id, a.body)
}

#[test]
fn the_tool_server_answers_requests() {
    let (id, body) = answer(r#"{"id":1,"method":"initialize"}"#);
    assert_eq!(id, "1");
    assert!(matches!(body, McpBody::Initialize));
    assert!(matches!(answer(r#"{"id":"x","method":"tools/list"}"#).1, McpBody::ToolList));
    assert_eq!(answer(r#"{"id":"x","method":"tools/list"}"#).0, "\"x\"");
    let call = |params: &str| answer(&format!(r#"{{"id":1,"method":"tools/call","params":{params}}}"#)).1;
    assert!(
        matches!(call(r#"{"name":"echo","arguments":{"message":"hi"}}"#), McpBody::Text(s) if s == "ECHO: hi")
    );
    assert!(matches!(call(r#"{"name":"echo"}"#), McpBody::Text(s) if s == "ECHO: <no message>"));
    assert!(
        matches!(call(r#"{"name":"greet","arguments":{"name":"Glass"}}"#), McpBody::Text(s) if s == "Hello, Glass! Greetings from echo-mcp.")
    );
    assert!(
        matches!(call(r#"{"name":"greet","arguments":{}}"#), McpBody::Text(s) if s == "Hello, stranger! Greetings from echo-mcp.")
    );
    assert!(
        matches!(call(r#"{"name":"rm"}"#), McpBody::Error { code: -32602, message } if message == "Unknown tool: rm")
    );
    assert!(
        matches!(call("[]"), McpBody::Error { code: -32602, message } if message == "Unknown tool: unknown")
    );
    assert!(
        matches!(answer(r#"{"id":1,"method":"ping"}"#).1, McpBody::Error { code: -32601, message } if message == "Method not found: ping")
    );
}

#[test]
fn notifications_and_noise_are_not_answered() {
    assert!(answer_line("").is_none());
    assert!(answer_line("  ").is_none());
    assert!(answer_line("nonsense").is_none());
    assert!(answer_line(r#"{"method":"notifications/initialized"}"#).is_none());
    assert!(answer_line(r#"{"id":null,"method":"initialize"}"#).is_none());
}

fn session(text: &str) -> Json {
    parse_json(text).unwrap()
}

fn assistant(blocks: &str) -> String {
    format!(r#"{{"type":"assistant","message":{{"content":[{blocks}]}}}}"#)
}

#[test]
fn built_in_tools_are_listed_once_in_order() {
    let use_of = |name: &str| format!(r#"{{"type":"tool_use","name":"{name}"}}"#);
    let raw = session(&format!(
        r#"[{},{{"content":[{},{}]}},{{"tools":["Glob"]}}]"#,
        assistant(&[use_of("Read"), use_of("mcp__glass-echo__echo"), use_of("Bash")].join(",")),
        use_of("Read"),
        r#"{"type":"text","name":"Write"}"#,
    ));
    assert_eq!(check_for_builtin_tool_calls(Some(&raw)), vec!["Bash", "Read"]);
    assert_eq!(check_for_builtin_tool_calls(None), Vec::<String>::new());
    assert_eq!(check_for_builtin_tool_calls(Some(&session("{}"))), Vec::<String>::new());
}

#[test]
fn calls_are_found_where_a_session_has_them() {
    let raw = session(&format!(
        r#"[{},{{"type":"result","content":[{{"type":"tool_result","tool_use_id":"1"}}]}}]"#,
        assistant(r#"{"type":"text"},{"type":"tool_use","name":"echo","input":{"message":"a"}},{"type":"tool_use"}"#),
    ));
    let r = collect_records(&raw);
    assert_eq!(r.calls.len(), 2);
    assert_eq!((r.calls[0].name.as_str(), r.calls[0].input.as_str()), ("echo", r#"{"message":"a"}"#));
    assert_eq!((r.calls[1].name.as_str(), r.calls[1].input.as_str()), ("?", "{}"));
    assert_eq!(r.results, vec![r#"{"type":"tool_result","tool_use_id":"1"}"#]);
}

#[test]
fn calls_are_searched_for_everywhere_else() {
    let raw = session(
        r#"[{"x":{"type":"tool_use","name":"a","input":{"type":"tool_use","name":"b"}}},{"y":[{"type":"tool_result"}]}]"#,
    );
    let r = collect_records(&raw);
    let names: Vec<&str> = r.calls.iter().map(|c| c.name.as_str()).collect();
    assert_eq!(names, vec!["a", "b"]);
    assert_eq!(r.results, vec![r#"{"type":"tool_result"}"#]);
    let mut found = vec![];
    search_for_tool_use(&session("17"), &mut found);
    assert!(found.is_empty());
    assert!(collect_records(&session(r#"{"type":"tool_use"}"#)).calls.is_empty());
}

fn response(content: &str, raw: Option<&str>) -> Result<AgentResponse, String> {
    Ok(AgentResponse { content: content.to_string(), raw_json: raw.map(session) })
}

#[test]
fn the_record_of_calls_is_judged() {
    let both = format!(
        "[{}]",
        assistant(r#"{"type":"tool_use","name":"mcp__glass-echo__echo"},{"type":"tool_use","name":"greet"}"#)
    );
    let one = format!("[{}]", assistant(r#"{"type":"tool_use","name":"echo"}"#));
    let verdict = |r| records_verdict(&r);
    assert_eq!(verdict(response("", Some(&both))), RecordsVerdict::BothCalls);
    assert_eq!(verdict(response("", Some(&one))), RecordsVerdict::SomeCalls);
    assert_eq!(verdict(response("", Some("[]"))), RecordsVerdict::NoCalls);
    assert_eq!(verdict(response("", None)), RecordsVerdict::NoMessages);
    assert_eq!(verdict(Err("x".to_string())), RecordsVerdict::NoSession);
    assert!(RecordsVerdict::BothCalls.passes());
    assert!(RecordsVerdict::SomeCalls.passes());
    assert!(!RecordsVerdict::NoCalls.passes());
    assert!(!RecordsVerdict::NoMessages.passes());
    assert!(!RecordsVerdict::NoSession.passes());
}

#[test]
fn reaching_the_server_is_judged() {
    assert!(passthrough_verdict(&response("it said ECHO: spike-test-1", None)));
    assert!(passthrough_verdict(&response("spike-test-1", None)));
    assert!(passthrough_verdict(&response("", Some(r#"["echo"]"#))));
    assert!(!passthrough_verdict(&response("", Some("[]"))));
    assert!(!passthrough_verdict(&response("", None)));
    assert!(!passthrough_verdict(&Err("x".to_string())));
}

#[test]
fn keeping_tools_out_is_judged() {
    let read = format!("[{}]", assistant(r#"{"type":"tool_use","name":"Read"}"#));
    for leak in [response("", Some(&read)), response("[package]", None), response("name = glass-spike", None)] {
        assert!(allowed_tools_verdict(&leak));
        assert!(!disallowed_tools_verdict(&leak));
    }
    let tight = response("NO_READ_TOOL_AVAILABLE", Some("[]"));
    assert!(!allowed_tools_verdict(&tight));
    assert!(disallowed_tools_verdict(&tight));
    assert!(allowed_tools_verdict(&Err("x".to_string())));
    assert!(disallowed_tools_verdict(&Err("x".to_string())));
    assert!(blocking_verdict(true, true));
    assert!(blocking_verdict(false, true));
    assert!(!blocking_verdict(true, false));
}

#[test]
fn the_length_of_prompts_is_judged() {
    assert_eq!(prompt_length_verdict(false, true, true), PromptVerdict::Rejected);
    assert_eq!(prompt_length_verdict(true, true, false), PromptVerdict::Accepted);
    assert_eq!(prompt_length_verdict(true, false, true), PromptVerdict::ThroughBuilder);
    assert_eq!(prompt_length_verdict(true, false, false), PromptVerdict::Unchecked);
    assert!(!PromptVerdict::Rejected.passes());
    assert!(PromptVerdict::Unchecked.passes());
}

#[test]
fn the_realistic_prompt_is_long() {
    let p = build_realistic_glass_prompt();
    assert!(p.starts_with("# Identity\n\nYou are Glass, a personal AI agent that lives in a Discord server. "));
    assert!(p.contains("- **skill-29**: A skill that helps with task category 29. Use this when"));
    assert!(!p.contains("skill-30"));
    assert!(p.contains("- notes/topic-0.md\n- notes/topic-1.md\n"));
    assert!(p.ends_with("**User** (70m ago): Can you check on item 14 from the checklist? I think there might be an issue with the timing.\n\n**Glass**: I checked item 14. The timing looks correct — it's scheduled for 15 days from now, which aligns with the pre-op requirements.\n\n"));
    assert!(p.len() > 10_000);
    assert_eq!(repeat("ab", 3), "ababab");
    assert_eq!(repeat("ab", 0), "");
}

#[test]
fn sessions_are_given_their_tools() {
    assert_eq!(builtin_tools().len(), 20);
    let r = disallowed_tools_request();
    assert_eq!(r.disallowed_tools, Some(builtin_tools()));
    assert_eq!(r.allowed_tools, vec!["mcp__glass-echo__echo", "mcp__glass-echo__greet"]);
    assert_eq!((r.timeout_secs, r.max_turns), (120, 2));
    let r = allowed_tools_request();
    assert_eq!(r.allowed_tools, vec!["mcp__glass-echo__echo"]);
    assert_eq!(r.disallowed_tools, None);
    assert!(r.system_prompt.ends_with("say exactly 'NO_READ_TOOL_AVAILABLE'."));
    assert_eq!(passthrough_request().max_turns, 3);
    assert_eq!(records_request().max_turns, 5);
}

#[test]
fn checks_are_selected() {
    let select = |args: &[&str]| select_tests(&args.iter().map(|s| s.to_string()).collect());
    assert!(matches!(select(&["p", "all"]), Selection::Run(v) if v == vec![1, 2, 3, 4]));
    assert!(matches!(select(&["p", "3", "x"]), Selection::Run(v) if v == vec![3]));
    assert!(matches!(select(&["p"]), Selection::Usage));
    assert!(matches!(select(&["p", "5"]), Selection::UnknownArgument(s) if s == "5"));
    assert!(all_passed(&vec![true, true]));
    assert!(!all_passed(&vec![true, false]));
    assert!(all_passed(&vec![]));
}

#[test]
fn identifiers_write_the_lowest_digit_first() {
    assert_eq!(encode_id(0, 4), "aaaa");
    assert_eq!(encode_id(31, 2), "7a");
    assert_eq!(encode_id(32 + 25, 3), "zba");
    assert_eq!(encode_id(26, 1), "2");
    assert_eq!(encode_id(u128::MAX, 30).len(), 30);
    assert_ne!(encode_id(1023, 2), encode_id(1022, 2));
}

#[test]
fn texts_are_taken_apart() {
    assert_eq!(trim("\u{3000} a b\t\n"), "a b");
    assert_eq!(trim(" \u{a0}\u{2028}"), "");
    assert_eq!(lines("a\r\n\nb\r"), vec!["a", "", "b\r"]);
    assert_eq!(lines("a\n"), vec!["a"]);
    assert_eq!(count_words(" a\t b\u{3000}c\n"), 3);
    assert_eq!(count_words(" "), 0);
    assert_eq!(lines(""), Vec::<String>::new());
    assert!(contains("héllo", "él") && !contains("hello", "hl") && contains("x", ""));
    assert!(starts_with("abc", "ab") && !starts_with("ab", "abc"));
    assert!(ends_with("abc", "bc") && !ends_with("bc", "abc"));
}

#[test]
fn texts_and_numbers_are_put_together() {
    let v: Vec<String> = ["b", "a", "ab", "é", "", "a"].iter().map(|s| s.to_string()).collect();
    assert_eq!(join(&v[..3].to_vec(), ", "), "b, a, ab");
    assert_eq!(sorted(v), vec!["", "a", "a", "ab", "b", "é"]);
    assert_eq!(decimal(0), "0");
    assert_eq!(decimal(u64::MAX), "18446744073709551615");
}
