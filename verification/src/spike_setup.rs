//! What the checks of the coding agent ask for: which of them are run, what the sessions
//! are given, and a prompt of a realistic size.

use vstd::prelude::*;

use crate::text::{decimal, decimal_of, same, texts};

verus! {

/// What a session is given.
#[derive(Debug)]
pub struct SessionRequest {
    pub system_prompt: String,
    pub allowed_tools: Vec<String>,
    pub disallowed_tools: Option<Vec<String>>,
    pub timeout_secs: u64,
    pub max_turns: u32,
    pub question: String,
}

/// What a session is given.
pub struct SessionView {
    pub system_prompt: Seq<char>,
    pub allowed_tools: Seq<Seq<char>>,
    pub disallowed_tools: Option<Seq<Seq<char>>>,
    pub timeout_secs: u64,
    pub max_turns: u32,
    pub question: Seq<char>,
}

impl View for SessionRequest {
    type V = SessionView;

    open spec fn view(&self) -> SessionView {
        SessionView {
            system_prompt: self.system_prompt@,
            allowed_tools: texts(self.allowed_tools@),
            disallowed_tools: match self.disallowed_tools {
                Some(v) => Some(texts(v@)),
                None => None,
            },
            timeout_secs: self.timeout_secs,
            max_turns: self.max_turns,
            question: self.question@,
        }
    }
}

/// The tools of our server.
pub open spec fn our_tools() -> Seq<Seq<char>> {
    seq!["mcp__glass-echo__echo"@, "mcp__glass-echo__greet"@]
}

fn our_tool_list() -> (v: Vec<String>)
    ensures
        texts(v@) == our_tools(),
{
    let mut v: Vec<String> = Vec::new();
    v.push("mcp__glass-echo__echo".to_owned());
    v.push("mcp__glass-echo__greet".to_owned());
    assert(texts(v@) =~= our_tools());
    v
}

/// The tools that the coding agent has built in.
pub open spec fn builtin_names() -> Seq<Seq<char>> {
    seq![
        "Read"@,
        "Edit"@,
        "Write"@,
        "MultiEdit"@,
        "NotebookEdit"@,
        "Bash"@,
        "Glob"@,
        "Grep"@,
        "LS"@,
        "WebFetch"@,
        "WebSearch"@,
        "Task"@,
        "TaskOutput"@,
        "TaskStop"@,
        "TodoRead"@,
        "TodoWrite"@,
        "EnterPlanMode"@,
        "ExitPlanMode"@,
        "AskUserQuestion"@,
        "Skill"@,
    ]
}

/// The tools that the coding agent has built in.
pub fn builtin_tools() -> (v: Vec<String>)
    ensures
        texts(v@) == builtin_names(),
{
    let mut v: Vec<String> = Vec::new();
    v.push("Read".to_owned());
    v.push("Edit".to_owned());
    v.push("Write".to_owned());
    v.push("MultiEdit".to_owned());
    v.push("NotebookEdit".to_owned());
    v.push("Bash".to_owned());
    v.push("Glob".to_owned());
    v.push("Grep".to_owned());
    v.push("LS".to_owned());
    v.push("WebFetch".to_owned());
    v.push("WebSearch".to_owned());
    v.push("Task".to_owned());
    v.push("TaskOutput".to_owned());
    v.push("TaskStop".to_owned());
    v.push("TodoRead".to_owned());
    v.push("TodoWrite".to_owned());
    v.push("EnterPlanMode".to_owned());
    v.push("ExitPlanMode".to_owned());
    v.push("AskUserQuestion".to_owned());
    v.push("Skill".to_owned());
    assert(texts(v@) =~= builtin_names());
    v
}

/// The session that is to call a tool of our server.
pub fn passthrough_request() -> (r: SessionRequest)
    ensures
        r@ == (SessionView {
            system_prompt: "You have access to an MCP tool called 'echo'. Call it with message='spike-test-1' and then report the result. Do not use any other tools."@,
            allowed_tools: our_tools(),
            disallowed_tools: None,
            timeout_secs: 120,
            max_turns: 3,
            question: "Call the echo tool with message 'spike-test-1' and tell me what it returned."@,
        }),
{
    SessionRequest {
        system_prompt: "You have access to an MCP tool called 'echo'. Call it with message='spike-test-1' and then report the result. Do not use any other tools.".to_owned(),
        allowed_tools: our_tool_list(),
        disallowed_tools: None,
        timeout_secs: 120,
        max_turns: 3,
        question: "Call the echo tool with message 'spike-test-1' and tell me what it returned.".to_owned(),
    }
}

/// What a session that is to read a file is told.
pub open spec fn reading_prompt() -> Seq<char> {
    "You must read the file ./Cargo.toml and report its contents. If you cannot read it because you don't have the right tools, say exactly 'NO_READ_TOOL_AVAILABLE'."@
}

fn reading_prompt_text() -> (s: String)
    ensures
        s@ == reading_prompt(),
{
    "You must read the file ./Cargo.toml and report its contents. If you cannot read it because you don't have the right tools, say exactly 'NO_READ_TOOL_AVAILABLE'.".to_owned()
}

/// The session for which only one tool of our server is allowed.
pub fn allowed_tools_request() -> (r: SessionRequest)
    ensures
        r@ == (SessionView {
            system_prompt: reading_prompt(),
            allowed_tools: seq!["mcp__glass-echo__echo"@],
            disallowed_tools: None,
            timeout_secs: 120,
            max_turns: 2,
            question: "Read the file ./Cargo.toml and show me its contents."@,
        }),
{
    let mut allowed: Vec<String> = Vec::new();
    allowed.push("mcp__glass-echo__echo".to_owned());
    assert(texts(allowed@) =~= seq!["mcp__glass-echo__echo"@]);
    SessionRequest {
        system_prompt: reading_prompt_text(),
        allowed_tools: allowed,
        disallowed_tools: None,
        timeout_secs: 120,
        max_turns: 2,
        question: "Read the file ./Cargo.toml and show me its contents.".to_owned(),
    }
}

/// The session for which the built-in tools are forbidden.
pub fn disallowed_tools_request() -> (r: SessionRequest)
    ensures
        r@ == (SessionView {
            system_prompt: reading_prompt(),
            allowed_tools: our_tools(),
            disallowed_tools: Some(builtin_names()),
            timeout_secs: 120,
            max_turns: 2,
            question: "Read the file ./Cargo.toml and show me its contents."@,
        }),
{
    SessionRequest {
        system_prompt: reading_prompt_text(),
        allowed_tools: our_tool_list(),
        disallowed_tools: Some(builtin_tools()),
        timeout_secs: 120,
        max_turns: 2,
        question: "Read the file ./Cargo.toml and show me its contents.".to_owned(),
    }
}

/// The session that is to call both tools of our server.
pub fn records_request() -> (r: SessionRequest)
    ensures
        r@ == (SessionView {
            system_prompt: "You have two MCP tools: echo and greet. First call echo with message='audit-test'. Then call greet with name='Glass'. Then report both results."@,
            allowed_tools: our_tools(),
            disallowed_tools: None,
            timeout_secs: 120,
            max_turns: 5,
            question: "Call the echo tool with message='audit-test', then call the greet tool with name='Glass'. Report both results."@,
        }),
{
    SessionRequest {
        system_prompt: "You have two MCP tools: echo and greet. First call echo with message='audit-test'. Then call greet with name='Glass'. Then report both results.".to_owned(),
        allowed_tools: our_tool_list(),
        disallowed_tools: None,
        timeout_secs: 120,
        max_turns: 5,
        question: "Call the echo tool with message='audit-test', then call the greet tool with name='Glass'. Report both results.".to_owned(),
    }
}

/// `s`, so many times.
pub open spec fn repeated(s: Seq<char>, n: nat) -> Seq<char>
    decreases n,
{
    if n == 0 {
        Seq::empty()
    } else {
        repeated(s, (n - 1) as nat) + s
    }
}

/// `s`, so many times.
pub fn repeat(s: &str, n: u64) -> (r: String)
    ensures
        r@ == repeated(s@, n as nat),
{
    let mut r: String = String::new();
    let mut i: u64 = 0;
    while i < n
        invariant
            i <= n,
            r@ == repeated(s@, i as nat),
        decreases n - i,
    {
        r.append(s);
        i += 1;
    }
    r
}

/// The line for a skill.
pub open spec fn skill_line(i: nat) -> Seq<char> {
    "- **skill-"@ + decimal_of(i) + "**: A skill that helps with task category "@ + decimal_of(i)
        + ". Use this when the user needs help with processes involving multiple dependent steps and careful coordination.\n"@
}

/// The lines for so many skills.
pub open spec fn skill_lines(n: nat) -> Seq<char>
    decreases n,
{
    if n == 0 {
        Seq::empty()
    } else {
        skill_lines((n - 1) as nat) + skill_line((n - 1) as nat)
    }
}

fn skills(n: u64) -> (s: String)
    ensures
        s@ == skill_lines(n as nat),
{
    let mut s: String = String::new();
    let mut i: u64 = 0;
    while i < n
        invariant
            i <= n,
            s@ == skill_lines(i as nat),
        decreases n - i,
    {
        let mut line: String = "- **skill-".to_owned();
        line.append(decimal(i).as_str());
        line.append("**: A skill that helps with task category ");
        line.append(decimal(i).as_str());
        line.append(
            ". Use this when the user needs help with processes involving multiple dependent steps and careful coordination.\n",
        );
        s.append(line.as_str());
        i += 1;
    }
    s
}

/// The lines for so many files of notes.
pub open spec fn topic_lines(n: nat) -> Seq<char>
    decreases n,
{
    if n == 0 {
        Seq::empty()
    } else {
        topic_lines((n - 1) as nat) + ("- notes/topic-"@ + decimal_of((n - 1) as nat) + ".md\n"@)
    }
}

fn topics(n: u64) -> (s: String)
    ensures
        s@ == topic_lines(n as nat),
{
    let mut s: String = String::new();
    let mut i: u64 = 0;
    while i < n
        invariant
            i <= n,
            s@ == topic_lines(i as nat),
        decreases n - i,
    {
        let mut line: String = "- notes/topic-".to_owned();
        line.append(decimal(i).as_str());
        line.append(".md\n");
        s.append(line.as_str());
        i += 1;
    }
    s
}

/// A question and its answer.
pub open spec fn exchange(i: nat) -> Seq<char> {
    "**User** ("@ + decimal_of(i * 5) + "m ago): Can you check on item "@ + decimal_of(i)
        + " from the checklist? I think there might be an issue with the timing.\n\n**Glass**: I checked item "@
        + decimal_of(i) + ". The timing looks correct — it's scheduled for "@ + decimal_of(i + 1)
        + " days from now, which aligns with the pre-op requirements.\n\n"@
}

/// So many questions and their answers.
pub open spec fn exchanges(n: nat) -> Seq<char>
    decreases n,
{
    if n == 0 {
        Seq::empty()
    } else {
        exchanges((n - 1) as nat) + exchange((n - 1) as nat)
    }
}

fn conversation(n: u64) -> (s: String)
    requires
        n <= 1000,
    ensures
        s@ == exchanges(n as nat),
{
    let mut s: String = String::new();
    let mut i: u64 = 0;
    while i < n
        invariant
            i <= n <= 1000,
            s@ == exchanges(i as nat),
        decreases n - i,
    {
        let mut both: String = "**User** (".to_owned();
        both.append(decimal(i * 5).as_str());
        both.append("m ago): Can you check on item ");
        both.append(decimal(i).as_str());
        both.append(
            " from the checklist? I think there might be an issue with the timing.\n\n**Glass**: I checked item ",
        );
        both.append(decimal(i).as_str());
        both.append(". The timing looks correct — it's scheduled for ");
        both.append(decimal(i + 1).as_str());
        both.append(" days from now, which aligns with the pre-op requirements.\n\n");
        s.append(both.as_str());
        i += 1;
    }
    s
}

/// A prompt of a realistic size.
pub open spec fn realistic_prompt() -> Seq<char> {
    "# Identity\n\nYou are Glass, a personal AI agent that lives in a Discord server. You organize the user's life into channels, develop your own personality and tools over time, and keep data architecturally contained.\n\n"@
        + repeated(
        "You are thoughtful, proactive, and maintain a warm but professional tone. "@,
        20,
    ) + "\n\n# Available Skills\n\n"@ + skill_lines(30)
        + "\n# Project: surgery-prep\n\n## Brief\n"@ + repeated(
        "This project tracks preparation for an upcoming surgical procedure. It includes timelines, checklists, medication schedules, and appointment tracking. The user needs help staying organized and remembering deadlines. "@,
        5,
    ) + "\n\n## Status\n"@ + repeated(
        "Current phase: pre-operative preparation. Key upcoming deadlines include bloodwork (3 days), insurance pre-auth (5 days), and pre-op appointment (7 days). All checklists are up to date. "@,
        3,
    )
        + "\n\n# Available Tools\n\n- **shell**: Execute a command in the sandbox (--network none Docker container)\n- **read_file**: Read a file from the current project workspace\n- **write_file**: Write a file to the current project workspace\n- **list_files**: List files in the current project workspace (recursive)\n- **fetch_url**: GET a URL, return text content (governed by channel capabilities)\n- **web_search**: Search the web, return result snippets\n- **suggest_learning**: Send an abstract learning to Glass for human review\n- **get_channel_history**: Fetch older Discord messages from this project's channel\n\n# Workspace Files\n\n"@
        + topic_lines(30)
        + "- brief.md\n- status.md\n- schedule.json\n\n# Recent Conversation\n\n"@ + exchanges(15)
}

/// A prompt of a realistic size.
pub fn build_realistic_glass_prompt() -> (s: String)
    ensures
        s@ == realistic_prompt(),
{
    let mut s: String =
        "# Identity\n\nYou are Glass, a personal AI agent that lives in a Discord server. You organize the user's life into channels, develop your own personality and tools over time, and keep data architecturally contained.\n\n".to_owned();
    s.append(
        repeat(
            "You are thoughtful, proactive, and maintain a warm but professional tone. ",
            20,
        ).as_str(),
    );
    s.append("\n\n# Available Skills\n\n");
    s.append(skills(30).as_str());
    s.append("\n# Project: surgery-prep\n\n## Brief\n");
    s.append(
        repeat(
            "This project tracks preparation for an upcoming surgical procedure. It includes timelines, checklists, medication schedules, and appointment tracking. The user needs help staying organized and remembering deadlines. ",
            5,
        ).as_str(),
    );
    s.append("\n\n## Status\n");
    s.append(
        repeat(
            "Current phase: pre-operative preparation. Key upcoming deadlines include bloodwork (3 days), insurance pre-auth (5 days), and pre-op appointment (7 days). All checklists are up to date. ",
            3,
        ).as_str(),
    );
    s.append(
        "\n\n# Available Tools\n\n- **shell**: Execute a command in the sandbox (--network none Docker container)\n- **read_file**: Read a file from the current project workspace\n- **write_file**: Write a file to the current project workspace\n- **list_files**: List files in the current project workspace (recursive)\n- **fetch_url**: GET a URL, return text content (governed by channel capabilities)\n- **web_search**: Search the web, return result snippets\n- **suggest_learning**: Send an abstract learning to Glass for human review\n- **get_channel_history**: Fetch older Discord messages from this project's channel\n\n# Workspace Files\n\n",
    );
    s.append(topics(30).as_str());
    s.append("- brief.md\n- status.md\n- schedule.json\n\n# Recent Conversation\n\n");
    s.append(conversation(15).as_str());
    s
}

/// What the command line asks for.
#[derive(Debug)]
pub enum Selection {
    /// Run these checks.
    Run(Vec<u32>),
    /// Say what there is to run.
    Usage,
    /// Say that there is no such check.
    UnknownArgument(String),
}

/// What the command line asks for.
pub enum SelectionView {
    Run(Seq<u32>),
    Usage,
    UnknownArgument(Seq<char>),
}

impl View for Selection {
    type V = SelectionView;

    open spec fn view(&self) -> SelectionView {
        match self {
            Selection::Run(v) => SelectionView::Run(v@),
            Selection::Usage => SelectionView::Usage,
            Selection::UnknownArgument(s) => SelectionView::UnknownArgument(s@),
        }
    }
}

/// What the arguments, of which the first is the program, ask for.
pub open spec fn selected(args: Seq<Seq<char>>) -> SelectionView {
    if args.len() <= 1 {
        SelectionView::Usage
    } else if args[1] == "all"@ {
        SelectionView::Run(seq![1u32, 2, 3, 4])
    } else if args[1] == "1"@ {
        SelectionView::Run(seq![1u32])
    } else if args[1] == "2"@ {
        SelectionView::Run(seq![2u32])
    } else if args[1] == "3"@ {
        SelectionView::Run(seq![3u32])
    } else if args[1] == "4"@ {
        SelectionView::Run(seq![4u32])
    } else {
        SelectionView::UnknownArgument(args[1])
    }
}

/// What the arguments, of which the first is the program, ask for.
pub fn select_tests(args: &Vec<String>) -> (s: Selection)
    ensures
        s@ == selected(texts(args@)),
{
    if args.len() <= 1 {
        return Selection::Usage;
    }
    assert(texts(args@)[1] == args@[1]@);
    let which: &str = args[1].as_str();
    let mut tests: Vec<u32> = Vec::new();
    if same(which, "all") {
        tests.push(1);
        tests.push(2);
        tests.push(3);
        tests.push(4);
        assert(tests@ =~= seq![1u32, 2, 3, 4]);
    } else if same(which, "1") {
        tests.push(1);
        assert(tests@ =~= seq![1u32]);
    } else if same(which, "2") {
        tests.push(2);
        assert(tests@ =~= seq![2u32]);
    } else if same(which, "3") {
        tests.push(3);
        assert(tests@ =~= seq![3u32]);
    } else if same(which, "4") {
        tests.push(4);
        assert(tests@ =~= seq![4u32]);
    } else {
        return Selection::UnknownArgument(which.to_owned());
    }
    Selection::Run(tests)
}

/// Whether every check passed.
pub fn all_passed(results: &Vec<bool>) -> (b: bool)
    ensures
        b == (forall|i: int| 0 <= i < results@.len() ==> results@[i]),
{
    let mut i: usize = 0;
    while i < results.len()
        invariant
            i <= results@.len(),
            forall|j: int| 0 <= j < i ==> results@[j],
        decreases results@.len() - i,
    {
        if !results[i] {
            return false;
        }
        i += 1;
    }
    true
}

/// A text that is repeated stands there so many times, one after the other.
pub proof fn law_repeated_text(s: Seq<char>, a: nat, b: nat)
    ensures
        repeated(s, a + b) == repeated(s, a) + repeated(s, b),
        repeated(s, 1) == s,
        repeated(s, 0).len() == 0,
    decreases b,
{
    reveal_with_fuel(repeated, 2);
    assert(repeated(s, 1) =~= s);
    if b == 0 {
        assert(repeated(s, a + b) =~= repeated(s, a) + repeated(s, b));
    } else {
        law_repeated_text(s, a, (b - 1) as nat);
        assert(repeated(s, a + b) =~= repeated(s, a) + repeated(s, b));
    }
}

/// A check that is asked for by its number is run alone, all of them run in their order,
/// and anything else is told back as it was written.
pub proof fn law_which_checks_are_run(args: Seq<Seq<char>>, n: u32)
    requires
        args.len() > 1,
        1 <= n <= 4,
    ensures
        args[1] == decimal_of(n as nat) ==> selected(args) == SelectionView::Run(seq![n]),
        args[1] == "all"@ ==> (selected(args) matches SelectionView::Run(v) && v.len() == 4 && v[n
            - 1] == n),
        args[1] != "all"@ && (forall|k: nat| 1 <= k <= 4 ==> args[1] != #[trigger] decimal_of(k))
            ==> selected(args) == SelectionView::UnknownArgument(args[1]),
{
    reveal_strlit("all");
    reveal_strlit("1");
    reveal_strlit("2");
    reveal_strlit("3");
    reveal_strlit("4");
    assert(decimal_of(1) =~= "1"@);
    assert(decimal_of(2) =~= "2"@);
    assert(decimal_of(3) =~= "3"@);
    assert(decimal_of(4) =~= "4"@);
    assert("all"@.len() == 3);
    assert("1"@[0] == '1' && "2"@[0] == '2' && "3"@[0] == '3' && "4"@[0] == '4');
    if args[1] == decimal_of(n as nat) {
        assert(selected(args)->Run_0 =~= seq![n]);
    }
}

} // verus!
