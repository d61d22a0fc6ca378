//! A small tool server that answers requests on lines of JSON.

use vstd::prelude::*;

use crate::json::{json_of, parse_json, Json, Node};
use crate::text::{
    finishes_with, is_white, law_stripped_form_is_unique, law_trimming_strips_the_ends, same, trim,
    trimmed,
};

verus! {

/// The error code for a method that the server does not have.
pub const METHOD_NOT_FOUND: i64 = -32601;

/// The error code for a tool that the server does not have.
pub const UNKNOWN_TOOL: i64 = -32602;

/// What a request is answered with.
#[derive(Debug)]
pub enum McpBody {
    /// What the server is.
    Initialize,
    /// What tools it has.
    ToolList,
    /// What a tool says.
    Text(String),
    /// Why there is no answer.
    Error { code: i64, message: String },
}

/// What a request is answered with.
pub enum BodyView {
    Initialize,
    ToolList,
    Text(Seq<char>),
    Error(i64, Seq<char>),
}

impl View for McpBody {
    type V = BodyView;

    open spec fn view(&self) -> BodyView {
        match self {
            McpBody::Initialize => BodyView::Initialize,
            McpBody::ToolList => BodyView::ToolList,
            McpBody::Text(s) => BodyView::Text(s@),
            McpBody::Error { code, message } => BodyView::Error(*code, message@),
        }
    }
}

/// The answer to a request.
#[derive(Debug)]
pub struct McpAnswer {
    /// The id of the request, as JSON.
    pub id: String,
    pub body: McpBody,
}

/// The text that a member is, or the default where there is none.
pub open spec fn text_or(v: Option<Json>, key: Seq<char>, default: Seq<char>) -> Seq<char> {
    match v {
        Some(j) => match j.string_member(key) {
            Some(s) => s,
            None => default,
        },
        None => default,
    }
}

/// A member of an optional value.
pub open spec fn member_of(v: Option<Json>, key: Seq<char>) -> Option<Json> {
    match v {
        Some(j) => j.member(key),
        None => None,
    }
}

/// What a call of a tool is answered with.
pub open spec fn tool_answer(params: Option<Json>) -> BodyView {
    let tool = text_or(params, "name"@, "unknown"@);
    let args = member_of(params, "arguments"@);
    if tool == "echo"@ {
        BodyView::Text("ECHO: "@ + text_or(args, "message"@, "<no message>"@))
    } else if tool == "greet"@ {
        BodyView::Text(
            "Hello, "@ + text_or(args, "name"@, "stranger"@) + "! Greetings from echo-mcp."@,
        )
    } else {
        BodyView::Error(UNKNOWN_TOOL, "Unknown tool: "@ + tool)
    }
}

/// What a request is answered with.
pub open spec fn request_answer(request: Json) -> BodyView {
    let method = text_or(Some(request), "method"@, ""@);
    if method == "initialize"@ {
        BodyView::Initialize
    } else if method == "tools/list"@ {
        BodyView::ToolList
    } else if method == "tools/call"@ {
        tool_answer(request.member("params"@))
    } else {
        BodyView::Error(METHOD_NOT_FOUND, "Method not found: "@ + method)
    }
}

/// The request on a line that is to be answered, and its id: a line that is blank or no
/// JSON is skipped, and a request without an id is a notification.
pub open spec fn answerable(line: Seq<char>) -> Option<(Json, Json)> {
    if trimmed(line).len() == 0 {
        None
    } else {
        match json_of(line) {
            Ok(request) => match request.member("id"@) {
                Some(id) => if id.node is Null {
                    None
                } else {
                    Some((request, id))
                },
                None => None,
            },
            Err(_) => None,
        }
    }
}

fn text_member(v: Option<&Json>, key: &str, default: &str) -> (s: String)
    ensures
        s@ == text_or(
            match v {
                Some(j) => Some(*j),
                None => None,
            },
            key@,
            default@,
        ),
{
    match v {
        Some(j) => match j.get_str(key) {
            Some(s) => s.to_owned(),
            None => default.to_owned(),
        },
        None => default.to_owned(),
    }
}

/// What a call of a tool is answered with.
pub fn handle_tool_call(params: Option<&Json>) -> (b: McpBody)
    ensures
        b@ == tool_answer(
            match params {
                Some(j) => Some(*j),
                None => None,
            },
        ),
{
    let tool: String = text_member(params, "name", "unknown");
    let args: Option<&Json> = match params {
        Some(j) => j.get("arguments"),
        None => None,
    };
    if same(tool.as_str(), "echo") {
        let mut text: String = "ECHO: ".to_owned();
        text.append(text_member(args, "message", "<no message>").as_str());
        McpBody::Text(text)
    } else if same(tool.as_str(), "greet") {
        let mut text: String = "Hello, ".to_owned();
        text.append(text_member(args, "name", "stranger").as_str());
        text.append("! Greetings from echo-mcp.");
        McpBody::Text(text)
    } else {
        let mut message: String = "Unknown tool: ".to_owned();
        message.append(tool.as_str());
        McpBody::Error { code: UNKNOWN_TOOL, message }
    }
}

/// What a request is answered with.
pub fn answer_request(request: &Json) -> (b: McpBody)
    ensures
        b@ == request_answer(*request),
{
    let method: String = text_member(Some(request), "method", "");
    if same(method.as_str(), "initialize") {
        McpBody::Initialize
    } else if same(method.as_str(), "tools/list") {
        McpBody::ToolList
    } else if same(method.as_str(), "tools/call") {
        handle_tool_call(request.get("params"))
    } else {
        let mut message: String = "Method not found: ".to_owned();
        message.append(method.as_str());
        McpBody::Error { code: METHOD_NOT_FOUND, message }
    }
}

/// The answer to the request on a line, if it is to be answered.
pub fn answer_line(line: &str) -> (r: Option<McpAnswer>)
    ensures
        match r {
            Some(a) => answerable(line@) matches Some((request, id)) && a.id@ == id.text@ && a.body@
                == request_answer(request),
            None => answerable(line@) is None,
        },
{
    if trim(line).as_str().is_empty() {
        return None;
    }
    let request: Json = match parse_json(line) {
        Ok(v) => v,
        Err(_) => return None,
    };
    match request.get("id") {
        Some(id) => match &id.node {
            Node::Null => None,
            _ => Some(McpAnswer { id: id.text.clone(), body: answer_request(&request) }),
        },
        None => None,
    }
}

/// A call of `echo` gives back the message that it was given, and one of `greet` greets the
/// name that it was given; each has words of its own where nothing was given. Any other
/// tool is refused by its name.
pub proof fn law_tools_answer_what_they_are_given(params: Json, args: Json, text: Seq<char>)
    requires
        params.member("arguments"@) == Some(args),
    ensures
        params.string_member("name"@) == Some("echo"@) && args.string_member("message"@) == Some(
            text,
        ) ==> tool_answer(Some(params)) == BodyView::Text("ECHO: "@ + text),
        params.string_member("name"@) == Some("greet"@) && args.string_member("name"@) == Some(
            text,
        ) ==> tool_answer(Some(params)) == BodyView::Text(
            "Hello, "@ + text + "! Greetings from echo-mcp."@,
        ),
        params.string_member("name"@) == Some("echo"@) && args.string_member("message"@) is None
            ==> tool_answer(Some(params)) == BodyView::Text("ECHO: "@ + "<no message>"@),
        params.string_member("name"@) == Some("greet"@) && args.string_member("name"@) is None
            ==> tool_answer(Some(params)) == BodyView::Text(
            "Hello, "@ + "stranger"@ + "! Greetings from echo-mcp."@,
        ),
{
    reveal_strlit("echo");
    reveal_strlit("greet");
    assert("echo"@.len() == 4 && "greet"@.len() == 5);
}

/// A tool that the server does not have is refused by its name, whatever it was given, and
/// so is a method.
pub proof fn law_unknown_names_are_refused(request: Json, params: Json, name: Seq<char>)
    ensures
        params.string_member("name"@) == Some(name) && name != "echo"@ && name != "greet"@ ==> (
        tool_answer(Some(params)) matches BodyView::Error(code, message) && code == -32602
            && finishes_with(message, name)),
        request.string_member("method"@) == Some(name) && name != "initialize"@ && name
            != "tools/list"@ && name != "tools/call"@ ==> (request_answer(
            request,
        ) matches BodyView::Error(code, message) && code == -32601 && finishes_with(
            message,
            name,
        )),
{
    let a = "Unknown tool: "@ + name;
    let b = "Method not found: "@ + name;
    assert(a.subrange(a.len() - name.len(), a.len() as int) =~= name);
    assert(b.subrange(b.len() - name.len(), b.len() as int) =~= name);
}

/// The methods of the server are answered each in its way; a call of a tool by the tool,
/// given the parameters of the request.
pub proof fn law_methods_are_answered(request: Json)
    ensures
        request.string_member("method"@) == Some("initialize"@) ==> request_answer(request)
            is Initialize,
        request.string_member("method"@) == Some("tools/list"@) ==> request_answer(request)
            is ToolList,
        request.string_member("method"@) == Some("tools/call"@) ==> request_answer(request)
            == tool_answer(request.member("params"@)),
{
    reveal_strlit("initialize");
    reveal_strlit("tools/list");
    reveal_strlit("tools/call");
    assert("initialize"@[0] == 'i');
    assert("tools/list"@[6] == 'l');
    assert("tools/call"@[0] == 't');
    assert("tools/call"@[6] == 'c');
}

/// A request is answered exactly where its line is JSON with an id that is not null, and
/// under that id; notifications, blank lines and noise are not answered.
pub proof fn law_requests_with_an_id_are_answered(line: Seq<char>, i: int)
    ensures
        json_of(line) is Err ==> answerable(line) is None,
        json_of(line) matches Ok(request) ==> (request.member("id"@) is None || request.member(
            "id"@,
        )->0.node is Null ==> answerable(line) is None),
        json_of(line) matches Ok(request) ==> (0 <= i < line.len() && !is_white(line[i])
            && request.member("id"@) is Some && !(request.member("id"@)->0.node is Null)
            ==> answerable(line) == Some((request, request.member("id"@)->0))),
        (forall|j: int| 0 <= j < line.len() ==> is_white(#[trigger] line[j])) ==> answerable(line)
            is None,
{
    law_trimming_strips_the_ends(line);
    law_stripped_form_is_unique(line, trimmed(line), trimmed(line));
}

} // verus!
