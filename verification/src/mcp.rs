//! MCP method dispatch: what each JSON-RPC method is answered with.
use vstd::prelude::*;
use crate::protocol::{ToolCallResult, INVALID_PARAMS, METHOD_NOT_FOUND};
use crate::text::str_eq;
use crate::tools::{find_tool, tool_name, ToolKind};

verus! {

/// The payload of a successful answer.
pub enum Reply {
    /// The server's protocol version, capabilities and identity.
    Initialize,
    /// An empty object.
    Empty,
    /// The descriptors of all tools.
    ToolList,
    /// The result of a tool call.
    ToolCall(ToolCallResult),
}

/// The answer to one method call: a result or an error code with a message.
pub struct HandleResult {
    pub result: Option<Reply>,
    pub error: Option<(i64, String)>,
}

/// What handling a method comes to: an answer now, or a tool to run first.
pub enum Dispatch {
    Done(HandleResult),
    Call(ToolKind),
}

fn ok(v: Reply) -> (r: HandleResult)
    ensures
        r.result == Some(v),
        r.error is None,
{
    HandleResult { result: Some(v), error: None }
}

fn err(code: i64, msg: String) -> (r: HandleResult)
    ensures
        r.result is None,
        r.error matches Some(e) && e.0 == code && e.1@ == msg@,
{
    HandleResult { result: None, error: Some((code, msg)) }
}

/// How a method is handled, given the tool name from the parameters (for `tools/call`).
pub open spec fn dispatch_spec(method: Seq<char>, name: Option<Seq<char>>) -> DispatchView {
    if method == "initialize"@ {
        DispatchView::Answer(ReplyKind::Initialize)
    } else if method == "ping"@ {
        DispatchView::Answer(ReplyKind::Empty)
    } else if method == "tools/list"@ {
        DispatchView::Answer(ReplyKind::ToolList)
    } else if method == "tools/call"@ {
        match name {
            None => DispatchView::Fail(INVALID_PARAMS, "missing required field: name"@),
            Some(n) => if exists|k: ToolKind| tool_name(k) == n {
                DispatchView::Run(choose|k: ToolKind| tool_name(k) == n)
            } else {
                DispatchView::Fail(METHOD_NOT_FOUND, "unknown tool: "@ + n)
            },
        }
    } else if method == "notifications/initialized"@ || method == "notifications/cancelled"@ {
        DispatchView::Answer(ReplyKind::Empty)
    } else {
        DispatchView::Fail(METHOD_NOT_FOUND, "method not found: "@ + method)
    }
}

/// The kinds of immediate answers.
pub enum ReplyKind {
    Initialize,
    Empty,
    ToolList,
}

/// The value of a dispatch decision.
pub enum DispatchView {
    Answer(ReplyKind),
    Fail(i64, Seq<char>),
    Run(ToolKind),
}

/// The value of a dispatch decision.
pub open spec fn dispatch_view(d: Dispatch) -> Option<DispatchView> {
    match d {
        Dispatch::Call(k) => Some(DispatchView::Run(k)),
        Dispatch::Done(h) => match (h.result, h.error) {
            (Some(Reply::Initialize), None) => Some(DispatchView::Answer(ReplyKind::Initialize)),
            (Some(Reply::Empty), None) => Some(DispatchView::Answer(ReplyKind::Empty)),
            (Some(Reply::ToolList), None) => Some(DispatchView::Answer(ReplyKind::ToolList)),
            (None, Some((c, m))) => Some(DispatchView::Fail(c, m@)),
            _ => None,
        },
    }
}

/// Decides how to handle `method`; `tool_name` is the `name` parameter when it is a string.
pub fn dispatch(method: &str, tool: Option<String>) -> (d: Dispatch)
    ensures
        dispatch_view(d) == Some(dispatch_spec(method@, match tool { Some(t) => Some(t@), None => None })),
{
    proof {
        crate::tools::lemma_tool_names_distinct();
    }
    if str_eq(method, "initialize") {
        Dispatch::Done(ok(Reply::Initialize))
    } else if str_eq(method, "ping") {
        Dispatch::Done(ok(Reply::Empty))
    } else if str_eq(method, "tools/list") {
        Dispatch::Done(ok(Reply::ToolList))
    } else if str_eq(method, "tools/call") {
        match tool {
            None => Dispatch::Done(err(INVALID_PARAMS, "missing required field: name".to_owned())),
            Some(n) => match find_tool(n.as_str()) {
                Some(k) => Dispatch::Call(k),
                None => {
                    let mut m = String::new();
                    m.append("unknown tool: ");
                    m.append(n.as_str());
                    Dispatch::Done(err(METHOD_NOT_FOUND, m))
                },
            },
        }
    } else if str_eq(method, "notifications/initialized") || str_eq(method, "notifications/cancelled") {
        Dispatch::Done(ok(Reply::Empty))
    } else {
        let mut m = String::new();
        m.append("method not found: ");
        m.append(method);
        Dispatch::Done(err(METHOD_NOT_FOUND, m))
    }
}

/// The answer to a `tools/call` once the tool has run: a success or a failure
/// result carrying the tool's text.
pub fn complete_call(outcome: Result<String, String>) -> (r: HandleResult)
    ensures
        r.error is None,
        r.result matches Some(Reply::ToolCall(t)) && match outcome {
            Ok(s) => !t.is_error && t.text@ == s@,
            Err(s) => t.is_error && t.text@ == s@,
        },
{
    match outcome {
        Ok(text) => ok(Reply::ToolCall(ToolCallResult::success(text))),
        Err(text) => ok(Reply::ToolCall(ToolCallResult::failure(text))),
    }
}

} // verus!
