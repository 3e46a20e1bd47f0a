use hostmcp::mcp::{complete_call, dispatch, Dispatch, HandleResult, Reply};
use hostmcp::protocol::{INVALID_PARAMS, METHOD_NOT_FOUND, PARSE_ERROR};
use hostmcp::session::{body_shape, new_session_id, outcome, parse_failure, session_for, BodyShape, Outcome};
use hostmcp::tools::ToolKind;

fn error_of(d: Dispatch) -> (i64, String) {
    match d {
        Dispatch::Done(HandleResult { result: None, error: Some(e) }) => e,
        _ => panic!("expected an error"),
    }
}

#[test]
fn dispatch_answers_lifecycle_methods() {
    assert!(matches!(dispatch("initialize", None), Dispatch::Done(HandleResult { result: Some(Reply::Initialize), error: None })));
    assert!(matches!(dispatch("ping", None), Dispatch::Done(HandleResult { result: Some(Reply::Empty), error: None })));
    assert!(matches!(dispatch("tools/list", None), Dispatch::Done(HandleResult { result: Some(Reply::ToolList), error: None })));
    assert!(matches!(dispatch("notifications/initialized", None), Dispatch::Done(HandleResult { result: Some(Reply::Empty), error: None })));
    assert!(matches!(dispatch("notifications/cancelled", None), Dispatch::Done(HandleResult { result: Some(Reply::Empty), error: None })));
}

#[test]
fn dispatch_routes_tool_calls() {
    assert!(matches!(dispatch("tools/call", Some("edit".to_string())), Dispatch::Call(ToolKind::Edit)));
    assert!(matches!(dispatch("tools/call", Some("bash".to_string())), Dispatch::Call(ToolKind::Bash)));
    assert_eq!(error_of(dispatch("tools/call", None)), (INVALID_PARAMS, "missing required field: name".to_string()));
    assert_eq!(error_of(dispatch("tools/call", Some("write".to_string()))), (METHOD_NOT_FOUND, "unknown tool: write".to_string()));
    assert_eq!(error_of(dispatch("resources/list", None)), (METHOD_NOT_FOUND, "method not found: resources/list".to_string()));
    assert_eq!(METHOD_NOT_FOUND, -32601);
    assert_eq!(INVALID_PARAMS, -32602);
}

#[test]
fn tool_results_carry_the_error_flag() {
    match complete_call(Ok("fine".to_string())) {
        HandleResult { result: Some(Reply::ToolCall(t)), error: None } => {
            assert_eq!(t.text, "fine");
            assert!(!t.is_error);
        }
        _ => panic!("expected a tool result"),
    }
    match complete_call(Err("broken".to_string())) {
        HandleResult { result: Some(Reply::ToolCall(t)), error: None } => {
            assert_eq!(t.text, "broken");
            assert!(t.is_error);
        }
        _ => panic!("expected a tool result"),
    }
}

#[test]
fn sessions_are_issued_on_initialize_without_header() {
    let mut issued = None;
    let s = session_for("initialize", false, &None, &mut issued);
    assert_eq!(s.len(), 36);
    assert_eq!(s.matches('-').count(), 4);
    assert!(s.chars().all(|c| c == '-' || c.is_ascii_digit() || ('a'..='f').contains(&c)));
    assert_eq!(issued.as_deref(), Some(s.as_str()));
    let later = session_for("tools/call", false, &None, &mut issued);
    assert_eq!(later, s);
    let mut none = None;
    assert_eq!(session_for("tools/call", false, &None, &mut none), "default");
    assert_eq!(none, None);
    assert_eq!(session_for("initialize", true, &Some("abc".to_string()), &mut none), "abc");
    assert_eq!(none, None);
    assert_eq!(session_for("initialize", true, &None, &mut none), "default");
    assert_eq!(none, None);
}

#[test]
fn session_ids_are_uuids() {
    let a = new_session_id();
    let b = new_session_id();
    assert_eq!(a.len(), 36);
    assert_ne!(a, b);
    for i in [8, 13, 18, 23] {
        assert_eq!(a.as_bytes()[i], b'-');
    }
}

#[test]
fn notifications_get_no_answer() {
    let ok = || HandleResult { result: Some(Reply::Empty), error: None };
    assert!(outcome(true, ok()).is_none());
    assert!(matches!(outcome(false, ok()), Some(Outcome::Result(Some(Reply::Empty)))));
    let bad = HandleResult { result: None, error: Some((METHOD_NOT_FOUND, "m".to_string())) };
    assert!(matches!(outcome(false, bad), Some(Outcome::Error(-32601, _))));
    match parse_failure("missing field `method`") {
        Outcome::Error(c, m) => {
            assert_eq!(c, PARSE_ERROR);
            assert_eq!(m, "parse error: missing field `method`");
        }
        _ => panic!("expected an error"),
    }
}

#[test]
fn response_bodies() {
    assert!(matches!(body_shape(true, 0), BodyShape::Accepted));
    assert!(matches!(body_shape(true, 3), BodyShape::Array));
    assert!(matches!(body_shape(false, 1), BodyShape::Single));
    assert!(matches!(body_shape(false, 0), BodyShape::Accepted));
}
