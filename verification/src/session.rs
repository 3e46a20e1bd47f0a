//! Per-request decisions of the HTTP transport: which session a call belongs
//! to, when a new session id is issued, and what is sent back.
use vstd::prelude::*;
use crate::mcp::{HandleResult, Reply};
use crate::protocol::PARSE_ERROR;
use crate::text::str_eq;

verus! {

/// The header that carries the session id.
pub const SESSION_HEADER: &'static str = "mcp-session-id";

/// The session of callers that send no session header.
pub const DEFAULT_SESSION: &'static str = "default";

/// A lowercase hexadecimal digit.
pub open spec fn is_lower_hex(c: char) -> bool {
    ('0' <= c && c <= '9') || ('a' <= c && c <= 'f')
}

/// Issues a fresh session id: a random (version 4) UUID from `uuid::Uuid::new_v4`,
/// in its hyphenated form. Only its shape is stated: 36 characters with
/// hyphens at positions 8, 13, 18 and 23 and lowercase hexadecimal digits
/// elsewhere; which digits is random.
#[verifier::external_body]
pub fn new_session_id() -> (s: String)
    ensures
        s@.len() == 36,
        s@[8] == '-' && s@[13] == '-' && s@[18] == '-' && s@[23] == '-',
        forall|i: int| 0 <= i < 36 && i != 8 && i != 13 && i != 18 && i != 23 ==> is_lower_hex(#[trigger] s@[i]),
{
    uuid::Uuid::new_v4().to_string()
}

/// The session named by the request's header, or the shared default one.
pub open spec fn header_session(header: Option<Seq<char>>) -> Seq<char> {
    match header {
        Some(h) => h,
        None => "default"@,
    }
}

/// The view of an optional string.
pub open spec fn opt_view(o: Option<String>) -> Option<Seq<char>> {
    match o {
        Some(s) => Some(s@),
        None => None,
    }
}

/// Chooses the session of one call of a request. An `initialize` call on a
/// request that carries no session header gets a freshly issued id, which is
/// also kept in `issued` (to be returned in the response header and used by
/// the request's later calls); otherwise the id issued earlier in this
/// request, if any, is used, and else the header's session (`header`, when
/// it is present and readable as text) or the default one.
pub fn session_for(method: &str, header_present: bool, header: &Option<String>, issued: &mut Option<String>) -> (s: String)
    ensures
        (str_view(method) == "initialize"@ && !header_present) ==> (*final(issued) matches Some(i) && i@.len() == 36
            && i@[8] == '-' && i@[13] == '-' && i@[18] == '-' && i@[23] == '-'
            && forall|k: int| 0 <= k < 36 && k != 8 && k != 13 && k != 18 && k != 23 ==> is_lower_hex(#[trigger] i@[k])),
        !(str_view(method) == "initialize"@ && !header_present) ==> opt_view(*final(issued)) == opt_view(*old(issued)),
        s@ == match *final(issued) {
            Some(i) => i@,
            None => header_session(opt_view(*header)),
        },
{
    if str_eq(method, "initialize") && !header_present {
        *issued = Some(new_session_id());
    }
    match issued {
        Some(i) => i.clone(),
        None => match header {
            Some(h) => h.clone(),
            None => DEFAULT_SESSION.to_owned(),
        },
    }
}

/// The view of a string slice.
pub open spec fn str_view(s: &str) -> Seq<char> {
    s@
}

/// What a call is answered with in the response body.
pub enum Outcome {
    /// A result (`null` when the handler gave none).
    Result(Option<Reply>),
    /// An error with its code and message.
    Error(i64, String),
}

/// A call's answer: none for a notification (a call without an id), else
/// the handler's error if it gave one, else its result.
pub fn outcome(is_notification: bool, handled: HandleResult) -> (o: Option<Outcome>)
    ensures
        is_notification ==> o is None,
        !is_notification ==> match handled.error {
            Some((c, m)) => o matches Some(Outcome::Error(c2, m2)) && c2 == c && m2@ == m@,
            None => o matches Some(Outcome::Result(r)) && r == handled.result,
        },
{
    if is_notification {
        return None;
    }
    match handled.error {
        Some((c, m)) => Some(Outcome::Error(c, m)),
        None => Some(Outcome::Result(handled.result)),
    }
}

/// The answer to an entry of the request that is not a valid JSON-RPC request.
pub fn parse_failure(reason: &str) -> (o: Outcome)
    ensures
        o matches Outcome::Error(c, m) && c == PARSE_ERROR && m@ == "parse error: "@ + reason@,
{
    let mut m = String::new();
    m.append("parse error: ");
    m.append(reason);
    Outcome::Error(PARSE_ERROR, m)
}

/// How the response body is formed.
pub enum BodyShape {
    /// A JSON array of all answers (possibly empty).
    Array,
    /// The first answer alone.
    Single,
    /// No body: `202 Accepted`.
    Accepted,
}

/// A request that needs no answer (only notifications, or an empty batch) is
/// acknowledged with `202 Accepted` and no body; otherwise a batch is answered
/// with an array and a single request with its answer.
pub fn body_shape(is_batch: bool, answers: usize) -> (b: BodyShape)
    ensures
        answers == 0 ==> b is Accepted,
        is_batch && answers > 0 ==> b is Array,
        !is_batch && answers > 0 ==> b is Single,
{
    if answers == 0 {
        BodyShape::Accepted
    } else if is_batch {
        BodyShape::Array
    } else {
        BodyShape::Single
    }
}

} // verus!
