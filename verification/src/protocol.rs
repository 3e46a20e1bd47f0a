//! JSON-RPC 2.0 and MCP protocol constants and the shape of tool results.
use vstd::prelude::*;

verus! {

/// The MCP revision this server speaks.
pub const MCP_PROTOCOL_VERSION: &'static str = "2025-06-18";

/// JSON-RPC: the request could not be parsed.
pub const PARSE_ERROR: i64 = -32700;

/// JSON-RPC: the method (or tool) does not exist.
pub const METHOD_NOT_FOUND: i64 = -32601;

/// JSON-RPC: the parameters are invalid.
pub const INVALID_PARAMS: i64 = -32602;

/// The result of a `tools/call`: one text item, and whether it reports a failure.
pub struct ToolCallResult {
    pub text: String,
    pub is_error: bool,
}

impl ToolCallResult {
    /// A successful tool result.
    pub fn success(text: String) -> (r: ToolCallResult)
        ensures
            r.text@ == text@,
            !r.is_error,
    {
        ToolCallResult { text, is_error: false }
    }

    /// A failed tool result; the text says why.
    pub fn failure(text: String) -> (r: ToolCallResult)
        ensures
            r.text@ == text@,
            r.is_error,
    {
        ToolCallResult { text, is_error: true }
    }
}

} // verus!
