//! Verified core of an MCP server that gives an agent file and shell tools:
//! `read`, `edit`, `glob`, `grep`, `list` and `bash`.
pub mod braces;
pub mod matching;
pub mod mcp;
pub mod paths;
pub mod protocol;
pub mod session;
pub mod sort;
pub mod state;
pub mod text;
pub mod tools;
