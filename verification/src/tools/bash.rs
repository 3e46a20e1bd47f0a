//! `bash`: runs a shell command and reports its exit code and output.
use vstd::prelude::*;
use vstd::utf8::encode_utf8;
use crate::state::AppState;
use crate::text::{dec, decimal, decode_lossy, signed_dec, signed_decimal, utf8_lossy};
use super::{lemma_truncated_text, truncate_output, truncated_text, MAX_OUTPUT_BYTES};

verus! {

/// Milliseconds a command may run when the caller gives no timeout.
pub const DEFAULT_TIMEOUT_MS: u64 = 120000;

/// The longest timeout a caller may ask for, in milliseconds.
pub const MAX_TIMEOUT_MS: u64 = 600000;

/// Parameters of a `bash` call.
pub struct BashParams {
    pub command: String,
    /// A note on what the command does; it changes nothing.
    pub description: Option<String>,
    pub timeout: Option<u64>,
    pub cwd: Option<String>,
}

/// How a command run ended.
pub enum BashRun {
    /// The timeout passed and the process was killed.
    TimedOut,
    /// The process ended; its output and, if it exited normally, its exit code.
    Finished { stdout: Vec<u8>, stderr: Vec<u8>, code: Option<i32> },
}

/// What agents are told about the `bash` tool.
pub const BASH_DESCRIPTION: &'static str = "Executes a shell command (via `sh -c`) and returns its output.\n\n\
Usage:\n\
- command is required; description is an optional short note about what the command does (for logging/UI only).\n\
- timeout is in milliseconds, default 120000, max 600000. The process is killed on timeout.\n\
- cwd optionally overrides the working directory for this command (defaults to the server's working directory).\n\
- stdout and stderr are captured separately and each truncated to 30KB.\n\
- Prefer the read/edit/glob/grep/list tools for file operations instead of shelling out to cat/find/grep/ls.";

/// The `bash` tool.
pub struct BashTool;

impl BashTool {
    /// What agents are told about this tool.
    pub fn description(&self) -> (d: String)
        ensures
            d@ == BASH_DESCRIPTION@,
    {
        BASH_DESCRIPTION.to_owned()
    }

    /// The name this tool is called by.
    pub fn name(&self) -> (n: &'static str)
        ensures
            n@ == super::tool_name(super::ToolKind::Bash),
    {
        super::ToolKind::Bash.name()
    }
}

/// A captured stream as shown: decoded, cut to the output cap.
pub open spec fn shown_stream(bytes: Seq<u8>) -> Seq<char> {
    truncated_text(utf8_lossy(bytes), MAX_OUTPUT_BYTES as int)
}


/// The stream was longer than the cap.
pub open spec fn stream_cut(bytes: Seq<u8>) -> bool {
    encode_utf8(utf8_lossy(bytes)).len() > MAX_OUTPUT_BYTES
}

/// The timeout used: the caller's or the default, at most the maximum.
pub open spec fn effective_timeout(t: Option<u64>) -> u64 {
    let asked = match t {
        Some(v) => v,
        None => DEFAULT_TIMEOUT_MS,
    };
    if asked < MAX_TIMEOUT_MS { asked } else { MAX_TIMEOUT_MS }
}

/// The report of a finished command with exit code `code`.
pub open spec fn run_report(stdout: Seq<u8>, stderr: Seq<u8>, code: int) -> Seq<char> {
    "exit code: "@ + signed_dec(code) + "\n\n--- stdout ---\n"@ + shown_stream(stdout)
        + (if stream_cut(stdout) { "\n(stdout truncated)"@ } else { ""@ })
        + "\n\n--- stderr ---\n"@ + shown_stream(stderr)
        + (if stream_cut(stderr) { "\n(stderr truncated)"@ } else { ""@ })
}

/// The answer to a `bash` call that ran with timeout `ms`: an error for a
/// timeout or a non-zero (or missing) exit code, the report otherwise.
pub open spec fn bash_result(ms: u64, run: BashRun) -> Result<Seq<char>, Seq<char>> {
    match run {
        BashRun::TimedOut => Err("Command timed out after "@ + dec(ms as nat)
            + "ms and was killed.\n\n--- stdout ---\n\n--- stderr ---\n"@),
        BashRun::Finished { stdout, stderr, code } => {
            let c: int = match code { Some(c) => c as int, None => -1 };
            let report = run_report(stdout@, stderr@, c);
            if c != 0 { Err(report) } else { Ok(report) }
        },
    }
}

fn append_stream(out: &mut String, bytes: &Vec<u8>) -> (cut: bool)
    ensures
        final(out)@ == old(out)@ + shown_stream(bytes@),
        cut == stream_cut(bytes@),
{
    let text = decode_lossy(bytes.as_slice());
    let (shown, cut) = truncate_output(text.as_str(), MAX_OUTPUT_BYTES);
    out.append(shown.as_str());
    cut
}

impl BashTool {
    /// The timeout to run with, in milliseconds.
    pub fn timeout_ms(params: &BashParams) -> (ms: u64)
        ensures
            ms == effective_timeout(params.timeout),
    {
        let asked = match params.timeout {
            Some(v) => v,
            None => DEFAULT_TIMEOUT_MS,
        };
        if asked < MAX_TIMEOUT_MS { asked } else { MAX_TIMEOUT_MS }
    }

    /// The directory the command runs in: the given one resolved, or the root.
    pub fn working_dir(state: &AppState, params: &BashParams) -> (p: String)
        ensures
            p@ == match params.cwd {
                Some(q) => crate::paths::join_path(state.root@, q@),
                None => state.root@,
            },
    {
        match &params.cwd {
            Some(q) => state.resolve(q.as_str()),
            None => state.root.clone(),
        }
    }

    /// The answer when the shell could not be started.
    pub fn spawn_failure(err: &str) -> (m: String)
        ensures
            m@ == "failed to spawn command: "@ + err@,
    {
        let mut m = String::new();
        m.append("failed to spawn command: ");
        m.append(err);
        m
    }

    /// The answer to a command run with timeout `ms`.
    pub fn report(ms: u64, run: BashRun) -> (r: Result<String, String>)
        ensures
            match bash_result(ms, run) {
                Ok(t) => r matches Ok(s) && s@ == t,
                Err(t) => r matches Err(s) && s@ == t,
            },
    {
        match run {
            BashRun::TimedOut => {
                let mut m = String::new();
                m.append("Command timed out after ");
                m.append(decimal(ms).as_str());
                m.append("ms and was killed.\n\n--- stdout ---\n\n--- stderr ---\n");
                Err(m)
            },
            BashRun::Finished { stdout, stderr, code } => {
                let c: i32 = match code { Some(c) => c, None => -1 };
                let mut out = String::new();
                out.append("exit code: ");
                out.append(signed_decimal(c as i64).as_str());
                out.append("\n\n--- stdout ---\n");
                let out_cut = append_stream(&mut out, &stdout);
                if out_cut {
                    out.append("\n(stdout truncated)");
                } else {
                    out.append("");
                }
                out.append("\n\n--- stderr ---\n");
                let err_cut = append_stream(&mut out, &stderr);
                if err_cut {
                    out.append("\n(stderr truncated)");
                } else {
                    out.append("");
                }
                if c != 0 { Err(out) } else { Ok(out) }
            },
        }
    }
}

/// How a captured stream may be shown: as the longest prefix of its decoded
/// text `d` that fits in `MAX_OUTPUT_BYTES` bytes of UTF-8 (all of `d` when it
/// fits).
pub open spec fn fits_shown(d: Seq<char>, o: Seq<char>) -> bool {
    &&& encode_utf8(o).len() <= MAX_OUTPUT_BYTES
    &&& o.len() <= d.len()
    &&& o == d.take(o.len() as int)
    &&& (encode_utf8(d).len() <= MAX_OUTPUT_BYTES ==> o == d)
    &&& (o.len() < d.len() ==> encode_utf8(d.take(o.len() as int + 1)).len() > MAX_OUTPUT_BYTES)
}

/// The report of a finished command gives its exit code, then each stream,
/// stdout first: decoded, cut to the longest prefix that fits in 30 KB of
/// UTF-8, and followed by a note naming the stream exactly when its decoded
/// text is longer than that. The command succeeds exactly when it exited with
/// code 0; otherwise the same report comes back as the error.
pub proof fn law_bash_report(ms: u64, stdout: Vec<u8>, stderr: Vec<u8>, code: Option<i32>)
    ensures
        exists|o: Seq<char>, e: Seq<char>| {
            &&& #[trigger] fits_shown(utf8_lossy(stdout@), o)
            &&& #[trigger] fits_shown(utf8_lossy(stderr@), e)
            &&& bash_result(ms, BashRun::Finished { stdout, stderr, code }) == {
                let c: int = match code { Some(c) => c as int, None => -1 };
                let report = "exit code: "@ + signed_dec(c) + "\n\n--- stdout ---\n"@ + o
                    + (if encode_utf8(utf8_lossy(stdout@)).len() > MAX_OUTPUT_BYTES { "\n(stdout truncated)"@ } else { ""@ })
                    + "\n\n--- stderr ---\n"@ + e
                    + (if encode_utf8(utf8_lossy(stderr@)).len() > MAX_OUTPUT_BYTES { "\n(stderr truncated)"@ } else { ""@ });
                if code == Some(0i32) { Ok::<Seq<char>, Seq<char>>(report) } else { Err::<Seq<char>, Seq<char>>(report) }
            }
        },
{
    lemma_truncated_text(utf8_lossy(stdout@), MAX_OUTPUT_BYTES as int);
    lemma_truncated_text(utf8_lossy(stderr@), MAX_OUTPUT_BYTES as int);
    let o = shown_stream(stdout@);
    let e = shown_stream(stderr@);
    assert(fits_shown(utf8_lossy(stdout@), o));
    assert(fits_shown(utf8_lossy(stderr@), e));
}

} // verus!