//! `read`: numbered file contents, directory listings, and "did you mean"
//! suggestions for missing paths.
use vstd::prelude::*;
use crate::paths::{join_path, path_file_name, path_parent};
use crate::sort::{lex_leq, sort_strings};
use crate::text::{chars_of, dec, decimal, decode_lossy, lines, split_lines, string_of, string_of_range, utf8_lossy, views, contains, contains_seq, join, join_strings, lowercase, string_views, to_lowercase};
use crate::state::AppState;
use super::{ToolCtx, MAX_LINE_LENGTH};

verus! {

/// Lines shown when the caller gives no limit.
pub const DEFAULT_READ_LIMIT: usize = 2000;

/// Bytes at the start of a file searched for a NUL to tell binary content.
pub const BINARY_PROBE_BYTES: usize = 4096;

/// Parameters of a `read` call.
pub struct ReadParams {
    pub file_path: String,
    pub offset: Option<usize>,
    pub limit: Option<usize>,
}

/// What a `read` call does once the path's kind is known.
pub enum ReadPlan {
    /// Nothing is at the path: answer with suggestions from its directory.
    Missing,
    /// List the directory.
    Directory,
    /// Show the file's lines from `offset` (1-based), at most `limit` of them.
    File { offset: usize, limit: usize },
}

/// One directory entry as `read` lists it.
pub struct DirEntryInfo {
    pub name: String,
    /// The entry is a directory, or a symbolic link to one.
    pub is_dir: bool,
}

/// Why a directory could not be listed.
pub enum DirListError {
    /// The directory could not be opened; the system's message.
    Open(String),
    /// An entry's type could not be read; the system's message.
    Entry(String),
}

/// What agents are told about the `read` tool.
pub const READ_DESCRIPTION: &'static str = "Read a file or directory from the local filesystem. If the path does not exist, an error is returned.\n\n\
Usage:\n\
- The filePath parameter should be an absolute path.\n\
- By default, this tool returns up to 2000 lines from the start of the file.\n\
- The offset parameter is the line number to start from (1-indexed).\n\
- To read later sections, call this tool again with a larger offset.\n\
- Use the grep tool to find specific content in large files or files with long lines.\n\
- If you are unsure of the correct file path, use the glob tool to look up filenames by glob pattern.\n\
- Contents are returned with each line prefixed by its line number as `<line>: <content>`.\n\
- Any line longer than 2000 characters is truncated.\n\
- For directories, entries are returned one per line (without line numbers) with a trailing `/` for subdirectories.";

/// The `read` tool.
pub struct ReadTool;

impl ReadTool {
    /// What agents are told about this tool.
    pub fn description(&self) -> (d: String)
        ensures
            d@ == READ_DESCRIPTION@,
    {
        READ_DESCRIPTION.to_owned()
    }

    /// The name this tool is called by.
    pub fn name(&self) -> (n: &'static str)
        ensures
            n@ == super::tool_name(super::ToolKind::Read),
    {
        super::ToolKind::Read.name()
    }
}

impl ReadTool {
    /// Chooses what to do with the resolved path from whether it exists and is a directory.
    pub fn plan(params: &ReadParams, exists: bool, is_dir: bool) -> (p: ReadPlan)
        ensures
            !exists ==> p is Missing,
            exists && is_dir ==> p is Directory,
            exists && !is_dir ==> p == (ReadPlan::File {
                offset: match params.offset { Some(o) => o, None => 1 },
                limit: match params.limit { Some(l) => l, None => DEFAULT_READ_LIMIT },
            }),
    {
        if !exists {
            ReadPlan::Missing
        } else if is_dir {
            ReadPlan::Directory
        } else {
            ReadPlan::File {
                offset: match params.offset { Some(o) => o, None => 1 },
                limit: match params.limit { Some(l) => l, None => DEFAULT_READ_LIMIT },
            }
        }
    }
}

// ---------------------------------------------------------------------------
// Missing paths

/// The directory searched for suggestions: the path's parent, or `.`.
pub open spec fn miss_dir(path: Seq<char>) -> Seq<char> {
    match path_parent(path) {
        Some(d) => d,
        None => "."@,
    }
}

/// The lowercased final component of the path, or empty.
pub open spec fn miss_base(path: Seq<char>) -> Seq<char> {
    match path_file_name(path) {
        Some(n) => lowercase(n),
        None => Seq::empty(),
    }
}

/// A sibling named `name` is suggested when its lowercased name contains the
/// lowercased base name, or the other way round.
pub open spec fn is_suggestion(base: Seq<char>, name: Seq<char>) -> bool {
    contains_seq(lowercase(name), base) || contains_seq(base, lowercase(name))
}

/// The first `limit` suggested siblings, joined onto `dir`.
pub open spec fn pick_suggestions(dir: Seq<char>, base: Seq<char>, names: Seq<Seq<char>>, limit: nat) -> Seq<Seq<char>>
    decreases names.len(),
{
    if names.len() == 0 || limit == 0 {
        Seq::empty()
    } else if is_suggestion(base, names[0]) {
        seq![join_path(dir, names[0])] + pick_suggestions(dir, base, names.drop_first(), (limit - 1) as nat)
    } else {
        pick_suggestions(dir, base, names.drop_first(), limit)
    }
}

/// The answer to a `read` of a missing path, given the names found in its
/// directory (in directory order): up to three suggestions.
pub open spec fn miss_text(path: Seq<char>, names: Seq<Seq<char>>) -> Seq<char> {
    let picks = pick_suggestions(miss_dir(path), miss_base(path), names, 3);
    if picks.len() == 0 {
        "File not found: "@ + path
    } else {
        "File not found: "@ + path + "\n\nDid you mean one of these?\n"@ + join(picks, "\n"@)
    }
}

/// The directory whose entries `miss_message` needs.
pub fn suggestion_dir(path: &str) -> (d: String)
    ensures
        d@ == miss_dir(path@),
{
    match crate::paths::parent(path) {
        Some(d) => d,
        None => ".".to_owned(),
    }
}

proof fn lemma_pick_push(dir: Seq<char>, base: Seq<char>, names: Seq<Seq<char>>, i: int, limit: nat)
    requires
        0 <= i < names.len(),
        limit > 0,
    ensures
        pick_suggestions(dir, base, names.skip(i), limit) == if is_suggestion(base, names[i]) {
            seq![join_path(dir, names[i])] + pick_suggestions(dir, base, names.skip(i + 1), (limit - 1) as nat)
        } else {
            pick_suggestions(dir, base, names.skip(i + 1), limit)
        },
{
    assert(names.skip(i).drop_first() == names.skip(i + 1));
    assert(names.skip(i)[0] == names[i]);
}

/// The answer to a `read` of a missing path; `siblings` are the names in the
/// directory given by `suggestion_dir`, in directory order (empty when it
/// cannot be listed).
pub fn miss_message(path: &str, siblings: &Vec<String>) -> (m: String)
    ensures
        m@ == miss_text(path@, string_views(siblings@)),
{
    let dir = suggestion_dir(path);
    let base: Vec<char> = match crate::paths::file_name(path) {
        Some(n) => chars_of(to_lowercase(n.as_str()).as_str()),
        None => Vec::new(),
    };
    let ghost names = string_views(siblings@);
    let mut picks: Vec<String> = Vec::new();
    let mut i: usize = 0;
    assert(names.skip(0) == names);
    while i < siblings.len() && picks.len() < 3
        invariant
            i <= siblings@.len(),
            picks@.len() <= 3,
            names == string_views(siblings@),
            dir@ == miss_dir(path@),
            base@ == miss_base(path@),
            string_views(picks@) + pick_suggestions(dir@, base@, names.skip(i as int), (3 - picks@.len()) as nat)
                == pick_suggestions(dir@, base@, names, 3),
        decreases siblings@.len() - i,
    {
        let lower = chars_of(to_lowercase(siblings[i].as_str()).as_str());
        proof {
            lemma_pick_push(dir@, base@, names, i as int, (3 - picks@.len()) as nat);
        }
        if contains(&lower, &base) || contains(&base, &lower) {
            let joined = crate::paths::join(dir.as_str(), siblings[i].as_str());
            let ghost before = string_views(picks@);
            picks.push(joined);
            assert(string_views(picks@) == before.push(joined@));
            assert(before.push(joined@) + pick_suggestions(dir@, base@, names.skip(i + 1), (3 - picks@.len()) as nat)
                =~= before + (seq![joined@] + pick_suggestions(dir@, base@, names.skip(i + 1), (3 - picks@.len()) as nat)));
        }
        i = i + 1;
    }
    proof {
        if i == siblings@.len() {
            assert(names.skip(i as int).len() == 0);
        }
        assert(pick_suggestions(dir@, base@, names.skip(i as int), (3 - picks@.len()) as nat) == Seq::<Seq<char>>::empty());
        assert(string_views(picks@) + Seq::<Seq<char>>::empty() == string_views(picks@));
    }
    let mut m = String::new();
    m.append("File not found: ");
    m.append(path);
    if picks.len() > 0 {
        m.append("\n\nDid you mean one of these?\n");
        let listed = join_strings(&picks, "\n");
        m.append(listed.as_str());
    }
    m
}

// ---------------------------------------------------------------------------
// Directories

/// How an entry is listed: directories get a trailing `/`.
pub open spec fn entry_label(e: DirEntryInfo) -> Seq<char> {
    if e.is_dir {
        e.name@ + "/"@
    } else {
        e.name@
    }
}

/// The listing of a directory with the given entries: labels sorted by code
/// point, one per line, or a note that the directory is empty.
pub open spec fn listing_text(path: Seq<char>, entries: Seq<DirEntryInfo>) -> Seq<char> {
    let labels = entries.map_values(|e: DirEntryInfo| entry_label(e));
    if labels.len() == 0 {
        path + "\n(empty directory)"@
    } else {
        join(labels.sort_by(lex_leq()), "\n"@)
    }
}

/// The answer to a `read` of a directory, from what listing it gave.
pub fn read_directory(path: &str, listing: Result<Vec<DirEntryInfo>, DirListError>) -> (r: Result<String, String>)
    ensures
        match listing {
            Ok(entries) => r matches Ok(t) && t@ == listing_text(path@, entries@),
            Err(DirListError::Open(e)) => r matches Err(m) && m@ == "failed to read directory "@ + path@ + ": "@ + e@,
            Err(DirListError::Entry(e)) => r matches Err(m) && m@ == e@,
        },
{
    match listing {
        Err(DirListError::Open(e)) => {
            let mut m = String::new();
            m.append("failed to read directory ");
            m.append(path);
            m.append(": ");
            m.append(e.as_str());
            Err(m)
        },
        Err(DirListError::Entry(e)) => Err(e),
        Ok(entries) => {
            let ghost labels = entries@.map_values(|e: DirEntryInfo| entry_label(e));
            let mut names: Vec<String> = Vec::new();
            let mut i: usize = 0;
            while i < entries.len()
                invariant
                    i <= entries@.len(),
                    labels == entries@.map_values(|e: DirEntryInfo| entry_label(e)),
                    string_views(names@) == labels.take(i as int),
                decreases entries@.len() - i,
            {
                let mut name = entries[i].name.clone();
                if entries[i].is_dir {
                    name.append("/");
                }
                let ghost before = string_views(names@);
                names.push(name);
                assert(string_views(names@) =~= before.push(name@));
                assert(labels.take(i + 1) =~= labels.take(i as int).push(labels[i as int]));
                i = i + 1;
            }
            assert(labels.take(entries@.len() as int) == labels);
            if names.len() == 0 {
                let mut m = String::new();
                m.append(path);
                m.append("\n(empty directory)");
                Ok(m)
            } else {
                let sorted = sort_strings(names);
                Ok(join_strings(&sorted, "\n"))
            }
        },
    }
}


// ---------------------------------------------------------------------------
// Files

/// A NUL byte occurs among the first `BINARY_PROBE_BYTES` bytes.
pub open spec fn looks_binary(bytes: Seq<u8>) -> bool {
    exists|k: int| 0 <= k < bytes.len() && k < BINARY_PROBE_BYTES && bytes[k] == 0
}

/// The answer for a file that looks binary.
pub open spec fn binary_text(path: Seq<char>, n: nat) -> Seq<char> {
    path + "\n(binary file, "@ + dec(n)
        + " bytes — this server does not decode binary attachments; use bash with a hex/text tool if you need to inspect it)"@
}

/// Index of the first shown line: `offset - 1` (offset 0 counts as 1), at most `total`.
pub open spec fn window_start(offset: nat, total: nat) -> nat {
    let s: nat = if offset == 0 { 0 } else { (offset - 1) as nat };
    if s < total { s } else { total }
}

/// One past the last shown line.
pub open spec fn window_end(start: nat, limit: nat, total: nat) -> nat {
    if start + limit < total { start + limit } else { total }
}

/// How line number `no` with text `line` is shown; lines over the cap are cut.
pub open spec fn line_entry(no: nat, line: Seq<char>) -> Seq<char> {
    if line.len() > MAX_LINE_LENGTH {
        dec(no) + ": "@ + line.take(MAX_LINE_LENGTH as int) + "... (line truncated to 2000 chars)\n"@
    } else {
        dec(no) + ": "@ + line + "\n"@
    }
}

/// Lines `start..k` of `ls`, each numbered from 1.
pub open spec fn numbered(ls: Seq<Seq<char>>, start: int, k: int) -> Seq<char>
    decreases k - start,
{
    if k <= start {
        Seq::empty()
    } else {
        numbered(ls, start, k - 1) + line_entry(k as nat, ls[k - 1])
    }
}

/// The note that more lines follow, when the window stops before the end.
pub open spec fn more_note(start: nat, end: nat, total: nat) -> Seq<char> {
    if end < total {
        "\n(File has more lines. Showing "@ + dec(start + 1) + "-"@ + dec(end) + " of "@ + dec(total)
            + ". Call again with offset="@ + dec(end + 1) + " to continue.)\n"@
    } else {
        Seq::empty()
    }
}

/// The answer for the lines `ls` read from `offset` with `limit`.
pub open spec fn window_text(ls: Seq<Seq<char>>, offset: nat, limit: nat) -> Seq<char> {
    let total = ls.len();
    let start = window_start(offset, total);
    let end = window_end(start, limit, total);
    let body = numbered(ls, start as int, end as int) + more_note(start, end, total);
    if body.len() == 0 {
        "(empty file)"@
    } else {
        body
    }
}

/// The answer for the text `content` read from `offset` with `limit`.
pub open spec fn text_window(content: Seq<char>, offset: nat, limit: nat) -> Seq<char> {
    window_text(lines(content), offset, limit)
}

/// The answer for a file with contents `bytes`.
pub open spec fn file_text(path: Seq<char>, bytes: Seq<u8>, offset: nat, limit: nat) -> Seq<char> {
    if looks_binary(bytes) {
        binary_text(path, bytes.len())
    } else {
        text_window(utf8_lossy(bytes), offset, limit)
    }
}

fn looks_binary_exec(bytes: &Vec<u8>) -> (b: bool)
    ensures
        b == looks_binary(bytes@),
{
    let mut k: usize = 0;
    while k < bytes.len() && k < BINARY_PROBE_BYTES
        invariant
            k <= bytes@.len(),
            forall|j: int| 0 <= j < k ==> bytes@[j] != 0,
        decreases bytes@.len() - k,
    {
        if bytes[k] == 0 {
            return true;
        }
        k = k + 1;
    }
    false
}

fn append_line_entry(out: &mut String, no: usize, line: &Vec<char>)
    ensures
        final(out)@ == old(out)@ + line_entry(no as nat, line@),
{
    out.append(decimal(no as u64).as_str());
    out.append(": ");
    if line.len() > MAX_LINE_LENGTH {
        out.append(string_of_range(line, 0, MAX_LINE_LENGTH).as_str());
        out.append("... (line truncated to 2000 chars)\n");
        assert(line@.subrange(0, MAX_LINE_LENGTH as int) == line@.take(MAX_LINE_LENGTH as int));
    } else {
        out.append(string_of(line).as_str());
        out.append("\n");
    }
}

/// The lines of the decoded contents of `bytes`.
pub fn decoded_lines(bytes: &Vec<u8>) -> (ls: Vec<Vec<char>>)
    ensures
        views(ls@) == lines(utf8_lossy(bytes@)),
{
    let text = decode_lossy(bytes.as_slice());
    let chars = chars_of(text.as_str());
    split_lines(&chars)
}

fn binary_message(path: &str, n: usize) -> (m: String)
    ensures
        m@ == binary_text(path@, n as nat),
{
    let mut m = String::new();
    m.append(path);
    m.append("\n(binary file, ");
    m.append(decimal(n as u64).as_str());
    m.append(" bytes — this server does not decode binary attachments; use bash with a hex/text tool if you need to inspect it)");
    m
}

fn append_more_note(out: &mut String, start: usize, end: usize, total: usize)
    requires
        start <= end <= total,
    ensures
        final(out)@ == old(out)@ + more_note(start as nat, end as nat, total as nat),
{
    if end < total {
        out.append("\n(File has more lines. Showing ");
        out.append(decimal((start + 1) as u64).as_str());
        out.append("-");
        out.append(decimal(end as u64).as_str());
        out.append(" of ");
        out.append(decimal(total as u64).as_str());
        out.append(". Call again with offset=");
        out.append(decimal((end + 1) as u64).as_str());
        out.append(" to continue.)\n");
    } else {
        assert(old(out)@ + Seq::<char>::empty() == old(out)@);
    }
}

/// The answer for the lines `ls` read from `offset` with `limit`.
pub fn render_window(ls: &Vec<Vec<char>>, offset: usize, limit: usize) -> (r: String)
    ensures
        r@ == window_text(views(ls@), offset as nat, limit as nat),
{
    let total = ls.len();
    let s0: usize = if offset == 0 { 0 } else { offset - 1 };
    let start = if s0 < total { s0 } else { total };
    let end = if limit < total - start { start + limit } else { total };
    let mut out = String::new();
    let mut k = start;
    while k < end
        invariant
            start <= k <= end <= total,
            total == ls@.len(),
            out@ == numbered(views(ls@), start as int, k as int),
        decreases end - k,
    {
        append_line_entry(&mut out, k + 1, &ls[k]);
        k = k + 1;
    }
    append_more_note(&mut out, start, end, total);
    if out.as_str().is_empty() {
        return "(empty file)".to_owned();
    }
    out
}

/// The answer to a `read` of a file whose contents are `bytes`.
pub fn read_file(path: &str, bytes: &Vec<u8>, offset: usize, limit: usize) -> (r: String)
    ensures
        r@ == file_text(path@, bytes@, offset as nat, limit as nat),
{
    if looks_binary_exec(bytes) {
        return binary_message(path, bytes.len());
    }
    let ls = decoded_lines(bytes);
    render_window(&ls, offset, limit)
}

/// The value of what reading a file gave: its bytes, or the error's text.
pub open spec fn bytes_view(b: Result<Vec<u8>, String>) -> Result<Seq<u8>, Seq<char>> {
    match b {
        Ok(v) => Ok(v@),
        Err(e) => Err(e@),
    }
}

/// The value of a tool's answer.
pub open spec fn outcome_view(r: Result<String, String>) -> Result<Seq<char>, Seq<char>> {
    match r {
        Ok(t) => Ok(t@),
        Err(e) => Err(e@),
    }
}

/// Completing a `read` of a file: from the state `before`, with what reading
/// `path` gave, the answer `r` and the state `after`. A read error is answered
/// and changes nothing; the file's contents are answered with its text, and
/// `key` then counts as read by `session`.
pub open spec fn read_file_step(before: AppState, after: AppState, session: Seq<char>, key: Seq<char>,
    path: Seq<char>, bytes: Result<Seq<u8>, Seq<char>>, offset: nat, limit: nat,
    r: Result<Seq<char>, Seq<char>>) -> bool {
    &&& after.root == before.root
    &&& match bytes {
        Err(e) => r == Err::<Seq<char>, Seq<char>>("failed to read "@ + path + ": "@ + e)
            && after.read_sets() == before.read_sets(),
        Ok(b) => r == Ok::<Seq<char>, Seq<char>>(file_text(path, b, offset, limit))
            && after.read_sets() == before.read_sets().insert(session, before.files_of(session).insert(key)),
    }
}

/// A `read` of an existing file, as `plan` and `finish_file` carry it out:
/// with the caller's offset and limit or their defaults (1 and 2000), when the
/// file could be read the answer is its numbered text and the file counts as
/// read by the session; when it could not, every session's reads stay as they
/// were; other sessions are never touched.
pub proof fn law_read_call(offset: Option<usize>, limit: Option<usize>, before: AppState, after: AppState,
    session: Seq<char>, key: Seq<char>, path: Seq<char>, bytes: Result<Seq<u8>, Seq<char>>,
    r: Result<Seq<char>, Seq<char>>)
    requires
        read_file_step(before, after, session, key, path, bytes,
            match offset { Some(o) => o as nat, None => 1 },
            match limit { Some(l) => l as nat, None => DEFAULT_READ_LIMIT as nat }, r),
    ensures
        r is Ok <==> bytes is Ok,
        r matches Ok(t) ==> bytes matches Ok(b) && t == file_text(path, b,
            match offset { Some(o) => o as nat, None => 1 },
            match limit { Some(l) => l as nat, None => DEFAULT_READ_LIMIT as nat })
            && after.files_of(session).contains(key),
        r is Err ==> after.read_sets() == before.read_sets(),
        forall|other: Seq<char>| other != session ==> after.files_of(other) == before.files_of(other),
{
    if after.read_sets() != before.read_sets() {
        crate::state::law_mark_read_effect(before, after, session, key);
    }
}

impl ReadTool {
    /// The path to read: the given path resolved.
    pub fn target(state: &AppState, params: &ReadParams) -> (p: String)
        ensures
            p@ == crate::paths::join_path(state.root@, params.file_path@),
    {
        state.resolve(params.file_path.as_str())
    }

    /// Completes a `read` of a file from what reading `path` gave: the
    /// numbered window on success, after which the file (`read_key`, its
    /// normalized path) counts as read by this session; the read error
    /// otherwise.
    pub fn finish_file(state: &mut AppState, ctx: &ToolCtx, read_key: &str, path: &str,
        bytes: Result<Vec<u8>, String>, offset: usize, limit: usize) -> (r: Result<String, String>)
        ensures
            read_file_step(*old(state), *final(state), ctx.session@, read_key@, path@, bytes_view(bytes),
                offset as nat, limit as nat, outcome_view(r)),
    {
        match bytes {
            Err(e) => {
                let mut m = String::new();
                m.append("failed to read ");
                m.append(path);
                m.append(": ");
                m.append(e.as_str());
                Err(m)
            },
            Ok(b) => {
                let t = read_file(path, &b, offset, limit);
                state.mark_read(ctx.session.as_str(), read_key);
                Ok(t)
            },
        }
    }
}

/// A file is reported as binary, by its path and size alone, exactly when a
/// NUL byte stands anywhere among its first 4096 bytes, whatever precedes it;
/// any other file is shown as its decoded text, in the window asked for.
pub proof fn law_binary_files(path: Seq<char>, bytes: Seq<u8>, offset: nat, limit: nat)
    ensures
        (exists|k: int| 0 <= k < bytes.len() && k < 4096 && #[trigger] bytes[k] == 0)
            ==> file_text(path, bytes, offset, limit) == path + "\n(binary file, "@ + dec(bytes.len())
                + " bytes — this server does not decode binary attachments; use bash with a hex/text tool if you need to inspect it)"@,
        (forall|k: int| 0 <= k < bytes.len() && k < 4096 ==> #[trigger] bytes[k] != 0)
            ==> file_text(path, bytes, offset, limit) == text_window(utf8_lossy(bytes), offset, limit),
{
}

} // verus!
