//! `edit`: exact string replacement in a file that the session has read.
use vstd::prelude::*;
use crate::state::AppState;
use super::ToolCtx;
use crate::text::{
    chars_of, count_from, count_matches, count_occurrences, dec, decimal, first_match, interleave,
    lemma_first_match, matches_at, replace_all, replace_all_exec, replace_first, replace_first_exec,
    replace_from, string_of,
};

verus! {

/// Parameters of an `edit` call.
pub struct EditParams {
    pub file_path: String,
    pub old_string: String,
    pub new_string: String,
    pub replace_all: bool,
}

/// A computed edit: the new file contents and the answer to give once they are written.
pub struct EditOutcome {
    pub updated: String,
    pub message: String,
}

/// What agents are told about the `edit` tool.
pub const EDIT_DESCRIPTION: &'static str = "Performs exact string replacements in files.\n\n\
Usage:\n\
- You must use the `read` tool at least once on this file (in the same session) before editing it. This tool errors if you attempt an edit without reading the file first.\n\
- When editing text from `read` tool output, preserve exact indentation as it appears AFTER the line-number prefix (`<n>: `); never include the prefix itself in oldString/newString.\n\
- The edit FAILS if oldString is not found in the file.\n\
- The edit FAILS if oldString matches multiple locations and replaceAll is not set — provide more surrounding context, or set replaceAll to true to replace every occurrence.\n\
- ALWAYS prefer editing existing files over creating new ones.";

/// The `edit` tool.
pub struct EditTool;

impl EditTool {
    /// What agents are told about this tool.
    pub fn description(&self) -> (d: String)
        ensures
            d@ == EDIT_DESCRIPTION@,
    {
        EDIT_DESCRIPTION.to_owned()
    }

    /// The name this tool is called by.
    pub fn name(&self) -> (n: &'static str)
        ensures
            n@ == super::tool_name(super::ToolKind::Edit),
    {
        super::ToolKind::Edit.name()
    }
}

/// Characters of a preview line kept before it is cut.
pub const PREVIEW_CHARS: usize = 120;

/// `s` with each newline written as the two characters `\n`.
pub open spec fn escape_newlines(s: Seq<char>) -> Seq<char>
    decreases s.len(),
{
    if s.len() == 0 {
        Seq::empty()
    } else if s.last() == '\n' {
        escape_newlines(s.drop_last()) + seq!['\\', 'n']
    } else {
        escape_newlines(s.drop_last()).push(s.last())
    }
}

/// One side of the preview: newlines escaped, cut to 120 characters with an ellipsis.
pub open spec fn clip(s: Seq<char>) -> Seq<char> {
    let e = escape_newlines(s);
    if e.len() > PREVIEW_CHARS {
        e.take(PREVIEW_CHARS as int) + "…"@
    } else {
        e
    }
}

/// The compact `-`/`+` preview of an edit.
pub open spec fn preview_text(old: Seq<char>, new: Seq<char>) -> Seq<char> {
    "- "@ + clip(old) + "\n+ "@ + clip(new)
}

fn clip_exec(s: &str) -> (r: String)
    ensures
        r@ == clip(s@),
{
    let cs = chars_of(s);
    let mut e: Vec<char> = Vec::new();
    let mut i: usize = 0;
    while i < cs.len()
        invariant
            i <= cs@.len(),
            e@ == escape_newlines(cs@.take(i as int)),
        decreases cs@.len() - i,
    {
        assert(cs@.take(i + 1).drop_last() == cs@.take(i as int));
        if cs[i] == '\n' {
            e.push('\\');
            e.push('n');
            assert(e@ == escape_newlines(cs@.take(i as int)) + seq!['\\', 'n']);
        } else {
            e.push(cs[i]);
        }
        i = i + 1;
    }
    assert(cs@.take(cs@.len() as int) == cs@);
    if e.len() > PREVIEW_CHARS {
        let mut r = crate::text::string_of_range(&e, 0, PREVIEW_CHARS);
        r.append("…");
        assert(e@.subrange(0, PREVIEW_CHARS as int) == e@.take(PREVIEW_CHARS as int));
        r
    } else {
        string_of(&e)
    }
}

/// The compact `-`/`+` preview of replacing `old` by `new`.
pub fn preview(old: &str, new: &str) -> (r: String)
    ensures
        r@ == preview_text(old@, new@),
{
    let mut r = String::new();
    r.append("- ");
    r.append(clip_exec(old).as_str());
    r.append("\n+ ");
    r.append(clip_exec(new).as_str());
    r
}

/// The answer to an `edit` that cannot start: the path is missing, the
/// session has not read it, or the replacement changes nothing.
pub open spec fn refusal(exists: bool, has_read: bool, path: Seq<char>, old: Seq<char>, new: Seq<char>) -> Option<Seq<char>> {
    if !exists {
        Some("File not found: "@ + path
            + ". Use the `read` tool first (edit only modifies existing files; use bash/write to create new ones)."@)
    } else if !has_read {
        Some("You must read "@ + path + " with the `read` tool before editing it."@)
    } else if old == new {
        Some("oldString and newString are identical — nothing to do."@)
    } else {
        None
    }
}

/// The answer to a successful edit of `path` with `n` replacements.
pub open spec fn edited_text(path: Seq<char>, n: nat, old: Seq<char>, new: Seq<char>) -> Seq<char> {
    "Edited "@ + path + " ("@ + dec(n) + " replacement"@ + (if n == 1 { ""@ } else { "s"@ }) + ").\n\n"@
        + preview_text(old, new)
}

/// What an edit of `content` yields: an error text, or the new contents with
/// the number of replacements made.
pub open spec fn edit_result(content: Seq<char>, old: Seq<char>, new: Seq<char>, all: bool) -> Result<(Seq<char>, nat), Seq<char>> {
    let count = count_matches(content, old);
    if count == 0 {
        Err("oldString not found in content"@)
    } else if count > 1 && !all {
        Err("Found "@ + dec(count)
            + " matches for oldString. Provide more surrounding lines in oldString to identify the correct match, or set replaceAll to true."@)
    } else if all {
        Ok((replace_all(content, old, new), count))
    } else {
        Ok((replace_first(content, old, new), 1))
    }
}

impl EditTool {
    /// The file to edit: the given path resolved.
    pub fn target(state: &AppState, params: &EditParams) -> (p: String)
        ensures
            p@ == crate::paths::join_path(state.root@, params.file_path@),
    {
        state.resolve(params.file_path.as_str())
    }

    /// Checks, in order, that the file exists, that this session has read it
    /// (`read_key` is its normalized path), and that the edit changes something.
    pub fn check(state: &AppState, ctx: &ToolCtx, read_key: &str, path: &str, exists: bool, params: &EditParams)
        -> (r: Result<(), String>)
        ensures
            r is Ok <==> refusal(exists, state.files_of(ctx.session@).contains(read_key@), path@,
                params.old_string@, params.new_string@) is None,
            r matches Err(m) ==> Some(m@) == refusal(exists, state.files_of(ctx.session@).contains(read_key@),
                path@, params.old_string@, params.new_string@),
    {
        if !exists {
            let mut m = String::new();
            m.append("File not found: ");
            m.append(path);
            m.append(". Use the `read` tool first (edit only modifies existing files; use bash/write to create new ones).");
            return Err(m);
        }
        if !state.has_read(ctx.session.as_str(), read_key) {
            let mut m = String::new();
            m.append("You must read ");
            m.append(path);
            m.append(" with the `read` tool before editing it.");
            return Err(m);
        }
        if params.old_string == params.new_string {
            return Err("oldString and newString are identical — nothing to do.".to_owned());
        }
        Ok(())
    }

    /// Applies the edit to the text read from `path`; on success, the new
    /// contents and the answer to give once they are written.
    pub fn apply(path: &str, content: Result<String, String>, params: &EditParams) -> (r: Result<EditOutcome, String>)
        requires
            content matches Ok(c) ==> c@.len() < usize::MAX,
        ensures
            match content {
                Err(e) => r matches Err(m) && m@ == "failed to read "@ + path@ + ": "@ + e@,
                Ok(c) => match edit_result(c@, params.old_string@, params.new_string@, params.replace_all) {
                    Err(t) => r matches Err(m) && m@ == t,
                    Ok((u, n)) => r matches Ok(o) && o.updated@ == u
                        && o.message@ == edited_text(path@, n, params.old_string@, params.new_string@),
                },
            },
    {
        let text = match content {
            Err(e) => {
                let mut m = String::new();
                m.append("failed to read ");
                m.append(path);
                m.append(": ");
                m.append(e.as_str());
                return Err(m);
            },
            Ok(c) => c,
        };
        let cs = chars_of(text.as_str());
        let old = chars_of(params.old_string.as_str());
        let new = chars_of(params.new_string.as_str());
        let count = count_occurrences(&cs, &old);
        if count == 0 {
            return Err("oldString not found in content".to_owned());
        }
        if count > 1 && !params.replace_all {
            let mut m = String::new();
            m.append("Found ");
            m.append(decimal(count as u64).as_str());
            m.append(" matches for oldString. Provide more surrounding lines in oldString to identify the correct match, or set replaceAll to true.");
            return Err(m);
        }
        let updated = if params.replace_all {
            replace_all_exec(&cs, &old, &new)
        } else {
            replace_first_exec(&cs, &old, &new)
        };
        let replacements: usize = if params.replace_all { count } else { 1 };
        let mut message = String::new();
        message.append("Edited ");
        message.append(path);
        message.append(" (");
        message.append(decimal(replacements as u64).as_str());
        message.append(" replacement");
        if replacements == 1 {
            message.append("");
        } else {
            message.append("s");
        }
        message.append(").\n\n");
        message.append(preview(params.old_string.as_str(), params.new_string.as_str()).as_str());
        Ok(EditOutcome { updated: string_of(&updated), message })
    }

    /// Completes an edit once the write was attempted: on success the file
    /// counts as read by this session and the prepared answer is returned.
    pub fn finish(state: &mut AppState, ctx: &ToolCtx, read_key: &str, path: &str,
        written: Result<(), String>, message: String) -> (r: Result<String, String>)
        ensures
            match written {
                Err(e) => r matches Err(m) && m@ == "failed to write "@ + path@ + ": "@ + e@
                    && final(state).read_sets() == old(state).read_sets(),
                Ok(()) => r matches Ok(m) && m@ == message@
                    && final(state).read_sets() == old(state).read_sets().insert(
                        ctx.session@, old(state).files_of(ctx.session@).insert(read_key@)),
            },
            final(state).root == old(state).root,
    {
        match written {
            Err(e) => {
                let mut m = String::new();
                m.append("failed to write ");
                m.append(path);
                m.append(": ");
                m.append(e.as_str());
                Err(m)
            },
            Ok(()) => {
                state.mark_read(ctx.session.as_str(), read_key);
                Ok(message)
            },
        }
    }
}


/// A successful edit without `replaceAll` replaces exactly one occurrence:
/// the text had exactly one match, at some index `j`, and only the matched
/// part changes.
pub proof fn law_single_edit(content: Seq<char>, old: Seq<char>, new: Seq<char>)
    requires
        edit_result(content, old, new, false) is Ok,
    ensures
        count_matches(content, old) == 1,
        first_match(content, old, 0) matches Some(j) && {
            &&& content == content.subrange(0, j) + old + content.subrange(j + old.len(), content.len() as int)
            &&& edit_result(content, old, new, false) == Ok::<(Seq<char>, nat), Seq<char>>((
                content.subrange(0, j) + new + content.subrange(j + old.len(), content.len() as int), 1))
        },
{
    lemma_first_match(content, old, 0);
    if old.len() == 0 {
        assert(content.subrange(0, 0) =~= old);
        assert(matches_at(content, old, 0));
    } else {
        assert(count_matches(content, old) == count_from(content, old, 0));
    }
    assert(first_match(content, old, 0) is Some);
    let j = first_match(content, old, 0)->Some_0;
    assert(content =~= content.subrange(0, j) + old + content.subrange(j + old.len(), content.len() as int));
}

/// Replacing a string by itself changes nothing, whether one occurrence or all
/// are replaced (which is why `edit` refuses such a call).
pub proof fn law_replace_with_itself(content: Seq<char>, p: Seq<char>)
    ensures
        replace_first(content, p, p) == content,
        replace_all(content, p, p) == content,
{
    lemma_first_match(content, p, 0);
    if let Some(j) = first_match(content, p, 0) {
        assert(content =~= content.subrange(0, j) + p + content.subrange(j + p.len(), content.len() as int));
    }
    if p.len() == 0 {
        lemma_interleave_empty(content);
        assert(p =~= Seq::<char>::empty());
    } else {
        lemma_replace_from_itself(content, p, 0);
        assert(content.subrange(0, content.len() as int) =~= content);
    }
}

proof fn lemma_interleave_empty(s: Seq<char>)
    ensures
        interleave(s, Seq::empty()) == s,
    decreases s.len(),
{
    if s.len() > 0 {
        lemma_interleave_empty(s.drop_first());
        assert(Seq::<char>::empty() + seq![s[0]] + s.drop_first() =~= s);
    }
}

proof fn lemma_replace_from_itself(s: Seq<char>, p: Seq<char>, i: int)
    requires
        p.len() > 0,
        0 <= i <= s.len(),
    ensures
        replace_from(s, p, p, i) == s.subrange(i, s.len() as int),
    decreases s.len() - i,
{
    lemma_first_match(s, p, i);
    if let Some(j) = first_match(s, p, i) {
        lemma_replace_from_itself(s, p, j + p.len());
        assert(s.subrange(i, j) + p + s.subrange(j + p.len(), s.len() as int) =~= s.subrange(i, s.len() as int));
    }
}

/// Undoing a single edit: if `new` occurs in the edited text only where it was
/// put, replacing its first occurrence by `old` gives back the original text.
pub proof fn law_single_edit_undo(content: Seq<char>, old: Seq<char>, new: Seq<char>, j: int)
    requires
        first_match(content, old, 0) == Some(j),
        forall|k: int| #[trigger] matches_at(replace_first(content, old, new), new, k) ==> k == j,
    ensures
        replace_first(replace_first(content, old, new), new, old) == content,
{
    lemma_first_match(content, old, 0);
    let u = replace_first(content, old, new);
    let a = content.subrange(0, j);
    let b = content.subrange(j + old.len(), content.len() as int);
    assert(u == a + new + b);
    assert(u.subrange(j, j + new.len()) =~= new);
    assert(matches_at(u, new, j));
    lemma_first_match(u, new, 0);
    assert(first_match(u, new, 0) == Some(j));
    assert(u.subrange(0, j) =~= a);
    assert(u.subrange(j + new.len(), u.len() as int) =~= b);
    assert(a + old + b =~= content);
}


/// Once a session has read a file (the state after `mark_read(session, key)`),
/// an edit of that existing file is no longer refused for want of a read:
/// only an edit that changes nothing is still refused.
pub proof fn law_read_enables_edit(before: AppState, after: AppState, session: Seq<char>, key: Seq<char>,
    path: Seq<char>, old: Seq<char>, new: Seq<char>)
    requires
        after.read_sets() == before.read_sets().insert(session, before.files_of(session).insert(key)),
    ensures
        refusal(true, after.files_of(session).contains(key), path, old, new) is None <==> old != new,
{
    crate::state::law_mark_read_effect(before, after, session, key);
}


proof fn lemma_single_occurrence_count(u: Seq<char>, p: Seq<char>, j: int)
    requires
        p.len() > 0,
        matches_at(u, p, j),
        forall|k: int| #[trigger] matches_at(u, p, k) ==> k == j,
    ensures
        first_match(u, p, 0) == Some(j),
        count_matches(u, p) == 1,
{
    lemma_first_match(u, p, 0);
    lemma_first_match(u, p, j + p.len());
    assert(first_match(u, p, j + p.len()) is None);
    assert(count_from(u, p, j + p.len()) == 0);
}

/// Editing back: after a successful edit of `content` from `old` to `new`
/// (neither empty), in which `new` occurs in the edited text only where it
/// was put, the reverse edit from `new` to `old` in the same session is not
/// refused (the first edit left the file read) and gives back `content`
/// with one replacement.
pub proof fn law_edit_roundtrip(before: AppState, after: AppState, session: Seq<char>, key: Seq<char>,
    path: Seq<char>, content: Seq<char>, old: Seq<char>, new: Seq<char>)
    requires
        old.len() > 0,
        new.len() > 0,
        refusal(true, before.files_of(session).contains(key), path, old, new) is None,
        edit_result(content, old, new, false) is Ok,
        first_match(content, old, 0) matches Some(j)
            && forall|k: int| #[trigger] matches_at(replace_first(content, old, new), new, k) ==> k == j,
        after.read_sets() == before.read_sets().insert(session, before.files_of(session).insert(key)),
    ensures
        refusal(true, after.files_of(session).contains(key), path, new, old) is None,
        edit_result(replace_first(content, old, new), new, old, false)
            == Ok::<(Seq<char>, nat), Seq<char>>((content, 1)),
{
    let j = first_match(content, old, 0)->Some_0;
    law_single_edit(content, old, new);
    law_single_edit_undo(content, old, new, j);
    crate::state::law_mark_read_effect(before, after, session, key);
    let u = replace_first(content, old, new);
    lemma_first_match(content, old, 0);
    assert(u.subrange(j, j + new.len()) =~= new);
    lemma_single_occurrence_count(u, new, j);
}

} // verus!
