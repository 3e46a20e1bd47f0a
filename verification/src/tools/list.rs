//! `list`: an indented tree of the entries under a directory.
use vstd::prelude::*;
use crate::paths::{path_file_name, path_strip_prefix};
use crate::state::AppState;
use crate::text::{join, join_strings, string_views};

verus! {

/// Levels descended when the caller gives no depth.
pub const DEFAULT_DEPTH: usize = 3;

/// Entries listed at most.
pub const MAX_ENTRIES: usize = 500;

/// Parameters of a `list` call.
pub struct ListParams {
    pub path: Option<String>,
    pub depth: Option<usize>,
}

/// An entry produced by the walk, in walk order: its path, its depth below
/// the listed directory (0 for the directory itself), and whether it is a directory.
pub struct ListEntry {
    pub path: String,
    pub depth: usize,
    pub is_dir: bool,
}

/// What agents are told about the `list` tool.
pub const LIST_DESCRIPTION: &'static str = "Lists files and directories in a tree under the given path (defaults to the working directory).\n\n\
Usage:\n\
- path should be an absolute directory path; relative paths are resolved against the server's working directory.\n\
- depth controls how many directory levels to descend (default 3).\n\
- Respects .gitignore and always skips .git.\n\
- Output is capped at 500 entries; narrow the path or depth for large trees.";

/// The `list` tool.
pub struct ListTool;

impl ListTool {
    /// What agents are told about this tool.
    pub fn description(&self) -> (d: String)
        ensures
            d@ == LIST_DESCRIPTION@,
    {
        LIST_DESCRIPTION.to_owned()
    }

    /// The name this tool is called by.
    pub fn name(&self) -> (n: &'static str)
        ensures
            n@ == super::tool_name(super::ToolKind::List),
    {
        super::ToolKind::List.name()
    }
}

/// How an entry is named: its final component, with a trailing `/` for directories.
pub open spec fn display_text(path: Seq<char>, is_dir: bool) -> Seq<char> {
    let name = match path_file_name(path) {
        Some(n) => n,
        None => Seq::empty(),
    };
    if is_dir {
        name + "/"@
    } else {
        name
    }
}

/// How an entry is named in a listing.
pub fn display_name(path: &str, is_dir: bool) -> (s: String)
    ensures
        s@ == display_text(path@, is_dir),
{
    let mut name = match crate::paths::file_name(path) {
        Some(n) => n,
        None => String::new(),
    };
    if is_dir {
        name.append("/");
    }
    name
}

/// Two spaces per level below the first.
pub open spec fn indent(depth: nat) -> Seq<char>
    decreases depth,
{
    if depth <= 1 {
        Seq::empty()
    } else {
        indent((depth - 1) as nat) + "  "@
    }
}

/// The value of an entry.
pub open spec fn entry_view(e: ListEntry) -> (Seq<char>, nat, bool) {
    (e.path@, e.depth as nat, e.is_dir)
}

/// The name of the directory that listings always leave out.
pub open spec fn git_name() -> Seq<char> {
    seq!['.', 'g', 'i', 't']
}

/// `rel` has a component named `.git`.
pub open spec fn has_git_component(rel: Seq<char>) -> bool {
    exists|i: int| #![trigger rel.subrange(i, i + 4)]
        0 <= i && i + 4 <= rel.len() && rel.subrange(i, i + 4) == git_name()
            && (i == 0 || rel[i - 1] == '/') && (i + 4 == rel.len() || rel[i + 4] == '/')
}

/// The path of an entry relative to the listed directory (as it is, when it
/// does not lie under it).
pub open spec fn rel_to(root: Seq<char>, p: Seq<char>) -> Seq<char> {
    match path_strip_prefix(p, root) {
        Some(r) => r,
        None => p,
    }
}

/// An entry is listed unless it is the listed directory itself, or a `.git`
/// directory below it, or anything inside one.
pub open spec fn is_listed_spec(root: Seq<char>, p: Seq<char>) -> bool {
    p != root && !has_git_component(rel_to(root, p))
}

/// The listing lines for the walk entries `es`, when `count` entries have been listed.
pub open spec fn tree_lines(root: Seq<char>, es: Seq<(Seq<char>, nat, bool)>, count: nat) -> Seq<Seq<char>>
    decreases es.len(),
{
    if es.len() == 0 {
        Seq::empty()
    } else if !is_listed_spec(root, es[0].0) {
        tree_lines(root, es.drop_first(), count)
    } else if count >= MAX_ENTRIES {
        seq!["… (truncated at 500 entries)"@]
    } else {
        seq![indent(es[0].1) + display_text(es[0].0, es[0].2)] + tree_lines(root, es.drop_first(), count + 1)
    }
}

/// The answer listing `root` with the walk entries `es`: every listed entry
/// (so never `.git` or what lies in it), indented by depth, at most
/// `MAX_ENTRIES` of them.
pub open spec fn tree_text(root: Seq<char>, es: Seq<(Seq<char>, nat, bool)>) -> Seq<char> {
    join(seq![root + "/"@] + tree_lines(root, es, 0), "\n"@)
}

/// What a `list` call is refused with, if anything.
pub open spec fn list_refusal(root: Seq<char>, exists: bool, is_dir: bool) -> Option<Seq<char>> {
    if !exists {
        Some("path not found: "@ + root)
    } else if !is_dir {
        Some("not a directory: "@ + root)
    } else {
        None
    }
}

fn has_git_component_exec(rel: &Vec<char>) -> (b: bool)
    ensures
        b == has_git_component(rel@),
{
    let n = rel.len();
    if n < 4 {
        return false;
    }
    let mut i: usize = 0;
    while i <= n - 4
        invariant
            n == rel@.len(),
            n >= 4,
            i <= n - 3,
            forall|k: int| 0 <= k < i ==> !(#[trigger] rel@.subrange(k, k + 4) == git_name()
                && (k == 0 || rel@[k - 1] == '/') && (k + 4 == rel@.len() || rel@[k + 4] == '/')),
        decreases n - i,
    {
        let name_here = rel[i] == '.' && rel[i + 1] == 'g' && rel[i + 2] == 'i' && rel[i + 3] == 't';
        let starts = i == 0 || rel[i - 1] == '/';
        let ends = i + 4 == n || rel[i + 4] == '/';
        proof {
            let sub = rel@.subrange(i as int, i + 4);
            if name_here {
                assert(sub =~= git_name());
            } else {
                assert(sub != git_name()) by {
                    if sub == git_name() {
                        assert(sub[0] == rel@[i as int] && sub[1] == rel@[i + 1]);
                        assert(sub[2] == rel@[i + 2] && sub[3] == rel@[i + 3]);
                    }
                }
            }
        }
        if name_here && starts && ends {
            return true;
        }
        i = i + 1;
    }
    false
}

fn indent_exec(depth: usize) -> (s: String)
    ensures
        s@ == indent(depth as nat),
{
    let mut s = String::new();
    let mut k: usize = 1;
    assert(s@ == indent(1));
    while k < depth
        invariant
            1 <= k,
            k <= depth || k == 1,
            s@ == indent(k as nat),
        decreases depth - k,
    {
        s.append("  ");
        assert(indent((k + 1) as nat) == indent(k as nat) + "  "@);
        k = k + 1;
    }
    proof {
        if depth <= 1 {
            assert(indent(depth as nat) == Seq::<char>::empty());
            assert(indent(1) == Seq::<char>::empty());
        } else {
            assert(k == depth);
        }
    }
    s
}

impl ListTool {
    /// The directory listed: the given one resolved, or the root.
    pub fn target(state: &AppState, params: &ListParams) -> (p: String)
        ensures
            p@ == match params.path {
                Some(q) => crate::paths::join_path(state.root@, q@),
                None => state.root@,
            },
    {
        match &params.path {
            Some(q) => state.resolve(q.as_str()),
            None => state.root.clone(),
        }
    }

    /// The depth to descend to.
    pub fn depth(params: &ListParams) -> (d: usize)
        ensures
            d == match params.depth { Some(d) => d, None => DEFAULT_DEPTH },
    {
        match params.depth {
            Some(d) => d,
            None => DEFAULT_DEPTH,
        }
    }

    /// Refuses a path that does not exist or is not a directory.
    pub fn check(root: &str, exists: bool, is_dir: bool) -> (r: Result<(), String>)
        ensures
            r is Err <==> list_refusal(root@, exists, is_dir) is Some,
            r matches Err(m) ==> list_refusal(root@, exists, is_dir) == Some(m@),
    {
        if !exists {
            let mut m = String::new();
            m.append("path not found: ");
            m.append(root);
            return Err(m);
        }
        if !is_dir {
            let mut m = String::new();
            m.append("not a directory: ");
            m.append(root);
            return Err(m);
        }
        Ok(())
    }

    /// Whether the walk entry at `path` is listed: it is not the listed
    /// directory itself, and neither it nor a directory above it (below the
    /// listed one) is named `.git`.
    pub fn is_listed(root: &str, path: &str) -> (b: bool)
        ensures
            b == is_listed_spec(root@, path@),
    {
        if crate::text::str_eq(root, path) {
            return false;
        }
        let rel = match crate::paths::strip_prefix(path, root) {
            Some(r) => r,
            None => path.to_owned(),
        };
        !has_git_component_exec(&crate::text::chars_of(rel.as_str()))
    }

    /// The listing of `root` from the walk entries, in walk order.
    pub fn render(root: &str, entries: &Vec<ListEntry>) -> (s: String)
        ensures
            s@ == tree_text(root@, entries@.map_values(|e: ListEntry| entry_view(e))),
    {
        let ghost es = entries@.map_values(|e: ListEntry| entry_view(e));
        let mut first = root.to_owned();
        first.append("/");
        let mut out: Vec<String> = Vec::new();
        out.push(first);
        let mut count: usize = 0;
        let mut i: usize = 0;
        assert(es.skip(0) == es);
        while i < entries.len()
            invariant
                i <= entries@.len(),
                count <= MAX_ENTRIES,
                es == entries@.map_values(|e: ListEntry| entry_view(e)),
                string_views(out@) + tree_lines(root@, es.skip(i as int), count as nat)
                    == seq![root@ + "/"@] + tree_lines(root@, es, 0),
            decreases entries@.len() - i,
        {
            let ghost before = string_views(out@);
            assert(es.skip(i as int)[0] == entry_view(entries@[i as int]));
            assert(es.skip(i as int).drop_first() == es.skip(i + 1));
            if !ListTool::is_listed(root, entries[i].path.as_str()) {
                i = i + 1;
                continue;
            }
            if count >= MAX_ENTRIES {
                out.push("… (truncated at 500 entries)".to_owned());
                assert(string_views(out@) =~= before + seq!["… (truncated at 500 entries)"@]);
                return join_strings(&out, "\n");
            }
            let mut line = indent_exec(entries[i].depth);
            line.append(display_name(entries[i].path.as_str(), entries[i].is_dir).as_str());
            out.push(line);
            assert(string_views(out@) =~= before.push(line@));
            assert(before.push(line@) + tree_lines(root@, es.skip(i + 1), (count + 1) as nat)
                =~= before + (seq![line@] + tree_lines(root@, es.skip(i + 1), (count + 1) as nat)));
            count = count + 1;
            i = i + 1;
        }
        assert(es.skip(i as int).len() == 0);
        assert(string_views(out@) + Seq::<Seq<char>>::empty() == string_views(out@));
        join_strings(&out, "\n")
    }
}


/// A listing never has more than `MAX_ENTRIES` entry lines, plus one line
/// noting the cut: starting from `count` listed entries, at most
/// `MAX_ENTRIES - count + 1` lines follow.
pub proof fn law_tree_lines_bounded(root: Seq<char>, es: Seq<(Seq<char>, nat, bool)>, count: nat)
    requires
        count <= MAX_ENTRIES,
    ensures
        tree_lines(root, es, count).len() <= MAX_ENTRIES - count + 1,
    decreases es.len(),
{
    if es.len() > 0 {
        if !is_listed_spec(root, es[0].0) {
            law_tree_lines_bounded(root, es.drop_first(), count);
        } else if count < MAX_ENTRIES {
            law_tree_lines_bounded(root, es.drop_first(), count + 1);
        }
    }
}


/// The number of walk entries in `es` that are listed.
pub open spec fn listed_count(root: Seq<char>, es: Seq<(Seq<char>, nat, bool)>) -> nat
    decreases es.len(),
{
    if es.len() == 0 {
        0
    } else if !is_listed_spec(root, es[0].0) {
        listed_count(root, es.drop_first())
    } else {
        1 + listed_count(root, es.drop_first())
    }
}

impl ListTool {
    /// Whether the walk must go on: the listing is settled once it has seen
    /// one listed entry more than it can show.
    pub fn wants_more(listed_seen: usize) -> (b: bool)
        ensures
            b == (listed_seen <= MAX_ENTRIES),
    {
        listed_seen <= MAX_ENTRIES
    }
}

/// The listing depends only on the walk up to the entry after the last one it
/// can show: any walk that starts with `es` and in which `es` already holds
/// more entries than can be listed gives the same listing. So the walk may
/// stop there.
pub proof fn law_listing_settles(root: Seq<char>, es: Seq<(Seq<char>, nat, bool)>, rest: Seq<(Seq<char>, nat, bool)>, count: nat)
    requires
        count <= MAX_ENTRIES,
        listed_count(root, es) > MAX_ENTRIES - count,
    ensures
        tree_lines(root, es + rest, count) == tree_lines(root, es, count),
    decreases es.len(),
{
    if es.len() > 0 {
        assert((es + rest).drop_first() == es.drop_first() + rest);
        assert((es + rest)[0] == es[0]);
        if !is_listed_spec(root, es[0].0) {
            law_listing_settles(root, es.drop_first(), rest, count);
        } else if count < MAX_ENTRIES {
            law_listing_settles(root, es.drop_first(), rest, count + 1);
        }
    }
}

/// Each entry is indented by two spaces per level below the first: an entry
/// `d` levels down (`d >= 1`) gets exactly `2 * (d - 1)` spaces, so a child is
/// always indented two spaces more than its parent directory. In a listing, a
/// listed entry's line is that indentation followed by its name.
pub proof fn law_entry_indent(root: Seq<char>, es: Seq<(Seq<char>, nat, bool)>, count: nat)
    ensures
        forall|d: nat| #![trigger indent(d)]
            indent(d) == Seq::new(if d == 0 { 0nat } else { (2 * (d - 1)) as nat }, |_i: int| ' '),
        forall|d: nat| d >= 1 ==> #[trigger] indent(d + 1) == indent(d) + "  "@,
        es.len() > 0 && is_listed_spec(root, es[0].0) && count < MAX_ENTRIES ==>
            tree_lines(root, es, count)[0] == Seq::new(
                if es[0].1 == 0 { 0nat } else { (2 * (es[0].1 - 1)) as nat }, |_i: int| ' ')
                + display_text(es[0].0, es[0].2),
{
    assert forall|d: nat| #![trigger indent(d)]
        indent(d) == Seq::new(if d == 0 { 0nat } else { (2 * (d - 1)) as nat }, |_i: int| ' ') by {
        lemma_indent_spaces(d);
    }
    assert forall|d: nat| d >= 1 implies #[trigger] indent(d + 1) == indent(d) + "  "@ by {
        assert(indent(d + 1) == indent(((d + 1) - 1) as nat) + "  "@);
    }
    if es.len() > 0 && is_listed_spec(root, es[0].0) && count < MAX_ENTRIES {
        lemma_indent_spaces(es[0].1);
    }
}

proof fn lemma_indent_spaces(d: nat)
    ensures
        indent(d) == Seq::new(if d == 0 { 0nat } else { (2 * (d - 1)) as nat }, |_i: int| ' '),
    decreases d,
{
    reveal_strlit("  ");
    if d <= 1 {
        assert(indent(d) =~= Seq::new(if d == 0 { 0nat } else { (2 * (d - 1)) as nat }, |_i: int| ' '));
    } else {
        lemma_indent_spaces((d - 1) as nat);
        assert(indent(d) =~= Seq::new(if d == 0 { 0nat } else { (2 * (d - 1)) as nat }, |_i: int| ' '));
    }
}

} // verus!
