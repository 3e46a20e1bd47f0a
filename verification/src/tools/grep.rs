//! `grep`: regular-expression search over file contents, grouped by file.
use vstd::prelude::*;
use vstd::relations::total_ordering;
use crate::braces::{compiling, expand_braces, file_filter, filter_admits, glob_sources, FileFilter};
use crate::matching::{
    compile_glob, compile_regex, glob_compile_error, glob_matches, regex_compile_error, regex_is_match,
    regex_matches, RegexPattern,
};
use crate::paths::path_file_name;
use crate::sort::{
    lemma_ranked_antisymmetric, lemma_ranked_reflexive, lemma_ranked_total, lemma_ranked_transitive,
    lemma_sorted_views, path_le, lex_le, ranked_le_exec, sort_vec, Ordered,
};
use crate::state::AppState;
use crate::text::{
    at_most, chars_of, dec, decimal, join, join_strings, lines, split_lines, string_of, string_of_range,
    string_views, views,
};

verus! {

/// Matches kept by one search.
pub const GREP_LIMIT: usize = 100;

/// Characters of a matching line that are kept.
pub const GREP_LINE_CHARS: usize = 500;

/// Parameters of a `grep` call.
pub struct GrepParams {
    pub pattern: String,
    pub path: Option<String>,
    /// Glob that file names must match to be searched.
    pub file_glob: Option<String>,
}

/// A match: the file, the 1-based line number, and the (cut) line.
pub struct GrepRow {
    pub path: String,
    pub line: usize,
    pub text: String,
}

/// What a search needs once its patterns are compiled.
pub struct GrepSetup {
    pub regex: RegexPattern,
    pub file_glob: Option<FileFilter>,
}

/// The `grep` tool.
pub struct GrepTool;

impl GrepTool {
    /// The name this tool is called by.
    pub fn name(&self) -> (n: &'static str)
        ensures
            n@ == super::tool_name(super::ToolKind::Grep),
    {
        super::ToolKind::Grep.name()
    }
}

/// The value of a row.
pub type RowView = (Seq<char>, nat, Seq<char>);

/// The value of a row.
pub open spec fn row_view(r: GrepRow) -> RowView {
    (r.path@, r.line as nat, r.text@)
}

/// The values of rows.
pub open spec fn row_views(rs: Seq<GrepRow>) -> Seq<RowView> {
    rs.map_values(|r: GrepRow| row_view(r))
}

/// Rows are ordered by path (component order), then line number (then text,
/// which two rows for the same line share).
pub open spec fn row_le(a: RowView, b: RowView) -> bool {
    if a.0 != b.0 {
        path_le(a.0, b.0)
    } else if a.1 != b.1 {
        a.1 < b.1
    } else {
        lex_le(a.2, b.2)
    }
}

/// The row order as a relation.
pub open spec fn row_leq() -> spec_fn(RowView, RowView) -> bool {
    |a: RowView, b: RowView| row_le(a, b)
}

/// The row order is a total order.
pub proof fn lemma_row_total_ordering()
    ensures
        total_ordering(row_leq()),
{
    assert forall|a: RowView| #[trigger] row_leq()(a, a) by {
        lemma_ranked_reflexive(a.2, false);
    }
    assert forall|a: RowView, b: RowView| #[trigger] row_leq()(a, b) && #[trigger] row_leq()(b, a) implies a == b by {
        if a.0 != b.0 {
            lemma_ranked_antisymmetric(a.0, b.0, true);
        } else if a.1 == b.1 {
            lemma_ranked_antisymmetric(a.2, b.2, false);
        }
    }
    assert forall|a: RowView, b: RowView, c: RowView| #[trigger] row_leq()(a, b) && #[trigger] row_leq()(b, c) implies row_leq()(a, c) by {
        if a.0 != b.0 && b.0 != c.0 {
            lemma_ranked_transitive(a.0, b.0, c.0, true);
            if a.0 == c.0 {
                lemma_ranked_antisymmetric(a.0, b.0, true);
            }
        } else if a.0 == b.0 && b.0 == c.0 && a.1 == b.1 && b.1 == c.1 {
            lemma_ranked_transitive(a.2, b.2, c.2, false);
        }
    }
    assert forall|a: RowView, b: RowView| #[trigger] row_leq()(a, b) || #[trigger] row_leq()(b, a) by {
        lemma_ranked_total(a.0, b.0, true);
        lemma_ranked_total(a.2, b.2, false);
    }
}

impl Ordered for GrepRow {
    open spec fn le_spec(a: GrepRow, b: GrepRow) -> bool {
        row_le(row_view(a), row_view(b))
    }

    fn le(&self, other: &GrepRow) -> (b: bool) {
        let pa = chars_of(self.path.as_str());
        let pb = chars_of(other.path.as_str());
        if self.path != other.path {
            proof {
                assert(pa@ != pb@);
            }
            ranked_le_exec(&pa, &pb, true)
        } else if self.line != other.line {
            self.line < other.line
        } else {
            let ta = chars_of(self.text.as_str());
            let tb = chars_of(other.text.as_str());
            ranked_le_exec(&ta, &tb, false)
        }
    }

    proof fn lemma_total(a: GrepRow, b: GrepRow) {
        lemma_row_total_ordering();
        assert(row_leq()(row_view(a), row_view(b)) || row_leq()(row_view(b), row_view(a)));
    }

    proof fn lemma_transitive(a: GrepRow, b: GrepRow, c: GrepRow) {
        lemma_row_total_ordering();
        assert(row_leq()(row_view(a), row_view(b)) && row_leq()(row_view(b), row_view(c)));
    }
}

// ---------------------------------------------------------------------------
// Searching one file

/// The matches among the first `k` lines of `ls`, in line order.
pub open spec fn hits_prefix(src: Seq<char>, path: Seq<char>, ls: Seq<Seq<char>>, k: int) -> Seq<RowView>
    decreases k,
{
    if k <= 0 {
        Seq::empty()
    } else if regex_matches(src, ls[k - 1]) {
        hits_prefix(src, path, ls, k - 1).push((path, k as nat, at_most(ls[k - 1], GREP_LINE_CHARS as int)))
    } else {
        hits_prefix(src, path, ls, k - 1)
    }
}

/// All matches in the text `content` of the file `path`.
pub open spec fn file_hits(src: Seq<char>, path: Seq<char>, content: Seq<char>) -> Seq<RowView> {
    hits_prefix(src, path, lines(content), lines(content).len() as int)
}

/// Room left for matches when `n` are already kept.
pub open spec fn room(n: nat) -> nat {
    if n >= GREP_LIMIT { 0 } else { (GREP_LIMIT - n) as nat }
}

proof fn lemma_hits_prefix_extends(src: Seq<char>, path: Seq<char>, ls: Seq<Seq<char>>, j: int, k: int)
    requires
        0 <= j <= k,
    ensures
        hits_prefix(src, path, ls, j).len() <= hits_prefix(src, path, ls, k).len(),
        hits_prefix(src, path, ls, k).take(hits_prefix(src, path, ls, j).len() as int) == hits_prefix(src, path, ls, j),
    decreases k - j,
{
    if j < k {
        lemma_hits_prefix_extends(src, path, ls, j, k - 1);
        let a = hits_prefix(src, path, ls, j);
        let b = hits_prefix(src, path, ls, k - 1);
        let c = hits_prefix(src, path, ls, k);
        if regex_matches(src, ls[k - 1]) {
            assert(c.take(a.len() as int) =~= b.take(a.len() as int));
        }
    } else {
        assert(hits_prefix(src, path, ls, k).take(hits_prefix(src, path, ls, k).len() as int)
            =~= hits_prefix(src, path, ls, k));
    }
}

/// Adds the matching lines of the file `path`, whose text is `content`, to
/// `rows`, stopping when the rows reach the limit.
pub fn search_file(path: &str, content: &str, re: &RegexPattern, rows: &mut Vec<GrepRow>)
    ensures
        row_views(final(rows)@) == row_views(old(rows)@)
            + at_most(file_hits(re.source(), path@, content@), room(old(rows)@.len()) as int),
        old(rows)@.len() <= GREP_LIMIT ==> final(rows)@.len() <= GREP_LIMIT,
        final(rows)@.len() >= old(rows)@.len(),
{
    let cs = chars_of(content);
    let ls = split_lines(&cs);
    let ghost all = views(ls@);
    let ghost n = ls@.len() as int;
    let ghost start = row_views(rows@);
    let ghost r = room(rows@.len());
    let mut i: usize = 0;
    assert(all.len() == n);
    assert(file_hits(re.source(), path@, content@) == hits_prefix(re.source(), path@, all, n));
    assert(start.len() == rows@.len());
    proof {
        lemma_hits_prefix_extends(re.source(), path@, all, 0, n);
    }
    while i < ls.len()
        invariant
            i <= ls@.len(),
            n == ls@.len(),
            all == views(ls@),
            all == lines(content@),
            all.len() == n,
            file_hits(re.source(), path@, content@) == hits_prefix(re.source(), path@, all, n),
            start == row_views(old(rows)@),
            r == room(old(rows)@.len()),
            row_views(rows@) == start + hits_prefix(re.source(), path@, all, i as int),
            hits_prefix(re.source(), path@, all, i as int).len() <= r,
            r == room(start.len()),
            start.len() + r <= GREP_LIMIT || r == 0,
        decreases ls@.len() - i,
    {
        let line = string_of(&ls[i]);
        if regex_is_match(re, line.as_str()) {
            assert(row_views(rows@).len() == rows@.len());
            if rows.len() >= GREP_LIMIT {
                proof {
                    lemma_hits_prefix_extends(re.source(), path@, all, i as int, n);
                    assert(hits_prefix(re.source(), path@, all, i as int).len() == r);
                    assert(at_most(hits_prefix(re.source(), path@, all, n), r as int) == hits_prefix(re.source(), path@, all, i as int));
                    assert(row_views(rows@).len() == rows@.len());
                }
                return;
            }
            let text = if ls[i].len() > GREP_LINE_CHARS {
                assert(ls@[i as int]@.subrange(0, GREP_LINE_CHARS as int) == ls@[i as int]@.take(GREP_LINE_CHARS as int));
                string_of_range(&ls[i], 0, GREP_LINE_CHARS)
            } else {
                string_of(&ls[i])
            };
            assert(all[i as int] == ls@[i as int]@);
            assert(text@ == at_most(all[i as int], GREP_LINE_CHARS as int));
            let ghost before = row_views(rows@);
            rows.push(GrepRow { path: path.to_owned(), line: i + 1, text });
            assert(row_views(rows@) =~= before.push((path@, (i + 1) as nat, at_most(all[i as int], GREP_LINE_CHARS as int))));
        }
        i = i + 1;
    }
    proof {
        let h = hits_prefix(re.source(), path@, all, n);
        assert(at_most(h, r as int) == h);
        assert(row_views(rows@).len() == rows@.len());
    }
}


// ---------------------------------------------------------------------------
// Setup and the walk

/// What a `grep` call is refused with before it searches, if anything: an
/// empty pattern, a pattern that does not compile, or a file glob that does not.
pub open spec fn grep_refusal(pattern: Seq<char>, file_glob: Option<Seq<char>>) -> Option<Seq<char>> {
    if pattern.len() == 0 {
        Some("pattern is required"@)
    } else if regex_compile_error(pattern) is Some {
        Some("invalid regex '"@ + pattern + "': "@ + regex_compile_error(pattern).unwrap())
    } else {
        match file_glob {
            Some(g) => match glob_compile_error(g) {
                Some(e) => Some("invalid include pattern '"@ + g + "': "@ + e),
                None => None,
            },
            None => None,
        }
    }
}

/// The view of an optional string.
pub open spec fn opt_view(o: Option<String>) -> Option<Seq<char>> {
    match o {
        Some(s) => Some(s@),
        None => None,
    }
}

impl GrepTool {
    /// The path searched: the given one resolved, or the root.
    pub fn search_root(state: &AppState, params: &GrepParams) -> (p: String)
        ensures
            p@ == match params.path {
                Some(q) => crate::paths::join_path(state.root@, q@),
                None => state.root@,
            },
    {
        match &params.path {
            Some(q) => state.resolve(q.as_str()),
            None => state.root.clone(),
        }
    }

    /// Compiles the patterns, or refuses the call.
    pub fn prepare(params: &GrepParams) -> (r: Result<GrepSetup, String>)
        ensures
            r is Err <==> grep_refusal(params.pattern@, opt_view(params.file_glob)) is Some,
            r matches Err(m) ==> grep_refusal(params.pattern@, opt_view(params.file_glob)) == Some(m@),
            r matches Ok(s) ==> s.regex.source() == params.pattern@
                && match (s.file_glob, params.file_glob) {
                    (Some(f), Some(src)) => f.source@ == src@
                        && glob_sources(f.globs@) == compiling(expand_braces(src@)),
                    (None, None) => true,
                    _ => false,
                },
    {
        if params.pattern.as_str().is_empty() {
            return Err("pattern is required".to_owned());
        }
        let regex = match compile_regex(params.pattern.as_str()) {
            Ok(re) => re,
            Err(e) => {
                let mut m = String::new();
                m.append("invalid regex '");
                m.append(params.pattern.as_str());
                m.append("': ");
                m.append(e.as_str());
                return Err(m);
            },
        };
        let file_glob = match &params.file_glob {
            None => None,
            Some(g) => match compile_glob(g.as_str()) {
                Ok(_) => Some(file_filter(g.as_str())),
                Err(e) => {
                    let mut m = String::new();
                    m.append("invalid include pattern '");
                    m.append(g.as_str());
                    m.append("': ");
                    m.append(e.as_str());
                    return Err(m);
                },
            },
        };
        Ok(GrepSetup { regex, file_glob })
    }

    /// A walked file is searched when there is no file glob, or its name
    /// matches one of the patterns the file glob stands for (its brace
    /// alternatives, as in `*.{ts,tsx}`).
    pub fn admits(setup: &GrepSetup, path: &str) -> (b: bool)
        ensures
            b == match setup.file_glob {
                None => true,
                Some(f) => exists|k: int| 0 <= k < f.globs@.len() && glob_matches(
                    #[trigger] glob_sources(f.globs@)[k], match path_file_name(path@) {
                        Some(n) => n,
                        None => Seq::empty(),
                    }),
            },
    {
        match &setup.file_glob {
            None => true,
            Some(f) => {
                let name = match crate::paths::file_name(path) {
                    Some(n) => n,
                    None => String::new(),
                };
                filter_admits(f, name.as_str())
            },
        }
    }

    /// The walk stops once the rows have reached the limit.
    pub fn walk_done(rows: &Vec<GrepRow>) -> (b: bool)
        ensures
            b == (rows@.len() >= GREP_LIMIT),
    {
        rows.len() >= GREP_LIMIT
    }
}

// ---------------------------------------------------------------------------
// The answer

/// The lines listing `rows[..k]`: a `path:` heading before each new file
/// (after a blank line when it is not the first), then `  Line n: text`.
pub open spec fn listing_lines(rows: Seq<RowView>, k: int) -> Seq<Seq<char>>
    decreases k,
{
    if k <= 0 {
        Seq::empty()
    } else {
        let r = rows[k - 1];
        let heading: Seq<Seq<char>> = if k == 1 {
            seq![r.0 + ":"@]
        } else if rows[k - 2].0 != r.0 {
            seq![Seq::<char>::empty(), r.0 + ":"@]
        } else {
            Seq::empty()
        };
        listing_lines(rows, k - 1) + heading + seq!["  Line "@ + dec(r.1) + ": "@ + r.2]
    }
}

/// The answer to a search of `pattern` that found `rows`.
pub open spec fn grep_text(pattern: Seq<char>, rows: Seq<RowView>) -> Seq<char> {
    if rows.len() == 0 {
        "No matches found for pattern: "@ + pattern
    } else {
        let sorted = rows.sort_by(row_leq());
        let truncated = sorted.len() > GREP_LIMIT;
        let shown = at_most(sorted, GREP_LIMIT as int);
        let total = shown.len();
        let header = "Found "@ + dec(total) + " match"@ + (if total == 1 { ""@ } else { "es"@ })
            + (if truncated { " (more matches available)"@ } else { ""@ });
        let trailer: Seq<Seq<char>> = if truncated {
            seq![Seq::<char>::empty(), "(Results truncated. Consider using a more specific path or pattern.)"@]
        } else {
            Seq::empty()
        };
        join(seq![header] + listing_lines(shown, total as int) + trailer, "\n"@)
    }
}

fn row_line(r: &GrepRow) -> (s: String)
    ensures
        s@ == "  Line "@ + dec(r.line as nat) + ": "@ + r.text@,
{
    let mut s = String::new();
    s.append("  Line ");
    s.append(decimal(r.line as u64).as_str());
    s.append(": ");
    s.append(r.text.as_str());
    s
}

impl GrepTool {
    /// The answer to a search of `pattern` that found `rows` (in any order).
    pub fn render(pattern: &str, rows: Vec<GrepRow>) -> (s: String)
        ensures
            s@ == grep_text(pattern@, row_views(rows@)),
    {
        if rows.len() == 0 {
            let mut m = String::new();
            m.append("No matches found for pattern: ");
            m.append(pattern);
            return m;
        }
        let ghost input = rows@;
        let sorted = sort_vec(rows);
        proof {
            lemma_row_total_ordering();
            lemma_sorted_views(sorted@, input, |r: GrepRow| row_view(r), row_leq());
            assert(row_views(sorted@) == row_views(input).sort_by(row_leq()));
        }
        let truncated = sorted.len() > GREP_LIMIT;
        let total = if truncated { GREP_LIMIT } else { sorted.len() };
        let ghost shown = at_most(row_views(sorted@), GREP_LIMIT as int);
        let mut parts: Vec<String> = Vec::new();
        let mut header = String::new();
        header.append("Found ");
        header.append(decimal(total as u64).as_str());
        header.append(" match");
        if total == 1 {
            header.append("");
        } else {
            header.append("es");
        }
        if truncated {
            header.append(" (more matches available)");
        } else {
            header.append("");
        }
        parts.push(header);
        let mut k: usize = 0;
        while k < total
            invariant
                k <= total,
                total == shown.len(),
                shown == at_most(row_views(sorted@), GREP_LIMIT as int),
                total <= sorted@.len(),
                string_views(parts@) == seq![header@] + listing_lines(shown, k as int),
            decreases total - k,
        {
            let ghost before = string_views(parts@);
            assert(shown[k as int] == row_view(sorted@[k as int]));
            let ghost r = shown[k as int];
            if k == 0 {
                let mut h = sorted[k].path.clone();
                h.append(":");
                parts.push(h);
                assert(string_views(parts@) =~= before + seq![r.0 + ":"@]);
            } else if !sorted[k - 1].path.eq(&sorted[k].path) {
                assert(shown[k - 1] == row_view(sorted@[k - 1]));
                parts.push(String::new());
                let mut h = sorted[k].path.clone();
                h.append(":");
                parts.push(h);
                assert(string_views(parts@) =~= before + seq![Seq::<char>::empty(), r.0 + ":"@]);
            } else {
                assert(shown[k - 1] == row_view(sorted@[k - 1]));
                assert(string_views(parts@) =~= before + Seq::<Seq<char>>::empty());
            }
            let ghost mid = string_views(parts@);
            let line = row_line(&sorted[k]);
            parts.push(line);
            assert(string_views(parts@) =~= mid.push(line@));
            assert(line@ == "  Line "@ + dec(r.1) + ": "@ + r.2);
            assert(listing_lines(shown, k + 1) == listing_lines(shown, k as int) + (mid.subrange(before.len() as int, mid.len() as int)) + seq![line@]) by {
                assert(mid.subrange(before.len() as int, mid.len() as int) =~= if k == 0 {
                    seq![r.0 + ":"@]
                } else if shown[k - 1].0 != r.0 {
                    seq![Seq::<char>::empty(), r.0 + ":"@]
                } else {
                    Seq::<Seq<char>>::empty()
                });
            }
            assert(string_views(parts@) =~= seq![header@] + listing_lines(shown, k + 1));
            k = k + 1;
        }
        if truncated {
            parts.push(String::new());
            parts.push("(Results truncated. Consider using a more specific path or pattern.)".to_owned());
        }
        proof {
            let tr: Seq<Seq<char>> = if truncated {
                seq![Seq::<char>::empty(), "(Results truncated. Consider using a more specific path or pattern.)"@]
            } else {
                Seq::empty()
            };
            assert(string_views(parts@) =~= seq![header@] + listing_lines(shown, total as int) + tr);
        }
        join_strings(&parts, "\n")
    }
}

/// A line of the file gives a row exactly when the regular expression matches
/// the whole line; the row holds the file, the 1-based line number and the
/// line cut to its first 500 characters (the cut applies to the stored text
/// only). Rows come in line order, one per matching line.
pub proof fn law_grep_rows(src: Seq<char>, path: Seq<char>, content: Seq<char>)
    ensures
        forall|k: int| 0 <= k < lines(content).len() ==> (regex_matches(src, #[trigger] lines(content)[k])
            <==> file_hits(src, path, content).contains(
                (path, (k + 1) as nat, at_most(lines(content)[k], GREP_LINE_CHARS as int)))),
        forall|j: int| 0 <= j < file_hits(src, path, content).len() ==> {
            let h = #[trigger] file_hits(src, path, content)[j];
            &&& h.0 == path
            &&& 1 <= h.1 <= lines(content).len()
            &&& regex_matches(src, lines(content)[h.1 - 1])
            &&& h.2 == at_most(lines(content)[h.1 - 1], GREP_LINE_CHARS as int)
        },
        forall|a: int, b: int| 0 <= a < b < file_hits(src, path, content).len()
            ==> #[trigger] file_hits(src, path, content)[a].1 < #[trigger] file_hits(src, path, content)[b].1,
{
    let ls = lines(content);
    lemma_hits_prefix_rows(src, path, ls, ls.len() as int);
    let hs = file_hits(src, path, content);
    assert forall|k: int| 0 <= k < ls.len() implies (regex_matches(src, #[trigger] ls[k])
        <==> hs.contains((path, (k + 1) as nat, at_most(ls[k], GREP_LINE_CHARS as int)))) by {
        if regex_matches(src, ls[k]) {
            let j = choose|j: int| 0 <= j < hs.len() && hs[j].1 == k + 1;
            assert(hs[j] == (path, (k + 1) as nat, at_most(ls[k], GREP_LINE_CHARS as int)));
        }
        if hs.contains((path, (k + 1) as nat, at_most(ls[k], GREP_LINE_CHARS as int))) {
            let j = choose|j: int| 0 <= j < hs.len() && hs[j] == (path, (k + 1) as nat, at_most(ls[k], GREP_LINE_CHARS as int));
            assert(hs[j].1 == k + 1);
        }
    }
}

proof fn lemma_hits_prefix_rows(src: Seq<char>, path: Seq<char>, ls: Seq<Seq<char>>, n: int)
    requires
        0 <= n <= ls.len(),
    ensures
        forall|k: int| 0 <= k < n && regex_matches(src, #[trigger] ls[k])
            ==> exists|j: int| 0 <= j < hits_prefix(src, path, ls, n).len() && hits_prefix(src, path, ls, n)[j].1 == k + 1,
        forall|j: int| 0 <= j < hits_prefix(src, path, ls, n).len() ==> {
            let h = #[trigger] hits_prefix(src, path, ls, n)[j];
            &&& h.0 == path
            &&& 1 <= h.1 <= n
            &&& regex_matches(src, ls[h.1 - 1])
            &&& h.2 == at_most(ls[h.1 - 1], GREP_LINE_CHARS as int)
        },
        forall|a: int, b: int| 0 <= a < b < hits_prefix(src, path, ls, n).len()
            ==> #[trigger] hits_prefix(src, path, ls, n)[a].1 < #[trigger] hits_prefix(src, path, ls, n)[b].1,
    decreases n,
{
    if n > 0 {
        lemma_hits_prefix_rows(src, path, ls, n - 1);
        let prev = hits_prefix(src, path, ls, n - 1);
        let cur = hits_prefix(src, path, ls, n);
        if regex_matches(src, ls[n - 1]) {
            assert(cur[prev.len() as int].1 == n);
            assert forall|k: int| 0 <= k < n && regex_matches(src, #[trigger] ls[k])
                implies exists|j: int| 0 <= j < cur.len() && cur[j].1 == k + 1 by {
                if k < n - 1 {
                    let j = choose|j: int| 0 <= j < prev.len() && prev[j].1 == k + 1;
                    assert(cur[j] == prev[j]);
                }
            }
            assert forall|j: int| 0 <= j < cur.len() implies {
                let h = #[trigger] cur[j];
                &&& h.0 == path
                &&& 1 <= h.1 <= n
                &&& regex_matches(src, ls[h.1 - 1])
                &&& h.2 == at_most(ls[h.1 - 1], GREP_LINE_CHARS as int)
            } by {
                if j < prev.len() {
                    assert(cur[j] == prev[j]);
                }
            }
            assert forall|a: int, b: int| 0 <= a < b < cur.len() implies #[trigger] cur[a].1 < #[trigger] cur[b].1 by {
                assert(cur[a] == prev[a]);
                if b < prev.len() {
                    assert(cur[b] == prev[b]);
                }
            }
        } else {
            assert forall|k: int| 0 <= k < n && regex_matches(src, #[trigger] ls[k])
                implies exists|j: int| 0 <= j < cur.len() && cur[j].1 == k + 1 by {
                if k < n - 1 {
                    let j = choose|j: int| 0 <= j < prev.len() && prev[j].1 == k + 1;
                    assert(cur[j] == prev[j]);
                }
            }
        }
    }
}

} // verus!
