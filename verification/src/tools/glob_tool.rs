//! `glob`: file-name pattern search, most recently modified first.
use vstd::prelude::*;
use vstd::relations::total_ordering;
use crate::matching::{compile_glob, glob_compile_error, glob_is_match, glob_matches, GlobPattern};
use crate::paths::{path_file_name, path_strip_prefix};
use crate::sort::{lemma_ranked_antisymmetric, lemma_ranked_reflexive, lemma_ranked_total, lemma_ranked_transitive,
    lemma_sorted_views, lex_le, ranked_le_exec, sort_vec, Ordered};
use crate::state::AppState;
use crate::text::{at_most, chars_of, join, join_strings, string_views};

verus! {

/// Matches shown at most.
pub const GLOB_LIMIT: usize = 100;

/// Parameters of a `glob` call.
pub struct GlobParams {
    pub pattern: String,
    pub path: Option<String>,
}

/// A file found by the walk, in walk order, with its modification time in
/// nanoseconds relative to the Unix epoch.
pub struct GlobCandidate {
    pub path: String,
    pub mtime: i128,
}

/// A matching file with its position in the walk.
pub struct GlobHit {
    pub path: String,
    pub mtime: i128,
    pub index: usize,
}

/// What agents are told about the `glob` tool.
pub const GLOB_DESCRIPTION: &'static str = "- Fast file pattern matching tool that works with any codebase size\n\
- Supports glob patterns like \"**/*.js\" or \"src/**/*.ts\"\n\
- Returns matching file paths, most recently modified first\n\
- Use this tool when you need to find files by name patterns\n\
- Respects .gitignore; results are capped at 100 matches";

/// The `glob` tool.
pub struct GlobTool;

impl GlobTool {
    /// What agents are told about this tool.
    pub fn description(&self) -> (d: String)
        ensures
            d@ == GLOB_DESCRIPTION@,
    {
        GLOB_DESCRIPTION.to_owned()
    }

    /// The name this tool is called by.
    pub fn name(&self) -> (n: &'static str)
        ensures
            n@ == super::tool_name(super::ToolKind::Glob),
    {
        super::ToolKind::Glob.name()
    }
}

/// The value of a hit: path, modification time, position in the walk.
pub type HitView = (Seq<char>, int, nat);

/// The value of a hit.
pub open spec fn hit_view(h: GlobHit) -> HitView {
    (h.path@, h.mtime as int, h.index as nat)
}

/// Newest first; files modified at the same time keep walk order.
pub open spec fn hit_le(a: HitView, b: HitView) -> bool {
    if a.1 != b.1 {
        a.1 > b.1
    } else if a.2 != b.2 {
        a.2 < b.2
    } else {
        lex_le(a.0, b.0)
    }
}

/// The hit order as a relation.
pub open spec fn hit_leq() -> spec_fn(HitView, HitView) -> bool {
    |a: HitView, b: HitView| hit_le(a, b)
}

/// The hit order is a total order.
pub proof fn lemma_hit_total_ordering()
    ensures
        total_ordering(hit_leq()),
{
    assert forall|a: HitView| #[trigger] hit_leq()(a, a) by {
        lemma_ranked_reflexive(a.0, false);
    }
    assert forall|a: HitView, b: HitView| #[trigger] hit_leq()(a, b) && #[trigger] hit_leq()(b, a) implies a == b by {
        if a.1 == b.1 && a.2 == b.2 {
            lemma_ranked_antisymmetric(a.0, b.0, false);
        }
    }
    assert forall|a: HitView, b: HitView, c: HitView| #[trigger] hit_leq()(a, b) && #[trigger] hit_leq()(b, c) implies hit_leq()(a, c) by {
        if a.1 == b.1 && b.1 == c.1 && a.2 == b.2 && b.2 == c.2 {
            lemma_ranked_transitive(a.0, b.0, c.0, false);
        }
    }
    assert forall|a: HitView, b: HitView| #[trigger] hit_leq()(a, b) || #[trigger] hit_leq()(b, a) by {
        lemma_ranked_total(a.0, b.0, false);
    }
}

impl Ordered for GlobHit {
    open spec fn le_spec(a: GlobHit, b: GlobHit) -> bool {
        hit_le(hit_view(a), hit_view(b))
    }

    fn le(&self, other: &GlobHit) -> (b: bool) {
        if self.mtime != other.mtime {
            self.mtime > other.mtime
        } else if self.index != other.index {
            self.index < other.index
        } else {
            let pa = chars_of(self.path.as_str());
            let pb = chars_of(other.path.as_str());
            ranked_le_exec(&pa, &pb, false)
        }
    }

    proof fn lemma_total(a: GlobHit, b: GlobHit) {
        lemma_hit_total_ordering();
        assert(hit_leq()(hit_view(a), hit_view(b)) || hit_leq()(hit_view(b), hit_view(a)));
    }

    proof fn lemma_transitive(a: GlobHit, b: GlobHit, c: GlobHit) {
        lemma_hit_total_ordering();
        assert(hit_leq()(hit_view(a), hit_view(b)) && hit_leq()(hit_view(b), hit_view(c)));
    }
}

/// The path a candidate is matched by: relative to the search directory when
/// it lies under it, else as it is.
pub open spec fn rel_path(search: Seq<char>, p: Seq<char>) -> Seq<char> {
    match path_strip_prefix(p, search) {
        Some(r) => r,
        None => p,
    }
}

/// The value of a candidate: path and modification time.
pub open spec fn candidate_view(c: GlobCandidate) -> (Seq<char>, int) {
    (c.path@, c.mtime as int)
}

/// The hits among the first `k` candidates, in walk order.
pub open spec fn hits_upto(src: Seq<char>, search: Seq<char>, cs: Seq<(Seq<char>, int)>, k: int) -> Seq<HitView>
    decreases k,
{
    if k <= 0 {
        Seq::empty()
    } else if glob_matches(src, rel_path(search, cs[k - 1].0)) {
        hits_upto(src, search, cs, k - 1).push((cs[k - 1].0, cs[k - 1].1, (k - 1) as nat))
    } else {
        hits_upto(src, search, cs, k - 1)
    }
}

/// Every matching file, newest first.
pub open spec fn glob_found(src: Seq<char>, search: Seq<char>, cs: Seq<(Seq<char>, int)>) -> Seq<HitView> {
    hits_upto(src, search, cs, cs.len() as int).sort_by(hit_leq())
}

/// The note that ends a cut result list.
pub open spec fn glob_cut_note() -> Seq<char> {
    "(Results are truncated: showing first 100 results. Consider using a more specific path or pattern.)"@
}

/// The answer to a glob `src` under `search`, given the files the walk found.
pub open spec fn glob_text(src: Seq<char>, search: Seq<char>, cs: Seq<(Seq<char>, int)>) -> Seq<char> {
    let sorted = glob_found(src, search, cs);
    let truncated = sorted.len() > GLOB_LIMIT;
    let shown = at_most(sorted, GLOB_LIMIT as int);
    if shown.len() == 0 {
        "No files found"@
    } else {
        let names = shown.map_values(|h: HitView| h.0);
        let trailer: Seq<Seq<char>> = if truncated {
            seq![Seq::<char>::empty(), glob_cut_note()]
        } else {
            Seq::empty()
        };
        join(names + trailer, "\n"@)
    }
}

/// What a `glob` call is refused with before the walk, if anything.
pub open spec fn glob_refusal(search: Seq<char>, search_is_file: bool, pattern: Seq<char>) -> Option<Seq<char>> {
    if search_is_file {
        Some("glob path must be a directory: "@ + search)
    } else {
        match glob_compile_error(pattern) {
            Some(e) => Some("invalid glob pattern '"@ + pattern + "': "@ + e),
            None => None,
        }
    }
}

impl GlobTool {
    /// The directory searched: the given one resolved, or the root.
    pub fn search_root(state: &AppState, params: &GlobParams) -> (p: String)
        ensures
            p@ == match params.path {
                Some(q) => crate::paths::join_path(state.root@, q@),
                None => state.root@,
            },
    {
        match &params.path {
            Some(q) => state.resolve(q.as_str()),
            None => state.root.clone(),
        }
    }

    /// Refuses a search of a file, or compiles the pattern.
    pub fn prepare(params: &GlobParams, search: &str, search_is_file: bool) -> (r: Result<GlobPattern, String>)
        ensures
            r is Err <==> glob_refusal(search@, search_is_file, params.pattern@) is Some,
            r matches Err(m) ==> glob_refusal(search@, search_is_file, params.pattern@) == Some(m@),
            r matches Ok(p) ==> p.source() == params.pattern@,
    {
        if search_is_file {
            let mut m = String::new();
            m.append("glob path must be a directory: ");
            m.append(search);
            return Err(m);
        }
        match compile_glob(params.pattern.as_str()) {
            Ok(p) => Ok(p),
            Err(e) => {
                let mut m = String::new();
                m.append("invalid glob pattern '");
                m.append(params.pattern.as_str());
                m.append("': ");
                m.append(e.as_str());
                Err(m)
            },
        }
    }

    /// The answer for the files the walk under `search` found, in walk order.
    pub fn render(pattern: &GlobPattern, search: &str, candidates: &Vec<GlobCandidate>) -> (s: String)
        ensures
            s@ == glob_text(pattern.source(), search@,
                candidates@.map_values(|c: GlobCandidate| candidate_view(c))),
    {
        let ghost cs = candidates@.map_values(|c: GlobCandidate| candidate_view(c));
        let ghost src = pattern.source();
        let mut hits: Vec<GlobHit> = Vec::new();
        let mut i: usize = 0;
        while i < candidates.len()
            invariant
                i <= candidates@.len(),
                cs == candidates@.map_values(|c: GlobCandidate| candidate_view(c)),
                src == pattern.source(),
                hits@.map_values(|h: GlobHit| hit_view(h)) == hits_upto(src, search@, cs, i as int),
            decreases candidates@.len() - i,
        {
            let rel = match crate::paths::strip_prefix(candidates[i].path.as_str(), search) {
                Some(r) => r,
                None => candidates[i].path.clone(),
            };
            assert(cs[i as int] == candidate_view(candidates@[i as int]));
            if glob_is_match(pattern, rel.as_str()) {
                let ghost before = hits@.map_values(|h: GlobHit| hit_view(h));
                hits.push(GlobHit { path: candidates[i].path.clone(), mtime: candidates[i].mtime, index: i });
                assert(hits@.map_values(|h: GlobHit| hit_view(h)) =~= before.push((cs[i as int].0, cs[i as int].1, i as nat)));
            }
            i = i + 1;
        }
        let ghost found = hits@;
        let sorted = sort_vec(hits);
        proof {
            lemma_hit_total_ordering();
            lemma_sorted_views(sorted@, found, |h: GlobHit| hit_view(h), hit_leq());
        }
        let ghost sv = sorted@.map_values(|h: GlobHit| hit_view(h));
        let truncated = sorted.len() > GLOB_LIMIT;
        let shown = if truncated { GLOB_LIMIT } else { sorted.len() };
        if shown == 0 {
            return "No files found".to_owned();
        }
        let mut names: Vec<String> = Vec::new();
        let mut k: usize = 0;
        while k < shown
            invariant
                k <= shown <= sorted@.len(),
                sv == sorted@.map_values(|h: GlobHit| hit_view(h)),
                string_views(names@) == at_most(sv, GLOB_LIMIT as int).take(k as int).map_values(|h: HitView| h.0),
                shown == at_most(sv, GLOB_LIMIT as int).len(),
            decreases shown - k,
        {
            let ghost before = string_views(names@);
            names.push(sorted[k].path.clone());
            let ghost am = at_most(sv, GLOB_LIMIT as int);
            assert(am[k as int] == sv[k as int]);
            assert(sv[k as int] == hit_view(sorted@[k as int]));
            assert(string_views(names@) =~= before.push(sorted@[k as int].path@));
            assert(am.take(k + 1).map_values(|h: HitView| h.0) =~= am.take(k as int).map_values(|h: HitView| h.0).push(am[k as int].0));
            k = k + 1;
        }
        assert(at_most(sv, GLOB_LIMIT as int).take(shown as int) =~= at_most(sv, GLOB_LIMIT as int));
        if truncated {
            names.push(String::new());
            names.push("(Results are truncated: showing first 100 results. Consider using a more specific path or pattern.)".to_owned());
        }
        proof {
            let base = at_most(sv, GLOB_LIMIT as int).map_values(|h: HitView| h.0);
            let tr: Seq<Seq<char>> = if truncated {
                seq![Seq::<char>::empty(), glob_cut_note()]
            } else {
                Seq::empty()
            };
            assert(string_views(names@) =~= base + tr);
        }
        join_strings(&names, "\n")
    }
}

/// Whether a path's final component starts with `.`.
pub fn is_hidden(path: &str) -> (b: bool)
    ensures
        b == match path_file_name(path@) {
            Some(n) => n.len() > 0 && n[0] == '.',
            None => false,
        },
{
    match crate::paths::file_name(path) {
        Some(n) => {
            let cs = chars_of(n.as_str());
            cs.len() > 0 && cs[0] == '.'
        },
        None => false,
    }
}

/// The pattern is matched against a file's path relative to the search
/// directory (against the path as it is when it does not lie under it): the
/// `i`-th file of the walk is found exactly when the pattern matches that
/// path. Everything found is a file of the walk with its own time, and the
/// files found come newest first.
pub proof fn law_glob_found(src: Seq<char>, search: Seq<char>, cs: Seq<(Seq<char>, int)>)
    ensures
        forall|i: int| 0 <= i < cs.len() ==> (#[trigger] glob_found(src, search, cs).contains((cs[i].0, cs[i].1, i as nat))
            <==> glob_matches(src, match path_strip_prefix(cs[i].0, search) {
                Some(r) => r,
                None => cs[i].0,
            })),
        forall|h: HitView| #[trigger] glob_found(src, search, cs).contains(h) ==> h.2 < cs.len()
            && h == (cs[h.2 as int].0, cs[h.2 as int].1, h.2),
        forall|a: int, b: int| 0 <= a < b < glob_found(src, search, cs).len()
            ==> #[trigger] glob_found(src, search, cs)[a].1 >= #[trigger] glob_found(src, search, cs)[b].1,
        (forall|i: int| 0 <= i < cs.len() ==> !glob_matches(src, match path_strip_prefix(#[trigger] cs[i].0, search) {
                Some(r) => r,
                None => cs[i].0,
            })) ==> glob_text(src, search, cs) == "No files found"@,
{
    let hs = hits_upto(src, search, cs, cs.len() as int);
    let f = glob_found(src, search, cs);
    lemma_hit_total_ordering();
    hs.lemma_sort_by_ensures(hit_leq());
    lemma_hits_upto_members(src, search, cs, cs.len() as int);
    assert forall|h: HitView| f.contains(h) <==> hs.contains(h) by {
        hs.to_multiset_ensures();
        f.to_multiset_ensures();
        assert(hs.to_multiset().count(h) == f.to_multiset().count(h));
    }
    assert forall|a: int, b: int| 0 <= a < b < f.len() implies #[trigger] f[a].1 >= #[trigger] f[b].1 by {
        assert(hit_leq()(f[a], f[b]));
    }
    if forall|i: int| 0 <= i < cs.len() ==> !glob_matches(src, match path_strip_prefix(#[trigger] cs[i].0, search) {
            Some(r) => r,
            None => cs[i].0,
        }) {
        if f.len() > 0 {
            assert(f.contains(f[0]));
            assert(hs.contains(f[0]));
            let i = f[0].2 as int;
            assert(hs.contains((cs[i].0, cs[i].1, i as nat)));
        }
        assert(at_most(f, GLOB_LIMIT as int).len() == 0);
    }
}

proof fn lemma_hits_upto_members(src: Seq<char>, search: Seq<char>, cs: Seq<(Seq<char>, int)>, k: int)
    requires
        0 <= k <= cs.len(),
    ensures
        forall|i: int| 0 <= i < k ==> (#[trigger] hits_upto(src, search, cs, k).contains((cs[i].0, cs[i].1, i as nat))
            <==> glob_matches(src, match path_strip_prefix(cs[i].0, search) {
                Some(r) => r,
                None => cs[i].0,
            })),
        forall|h: HitView| #[trigger] hits_upto(src, search, cs, k).contains(h) ==> h.2 < k
            && h == (cs[h.2 as int].0, cs[h.2 as int].1, h.2),
    decreases k,
{
    if k > 0 {
        lemma_hits_upto_members(src, search, cs, k - 1);
        let prev = hits_upto(src, search, cs, k - 1);
        let cur = hits_upto(src, search, cs, k);
        let last = (cs[k - 1].0, cs[k - 1].1, (k - 1) as nat);
        if glob_matches(src, rel_path(search, cs[k - 1].0)) {
            assert(cur == prev.push(last));
            assert forall|h: HitView| cur.contains(h) <==> (prev.contains(h) || h == last) by {
                if cur.contains(h) {
                    let j = choose|j: int| 0 <= j < cur.len() && cur[j] == h;
                    if j < prev.len() {
                        assert(prev[j] == h);
                    }
                }
                if prev.contains(h) {
                    let j = choose|j: int| 0 <= j < prev.len() && prev[j] == h;
                    assert(cur[j] == h);
                }
                if h == last {
                    assert(cur[prev.len() as int] == h);
                }
            }
        }
    }
}

} // verus!
