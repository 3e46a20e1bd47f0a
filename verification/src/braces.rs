//! Brace alternatives in file-name patterns: `*.{ts,tsx}` stands for `*.ts`
//! and `*.tsx`.
use vstd::prelude::*;
use crate::matching::{compile_glob, glob_compile_error, glob_is_match, glob_matches, GlobPattern};
use crate::text::{chars_of, first_match, find_from, lemma_first_match, string_of, views};

verus! {

/// The parts of `s` between commas.
pub open spec fn split_commas(s: Seq<char>) -> Seq<Seq<char>>
    decreases s.len(),
{
    match first_match(s, seq![','], 0) {
        None => seq![s],
        Some(k) => {
            proof {
                lemma_first_match(s, seq![','], 0);
            }
            seq![s.subrange(0, k)] + split_commas(s.subrange(k + 1, s.len() as int))
        },
    }
}

/// The patterns a pattern stands for: the first `{...}` group is replaced by
/// each of its comma-separated alternatives in turn, and each result is
/// expanded again; a pattern without a complete group stands for itself.
pub open spec fn expand_braces(p: Seq<char>) -> Seq<Seq<char>>
    decreases p.len(), p.len() + 1,
{
    match first_match(p, seq!['{'], 0) {
        None => seq![p],
        Some(i) => match first_match(p, seq!['}'], i + 1) {
            None => seq![p],
            Some(j) => {
                proof {
                    lemma_first_match(p, seq!['{'], 0);
                    lemma_first_match(p, seq!['}'], i + 1);
                }
                let alts = split_commas(p.subrange(i + 1, j));
                if alts.len() <= p.len() {
                    expand_alts(p.subrange(0, i), alts, 0, p.subrange(j + 1, p.len() as int), p.len())
                } else {
                    seq![p]
                }
            },
        },
    }
}

/// The expansions of `pre + a + post` for the alternatives `a` of `alts` from index `k` on.
pub open spec fn expand_alts(pre: Seq<char>, alts: Seq<Seq<char>>, k: int, post: Seq<char>, bound: nat) -> Seq<Seq<char>>
    decreases bound, alts.len() - k,
{
    if k < 0 || k >= alts.len() {
        Seq::empty()
    } else {
        let q = pre + alts[k] + post;
        if q.len() < bound {
            expand_braces(q) + expand_alts(pre, alts, k + 1, post, bound)
        } else {
            expand_alts(pre, alts, k + 1, post, bound)
        }
    }
}

/// The alternatives of `ps` that compile as globs, in order.
pub open spec fn compiling(ps: Seq<Seq<char>>) -> Seq<Seq<char>>
    decreases ps.len(),
{
    if ps.len() == 0 {
        Seq::empty()
    } else if glob_compile_error(ps.last()) is None {
        compiling(ps.drop_last()).push(ps.last())
    } else {
        compiling(ps.drop_last())
    }
}

proof fn lemma_split_len(s: Seq<char>)
    ensures
        split_commas(s).len() <= s.len() + 1,
        forall|k: int| 0 <= k < split_commas(s).len() ==> #[trigger] split_commas(s)[k].len() <= s.len(),
    decreases s.len(),
{
    lemma_first_match(s, seq![','], 0);
    if let Some(k) = first_match(s, seq![','], 0) {
        lemma_split_len(s.subrange(k + 1, s.len() as int));
        let rest = split_commas(s.subrange(k + 1, s.len() as int));
        assert forall|t: int| 0 <= t < split_commas(s).len() implies #[trigger] split_commas(s)[t].len() <= s.len() by {
            if t > 0 {
                assert(split_commas(s)[t] == rest[t - 1]);
            }
        }
    }
}

/// Splits `s` at its commas.
pub fn split_commas_exec(s: &Vec<char>) -> (r: Vec<Vec<char>>)
    ensures
        views(r@) == split_commas(s@),
    decreases s@.len(),
{
    let comma = vec![','];
    assert(comma@ == seq![',']);
    match find_from(s, &comma, 0) {
        None => {
            let mut r = Vec::new();
            r.push(crate::text::string_range_vec(s, 0, s.len()));
            assert(s@.subrange(0, s@.len() as int) == s@);
            assert(views(r@) =~= seq![s@]);
            r
        },
        Some(k) => {
            proof {
                lemma_first_match(s@, seq![','], 0);
            }
            let slen = s.len();
            assert(k < slen);
            let head = crate::text::string_range_vec(s, 0, k);
            let tail = crate::text::string_range_vec(s, k + 1, s.len());
            let rest = split_commas_exec(&tail);
            let mut r = Vec::new();
            r.push(head);
            let mut i: usize = 0;
            while i < rest.len()
                invariant
                    i <= rest@.len(),
                    views(r@) == seq![head@] + views(rest@).take(i as int),
                decreases rest@.len() - i,
            {
                let ghost before = views(r@);
                let piece = crate::text::string_range_vec(&rest[i], 0, rest[i].len());
                r.push(piece);
                assert(rest@[i as int]@.subrange(0, rest@[i as int]@.len() as int) == rest@[i as int]@);
                assert(views(r@) =~= before.push(piece@));
                assert(views(rest@).take(i + 1) =~= views(rest@).take(i as int).push(rest@[i as int]@));
                assert(views(r@) =~= seq![head@] + views(rest@).take(i + 1));
                i = i + 1;
            }
            assert(views(rest@).take(rest@.len() as int) == views(rest@));
            r
        },
    }
}

fn append_all(out: &mut Vec<Vec<char>>, more: Vec<Vec<char>>)
    ensures
        views(final(out)@) == views(old(out)@) + views(more@),
{
    let mut i: usize = 0;
    while i < more.len()
        invariant
            i <= more@.len(),
            views(out@) == views(old(out)@) + views(more@).take(i as int),
        decreases more@.len() - i,
    {
        let ghost before = views(out@);
        let piece = crate::text::string_range_vec(&more[i], 0, more[i].len());
        out.push(piece);
        assert(more@[i as int]@.subrange(0, more@[i as int]@.len() as int) == more@[i as int]@);
        assert(views(out@) =~= before.push(piece@));
        assert(views(more@).take(i + 1) =~= views(more@).take(i as int).push(more@[i as int]@));
        assert(views(out@) =~= views(old(out)@) + views(more@).take(i + 1));
        i = i + 1;
    }
    assert(views(more@).take(more@.len() as int) == views(more@));
}

/// The patterns `p` stands for (see `expand_braces`).
pub fn expand_braces_exec(p: &Vec<char>) -> (r: Vec<Vec<char>>)
    ensures
        views(r@) == expand_braces(p@),
    decreases p@.len(), p@.len() + 1,
{
    let open = vec!['{'];
    let close = vec!['}'];
    assert(open@ == seq!['{']);
    assert(close@ == seq!['}']);
    let single = || -> (r: Vec<Vec<char>>)
        ensures
            views(r@) == seq![p@],
    {
        let mut r = Vec::new();
        r.push(crate::text::string_range_vec(p, 0, p.len()));
        assert(p@.subrange(0, p@.len() as int) == p@);
        assert(views(r@) =~= seq![p@]);
        r
    };
    match find_from(p, &open, 0) {
        None => single(),
        Some(i) => {
            proof {
                lemma_first_match(p@, seq!['{'], 0);
            }
            let plen = p.len();
            assert(i < plen);
            match find_from(p, &close, i + 1) {
                None => single(),
                Some(j) => {
                    proof {
                        lemma_first_match(p@, seq!['}'], i + 1);
                    }
                    let inner = crate::text::string_range_vec(p, i + 1, j);
                    let alts = split_commas_exec(&inner);
                    proof {
                        lemma_split_len(inner@);
                    }
                    if alts.len() > p.len() {
                        return single();
                    }
                    let pre = crate::text::string_range_vec(p, 0, i);
                    let post = crate::text::string_range_vec(p, j + 1, p.len());
                    expand_alts_exec(&pre, &alts, 0, &post, p.len())
                },
            }
        },
    }
}

fn expand_alts_exec(pre: &Vec<char>, alts: &Vec<Vec<char>>, k: usize, post: &Vec<char>, bound: usize) -> (r: Vec<Vec<char>>)
    requires
        k <= alts@.len(),
    ensures
        views(r@) == expand_alts(pre@, views(alts@), k as int, post@, bound as nat),
    decreases bound, alts@.len() - k,
{
    if k >= alts.len() {
        let r: Vec<Vec<char>> = Vec::new();
        assert(views(r@) =~= Seq::<Seq<char>>::empty());
        return r;
    }
    let ghost a = views(alts@);
    assert(a[k as int] == alts@[k as int]@);
    let total: u128 = pre.len() as u128 + alts[k].len() as u128 + post.len() as u128;
    let rest = expand_alts_exec(pre, alts, k + 1, post, bound);
    if total < bound as u128 {
        let mut q: Vec<char> = Vec::new();
        crate::text::append_range(&mut q, pre, 0, pre.len());
        crate::text::append_range(&mut q, &alts[k], 0, alts[k].len());
        crate::text::append_range(&mut q, post, 0, post.len());
        assert(pre@.subrange(0, pre@.len() as int) == pre@);
        assert(alts@[k as int]@.subrange(0, alts@[k as int]@.len() as int) == alts@[k as int]@);
        assert(post@.subrange(0, post@.len() as int) == post@);
        let mut out = expand_braces_exec(&q);
        append_all(&mut out, rest);
        out
    } else {
        rest
    }
}

/// A file-name filter: the text it was given and the compiling globs it stands for.
pub struct FileFilter {
    pub source: String,
    pub globs: Vec<GlobPattern>,
}

/// The sources of compiled globs.
pub open spec fn glob_sources(gs: Seq<GlobPattern>) -> Seq<Seq<char>> {
    gs.map_values(|g: GlobPattern| g.source())
}

/// Builds the filter for `src`: its brace alternatives that compile.
pub fn file_filter(src: &str) -> (f: FileFilter)
    ensures
        f.source@ == src@,
        glob_sources(f.globs@) == compiling(expand_braces(src@)),
{
    let alts = expand_braces_exec(&chars_of(src));
    let ghost all = views(alts@);
    let mut globs: Vec<GlobPattern> = Vec::new();
    let mut i: usize = 0;
    while i < alts.len()
        invariant
            i <= alts@.len(),
            all == views(alts@),
            glob_sources(globs@) == compiling(all.take(i as int)),
        decreases alts@.len() - i,
    {
        let text = string_of(&alts[i]);
        assert(all.take(i + 1).drop_last() == all.take(i as int));
        assert(all.take(i + 1).last() == alts@[i as int]@);
        match compile_glob(text.as_str()) {
            Ok(g) => {
                let ghost before = glob_sources(globs@);
                globs.push(g);
                assert(glob_sources(globs@) =~= before.push(alts@[i as int]@));
            },
            Err(_) => {},
        }
        i = i + 1;
    }
    assert(all.take(alts@.len() as int) == all);
    FileFilter { source: src.to_owned(), globs }
}

/// Whether `name` passes the filter.
pub fn filter_admits(f: &FileFilter, name: &str) -> (b: bool)
    ensures
        b == exists|k: int| 0 <= k < f.globs@.len() && glob_matches(#[trigger] glob_sources(f.globs@)[k], name@),
{
    let mut i: usize = 0;
    while i < f.globs.len()
        invariant
            i <= f.globs@.len(),
            forall|k: int| 0 <= k < i ==> !glob_matches(#[trigger] glob_sources(f.globs@)[k], name@),
        decreases f.globs@.len() - i,
    {
        assert(glob_sources(f.globs@)[i as int] == f.globs@[i as int].source());
        if glob_is_match(&f.globs[i], name) {
            return true;
        }
        i = i + 1;
    }
    false
}

} // verus!
