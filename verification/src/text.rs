//! Character-level helpers shared by the tools: building strings, decimal
//! numbers, line splitting and substring search, all over `Seq<char>` views.
use vstd::prelude::*;

verus! {

/// Appends one character to `s`; a thin trusted wrapper over `String::push`,
/// which appends the character at the end and leaves the rest untouched.
#[verifier::external_body]
pub fn push_char(s: &mut String, c: char)
    ensures
        final(s)@ == old(s)@.push(c),
{
    s.push(c);
}

/// Collects the characters of `s` into a vector.
pub fn chars_of(s: &str) -> (v: Vec<char>)
    ensures
        v@ == s@,
{
    let mut v: Vec<char> = Vec::new();
    for c in it: s.chars()
        invariant
            v@ == it.seq().take(it.index() as int),
            it.seq() == s@,
    {
        v.push(c);
    }
    v
}

/// Builds a string from the characters `v[from..to]`.
pub fn string_of_range(v: &Vec<char>, from: usize, to: usize) -> (s: String)
    requires
        from <= to <= v@.len(),
    ensures
        s@ == v@.subrange(from as int, to as int),
{
    let mut s = String::new();
    let mut i = from;
    while i < to
        invariant
            from <= i <= to <= v@.len(),
            s@ == v@.subrange(from as int, i as int),
        decreases to - i,
    {
        push_char(&mut s, v[i]);
        assert(v@.subrange(from as int, i + 1) == v@.subrange(from as int, i as int).push(v@[i as int]));
        i = i + 1;
    }
    s
}

/// Builds a string from all characters of `v`.
pub fn string_of(v: &Vec<char>) -> (s: String)
    ensures
        s@ == v@,
{
    let s = string_of_range(v, 0, v.len());
    assert(v@.subrange(0, v@.len() as int) == v@);
    s
}

/// The first `n` elements of `s`, or all of them if there are fewer.
pub open spec fn at_most<A>(s: Seq<A>, n: int) -> Seq<A> {
    if n < s.len() {
        s.take(n)
    } else {
        s
    }
}

/// The ASCII digit for `d`, for `0 <= d < 10`.
pub open spec fn digit_char(d: int) -> char {
    if d == 0 { '0' }
    else if d == 1 { '1' }
    else if d == 2 { '2' }
    else if d == 3 { '3' }
    else if d == 4 { '4' }
    else if d == 5 { '5' }
    else if d == 6 { '6' }
    else if d == 7 { '7' }
    else if d == 8 { '8' }
    else { '9' }
}

/// The decimal notation of `n`, most significant digit first, without
/// leading zeros (`0` is written as `"0"`).
pub open spec fn dec(n: nat) -> Seq<char>
    decreases n,
{
    if n < 10 {
        seq![digit_char(n as int)]
    } else {
        dec(n / 10).push(digit_char((n % 10) as int))
    }
}

/// The decimal notation of a signed integer, with a leading `-` when negative.
pub open spec fn signed_dec(n: int) -> Seq<char> {
    if n < 0 {
        seq!['-'] + dec((-n) as nat)
    } else {
        dec(n as nat)
    }
}

fn digit(d: u64) -> (c: char)
    requires
        d < 10,
    ensures
        c == digit_char(d as int),
{
    if d == 0 { '0' }
    else if d == 1 { '1' }
    else if d == 2 { '2' }
    else if d == 3 { '3' }
    else if d == 4 { '4' }
    else if d == 5 { '5' }
    else if d == 6 { '6' }
    else if d == 7 { '7' }
    else if d == 8 { '8' }
    else { '9' }
}

fn push_decimal(s: &mut String, n: u64)
    ensures
        final(s)@ == old(s)@ + dec(n as nat),
    decreases n,
{
    if n < 10 {
        push_char(s, digit(n));
        assert(old(s)@.push(digit_char(n as int)) == old(s)@ + seq![digit_char(n as int)]);
    } else {
        push_decimal(s, n / 10);
        push_char(s, digit(n % 10));
        assert(old(s)@ + dec((n / 10) as nat) + seq![digit_char((n % 10) as int)]
            == old(s)@ + dec((n / 10) as nat).push(digit_char((n % 10) as int)));
    }
}

/// The decimal notation of `n`.
pub fn decimal(n: u64) -> (s: String)
    ensures
        s@ == dec(n as nat),
{
    let mut s = String::new();
    push_decimal(&mut s, n);
    assert(Seq::<char>::empty() + dec(n as nat) == dec(n as nat));
    s
}

/// The decimal notation of a signed `n`.
pub fn signed_decimal(n: i64) -> (s: String)
    ensures
        s@ == signed_dec(n as int),
{
    let mut s = String::new();
    if n < 0 {
        push_char(&mut s, '-');
        let m: u64 = if n == i64::MIN { 9223372036854775808u64 } else { (-n) as u64 };
        push_decimal(&mut s, m);
    } else {
        push_decimal(&mut s, n as u64);
        assert(Seq::<char>::empty() + dec(n as nat) == dec(n as nat));
    }
    s
}


// ---------------------------------------------------------------------------
// Lines

/// The character sequences held by a vector of character vectors.
pub open spec fn views(v: Seq<Vec<char>>) -> Seq<Seq<char>> {
    v.map_values(|l: Vec<char>| l@)
}

/// The index of the first `'\n'` in `s` at or after `i`, or `s.len()` if none.
pub open spec fn next_newline(s: Seq<char>, i: int) -> int
    decreases s.len() - i,
{
    if i >= s.len() || i < 0 {
        s.len() as int
    } else if s[i] == '\n' {
        i
    } else {
        next_newline(s, i + 1)
    }
}

/// A line that ended with `'\n'` loses one trailing `'\r'`.
pub open spec fn strip_cr(l: Seq<char>) -> Seq<char> {
    if l.len() > 0 && l.last() == '\r' {
        l.drop_last()
    } else {
        l
    }
}

/// The lines of `s` from index `i` on, as `str::lines` yields them: split at
/// `'\n'`; a line that ended with `'\n'` also loses one trailing `'\r'`; the
/// final line ending is optional, so a trailing `'\n'` adds no empty line.
pub open spec fn lines_from(s: Seq<char>, i: int) -> Seq<Seq<char>>
    decreases s.len() - i,
{
    if i < 0 || i >= s.len() {
        Seq::empty()
    } else {
        let e = next_newline(s, i);
        if e >= s.len() {
            seq![s.subrange(i, s.len() as int)]
        } else {
            proof {
                lemma_next_newline_bounds(s, i);
            }
            seq![strip_cr(s.subrange(i, e))] + lines_from(s, e + 1)
        }
    }
}

/// The lines of `s` (see `lines_from`).
pub open spec fn lines(s: Seq<char>) -> Seq<Seq<char>> {
    lines_from(s, 0)
}

/// `next_newline` finds the first newline at or after `i`, or the end.
pub proof fn lemma_next_newline_bounds(s: Seq<char>, i: int)
    requires
        0 <= i <= s.len(),
    ensures
        i <= next_newline(s, i) <= s.len(),
        next_newline(s, i) < s.len() ==> s[next_newline(s, i)] == '\n',
        forall|k: int| i <= k < next_newline(s, i) ==> s[k] != '\n',
    decreases s.len() - i,
{
    if i < s.len() && s[i] != '\n' {
        lemma_next_newline_bounds(s, i + 1);
    }
}

proof fn lemma_next_newline_skip(s: Seq<char>, i: int, j: int)
    requires
        0 <= i <= j <= s.len(),
        forall|k: int| i <= k < j ==> s[k] != '\n',
    ensures
        next_newline(s, i) == next_newline(s, j),
    decreases j - i,
{
    if i < j {
        lemma_next_newline_skip(s, i + 1, j);
    }
}

/// Every line of `s` from `i` on consumes at least one character, so there are
/// no more lines than remaining characters.
pub proof fn lemma_lines_from_len(s: Seq<char>, i: int)
    requires
        0 <= i <= s.len(),
    ensures
        lines_from(s, i).len() <= s.len() - i,
    decreases s.len() - i,
{
    if i < s.len() {
        lemma_next_newline_bounds(s, i);
        let e = next_newline(s, i);
        if e < s.len() {
            lemma_lines_from_len(s, e + 1);
        }
    }
}

fn strip_cr_range(v: &Vec<char>, from: usize, to: usize) -> (r: Vec<char>)
    requires
        from <= to <= v@.len(),
    ensures
        r@ == strip_cr(v@.subrange(from as int, to as int)),
{
    let end = if to > from && v[to - 1] == '\r' { to - 1 } else { to };
    let mut r: Vec<char> = Vec::new();
    let mut k = from;
    while k < end
        invariant
            from <= k <= end <= to <= v@.len(),
            r@ == v@.subrange(from as int, k as int),
        decreases end - k,
    {
        r.push(v[k]);
        assert(v@.subrange(from as int, k + 1) == v@.subrange(from as int, k as int).push(v@[k as int]));
        k = k + 1;
    }
    assert(strip_cr(v@.subrange(from as int, to as int)) == v@.subrange(from as int, end as int));
    r
}

/// Splits `v` into lines exactly as `str::lines` does (see `lines`).
pub fn split_lines(v: &Vec<char>) -> (r: Vec<Vec<char>>)
    ensures
        views(r@) == lines(v@),
        r@.len() <= v@.len(),
{
    let mut r: Vec<Vec<char>> = Vec::new();
    let mut start: usize = 0;
    let mut i: usize = 0;
    let ghost s = v@;
    while i < v.len()
        invariant
            s == v@,
            start <= i <= s.len(),
            forall|k: int| start <= k < i ==> s[k] != '\n',
            views(r@) + lines_from(s, start as int) == lines(s),
            r@.len() <= start,
        decreases s.len() - i,
    {
        if v[i] == '\n' {
            proof {
                lemma_next_newline_skip(s, start as int, i as int);
                lemma_next_newline_bounds(s, start as int);
                lemma_lines_from_len(s, start as int);
            }
            let line = strip_cr_range(v, start, i);
            let ghost before = views(r@);
            r.push(line);
            assert(views(r@) =~= before.push(line@));
            assert(lines_from(s, start as int) == seq![line@] + lines_from(s, i + 1));
            assert(views(r@) + lines_from(s, i + 1) == before + lines_from(s, start as int));
            start = i + 1;
        }
        i = i + 1;
    }
    if start < v.len() {
        proof {
            lemma_next_newline_skip(s, start as int, i as int);
        }
        let line = string_range_vec(v, start, v.len());
        let ghost before = views(r@);
        r.push(line);
        assert(views(r@) =~= before.push(line@));
        assert(lines_from(s, start as int) == seq![line@]);
    } else {
        assert(lines_from(s, start as int) == Seq::<Seq<char>>::empty());
        assert(views(r@) + Seq::<Seq<char>>::empty() == views(r@));
    }
    r
}

/// Copies `v[from..to]` into a new vector.
pub fn string_range_vec(v: &Vec<char>, from: usize, to: usize) -> (r: Vec<char>)
    requires
        from <= to <= v@.len(),
    ensures
        r@ == v@.subrange(from as int, to as int),
{
    let mut r: Vec<char> = Vec::new();
    let mut k = from;
    while k < to
        invariant
            from <= k <= to <= v@.len(),
            r@ == v@.subrange(from as int, k as int),
        decreases to - k,
    {
        r.push(v[k]);
        assert(v@.subrange(from as int, k + 1) == v@.subrange(from as int, k as int).push(v@[k as int]));
        k = k + 1;
    }
    r
}


// ---------------------------------------------------------------------------
// Substring search

/// `p` occurs in `s` starting at index `i`.
pub open spec fn matches_at(s: Seq<char>, p: Seq<char>, i: int) -> bool {
    0 <= i && i + p.len() <= s.len() && s.subrange(i, i + p.len()) == p
}

/// The first index `>= i` at which `p` occurs in `s`, if any.
pub open spec fn first_match(s: Seq<char>, p: Seq<char>, i: int) -> Option<int>
    decreases s.len() + 1 - i,
{
    if i + p.len() > s.len() {
        None
    } else if matches_at(s, p, i) {
        Some(i)
    } else {
        first_match(s, p, i + 1)
    }
}

/// The number of non-overlapping occurrences of a non-empty `p` in `s[i..]`,
/// found left to right.
pub open spec fn count_from(s: Seq<char>, p: Seq<char>, i: int) -> nat
    decreases s.len() - i,
{
    if p.len() == 0 || i < 0 {
        0
    } else {
        match first_match(s, p, i) {
            None => 0,
            Some(j) => {
                proof {
                    lemma_first_match(s, p, i);
                }
                1 + count_from(s, p, j + p.len())
            },
        }
    }
}

/// The number of matches that `str::matches` yields: for a non-empty pattern
/// the non-overlapping occurrences left to right, for the empty pattern one
/// per character boundary.
pub open spec fn count_matches(s: Seq<char>, p: Seq<char>) -> nat {
    if p.len() == 0 {
        s.len() + 1
    } else {
        count_from(s, p, 0)
    }
}

/// `s[i..]` with every non-overlapping occurrence of a non-empty `p` replaced by `r`.
pub open spec fn replace_from(s: Seq<char>, p: Seq<char>, r: Seq<char>, i: int) -> Seq<char>
    decreases s.len() - i,
{
    if p.len() == 0 || i < 0 || i > s.len() {
        s.subrange(i, s.len() as int)
    } else {
        match first_match(s, p, i) {
            None => s.subrange(i, s.len() as int),
            Some(j) => {
                proof {
                    lemma_first_match(s, p, i);
                }
                s.subrange(i, j) + r + replace_from(s, p, r, j + p.len())
            },
        }
    }
}

/// `r` before, between and after every character of `s`: what replacing the
/// empty pattern yields.
pub open spec fn interleave(s: Seq<char>, r: Seq<char>) -> Seq<char>
    decreases s.len(),
{
    if s.len() == 0 {
        r
    } else {
        r + seq![s[0]] + interleave(s.drop_first(), r)
    }
}

/// What `str::replace(s, p, r)` yields.
pub open spec fn replace_all(s: Seq<char>, p: Seq<char>, r: Seq<char>) -> Seq<char> {
    if p.len() == 0 {
        interleave(s, r)
    } else {
        replace_from(s, p, r, 0)
    }
}

/// What `str::replacen(s, p, r, 1)` yields: the first occurrence replaced.
pub open spec fn replace_first(s: Seq<char>, p: Seq<char>, r: Seq<char>) -> Seq<char> {
    match first_match(s, p, 0) {
        None => s,
        Some(j) => s.subrange(0, j) + r + s.subrange(j + p.len(), s.len() as int),
    }
}

/// `p` occurs somewhere in `s` (the empty pattern occurs in every string).
pub open spec fn contains_seq(s: Seq<char>, p: Seq<char>) -> bool {
    first_match(s, p, 0) is Some
}

/// What `first_match` finds is an occurrence, at or after `i`, with none
/// between `i` and it; when it finds none there is no occurrence at all.
pub proof fn lemma_first_match(s: Seq<char>, p: Seq<char>, i: int)
    requires
        0 <= i,
    ensures
        first_match(s, p, i) matches Some(j) ==> i <= j && j + p.len() <= s.len()
            && matches_at(s, p, j) && forall|k: int| i <= k < j ==> !matches_at(s, p, k),
        first_match(s, p, i) is None ==> forall|k: int| i <= k ==> !matches_at(s, p, k),
    decreases s.len() + 1 - i,
{
    if i + p.len() <= s.len() && !matches_at(s, p, i) {
        lemma_first_match(s, p, i + 1);
    }
}

fn matches_at_exec(s: &Vec<char>, p: &Vec<char>, i: usize) -> (b: bool)
    ensures
        b == matches_at(s@, p@, i as int),
{
    let slen = s.len();
    let plen = p.len();
    if i > slen || plen > slen - i {
        return false;
    }
    let mut k: usize = 0;
    while k < plen
        invariant
            slen == s@.len(),
            plen == p@.len(),
            i + p@.len() <= s@.len(),
            k <= p@.len(),
            forall|t: int| 0 <= t < k ==> s@[i + t] == p@[t],
        decreases p@.len() - k,
    {
        assert(i + k < s@.len());
        if s[i + k] != p[k] {
            assert(s@.subrange(i as int, i + p@.len())[k as int] != p@[k as int]);
            return false;
        }
        k = k + 1;
    }
    assert(s@.subrange(i as int, i + p@.len()) =~= p@);
    true
}

/// The first index `>= from` at which `p` occurs in `s`.
pub fn find_from(s: &Vec<char>, p: &Vec<char>, from: usize) -> (r: Option<usize>)
    ensures
        r matches Some(j) ==> first_match(s@, p@, from as int) == Some(j as int),
        r is None ==> first_match(s@, p@, from as int) is None,
{
    let mut i = from;
    let slen = s.len();
    let plen = p.len();
    if i > slen || plen > slen - i {
        return None;
    }
    if plen == 0 {
        assert(s@.subrange(i as int, i as int) =~= p@);
        return Some(i);
    }
    while i <= slen - plen
        invariant
            slen == s@.len(),
            plen == p@.len(),
            plen > 0,
            from <= i <= s@.len(),
            p@.len() <= s@.len(),
            first_match(s@, p@, from as int) == first_match(s@, p@, i as int),
        decreases s@.len() - i,
    {
        if matches_at_exec(s, p, i) {
            return Some(i);
        }
        i = i + 1;
    }
    None
}

/// `p` occurs in `s`.
pub fn contains(s: &Vec<char>, p: &Vec<char>) -> (b: bool)
    ensures
        b == contains_seq(s@, p@),
{
    find_from(s, p, 0).is_some()
}

/// The number of matches of `p` in `s`, counted as `str::matches(..).count()` does.
pub fn count_occurrences(s: &Vec<char>, p: &Vec<char>) -> (n: usize)
    requires
        s@.len() < usize::MAX,
    ensures
        n == count_matches(s@, p@),
{
    if p.len() == 0 {
        return s.len() + 1;
    }
    let mut n: usize = 0;
    let mut i: usize = 0;
    while i <= s.len()
        invariant
            p@.len() > 0,
            i <= s@.len(),
            n + count_from(s@, p@, i as int) == count_from(s@, p@, 0),
            n <= i,
        decreases s@.len() + 1 - i,
    {
        match find_from(s, p, i) {
            None => {
                return n;
            },
            Some(j) => {
                proof {
                    lemma_first_match(s@, p@, i as int);
                }
                n = n + 1;
                i = j + p.len();
            },
        }
    }
    proof {
        lemma_first_match(s@, p@, i as int);
        assert(first_match(s@, p@, i as int) is None);
    }
    n
}

proof fn lemma_interleave_push(s: Seq<char>, c: char, r: Seq<char>)
    ensures
        interleave(s.push(c), r) == interleave(s, r) + seq![c] + r,
    decreases s.len(),
{
    if s.len() == 0 {
        assert(s.push(c).drop_first() == Seq::<char>::empty());
        assert(interleave(s.push(c), r) == r + seq![c] + interleave(Seq::<char>::empty(), r));
    } else {
        assert(s.push(c).drop_first() == s.drop_first().push(c));
        lemma_interleave_push(s.drop_first(), c, r);
        assert(interleave(s.push(c), r) == r + seq![s[0]] + interleave(s.drop_first().push(c), r));
        assert(interleave(s.push(c), r) =~= interleave(s, r) + seq![c] + r);
    }
}

/// `s` with every match of `p` replaced by `r`, as `str::replace` does.
pub fn replace_all_exec(s: &Vec<char>, p: &Vec<char>, r: &Vec<char>) -> (out: Vec<char>)
    ensures
        out@ == replace_all(s@, p@, r@),
{
    let mut out: Vec<char> = Vec::new();
    if p.len() == 0 {
        append_range(&mut out, r, 0, r.len());
        let mut k: usize = 0;
        while k < s.len()
            invariant
                k <= s@.len(),
                out@ == interleave(s@.subrange(0, k as int), r@),
            decreases s@.len() - k,
        {
            proof {
                lemma_interleave_push(s@.subrange(0, k as int), s@[k as int], r@);
                assert(s@.subrange(0, k + 1) == s@.subrange(0, k as int).push(s@[k as int]));
            }
            out.push(s[k]);
            append_range(&mut out, r, 0, r.len());
            assert(r@.subrange(0, r@.len() as int) == r@);
            k = k + 1;
        }
        assert(s@.subrange(0, s@.len() as int) == s@);
        assert(r@.subrange(0, r@.len() as int) == r@);
        return out;
    }
    let mut i: usize = 0;
    while i <= s.len()
        invariant
            p@.len() > 0,
            i <= s@.len(),
            out@ + replace_from(s@, p@, r@, i as int) == replace_from(s@, p@, r@, 0),
        decreases s@.len() + 1 - i,
    {
        match find_from(s, p, i) {
            None => {
                append_range(&mut out, s, i, s.len());
                return out;
            },
            Some(j) => {
                proof {
                    lemma_first_match(s@, p@, i as int);
                }
                append_range(&mut out, s, i, j);
                append_range(&mut out, r, 0, r.len());
                assert(r@.subrange(0, r@.len() as int) == r@);
                i = j + p.len();
            },
        }
    }
    out
}

/// `s` with the first match of `p` replaced by `r`, as `str::replacen(.., 1)` does.
pub fn replace_first_exec(s: &Vec<char>, p: &Vec<char>, r: &Vec<char>) -> (out: Vec<char>)
    ensures
        out@ == replace_first(s@, p@, r@),
{
    let mut out: Vec<char> = Vec::new();
    match find_from(s, p, 0) {
        None => {
            append_range(&mut out, s, 0, s.len());
            assert(s@.subrange(0, s@.len() as int) == s@);
        },
        Some(j) => {
            proof {
                lemma_first_match(s@, p@, 0);
            }
            let slen = s.len();
            assert(j + p@.len() <= slen);
            append_range(&mut out, s, 0, j);
            append_range(&mut out, r, 0, r.len());
            append_range(&mut out, s, j + p.len(), s.len());
            assert(r@.subrange(0, r@.len() as int) == r@);
        },
    }
    out
}

/// Appends `v[from..to]` to `out`.
pub fn append_range(out: &mut Vec<char>, v: &Vec<char>, from: usize, to: usize)
    requires
        from <= to <= v@.len(),
    ensures
        final(out)@ == old(out)@ + v@.subrange(from as int, to as int),
{
    let mut k = from;
    while k < to
        invariant
            from <= k <= to <= v@.len(),
            out@ == old(out)@ + v@.subrange(from as int, k as int),
        decreases to - k,
    {
        out.push(v[k]);
        assert(v@.subrange(from as int, k + 1) == v@.subrange(from as int, k as int).push(v@[k as int]));
        k = k + 1;
    }
}


// ---------------------------------------------------------------------------
// Conversions that std performs

/// What `str::to_lowercase` returns for `s`: the Unicode lowercase mapping.
pub uninterp spec fn lowercase(s: Seq<char>) -> Seq<char>;

/// What `String::from_utf8_lossy` returns for `bytes`: the UTF-8 decoding,
/// with each invalid sequence replaced by U+FFFD.
pub uninterp spec fn utf8_lossy(bytes: Seq<u8>) -> Seq<char>;

/// Lowercases `s` with `str::to_lowercase`.
#[verifier::external_body]
pub fn to_lowercase(s: &str) -> (r: String)
    ensures
        r@ == lowercase(s@),
{
    s.to_lowercase()
}

/// Decodes `bytes` with `String::from_utf8_lossy`, which decodes valid UTF-8
/// as it is; the result's length in bytes is that of a `String`, a `usize`.
#[verifier::external_body]
pub fn decode_lossy(bytes: &[u8]) -> (r: String)
    ensures
        r@ == utf8_lossy(bytes@),
        vstd::utf8::valid_utf8(bytes@) ==> r@ == vstd::utf8::decode_utf8(bytes@),
        vstd::utf8::encode_utf8(r@).len() <= usize::MAX,
{
    String::from_utf8_lossy(bytes).into_owned()
}

// ---------------------------------------------------------------------------
// Joining

/// The parts joined with `sep` between consecutive ones.
pub open spec fn join(parts: Seq<Seq<char>>, sep: Seq<char>) -> Seq<char>
    decreases parts.len(),
{
    if parts.len() == 0 {
        Seq::empty()
    } else if parts.len() == 1 {
        parts[0]
    } else {
        join(parts.drop_last(), sep) + sep + parts.last()
    }
}

/// The views of a sequence of strings.
pub open spec fn string_views(v: Seq<String>) -> Seq<Seq<char>> {
    v.map_values(|s: String| s@)
}

/// Joins `parts` with `sep` between consecutive ones, as `[String]::join` does.
pub fn join_strings(parts: &Vec<String>, sep: &str) -> (r: String)
    ensures
        r@ == join(string_views(parts@), sep@),
{
    let mut r = String::new();
    let ghost all = string_views(parts@);
    let mut i: usize = 0;
    while i < parts.len()
        invariant
            i <= parts@.len(),
            all == string_views(parts@),
            r@ == join(all.take(i as int), sep@),
        decreases parts@.len() - i,
    {
        if i > 0 {
            r.append(sep);
        }
        r.append(parts[i].as_str());
        assert(all.take(i + 1).drop_last() == all.take(i as int));
        i = i + 1;
    }
    assert(all.take(parts@.len() as int) == all);
    r
}


/// Whether two strings are equal.
pub fn str_eq(a: &str, b: &str) -> (r: bool)
    ensures
        r == (a@ == b@),
{
    let x = chars_of(a);
    let y = chars_of(b);
    if x.len() != y.len() {
        return false;
    }
    let mut i: usize = 0;
    while i < x.len()
        invariant
            x@ == a@,
            y@ == b@,
            x@.len() == y@.len(),
            i <= x@.len(),
            forall|k: int| 0 <= k < i ==> x@[k] == y@[k],
        decreases x@.len() - i,
    {
        if x[i] != y[i] {
            return false;
        }
        i = i + 1;
    }
    assert(x@ =~= y@);
    true
}

} // verus!
