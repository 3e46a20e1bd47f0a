//! Ordering of records and an insertion sort that is proved to return a
//! sorted permutation of its input.
use vstd::prelude::*;
use vstd::multiset::Multiset;
use vstd::relations::{sorted_by, total_ordering};
use vstd::seq_lib::lemma_sorted_unique;
use crate::text::{chars_of, string_views};

verus! {

broadcast use vstd::seq_lib::group_to_multiset_ensures;

/// A type with an executable comparison that decides a total preorder.
pub trait Ordered: Sized {
    /// `a` may stand before `b`.
    spec fn le_spec(a: Self, b: Self) -> bool;

    /// Decides `le_spec(*self, *other)`.
    fn le(&self, other: &Self) -> (b: bool)
        ensures
            b == Self::le_spec(*self, *other);

    /// Any two values are comparable.
    proof fn lemma_total(a: Self, b: Self)
        ensures
            Self::le_spec(a, b) || Self::le_spec(b, a);

    /// The order is transitive.
    proof fn lemma_transitive(a: Self, b: Self, c: Self)
        requires
            Self::le_spec(a, b),
            Self::le_spec(b, c),
        ensures
            Self::le_spec(a, c);
}

/// `s` is sorted by `T`'s order.
pub open spec fn is_sorted<T: Ordered>(s: Seq<T>) -> bool {
    forall|i: int, j: int| 0 <= i < j < s.len() ==> #[trigger] T::le_spec(s[i], s[j])
}

/// Sorts `items` by `T`'s order: the result is sorted and holds the same
/// elements, each as often, as the input.
pub fn sort_vec<T: Ordered>(items: Vec<T>) -> (out: Vec<T>)
    ensures
        is_sorted(out@),
        out@.to_multiset() == items@.to_multiset(),
{
    let mut rest = items;
    let mut out: Vec<T> = Vec::new();
    while rest.len() > 0
        invariant
            is_sorted(out@),
            out@.to_multiset().add(rest@.to_multiset()) == items@.to_multiset(),
        decreases rest@.len(),
    {
        let ghost before_rest = rest@;
        let x = rest.pop().unwrap();
        assert(before_rest == rest@.push(x));
        let mut pos: usize = 0;
        while pos < out.len() && !x.le(&out[pos])
            invariant
                pos <= out@.len(),
                forall|k: int| 0 <= k < pos ==> !T::le_spec(x, out@[k]),
            decreases out@.len() - pos,
        {
            pos = pos + 1;
        }
        let ghost before = out@;
        proof {
            lemma_insert_sorted(before, pos as int, x);
            vstd::seq_lib::to_multiset_insert(before, pos as int, x);
            vstd::seq_lib::to_multiset_build(rest@, x);
        }
        out.insert(pos, x);
        assert(out@ == before.insert(pos as int, x));
        assert(out@.to_multiset().add(rest@.to_multiset()) =~= before.to_multiset().add(before_rest.to_multiset()));
    }
    assert(rest@.to_multiset() =~= Multiset::<T>::empty());
    assert(out@.to_multiset().add(Multiset::<T>::empty()) =~= out@.to_multiset());
    out
}


proof fn lemma_insert_sorted<T: Ordered>(before: Seq<T>, pos: int, x: T)
    requires
        is_sorted(before),
        0 <= pos <= before.len(),
        forall|k: int| 0 <= k < pos ==> !T::le_spec(x, before[k]),
        pos < before.len() ==> T::le_spec(x, before[pos]),
    ensures
        is_sorted(before.insert(pos, x)),
{
    before.insert_ensures(pos, x);
    assert forall|i: int, j: int| 0 <= i < j < before.insert(pos, x).len() implies
        #[trigger] T::le_spec(before.insert(pos, x)[i], before.insert(pos, x)[j]) by {
        let s = before.insert(pos, x);
        if j < pos {
            assert(s[i] == before[i] && s[j] == before[j]);
        } else if j == pos {
            assert(s[j] == x && s[i] == before[i]);
            T::lemma_total(x, before[i]);
        } else if i < pos {
            assert(s[i] == before[i]);
            assert(s[j] == before[(j - 1)]);
            T::lemma_total(x, before[i]);
            assert(T::le_spec(x, before[pos]));
            if j - 1 > pos {
                assert(T::le_spec(before[pos], before[j - 1]));
                T::lemma_transitive(x, before[pos], before[j - 1]);
            }
            T::lemma_transitive(before[i], x, before[j - 1]);
        } else if i == pos {
            assert(s[i] == x);
            assert(s[j] == before[(j - 1)]);
            if j - 1 > pos {
                assert(T::le_spec(before[pos], before[j - 1]));
                T::lemma_transitive(x, before[pos], before[j - 1]);
            }
        } else {
            assert(s[i] == before[(i - 1)]);
            assert(s[j] == before[(j - 1)]);
        }
    }
}

// ---------------------------------------------------------------------------
// Lexicographic order on character sequences

/// The rank of a character: its code point, except that with `slash_first`
/// the separator `/` ranks below every other character.
pub open spec fn char_rank(c: char, slash_first: bool) -> int {
    if slash_first && c == '/' {
        -1
    } else {
        (c as u32) as int
    }
}

/// Lexicographic order by character rank: `a` is a prefix of `b`, or at the
/// first difference `a`'s character ranks lower.
pub open spec fn ranked_le(a: Seq<char>, b: Seq<char>, slash_first: bool) -> bool
    decreases a.len(),
{
    if a.len() == 0 {
        true
    } else if b.len() == 0 {
        false
    } else if a[0] != b[0] {
        char_rank(a[0], slash_first) < char_rank(b[0], slash_first)
    } else {
        ranked_le(a.drop_first(), b.drop_first(), slash_first)
    }
}

/// Lexicographic order by code point, the order of `str` and `String`.
pub open spec fn lex_le(a: Seq<char>, b: Seq<char>) -> bool {
    ranked_le(a, b, false)
}

/// The order of paths made of plain names: component by component, which is
/// code-point order with the separator `/` below every other character.
pub open spec fn path_le(a: Seq<char>, b: Seq<char>) -> bool {
    ranked_le(a, b, true)
}

proof fn lemma_rank_injective(c: char, d: char, slash_first: bool)
    requires
        c != d,
    ensures
        char_rank(c, slash_first) != char_rank(d, slash_first),
{
    vstd::utf8::char_u32_cast(c, c as u32);
    vstd::utf8::char_u32_cast(d, d as u32);
}

/// Any two sequences are comparable.
pub proof fn lemma_ranked_total(a: Seq<char>, b: Seq<char>, f: bool)
    ensures
        ranked_le(a, b, f) || ranked_le(b, a, f),
    decreases a.len(),
{
    if a.len() > 0 && b.len() > 0 {
        if a[0] == b[0] {
            lemma_ranked_total(a.drop_first(), b.drop_first(), f);
        } else {
            lemma_rank_injective(a[0], b[0], f);
        }
    }
}

/// The order is transitive.
pub proof fn lemma_ranked_transitive(a: Seq<char>, b: Seq<char>, c: Seq<char>, f: bool)
    requires
        ranked_le(a, b, f),
        ranked_le(b, c, f),
    ensures
        ranked_le(a, c, f),
    decreases a.len(),
{
    if a.len() > 0 && b.len() > 0 && c.len() > 0 {
        if a[0] == b[0] && b[0] == c[0] {
            lemma_ranked_transitive(a.drop_first(), b.drop_first(), c.drop_first(), f);
        } else if a[0] == c[0] {
            lemma_rank_injective(a[0], b[0], f);
        }
    }
}

/// Decides `ranked_le(a@, b@, slash_first)`.
pub fn ranked_le_exec(a: &Vec<char>, b: &Vec<char>, slash_first: bool) -> (r: bool)
    ensures
        r == ranked_le(a@, b@, slash_first),
{
    let mut i: usize = 0;
    assert(a@.skip(0) == a@);
    assert(b@.skip(0) == b@);
    while i < a.len() && i < b.len() && a[i] == b[i]
        invariant
            i <= a@.len(),
            i <= b@.len(),
            ranked_le(a@, b@, slash_first) == ranked_le(a@.skip(i as int), b@.skip(i as int), slash_first),
        decreases a@.len() - i,
    {
        assert(a@.skip(i as int).drop_first() == a@.skip(i + 1));
        assert(b@.skip(i as int).drop_first() == b@.skip(i + 1));
        i = i + 1;
    }
    proof {
        if i < a@.len() && i < b@.len() {
            assert(a@.skip(i as int)[0] == a@[i as int]);
            assert(b@.skip(i as int)[0] == b@[i as int]);
        }
    }
    if i == a.len() {
        true
    } else if i == b.len() {
        false
    } else if slash_first && a[i] == '/' {
        true
    } else if slash_first && b[i] == '/' {
        false
    } else {
        (a[i] as u32) < (b[i] as u32)
    }
}

impl Ordered for String {
    open spec fn le_spec(a: String, b: String) -> bool {
        lex_le(a@, b@)
    }

    fn le(&self, other: &String) -> (b: bool) {
        let a = chars_of(self.as_str());
        let c = chars_of(other.as_str());
        ranked_le_exec(&a, &c, false)
    }

    proof fn lemma_total(a: String, b: String) {
        lemma_ranked_total(a@, b@, false);
    }

    proof fn lemma_transitive(a: String, b: String, c: String) {
        lemma_ranked_transitive(a@, b@, c@, false);
    }
}


/// The order is reflexive.
pub proof fn lemma_ranked_reflexive(a: Seq<char>, f: bool)
    ensures
        ranked_le(a, a, f),
    decreases a.len(),
{
    if a.len() > 0 {
        lemma_ranked_reflexive(a.drop_first(), f);
    }
}

/// The order is antisymmetric.
pub proof fn lemma_ranked_antisymmetric(a: Seq<char>, b: Seq<char>, f: bool)
    requires
        ranked_le(a, b, f),
        ranked_le(b, a, f),
    ensures
        a == b,
    decreases a.len(),
{
    if a.len() > 0 && b.len() > 0 {
        if a[0] != b[0] {
            lemma_rank_injective(a[0], b[0], f);
        }
        lemma_ranked_antisymmetric(a.drop_first(), b.drop_first(), f);
        assert(a =~= seq![a[0]] + a.drop_first());
        assert(b =~= seq![b[0]] + b.drop_first());
    } else {
        assert(a =~= b);
    }
}

/// The lexicographic order on character sequences.
pub open spec fn lex_leq() -> spec_fn(Seq<char>, Seq<char>) -> bool {
    |a: Seq<char>, b: Seq<char>| lex_le(a, b)
}

/// The lexicographic order is a total order.
pub proof fn lemma_lex_total_ordering()
    ensures
        total_ordering(lex_leq()),
{
    assert forall|a: Seq<char>| #[trigger] lex_leq()(a, a) by {
        lemma_ranked_reflexive(a, false);
    }
    assert forall|a: Seq<char>, b: Seq<char>| #[trigger] lex_leq()(a, b) && #[trigger] lex_leq()(b, a) implies a == b by {
        lemma_ranked_antisymmetric(a, b, false);
    }
    assert forall|a: Seq<char>, b: Seq<char>, c: Seq<char>| #[trigger] lex_leq()(a, b) && #[trigger] lex_leq()(b, c) implies lex_leq()(a, c) by {
        lemma_ranked_transitive(a, b, c, false);
    }
    assert forall|a: Seq<char>, b: Seq<char>| #[trigger] lex_leq()(a, b) || #[trigger] lex_leq()(b, a) by {
        lemma_ranked_total(a, b, false);
    }
}

/// Mapping two sequences with the same elements gives sequences with the same elements.
pub proof fn lemma_map_multiset<A, B>(s1: Seq<A>, s2: Seq<A>, f: spec_fn(A) -> B)
    requires
        s1.to_multiset() == s2.to_multiset(),
    ensures
        s1.map_values(f).to_multiset() == s2.map_values(f).to_multiset(),
    decreases s1.len(),
{
    vstd::seq_lib::to_multiset_len(s1);
    vstd::seq_lib::to_multiset_len(s2);
    if s1.len() == 0 {
        assert(s1.map_values(f) =~= s2.map_values(f));
    } else {
        let x = s1.last();
        vstd::seq_lib::to_multiset_contains(s1, x);
        assert(s1.contains(x)) by {
            assert(s1[s1.len() - 1] == x);
        }
        assert(s2.to_multiset().contains(x));
        vstd::seq_lib::to_multiset_contains(s2, x);
        let k = choose|k: int| 0 <= k < s2.len() && s2[k] == x;
        assert(s1 =~= s1.drop_last().push(x));
        vstd::seq_lib::to_multiset_build(s1.drop_last(), x);
        vstd::seq_lib::to_multiset_remove(s2, k);
        assert(s1.drop_last().to_multiset() =~= s1.to_multiset().remove(x));
        lemma_map_multiset(s1.drop_last(), s2.remove(k), f);
        assert(s1.map_values(f) =~= s1.drop_last().map_values(f).push(f(x)));
        vstd::seq_lib::to_multiset_build(s1.drop_last().map_values(f), f(x));
        assert(s2.remove(k).map_values(f) =~= s2.map_values(f).remove(k));
        vstd::seq_lib::to_multiset_remove(s2.map_values(f), k);
        vstd::seq_lib::to_multiset_contains(s2.map_values(f), f(x));
        assert(s2.map_values(f)[k] == f(x));
        assert(s2.map_values(f).to_multiset() =~= s2.map_values(f).to_multiset().remove(f(x)).insert(f(x)));
    }
}

/// A sorted permutation, seen through `f`, is the sort of the input's image by
/// the total order `leq` that `T`'s order implies on images.
pub proof fn lemma_sorted_views<T: Ordered, V>(out: Seq<T>, inp: Seq<T>, f: spec_fn(T) -> V, leq: spec_fn(V, V) -> bool)
    requires
        is_sorted(out),
        out.to_multiset() == inp.to_multiset(),
        total_ordering(leq),
        forall|a: T, b: T| #[trigger] T::le_spec(a, b) ==> leq(f(a), f(b)),
    ensures
        out.map_values(f) == inp.map_values(f).sort_by(leq),
{
    lemma_map_multiset(out, inp, f);
    let so = out.map_values(f);
    let si = inp.map_values(f);
    si.lemma_sort_by_ensures(leq);
    assert(sorted_by(so, leq)) by {
        assert forall|i: int, j: int| 0 <= i < j < so.len() implies #[trigger] leq(so[i], so[j]) by {
            assert(T::le_spec(out[i], out[j]));
        }
    }
    lemma_sorted_unique(so, si.sort_by(leq), leq);
}

/// Sorts strings by code point, as `Vec<String>::sort` does.
pub fn sort_strings(v: Vec<String>) -> (out: Vec<String>)
    ensures
        string_views(out@) == string_views(v@).sort_by(lex_leq()),
{
    let out = sort_vec(v);
    proof {
        lemma_lex_total_ordering();
        lemma_sorted_views(out@, v@, |s: String| s@, lex_leq());
    }
    out
}

} // verus!
