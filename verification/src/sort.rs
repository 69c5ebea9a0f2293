//! Stable sorting, as `slice::sort_by` and `sort_by_key` do it: the result
//! is ordered and elements that compare equal keep their relative order.

use vstd::prelude::*;
use crate::text::{str_lt, text_lt};

verus! {

/// The position at which `x` is inserted into `s` (from index `i` on): just
/// before the first element that `x` must precede, else at the end.
pub open spec fn insert_pos<A>(s: Seq<A>, x: A, before: spec_fn(A, A) -> bool, i: int) -> int
    decreases s.len() - i,
{
    if i >= s.len() {
        s.len() as int
    } else if before(x, s[i]) {
        i
    } else {
        insert_pos(s, x, before, i + 1)
    }
}

/// `x` inserted into `s` after every element it need not precede.
pub open spec fn insert_sorted<A>(s: Seq<A>, x: A, before: spec_fn(A, A) -> bool) -> Seq<A> {
    s.insert(insert_pos(s, x, before, 0), x)
}

/// The stable sort of `s`, where `before(a, b)` means that `a` must come
/// before `b`: each element in turn is placed after all earlier ones that it
/// need not precede.
pub open spec fn stable_sort<A>(s: Seq<A>, before: spec_fn(A, A) -> bool) -> Seq<A>
    decreases s.len(),
{
    if s.len() == 0 {
        s
    } else {
        insert_sorted(stable_sort(s.drop_last(), before), s.last(), before)
    }
}

/// `before` is a strict order: irreflexive and transitive.
pub open spec fn strict_order<A>(before: spec_fn(A, A) -> bool) -> bool {
    &&& forall|a: A| !#[trigger] before(a, a)
    &&& forall|a: A, b: A, c: A| #[trigger] before(a, b) && #[trigger] before(b, c) ==> before(a, c)
}

/// No element of `s` must come before an element placed earlier.
pub open spec fn is_sorted_by<A>(s: Seq<A>, before: spec_fn(A, A) -> bool) -> bool {
    forall|i: int, j: int| 0 <= i < j < s.len() ==> !before(#[trigger] s[j], #[trigger] s[i])
}

proof fn lemma_insert_pos_bounds<A>(s: Seq<A>, x: A, before: spec_fn(A, A) -> bool, i: int)
    requires
        0 <= i <= s.len(),
    ensures
        i <= insert_pos(s, x, before, i) <= s.len(),
        forall|k: int| i <= k < insert_pos(s, x, before, i) ==> !before(x, #[trigger] s[k]),
        insert_pos(s, x, before, i) < s.len() ==> before(x, s[insert_pos(s, x, before, i)]),
    decreases s.len() - i,
{
    if i < s.len() && !before(x, s[i]) {
        lemma_insert_pos_bounds(s, x, before, i + 1);
    }
}

/// Sorting keeps every element, as many times as it occurs.
pub proof fn lemma_stable_sort_permutes<A>(s: Seq<A>, before: spec_fn(A, A) -> bool)
    ensures
        stable_sort(s, before).to_multiset() == s.to_multiset(),
        stable_sort(s, before).len() == s.len(),
    decreases s.len(),
{
    broadcast use vstd::seq_lib::group_to_multiset_ensures;
    if s.len() > 0 {
        let rest = stable_sort(s.drop_last(), before);
        lemma_stable_sort_permutes(s.drop_last(), before);
        lemma_insert_pos_bounds(rest, s.last(), before, 0);
        let p = insert_pos(rest, s.last(), before, 0);
        rest.insert_ensures(p, s.last());
        assert(s.drop_last().push(s.last()) =~= s);
    }
}

/// Under a strict order, the stable sort is ordered.
pub proof fn lemma_stable_sort_sorted<A>(s: Seq<A>, before: spec_fn(A, A) -> bool)
    requires
        strict_order(before),
    ensures
        is_sorted_by(stable_sort(s, before), before),
    decreases s.len(),
{
    if s.len() > 0 {
        let rest = stable_sort(s.drop_last(), before);
        let x = s.last();
        lemma_stable_sort_sorted(s.drop_last(), before);
        lemma_insert_pos_bounds(rest, x, before, 0);
        let p = insert_pos(rest, x, before, 0);
        let out = rest.insert(p, x);
        assert forall|i: int, j: int| 0 <= i < j < out.len() implies !before(
            #[trigger] out[j],
            #[trigger] out[i],
        ) by {
            if j < p {
                assert(out[i] == rest[i] && out[j] == rest[j]);
            } else if j == p {
                assert(out[i] == rest[i] && out[j] == x);
            } else if i == p {
                assert(out[i] == x && out[j] == rest[j - 1]);
                assert(!before(rest[j - 1], rest[p]) || j - 1 == p);
                if before(rest[j - 1], x) {
                    assert(before(x, rest[p]));
                }
            } else if i < p {
                assert(out[i] == rest[i] && out[j] == rest[j - 1]);
            } else {
                assert(out[i] == rest[i - 1] && out[j] == rest[j - 1]);
            }
        }
    }
}

/// The indices `0..n` in order.
pub open spec fn indices(n: nat) -> Seq<usize> {
    Seq::new(n, |i: int| i as usize)
}

/// Whether index `a` must come before index `b` when ordered by increasing
/// key.
pub open spec fn key_before(keys: Seq<i128>) -> spec_fn(usize, usize) -> bool {
    |a: usize, b: usize| keys[a as int] < keys[b as int]
}

/// The indices `0..keys.len()` stably sorted by increasing key.
pub open spec fn sorted_by_key(keys: Seq<i128>) -> Seq<usize> {
    stable_sort(indices(keys.len()), key_before(keys))
}

/// Stable sort of the indices of `keys` by increasing key.
pub fn sort_indices_by_key(keys: &Vec<i128>) -> (r: Vec<usize>)
    ensures
        r@ == sorted_by_key(keys@),
        r@.len() == keys@.len(),
        forall|i: int| 0 <= i < r@.len() ==> #[trigger] r@[i] < keys@.len(),
{
    let ghost before = key_before(keys@);
    let mut out: Vec<usize> = Vec::new();
    let mut k: usize = 0;
    while k < keys.len()
        invariant
            k <= keys.len(),
            before == key_before(keys@),
            out@ == stable_sort(indices(keys@.len()).take(k as int), before),
            forall|i: int| 0 <= i < out@.len() ==> #[trigger] out@[i] < k,
            out@.len() == k,
        decreases keys.len() - k,
    {
        let ghost prev = out@;
        let ghost s = indices(keys@.len()).take(k + 1);
        assert(s.drop_last() =~= indices(keys@.len()).take(k as int));
        assert(s.last() == k);
        let kk = keys[k];
        let mut p: usize = 0;
        while p < out.len() && !(kk < keys[out[p]])
            invariant
                out@ == prev,
                p <= out@.len(),
                k < keys@.len(),
                kk == keys@[k as int],
                before == key_before(keys@),
                forall|i: int| 0 <= i < out@.len() ==> #[trigger] out@[i] < k,
                insert_pos(prev, k, before, 0) == insert_pos(prev, k, before, p as int),
            decreases out.len() - p,
        {
            p = p + 1;
        }
        assert(insert_pos(prev, k, before, p as int) == p);
        out.insert(p, k);
        k = k + 1;
        assert(out@ =~= stable_sort(s, before));
        assert forall|i: int| 0 <= i < out@.len() implies #[trigger] out@[i] < k by {
            assert(out@ == prev.insert(p as int, (k - 1) as usize));
            if i < p {
                assert(out@[i] == prev[i]);
            } else if i > p {
                assert(out@[i] == prev[i - 1]);
            }
        }
    }
    assert(indices(keys@.len()).take(keys.len() as int) =~= indices(keys@.len()));
    out
}


/// Whether index `a` must come before index `b` when ordered by increasing
/// key, then by text for equal keys.
pub open spec fn key_text_before(keys: Seq<i128>, texts: Seq<Seq<char>>) -> spec_fn(usize, usize) -> bool {
    |a: usize, b: usize|
        keys[a as int] < keys[b as int] || (keys[a as int] == keys[b as int] && text_lt(
            texts[a as int],
            texts[b as int],
        ))
}

/// The indices `0..keys.len()` stably sorted by increasing key, then text.
pub open spec fn sorted_by_key_then_text(keys: Seq<i128>, texts: Seq<Seq<char>>) -> Seq<usize> {
    stable_sort(indices(keys.len()), key_text_before(keys, texts))
}

/// Stable sort of indices by increasing key, equal keys by text.
pub fn sort_indices_by_key_then_text(keys: &Vec<i128>, texts: &Vec<String>) -> (r: Vec<usize>)
    requires
        keys@.len() == texts@.len(),
    ensures
        r@ == sorted_by_key_then_text(keys@, crate::text::views(texts@)),
        r@.len() == keys@.len(),
        forall|i: int| 0 <= i < r@.len() ==> #[trigger] r@[i] < keys@.len(),
{
    let ghost before = key_text_before(keys@, crate::text::views(texts@));
    let mut out: Vec<usize> = Vec::new();
    let mut k: usize = 0;
    while k < keys.len()
        invariant
            k <= keys.len(),
            keys@.len() == texts@.len(),
            before == key_text_before(keys@, crate::text::views(texts@)),
            out@ == stable_sort(indices(keys@.len()).take(k as int), before),
            forall|i: int| 0 <= i < out@.len() ==> #[trigger] out@[i] < k,
            out@.len() == k,
        decreases keys.len() - k,
    {
        let ghost prev = out@;
        let ghost s = indices(keys@.len()).take(k + 1);
        assert(s.drop_last() =~= indices(keys@.len()).take(k as int));
        assert(s.last() == k);
        let mut p: usize = 0;
        while p < out.len() && !(keys[k] < keys[out[p]] || (keys[k] == keys[out[p]] && str_lt(
            texts[k].as_str(),
            texts[out[p]].as_str(),
        )))
            invariant
                out@ == prev,
                p <= out@.len(),
                k < keys@.len(),
                keys@.len() == texts@.len(),
                before == key_text_before(keys@, crate::text::views(texts@)),
                forall|i: int| 0 <= i < out@.len() ==> #[trigger] out@[i] < k,
                insert_pos(prev, k, before, 0) == insert_pos(prev, k, before, p as int),
            decreases out.len() - p,
        {
            p = p + 1;
        }
        assert(insert_pos(prev, k, before, p as int) == p);
        out.insert(p, k);
        k = k + 1;
        assert(out@ =~= stable_sort(s, before));
        assert forall|i: int| 0 <= i < out@.len() implies #[trigger] out@[i] < k by {
            assert(out@ == prev.insert(p as int, (k - 1) as usize));
            if i < p {
                assert(out@[i] == prev[i]);
            } else if i > p {
                assert(out@[i] == prev[i - 1]);
            }
        }
    }
    assert(indices(keys@.len()).take(keys.len() as int) =~= indices(keys@.len()));
    out
}


proof fn lemma_sorted_prefix(keys: Seq<i128>, k: int)
    requires
        0 <= k <= keys.len(),
        keys.len() <= usize::MAX,
    ensures
        ({
            let r = stable_sort(indices(keys.len()).take(k), key_before(keys));
            &&& r.len() == k
            &&& forall|i: int| 0 <= i < r.len() ==> #[trigger] r[i] < k
            &&& forall|i: int, j: int|
                0 <= i < j < r.len() ==> keys[#[trigger] r[i] as int] <= keys[#[trigger] r[j] as int]
            &&& forall|i: int, j: int|
                0 <= i < j < r.len() && keys[r[i] as int] == keys[r[j] as int] ==> #[trigger] r[i] < #[trigger] r[j]
        }),
    decreases k,
{
    let before = key_before(keys);
    let s = indices(keys.len()).take(k);
    if k > 0 {
        lemma_sorted_prefix(keys, k - 1);
        assert(s.drop_last() =~= indices(keys.len()).take(k - 1));
        let rest = stable_sort(s.drop_last(), before);
        let x = s.last();
        assert(x == (k - 1) as usize);
        lemma_insert_pos_bounds(rest, x, before, 0);
        let p = insert_pos(rest, x, before, 0);
        let out = rest.insert(p, x);
        assert(stable_sort(s, before) == out);
        assert forall|i: int| 0 <= i < out.len() implies #[trigger] out[i] < k by {
            if i < p {
                assert(out[i] == rest[i]);
            } else if i > p {
                assert(out[i] == rest[i - 1]);
            }
        }
        assert forall|i: int, j: int| 0 <= i < j < out.len() implies keys[#[trigger] out[i] as int]
            <= keys[#[trigger] out[j] as int] by {
            if j < p {
                assert(out[i] == rest[i] && out[j] == rest[j]);
            } else if j == p {
                assert(out[i] == rest[i] && out[j] == x);
                assert(!before(x, rest[i]));
            } else if i == p {
                assert(out[i] == x && out[j] == rest[j - 1]);
                assert(before(x, rest[p]));
                if j - 1 > p {
                    assert(keys[rest[p] as int] <= keys[rest[j - 1] as int]);
                }
            } else if i < p {
                assert(out[i] == rest[i] && out[j] == rest[j - 1]);
            } else {
                assert(out[i] == rest[i - 1] && out[j] == rest[j - 1]);
            }
        }
        assert forall|i: int, j: int|
            0 <= i < j < out.len() && keys[out[i] as int] == keys[out[j] as int] implies #[trigger] out[i]
            < #[trigger] out[j] by {
            if j < p {
                assert(out[i] == rest[i] && out[j] == rest[j]);
            } else if j == p {
                assert(out[i] == rest[i] && out[j] == x);
            } else if i == p {
                assert(out[i] == x && out[j] == rest[j - 1]);
                assert(before(x, rest[p]));
                if j - 1 > p {
                    assert(keys[rest[p] as int] <= keys[rest[j - 1] as int]);
                }
            } else if i < p {
                assert(out[i] == rest[i] && out[j] == rest[j - 1]);
            } else {
                assert(out[i] == rest[i - 1] && out[j] == rest[j - 1]);
            }
        }
    } else {
        assert(s =~= Seq::<usize>::empty());
    }
}

/// Sorting indices by key gives each index once, by increasing key, and
/// indices with equal keys keep their order (the sort is stable).
pub proof fn lemma_sorted_by_key_laws(keys: Seq<i128>)
    requires
        keys.len() <= usize::MAX,
    ensures
        sorted_by_key(keys).len() == keys.len(),
        sorted_by_key(keys).to_multiset() == indices(keys.len()).to_multiset(),
        forall|i: int| 0 <= i < keys.len() ==> #[trigger] sorted_by_key(keys)[i] < keys.len(),
        forall|i: int, j: int|
            0 <= i < j < keys.len() ==> keys[#[trigger] sorted_by_key(keys)[i] as int]
                <= keys[#[trigger] sorted_by_key(keys)[j] as int],
        forall|i: int, j: int|
            0 <= i < j < keys.len() && keys[sorted_by_key(keys)[i] as int] == keys[sorted_by_key(
                keys,
            )[j] as int] ==> #[trigger] sorted_by_key(keys)[i] < #[trigger] sorted_by_key(keys)[j],
{
    lemma_sorted_prefix(keys, keys.len() as int);
    assert(indices(keys.len()).take(keys.len() as int) =~= indices(keys.len()));
    lemma_stable_sort_permutes(indices(keys.len()), key_before(keys));
}


/// Ordering by key then text is a strict order.
pub proof fn lemma_key_text_strict(keys: Seq<i128>, texts: Seq<Seq<char>>)
    ensures
        strict_order(key_text_before(keys, texts)),
{
    let before = key_text_before(keys, texts);
    assert forall|a: usize| !#[trigger] before(a, a) by {
        crate::text::lemma_text_lt_irreflexive(texts[a as int]);
    }
    assert forall|a: usize, b: usize, c: usize| #[trigger] before(a, b) && #[trigger] before(b, c) implies before(a, c) by {
        if keys[a as int] == keys[b as int] && keys[b as int] == keys[c as int] {
            crate::text::lemma_text_lt_transitive(texts[a as int], texts[b as int], texts[c as int]);
        }
    }
}


/// A permutation of the indices `0..n` holds only indices below `n`.
pub proof fn lemma_permutation_in_range(s: Seq<usize>, n: nat)
    requires
        s.to_multiset() == indices(n).to_multiset(),
        n <= usize::MAX,
    ensures
        forall|i: int| 0 <= i < s.len() ==> #[trigger] s[i] < n,
{
    broadcast use vstd::seq_lib::group_to_multiset_ensures;
    assert forall|i: int| 0 <= i < s.len() implies #[trigger] s[i] < n by {
        assert(s.contains(s[i]));
        assert(s.to_multiset().count(s[i]) > 0);
        assert(indices(n).contains(s[i]));
        let k = choose|k: int| 0 <= k < indices(n).len() && indices(n)[k] == s[i];
    }
}

} // verus!
