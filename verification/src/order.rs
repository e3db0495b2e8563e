//! Ordering by numbers and by text.
use crate::text::{text_before, text_before_total, text_before_transitive, text_eq, views};
use vstd::prelude::*;

verus! {

/// Pairs in lexicographic order.
pub open spec fn pair_before(a: (u64, u64), b: (u64, u64)) -> bool {
    a.0 < b.0 || (a.0 == b.0 && a.1 < b.1)
}

pub open spec fn pairs_ordered(s: Seq<(u64, u64)>) -> bool {
    forall|i: int, j: int| 0 <= i < j < s.len() ==> !pair_before(#[trigger] s[j], #[trigger] s[i])
}

/// `[T]::sort` puts pairs of integers into lexicographic order and keeps each of
/// them as often as it occurs.
#[verifier::external_body]
fn sort_pairs(pairs: &mut Vec<(u64, u64)>)
    ensures
        pairs_ordered(final(pairs)@),
        final(pairs)@.to_multiset() == old(pairs)@.to_multiset(),
{
    pairs.sort();
}

/// `order` lists the positions of `keys` by ascending key, equal keys by position.
pub open spec fn is_stable_order(keys: Seq<u64>, order: Seq<usize>) -> bool {
    &&& order.len() == keys.len()
    &&& forall|i: int| 0 <= i < order.len() ==> (#[trigger] order[i]) < keys.len()
    &&& forall|k: usize| k < keys.len() ==> #[trigger] order.contains(k)
    &&& forall|i: int, j: int|
        0 <= i < j < order.len() ==> keys[(#[trigger] order[i]) as int] < keys[(
        #[trigger] order[j]) as int] || (keys[order[i] as int] == keys[order[j] as int] && order[i]
            < order[j])
}

/// The positions of `keys` by ascending key, equal keys by position.
pub fn stable_order(keys: &Vec<u64>) -> (res: Vec<usize>)
    ensures
        is_stable_order(keys@, res@),
{
    broadcast use vstd::seq_lib::group_to_multiset_ensures;

    let n: usize = keys.len();
    let mut pairs: Vec<(u64, u64)> = Vec::new();
    let mut i: usize = 0;
    while i < n
        invariant
            i <= n == keys@.len(),
            pairs@.len() == i,
            forall|k: int| 0 <= k < i ==> #[trigger] pairs@[k] == (keys@[k], k as u64),
        decreases n - i,
    {
        pairs.push((keys[i], i as u64));
        i += 1;
    }
    let ghost before = pairs@;
    sort_pairs(&mut pairs);
    let ghost sorted = pairs@;
    proof {
        assert(sorted.len() == before.len()) by {
            assert(before.to_multiset().len() == before.len());
            assert(sorted.to_multiset().len() == sorted.len());
        }
        assert forall|k: int| 0 <= k < n implies (#[trigger] sorted[k]).1 < n && sorted[k].0
            == keys@[sorted[k].1 as int] by {
            assert(sorted.contains(sorted[k]));
            assert(sorted.to_multiset().count(sorted[k]) > 0);
            assert(before.to_multiset().count(sorted[k]) > 0);
            assert(before.contains(sorted[k]));
            let m = choose|m: int| 0 <= m < before.len() && before[m] == sorted[k];
            assert(before[m] == (keys@[m], m as u64));
        }
        assert forall|k: int| 0 <= k < n implies sorted.contains(#[trigger] before[k]) by {
            assert(before.contains(before[k]));
            assert(before.to_multiset().count(before[k]) > 0);
            assert(sorted.to_multiset().count(before[k]) > 0);
        }
        pairs_distinct(before, sorted);
    }
    let mut out: Vec<usize> = Vec::new();
    let mut j: usize = 0;
    while j < n
        invariant
            j <= n,
            n == sorted.len(),
            pairs@ == sorted,
            forall|k: int| 0 <= k < n ==> (#[trigger] sorted[k]).1 < n,
            out@.len() == j,
            forall|k: int| 0 <= k < j ==> #[trigger] out@[k] == sorted[k].1,
        decreases n - j,
    {
        let p: u64 = pairs[j].1;
        assert(sorted[j as int].1 < n);
        out.push(p as usize);
        j += 1;
    }
    proof {
        assert forall|k: usize| k < keys@.len() implies #[trigger] out@.contains(k) by {
            assert(sorted.contains(before[k as int]));
            let m = choose|m: int| 0 <= m < sorted.len() && sorted[m] == before[k as int];
            assert(before[k as int] == (keys@[k as int], k as u64));
            assert(out@[m] == k);
        }
        assert forall|i: int, j: int| 0 <= i < j < out@.len() implies keys@[(
        #[trigger] out@[i]) as int] < keys@[(#[trigger] out@[j]) as int] || (keys@[out@[i] as int]
            == keys@[out@[j] as int] && out@[i] < out@[j]) by {
            assert(!pair_before(sorted[j], sorted[i]));
            assert(sorted[i] != sorted[j]);
        }
    }
    out
}

/// Reordering pairwise different items leaves them pairwise different.
proof fn pairs_distinct(before: Seq<(u64, u64)>, sorted: Seq<(u64, u64)>)
    requires
        before.len() == sorted.len(),
        before.to_multiset() == sorted.to_multiset(),
        forall|k: int| 0 <= k < before.len() ==> (#[trigger] before[k]).1 == k,
    ensures
        forall|i: int, j: int|
            0 <= i < j < sorted.len() ==> #[trigger] sorted[i] != #[trigger] sorted[j],
{
    broadcast use vstd::seq_lib::group_to_multiset_ensures;

    assert(before.no_duplicates());
    before.lemma_multiset_has_no_duplicates();
    sorted.lemma_multiset_has_no_duplicates_conv();
}

/// Texts in lexicographic order.
pub open spec fn texts_ordered(s: Seq<Seq<char>>) -> bool {
    forall|i: int, j: int| 0 <= i < j < s.len() ==> !text_before(#[trigger] s[j], #[trigger] s[i])
}

/// `[T]::sort` puts strings into the lexicographic order of their bytes, which is
/// that of their code points, and keeps each of them as often as it occurs.
#[verifier::external_body]
pub(crate) fn sort_texts(texts: &mut Vec<String>)
    ensures
        texts_ordered(views(final(texts)@)),
        views(final(texts)@).to_multiset() == views(old(texts)@).to_multiset(),
{
    texts.sort();
}

/// The different texts of a list, in lexicographic order.
pub fn sorted_distinct(texts: Vec<String>) -> (res: Vec<String>)
    ensures
        forall|t: Seq<char>| #[trigger] views(res@).contains(t) <==> views(texts@).contains(t),
        forall|i: int, j: int|
            0 <= i < j < res@.len() ==> text_before(
                #[trigger] views(res@)[i],
                #[trigger] views(res@)[j],
            ),
{
    broadcast use vstd::seq_lib::group_to_multiset_ensures;

    let ghost all = views(texts@);
    let mut sorted: Vec<String> = texts;
    sort_texts(&mut sorted);
    let ghost s = views(sorted@);
    proof {
        assert forall|t: Seq<char>| s.contains(t) <==> #[trigger] all.contains(t) by {
            assert(s.contains(t) <==> s.to_multiset().count(t) > 0);
            assert(all.contains(t) <==> all.to_multiset().count(t) > 0);
        }
    }
    let mut out: Vec<String> = Vec::new();
    let mut i: usize = 0;
    while i < sorted.len()
        invariant
            i <= sorted@.len(),
            s == views(sorted@),
            texts_ordered(s),
            out@.len() == 0 <==> i == 0,
            i > 0 ==> views(out@).last() == s[i - 1],
            forall|k: int| 0 <= k < i ==> views(out@).contains(#[trigger] s[k]),
            forall|j: int| 0 <= j < out@.len() ==> s.contains(#[trigger] views(out@)[j]),
            forall|a: int, b: int|
                0 <= a < b < out@.len() ==> text_before(
                    #[trigger] views(out@)[a],
                    #[trigger] views(out@)[b],
                ),
        decreases sorted@.len() - i,
    {
        let n: usize = out.len();
        let fresh: bool = if n == 0 {
            true
        } else {
            assert(views(out@).last() == out@[n - 1]@);
            !text_eq(out[n - 1].as_str(), sorted[i].as_str())
        };
        let ghost prior = views(out@);
        assert(s[i as int] == sorted@[i as int]@);
        if fresh {
            out.push(sorted[i].clone());
            proof {
                assert(views(out@) =~= prior.push(s[i as int]));
                assert forall|a: int, b: int| 0 <= a < b < out@.len() implies text_before(
                    #[trigger] views(out@)[a],
                    #[trigger] views(out@)[b],
                ) by {
                    if b == prior.len() {
                        let last = prior[prior.len() - 1];
                        text_before_total(last, s[i as int]);
                        assert(last == s[i - 1]);
                        assert(!text_before(s[i as int], s[i - 1]));
                        if a < prior.len() - 1 {
                            assert(text_before(prior[a], last));
                            text_before_transitive(prior[a], last, s[i as int]);
                        }
                    } else {
                        assert(views(out@)[a] == prior[a]);
                        assert(views(out@)[b] == prior[b]);
                    }
                }
            }
        }
        proof {
            assert forall|k: int| 0 <= k < i + 1 implies views(out@).contains(#[trigger] s[k]) by {
                if k < i {
                    let j = choose|j: int| 0 <= j < prior.len() && prior[j] == s[k];
                    assert(views(out@)[j] == s[k]);
                } else if fresh {
                    assert(views(out@)[prior.len() as int] == s[k]);
                } else {
                    assert(views(out@)[prior.len() - 1] == s[k]);
                }
            }
            assert forall|j: int| 0 <= j < out@.len() implies s.contains(
                #[trigger] views(out@)[j],
            ) by {
                if j < prior.len() {
                    assert(views(out@)[j] == prior[j]);
                } else {
                    assert(s[i as int] == views(out@)[j]);
                }
            }
        }
        i += 1;
    }
    proof {
        assert forall|t: Seq<char>| #[trigger] views(out@).contains(t) <==> all.contains(t) by {
            if views(out@).contains(t) {
                let j = choose|j: int| 0 <= j < views(out@).len() && views(out@)[j] == t;
                assert(s.contains(views(out@)[j]));
            }
            if all.contains(t) {
                assert(s.contains(t));
                let k = choose|k: int| 0 <= k < s.len() && s[k] == t;
                assert(views(out@).contains(s[k]));
            }
        }
    }
    out
}

// ---------------------------------------------------------------- laws
/// An order lists every position once, lower keys before higher ones, and leaves equal
/// keys as they were.
pub proof fn lower_keys_come_first(keys: Seq<u64>, order: Seq<usize>, a: usize, b: usize)
    requires
        keys.len() <= usize::MAX,
        is_stable_order(keys, order),
        a < keys.len(),
        b < keys.len(),
        a != b,
    ensures
        order.len() == keys.len(),
        exists|i: int, j: int|
            0 <= i < order.len() && 0 <= j < order.len() && #[trigger] order[i] == a && #[trigger] order[j]
                == b && (keys[a as int] < keys[b as int] || (keys[a as int] == keys[b as int] && a < b)
                <==> i < j),
        order.no_duplicates(),
{
    assert(order.contains(a) && order.contains(b));
    let i = order.index_of(a);
    let j = order.index_of(b);
    assert(order[i] == a && order[j] == b);
    assert forall|x: int, y: int|
        0 <= x < order.len() && 0 <= y < order.len() && x != y implies order[x] != order[y] by {
        if x < y {
            assert(order[x] != order[y]);
        } else {
            assert(order[y] != order[x]);
        }
    }
}

} // verus!
