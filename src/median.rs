use vstd::prelude::*;
use vstd::relations::{sorted_by, total_ordering};
use vstd::seq_lib::{lemma_multiset_commutative, lemma_sorted_unique};

verus! {

/// The ascending order on prices.
pub open spec fn price_leq() -> spec_fn(i128, i128) -> bool {
    |a: i128, b: i128| a <= b
}

/// Effective multiplicity of a weight: a stored weight of 0 still counts once.
pub open spec fn multiplicity(w: u32) -> nat {
    if w == 0 { 1 } else { w as nat }
}

/// Every price repeated as many times as its weight, in submission order.
pub open spec fn expand(prices: Seq<i128>, weights: Seq<u32>) -> Seq<i128>
    decreases prices.len(),
{
    if prices.len() == 0 {
        Seq::empty()
    } else {
        let k = (prices.len() - 1) as int;
        expand(prices.take(k), weights) + Seq::new(multiplicity(weights[k]), |_j: int| prices[k])
    }
}

/// Median of a sorted sequence: the middle element, or the average of the two
/// middle elements when the length is even.
pub open spec fn middle_value(s: Seq<i128>) -> int {
    let mid = (s.len() / 2) as int;
    if s.len() % 2 == 0 {
        (s[mid - 1] + s[mid]) / 2
    } else {
        s[mid] as int
    }
}

/// The weighted median of the prices: the median of their weight-expanded list in
/// ascending order.
pub open spec fn weighted_median_of(prices: Seq<i128>, weights: Seq<u32>) -> int {
    middle_value(expand(prices, weights).sort_by(price_leq()))
}

proof fn lemma_price_leq_total()
    ensures
        total_ordering(price_leq()),
{
}

proof fn lemma_insert_multiset(s: Seq<i128>, i: int, x: i128)
    requires
        0 <= i <= s.len(),
    ensures
        s.insert(i, x).to_multiset() =~= s.to_multiset().insert(x),
{
    broadcast use vstd::seq_lib::group_to_multiset_ensures;

    let a = s.take(i);
    let b = s.skip(i);
    assert(s.insert(i, x) =~= a.push(x) + b);
    assert(s =~= a + b);
    lemma_multiset_commutative(a.push(x), b);
    lemma_multiset_commutative(a, b);
}

/// Every element of the expanded list is one of the prices.
proof fn lemma_expand_element(prices: Seq<i128>, weights: Seq<u32>, m: int)
    requires
        0 <= m < expand(prices, weights).len(),
    ensures
        exists|i: int| 0 <= i < prices.len() && prices[i] == #[trigger] expand(prices, weights)[m],
    decreases prices.len(),
{
    let k = (prices.len() - 1) as int;
    let front = expand(prices.take(k), weights);
    if m < front.len() {
        lemma_expand_element(prices.take(k), weights, m);
        let i = choose|i: int| 0 <= i < prices.take(k).len() && prices.take(k)[i] == front[m];
        assert(prices[i] == expand(prices, weights)[m]);
    } else {
        assert(prices[k] == expand(prices, weights)[m]);
    }
}

/// The weighted median lies between two submitted prices: no lower than some
/// price and no higher than some price, hence between the smallest and the largest.
pub proof fn lemma_weighted_median_within_range(prices: Seq<i128>, weights: Seq<u32>)
    requires
        prices.len() > 0,
        forall|i: int| 0 <= i < prices.len() ==> prices[i] > 0,
    ensures
        exists|i: int| 0 <= i < prices.len() && prices[i] <= weighted_median_of(prices, weights),
        exists|j: int| 0 <= j < prices.len() && weighted_median_of(prices, weights) <= prices[j],
{
    broadcast use vstd::seq_lib::group_to_multiset_ensures;

    let e = expand(prices, weights);
    let s = e.sort_by(price_leq());
    lemma_price_leq_total();
    e.lemma_sort_by_ensures(price_leq());
    lemma_expand_len_pos(prices, weights);
    assert(s.len() == e.len()) by {
        assert(e.to_multiset().len() == e.len());
        assert(s.to_multiset().len() == s.len());
    }
    let mid = (s.len() / 2) as int;
    let lo = if s.len() % 2 == 0 { mid - 1 } else { mid as int };
    let hi = mid as int;
    assert forall|k: int| 0 <= k < s.len() implies exists|i: int|
        0 <= i < prices.len() && prices[i] == #[trigger] s[k] by {
        assert(s.to_multiset().count(s[k]) > 0);
        assert(e.contains(s[k]));
        let m = choose|m: int| 0 <= m < e.len() && e[m] == s[k];
        lemma_expand_element(prices, weights, m);
    }
    assert(price_leq()(s[lo], s[hi]));
    let i = choose|i: int| 0 <= i < prices.len() && prices[i] == s[lo];
    let j = choose|j: int| 0 <= j < prices.len() && prices[j] == s[hi];
    assert(prices[i] <= weighted_median_of(prices, weights) <= prices[j]);
}

proof fn lemma_expand_len_pos(prices: Seq<i128>, weights: Seq<u32>)
    requires
        prices.len() > 0,
    ensures
        expand(prices, weights).len() > 0,
{
    let k = (prices.len() - 1) as int;
    assert(multiplicity(weights[k]) >= 1);
}

/// Weighted median of the prices: each price counts `max(weight, 1)` times; the
/// expanded list is sorted ascending and its median returned.
pub fn weighted_median(prices: &Vec<i128>, weights: &Vec<u32>) -> (m: i128)
    requires
        prices.len() > 0,
        weights.len() == prices.len(),
        forall|i: int| 0 <= i < prices.len() ==> prices[i] > 0,
    ensures
        m == weighted_median_of(prices@, weights@),
{
    // expand by multiplicity
    let mut expanded: Vec<i128> = Vec::new();
    let mut i: usize = 0;
    while i < prices.len()
        invariant
            0 <= i <= prices.len(),
            weights.len() == prices.len(),
            expanded@ == expand(prices@.take(i as int), weights@),
            forall|k: int| 0 <= k < expanded.len() ==> expanded[k] > 0,
            forall|k: int| 0 <= k < prices.len() ==> prices[k] > 0,
        decreases prices.len() - i,
    {
        let p = prices[i];
        let w: u32 = if weights[i] == 0 { 1 } else { weights[i] };
        let ghost start = expanded@;
        let mut j: u32 = 0;
        while j < w
            invariant
                0 <= j <= w,
                expanded@ == start + Seq::new(j as nat, |_k: int| p),
                forall|k: int| 0 <= k < expanded.len() ==> expanded[k] > 0,
                p > 0,
            decreases w - j,
        {
            expanded.push(p);
            j = j + 1;
            assert(expanded@ =~= start + Seq::new(j as nat, |_k: int| p));
        }
        proof {
            assert(prices@.take(i + 1).take(i as int) =~= prices@.take(i as int));
            assert(expanded@ =~= expand(prices@.take(i + 1), weights@));
        }
        i = i + 1;
    }
    assert(prices@.take(prices.len() as int) =~= prices@);
    let ghost e = expanded@;

    // insertion sort into a fresh vector
    let mut sorted: Vec<i128> = Vec::new();
    let mut k: usize = 0;
    assert(e.take(0) =~= sorted@);
    while k < expanded.len()
        invariant
            0 <= k <= expanded.len(),
            expanded@ == e,
            sorted_by(sorted@, price_leq()),
            sorted@.to_multiset() == e.take(k as int).to_multiset(),
            sorted.len() == k,
            forall|t: int| 0 <= t < sorted.len() ==> sorted[t] > 0,
            forall|t: int| 0 <= t < expanded.len() ==> expanded[t] > 0,
        decreases expanded.len() - k,
    {
        let x = expanded[k];
        let mut pos: usize = 0;
        while pos < sorted.len() && sorted[pos] <= x
            invariant
                0 <= pos <= sorted.len(),
                forall|t: int| 0 <= t < pos ==> sorted[t] <= x,
            decreases sorted.len() - pos,
        {
            pos = pos + 1;
        }
        let ghost before = sorted@;
        proof {
            lemma_insert_multiset(before, pos as int, x);
            assert(e.take(k + 1) =~= e.take(k as int).push(x));
            broadcast use vstd::seq_lib::group_to_multiset_ensures;
        }
        sorted.insert(pos, x);
        assert(sorted@ =~= before.insert(pos as int, x));
        assert(sorted_by(sorted@, price_leq())) by {
            assert forall|a: int, b: int| 0 <= a < b < sorted@.len() implies #[trigger] price_leq()(
                sorted@[a],
                sorted@[b],
            ) by {
                if pos < before.len() {
                    assert(x < before[pos as int]);
                }
                if a < pos && b > pos {
                    assert(before[a] <= x);
                }
                if a == pos && b > pos {
                    if b - 1 > pos {
                        assert(price_leq()(before[pos as int], before[b - 1]));
                    }
                }
                if b == pos && a < pos {
                    assert(before[a] <= x);
                }
                if a > pos {
                    assert(price_leq()(before[a - 1], before[b - 1]));
                }
                if b < pos {
                    assert(price_leq()(before[a], before[b]));
                }
            }
        }
        k = k + 1;
    }
    proof {
        assert(e.take(e.len() as int) =~= e);
        lemma_price_leq_total();
        e.lemma_sort_by_ensures(price_leq());
        lemma_sorted_unique(sorted@, e.sort_by(price_leq()), price_leq());
    }
    let len = sorted.len();
    let mid = len / 2;
    if len % 2 == 0 {
        let a = sorted[mid - 1];
        let b = sorted[mid];
        assert(price_leq()(sorted@[mid - 1], sorted@[mid as int]));
        a + (b - a) / 2
    } else {
        sorted[mid]
    }
}

} // verus!
