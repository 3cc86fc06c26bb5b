use vstd::prelude::*;
use crate::producer::Producer;

verus! {

/// Gold held by the first `n` producers of `s`, as a mathematical integer.
pub open spec fn sum_gold(s: Seq<Producer>, n: int) -> int
    decreases n,
{
    if n <= 0 {
        0
    } else {
        sum_gold(s, n - 1) + s[n - 1].gold
    }
}

/// Population of the first `n` producers of `s`.
pub open spec fn sum_pop(s: Seq<Producer>, n: int) -> int
    decreases n,
{
    if n <= 0 {
        0
    } else {
        sum_pop(s, n - 1) + s[n - 1].population
    }
}

/// Inventory of product `t` held by the first `n` producers of `s`.
pub open spec fn sum_product(s: Seq<Producer>, t: int, n: int) -> int
    decreases n,
{
    if n <= 0 {
        0
    } else {
        sum_product(s, t, n - 1) + s[n - 1].product_of(t)
    }
}

pub proof fn lemma_sum_gold_le(s: Seq<Producer>, m: int, n: int)
    requires
        0 <= m <= n,
    ensures
        sum_gold(s, m) <= sum_gold(s, n),
    decreases n,
{
    if m < n {
        lemma_sum_gold_le(s, m, n - 1);
    }
}

pub proof fn lemma_sum_pop_le(s: Seq<Producer>, m: int, n: int)
    requires
        0 <= m <= n,
    ensures
        sum_pop(s, m) <= sum_pop(s, n),
    decreases n,
{
    if m < n {
        lemma_sum_pop_le(s, m, n - 1);
    }
}

pub proof fn lemma_sum_product_le(s: Seq<Producer>, t: int, m: int, n: int)
    requires
        0 <= m <= n,
    ensures
        sum_product(s, t, m) <= sum_product(s, t, n),
    decreases n,
{
    if m < n {
        lemma_sum_product_le(s, t, m, n - 1);
    }
}

/// Replacing producer `i` shifts a prefix sum by the difference at `i`.
pub proof fn lemma_sum_gold_update(s: Seq<Producer>, i: int, p: Producer, n: int)
    requires
        0 <= i < s.len(),
        n <= s.len(),
    ensures
        sum_gold(s.update(i, p), n) == sum_gold(s, n) + if i < n {
            p.gold - s[i].gold
        } else {
            0
        },
    decreases n,
{
    if n > 0 {
        lemma_sum_gold_update(s, i, p, n - 1);
    }
}

pub proof fn lemma_sum_pop_update(s: Seq<Producer>, i: int, p: Producer, n: int)
    requires
        0 <= i < s.len(),
        n <= s.len(),
    ensures
        sum_pop(s.update(i, p), n) == sum_pop(s, n) + if i < n {
            p.population - s[i].population
        } else {
            0
        },
    decreases n,
{
    if n > 0 {
        lemma_sum_pop_update(s, i, p, n - 1);
    }
}

pub proof fn lemma_sum_product_update(s: Seq<Producer>, t: int, i: int, p: Producer, n: int)
    requires
        0 <= i < s.len(),
        n <= s.len(),
    ensures
        sum_product(s.update(i, p), t, n) == sum_product(s, t, n) + if i < n {
            p.product_of(t) - s[i].product_of(t)
        } else {
            0
        },
    decreases n,
{
    if n > 0 {
        lemma_sum_product_update(s, t, i, p, n - 1);
    }
}

/// Each producer's gold is at most the gold of any prefix containing it.
pub proof fn lemma_sum_gold_element(s: Seq<Producer>, i: int, n: int)
    requires
        0 <= i < n,
    ensures
        s[i].gold <= sum_gold(s, n),
{
    lemma_sum_gold_le(s, 0, i);
    lemma_sum_gold_le(s, i + 1, n);
}

pub proof fn lemma_sum_pop_element(s: Seq<Producer>, i: int, n: int)
    requires
        0 <= i < n,
    ensures
        s[i].population <= sum_pop(s, n),
{
    lemma_sum_pop_le(s, 0, i);
    lemma_sum_pop_le(s, i + 1, n);
}

pub proof fn lemma_sum_product_element(s: Seq<Producer>, t: int, i: int, n: int)
    requires
        0 <= i < n,
    ensures
        s[i].product_of(t) <= sum_product(s, t, n),
{
    lemma_sum_product_le(s, t, 0, i);
    lemma_sum_product_le(s, t, i + 1, n);
}

} // verus!
