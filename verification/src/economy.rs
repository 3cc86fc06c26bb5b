use vstd::prelude::*;
use crate::fixed::{COUNT_CAP, GOLD_CAP, HAPPINESS_CAP, POP_CAP, PROD_CAP, SCALE, TAX_DIVISOR};
use crate::producer::Producer;
use crate::sums::{
    lemma_sum_gold_element, lemma_sum_gold_le, lemma_sum_gold_update, lemma_sum_pop_update,
    lemma_sum_product_update, sum_gold, sum_pop, sum_product,
};

verus! {

/// An ordered collection of producers together with the last cleared price of
/// each product type. The producer at index 0 is privileged: it receives all
/// taxes and a happiness bonus. No producer is added or removed during a run.
pub struct Economy {
    pub producers: Vec<Producer>,
    /// Reporting names, one per producer; never read by the engine.
    pub names: Vec<String>,
    /// Last cleared price of food, persisting across steps.
    pub price_food: u64,
    /// Last cleared price of goods, persisting across steps.
    pub price_goods: u64,
}

impl Economy {
    /// Number of producers.
    pub open spec fn n(self) -> int {
        self.producers@.len() as int
    }

    /// Well-formedness: at least one producer, a name for each, economy-wide
    /// totals under their caps (so sums fit in machine integers), and every
    /// producer with a valid production rule and a bounded happiness.
    pub open spec fn wf(self) -> bool {
        let s = self.producers@;
        let n = self.n();
        &&& 1 <= n
        &&& self.producers@.len() <= COUNT_CAP
        &&& self.names@.len() == n
        &&& sum_gold(s, n) <= GOLD_CAP
        &&& sum_pop(s, n) <= POP_CAP
        &&& sum_product(s, 0, n) <= PROD_CAP
        &&& sum_product(s, 1, n) <= PROD_CAP
        &&& forall|i: int|
            0 <= i < n ==> (#[trigger] s[i]).production.valid() && s[i].happiness
                <= HAPPINESS_CAP
    }

    /// The initial data admits a well-formed economy.
    pub open spec fn valid_init(producers: Seq<Producer>, names: Seq<String>) -> bool {
        let n = producers.len() as int;
        &&& 1 <= n
        &&& producers.len() <= COUNT_CAP
        &&& names.len() == n
        &&& sum_gold(producers, n) <= GOLD_CAP
        &&& sum_pop(producers, n) <= POP_CAP
        &&& sum_product(producers, 0, n) <= PROD_CAP
        &&& sum_product(producers, 1, n) <= PROD_CAP
        &&& forall|i: int|
            0 <= i < n ==> (#[trigger] producers[i]).production.valid() && producers[i].happiness
                <= HAPPINESS_CAP
    }

    /// Builds an economy from initial producers and their names, with both
    /// prices starting at one unit. Returns `None` exactly when the data
    /// does not admit a well-formed economy.
    pub fn new(producers: Vec<Producer>, names: Vec<String>) -> (r: Option<Economy>)
        ensures
            r is Some <==> Self::valid_init(producers@, names@),
            r is Some ==> {
                let e = r->Some_0;
                &&& e.wf()
                &&& e.producers@ == producers@
                &&& e.names@ == names@
                &&& e.price_food == SCALE
                &&& e.price_goods == SCALE
            },
    {
        let n = producers.len();
        if n < 1 || n > COUNT_CAP || names.len() != n {
            return None;
        }
        let mut i: usize = 0;
        while i < n
            invariant
                i <= n == producers@.len(),
                forall|j: int|
                    0 <= j < i ==> (#[trigger] producers@[j]).production.valid()
                        && producers@[j].happiness <= HAPPINESS_CAP,
            decreases n - i,
        {
            if !producers[i].production.is_valid() || producers[i].happiness > HAPPINESS_CAP {
                return None;
            }
            i = i + 1;
        }
        if total_gold_wide(&producers) > GOLD_CAP as u128 {
            return None;
        }
        if total_pop_wide(&producers) > POP_CAP as u128 {
            return None;
        }
        if total_product_wide(&producers, 0) > PROD_CAP as u128 {
            return None;
        }
        if total_product_wide(&producers, 1) > PROD_CAP as u128 {
            return None;
        }
        Some(Economy { producers, names, price_food: SCALE, price_goods: SCALE })
    }

    /// Current population of every producer, in producer order.
    pub fn populations(&self) -> (r: Vec<u64>)
        ensures
            r@.len() == self.n(),
            forall|i: int| 0 <= i < self.n() ==> r@[i] == self.producers@[i].population,
    {
        let n = self.producers.len();
        let mut r: Vec<u64> = Vec::new();
        let mut i: usize = 0;
        while i < n
            invariant
                i <= n == self.producers@.len(),
                r@.len() == i,
                forall|j: int| 0 <= j < i ==> r@[j] == self.producers@[j].population,
            decreases n - i,
        {
            r.push(self.producers[i].population);
            i = i + 1;
        }
        r
    }

    /// Last cleared prices `(food, goods)`.
    pub fn prices(&self) -> (r: (u64, u64))
        ensures
            r.0 == self.price_food,
            r.1 == self.price_goods,
    {
        (self.price_food, self.price_goods)
    }

    /// Taxation: a flat fifth of every non-privileged producer's gold is
    /// taken, and the whole sum is credited to producer 0. The transfer is
    /// zero-sum: the economy's total gold is exactly conserved.
    pub fn tax_all(&mut self)
        requires
            old(self).wf(),
        ensures
            final(self).wf(),
            final(self).producers@.len() == old(self).n(),
            // the exact result of the step
            final(self).producers@ == taxed_seq(old(self).producers@),
            // every non-privileged producer pays exactly a fifth of its gold
            forall|i: int|
                1 <= i < old(self).n() ==> final(self).producers@[i] == (Producer {
                    gold: (old(self).producers@[i].gold - old(self).producers@[i].gold as int
                        / TAX_DIVISOR as int) as u64,
                    ..old(self).producers@[i]
                }),
            // producer 0 receives the whole sum
            final(self).producers@[0] == (Producer {
                gold: (old(self).producers@[0].gold + sum_tax(
                    old(self).producers@,
                    old(self).n(),
                )) as u64,
                ..old(self).producers@[0]
            }),
            // conservation: taxation is zero-sum over gold and touches
            // nothing else
            sum_gold(final(self).producers@, old(self).n()) == sum_gold(
                old(self).producers@,
                old(self).n(),
            ),
            sum_pop(final(self).producers@, old(self).n()) == sum_pop(
                old(self).producers@,
                old(self).n(),
            ),
            sum_product(final(self).producers@, 0, old(self).n()) == sum_product(
                old(self).producers@,
                0,
                old(self).n(),
            ),
            sum_product(final(self).producers@, 1, old(self).n()) == sum_product(
                old(self).producers@,
                1,
                old(self).n(),
            ),
            final(self).names@ == old(self).names@,
            final(self).price_food == old(self).price_food,
            final(self).price_goods == old(self).price_goods,
    {
        let ghost s0 = self.producers@;
        let ghost nn = self.n();
        let n = self.producers.len();
        let mut total: u64 = 0;
        let mut i: usize = 1;
        while i < n
            invariant
                1 <= i <= n,
                n == self.producers@.len(),
                n == s0.len(),
                n <= COUNT_CAP,
                nn == n as int,
                total == sum_tax(s0, i as int),
                sum_gold(self.producers@, nn) + total == sum_gold(s0, nn),
                sum_gold(s0, nn) <= GOLD_CAP,
                sum_pop(self.producers@, nn) == sum_pop(s0, nn),
                sum_product(self.producers@, 0, nn) == sum_product(s0, 0, nn),
                sum_product(self.producers@, 1, nn) == sum_product(s0, 1, nn),
                self.names@ == old(self).names@,
                self.price_food == old(self).price_food,
                self.price_goods == old(self).price_goods,
                self.producers@[0] == s0[0],
                forall|j: int|
                    1 <= j < i ==> self.producers@[j] == (Producer {
                        gold: (s0[j].gold - s0[j].gold as int / TAX_DIVISOR as int) as u64,
                        ..s0[j]
                    }),
                forall|j: int| i <= j < n ==> self.producers@[j] == s0[j],
            decreases n - i,
        {
            let ghost before = self.producers@;
            let g = self.producers[i].gold;
            let tax = g / TAX_DIVISOR;
            proof {
                lemma_sum_gold_le(s0, 0, nn);
                lemma_sum_gold_element(before, i as int, nn);
            }
            let p = &mut self.producers[i];
            p.gold = p.gold - tax;
            proof {
                lemma_sum_gold_update(before, i as int, self.producers@[i as int], nn);
                lemma_sum_pop_update(before, i as int, self.producers@[i as int], nn);
                lemma_sum_product_update(before, 0, i as int, self.producers@[i as int], nn);
                lemma_sum_product_update(before, 1, i as int, self.producers@[i as int], nn);
            }
            total = total + tax;
            i = i + 1;
        }
        let ghost before = self.producers@;
        proof {
            lemma_sum_gold_le(s0, 0, nn);
            lemma_sum_gold_element(before, 0, nn);
        }
        let p = &mut self.producers[0];
        p.gold = p.gold + total;
        proof {
            lemma_sum_gold_update(before, 0, self.producers@[0], nn);
            lemma_sum_pop_update(before, 0, self.producers@[0], nn);
            lemma_sum_product_update(before, 0, 0, self.producers@[0], nn);
            lemma_sum_product_update(before, 1, 0, self.producers@[0], nn);
            assert(self.producers@ =~= taxed_seq(s0));
        }
    }
}

/// Non-negativity: every gold balance and inventory slot is a count of
/// unsigned fixed-point units, so it can never lie below zero — and so never
/// below any negative drift tolerance either. A diagnostic scan for negative
/// balances would watch for something impossible by construction.
pub proof fn lemma_balances_nonnegative(e: Economy)
    ensures
        forall|i: int|
            0 <= i < e.n() ==> (#[trigger] e.producers@[i]).gold >= 0 && e.producers@[i].food >= 0
                && e.producers@[i].goods >= 0 && e.producers@[i].population >= 0,
{
}

/// Sum of the taxes owed by producers 1 through `n - 1`: a fifth of each
/// producer's gold, rounded down.
pub open spec fn sum_tax(s: Seq<Producer>, n: int) -> int
    decreases n,
{
    if n <= 1 {
        0
    } else {
        sum_tax(s, n - 1) + s[n - 1].gold as int / TAX_DIVISOR as int
    }
}

/// The whole producer collection after one taxation step.
pub open spec fn taxed_seq(s: Seq<Producer>) -> Seq<Producer> {
    Seq::new(
        s.len(),
        |i: int|
            if i == 0 {
                Producer { gold: (s[0].gold + sum_tax(s, s.len() as int)) as u64, ..s[0] }
            } else {
                Producer {
                    gold: (s[i].gold - s[i].gold as int / TAX_DIVISOR as int) as u64,
                    ..s[i]
                }
            },
    )
}

/// Economy-wide gold, computed in a wide integer so it needs no cap.
pub fn total_gold_wide(producers: &Vec<Producer>) -> (r: u128)
    requires
        producers@.len() <= COUNT_CAP,
    ensures
        r == sum_gold(producers@, producers@.len() as int),
{
    let n = producers.len();
    let mut acc: u128 = 0;
    let mut i: usize = 0;
    while i < n
        invariant
            i <= n == producers@.len(),
            n <= COUNT_CAP,
            acc == sum_gold(producers@, i as int),
            acc <= i as int * 0xffff_ffff_ffff_ffffu64 as int,
        decreases n - i,
    {
        acc = acc + producers[i].gold as u128;
        i = i + 1;
    }
    acc
}

/// Economy-wide population, computed in a wide integer.
pub fn total_pop_wide(producers: &Vec<Producer>) -> (r: u128)
    requires
        producers@.len() <= COUNT_CAP,
    ensures
        r == sum_pop(producers@, producers@.len() as int),
{
    let n = producers.len();
    let mut acc: u128 = 0;
    let mut i: usize = 0;
    while i < n
        invariant
            i <= n == producers@.len(),
            n <= COUNT_CAP,
            acc == sum_pop(producers@, i as int),
            acc <= i as int * 0xffff_ffff_ffff_ffffu64 as int,
        decreases n - i,
    {
        acc = acc + producers[i].population as u128;
        i = i + 1;
    }
    acc
}

/// Economy-wide inventory of product `t`, computed in a wide integer.
pub fn total_product_wide(producers: &Vec<Producer>, t: usize) -> (r: u128)
    requires
        producers@.len() <= COUNT_CAP,
        t < 2,
    ensures
        r == sum_product(producers@, t as int, producers@.len() as int),
{
    let n = producers.len();
    let mut acc: u128 = 0;
    let mut i: usize = 0;
    while i < n
        invariant
            i <= n == producers@.len(),
            n <= COUNT_CAP,
            t < 2,
            acc == sum_product(producers@, t as int, i as int),
            acc <= i as int * 0xffff_ffff_ffff_ffffu64 as int,
        decreases n - i,
    {
        acc = acc + producers[i].product(t) as u128;
        i = i + 1;
    }
    acc
}

} // verus!
