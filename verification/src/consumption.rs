use vstd::prelude::*;
use crate::arith::{lemma_frac_le_whole, lemma_mul_u64_fits};
use crate::economy::Economy;
use crate::fixed::{BONUS_DEN, BONUS_NUM, HAPPINESS_CAP, SCALE};
use crate::producer::Producer;
use crate::sums::{
    lemma_sum_gold_update, lemma_sum_pop_update, lemma_sum_product_update, sum_gold, sum_pop,
    sum_product,
};

verus! {

/// Amount of product `t` a producer needs this step: population times the
/// per-capita usage, in fixed point.
pub open spec fn needed_of(p: Producer, t: int) -> int {
    p.population * p.usage_of(t) / SCALE as int
}

/// Amount of product `t` actually consumed: the need, capped by inventory.
pub open spec fn eaten_of(p: Producer, t: int) -> int {
    if p.product_of(t) < needed_of(p, t) {
        p.product_of(t) as int
    } else {
        needed_of(p, t)
    }
}

/// Satisfaction ratio for product `t`, in `[0, SCALE]`. A producer that
/// needs nothing counts as fully satisfied (ratio one), which also keeps the
/// division well defined when the need is zero.
pub open spec fn ratio_of(p: Producer, t: int) -> int {
    if needed_of(p, t) == 0 {
        SCALE as int
    } else {
        eaten_of(p, t) * SCALE / needed_of(p, t)
    }
}

/// Happiness from one step of consumption: the food ratio plus half the
/// product of the two ratios, scaled by the privileged bonus when `bonus`.
pub open spec fn happiness_of(p: Producer, bonus: bool) -> int {
    let fr = ratio_of(p, 0);
    let gr = ratio_of(p, 1);
    let h = fr + fr * gr / (2 * SCALE as int);
    if bonus {
        h * BONUS_NUM as int / BONUS_DEN as int
    } else {
        h
    }
}

/// A producer after one step of consumption.
pub open spec fn consumed_one(p: Producer, bonus: bool) -> Producer {
    Producer {
        food: (p.food - eaten_of(p, 0)) as u64,
        goods: (p.goods - eaten_of(p, 1)) as u64,
        happiness: happiness_of(p, bonus) as u64,
        ..p
    }
}

/// The whole producer collection after one consumption step.
pub open spec fn consumed_seq(s: Seq<Producer>) -> Seq<Producer> {
    Seq::new(s.len(), |i: int| consumed_one(s[i], i == 0))
}

impl Economy {
    /// Consumption: every producer eats up to its need of food and goods and
    /// derives a happiness score from the two satisfaction ratios; the
    /// privileged producer at index 0 gets a one percent bonus. Happiness
    /// always lands in `[0, HAPPINESS_CAP]` (zero to 1.515 units), and
    /// without the bonus in `[0, 1.5]` units.
    pub fn consume_all(&mut self)
        requires
            old(self).wf(),
        ensures
            final(self).wf(),
            final(self).producers@.len() == old(self).n(),
            final(self).producers@ == consumed_seq(old(self).producers@),
            forall|i: int|
                0 <= i < old(self).n() ==> final(self).producers@[i] == consumed_one(
                    old(self).producers@[i],
                    i == 0,
                ),
            // happiness bounds: at most 1.515 units, and 1.5 without the bonus
            forall|i: int|
                0 <= i < old(self).n() ==> #[trigger] final(self).producers@[i].happiness
                    <= HAPPINESS_CAP,
            forall|i: int|
                1 <= i < old(self).n() ==> #[trigger] final(self).producers@[i].happiness <= SCALE
                    + SCALE / 2,
            sum_gold(final(self).producers@, old(self).n()) == sum_gold(
                old(self).producers@,
                old(self).n(),
            ),
            sum_pop(final(self).producers@, old(self).n()) == sum_pop(
                old(self).producers@,
                old(self).n(),
            ),
            final(self).names@ == old(self).names@,
            final(self).price_food == old(self).price_food,
            final(self).price_goods == old(self).price_goods,
    {
        let ghost s0 = self.producers@;
        let ghost nn = self.n();
        let n = self.producers.len();
        let mut i: usize = 0;
        while i < n
            invariant
                i <= n,
                n == self.producers@.len(),
                n == s0.len(),
                n <= crate::fixed::COUNT_CAP,
                nn == n as int,
                sum_gold(self.producers@, nn) == sum_gold(s0, nn),
                sum_pop(self.producers@, nn) == sum_pop(s0, nn),
                sum_product(self.producers@, 0, nn) <= sum_product(s0, 0, nn),
                sum_product(self.producers@, 1, nn) <= sum_product(s0, 1, nn),
                sum_gold(s0, nn) <= crate::fixed::GOLD_CAP,
                sum_pop(s0, nn) <= crate::fixed::POP_CAP,
                sum_product(s0, 0, nn) <= crate::fixed::PROD_CAP,
                sum_product(s0, 1, nn) <= crate::fixed::PROD_CAP,
                self.names@ == old(self).names@,
                self.price_food == old(self).price_food,
                self.price_goods == old(self).price_goods,
                forall|j: int|
                    0 <= j < n ==> (#[trigger] self.producers@[j]).production
                        == s0[j].production,
                forall|j: int| 0 <= j < i ==> self.producers@[j] == consumed_one(s0[j], j == 0),
                forall|j: int|
                    0 <= j < i ==> (#[trigger] self.producers@[j]).happiness <= HAPPINESS_CAP,
                forall|j: int|
                    1 <= j < i ==> (#[trigger] self.producers@[j]).happiness <= SCALE + SCALE / 2,
                forall|j: int| i <= j < n ==> self.producers@[j] == s0[j],
                forall|j: int|
                    0 <= j < n ==> (#[trigger] s0[j]).production.valid() && s0[j].happiness
                        <= HAPPINESS_CAP,
            decreases n - i,
        {
            let ghost before = self.producers@;
            let pr = self.producers[i];

            proof {
                lemma_mul_u64_fits(pr.population as int, pr.usage_food as int);
                lemma_mul_u64_fits(pr.population as int, pr.usage_goods as int);
            }
            let needed_food: u128 = pr.population as u128 * pr.usage_food as u128
                / SCALE as u128;
            let eaten: u64 = if (pr.food as u128) < needed_food {
                pr.food
            } else {
                needed_food as u64
            };
            let fr: u64 = if needed_food == 0 {
                SCALE
            } else {
                proof {
                    lemma_frac_le_whole(eaten as int, needed_food as int, SCALE as int);
                }
                (eaten as u128 * SCALE as u128 / needed_food) as u64
            };

            let needed_goods: u128 = pr.population as u128 * pr.usage_goods as u128
                / SCALE as u128;
            let used: u64 = if (pr.goods as u128) < needed_goods {
                pr.goods
            } else {
                needed_goods as u64
            };
            let gr: u64 = if needed_goods == 0 {
                SCALE
            } else {
                proof {
                    lemma_frac_le_whole(used as int, needed_goods as int, SCALE as int);
                }
                (used as u128 * SCALE as u128 / needed_goods) as u64
            };

            assert(fr <= SCALE && gr <= SCALE);
            assert(fr as int * gr as int <= SCALE as int * SCALE as int) by (nonlinear_arith)
                requires
                    fr <= SCALE,
                    gr <= SCALE,
            ;
            proof {
                lemma_frac_le_whole(fr as int * gr as int, SCALE as int * SCALE as int, 1);
                vstd::arithmetic::div_mod::lemma_div_is_ordered(
                    fr as int * gr as int,
                    SCALE as int * SCALE as int,
                    2 * SCALE as int,
                );
                assert(SCALE as int * SCALE as int == (2 * SCALE as int) * (SCALE as int / 2));
                vstd::arithmetic::div_mod::lemma_div_multiples_vanish(
                    SCALE as int / 2,
                    2 * SCALE as int,
                );
                vstd::arithmetic::div_mod::lemma_div_pos_is_pos(
                    fr as int * gr as int,
                    2 * SCALE as int,
                );
            }
            let half: u64 = (fr as u128 * gr as u128 / (2 * SCALE as u128)) as u64;
            let base: u64 = fr + half;
            let h: u64 = if i == 0 {
                proof {
                    vstd::arithmetic::div_mod::lemma_div_is_ordered(
                        base as int * BONUS_NUM as int,
                        (SCALE + SCALE / 2) as int * BONUS_NUM as int,
                        BONUS_DEN as int,
                    );
                }
                (base as u128 * BONUS_NUM as u128 / BONUS_DEN as u128) as u64
            } else {
                base
            };

            let p = &mut self.producers[i];
            p.food = p.food - eaten;
            p.goods = p.goods - used;
            p.happiness = h;
            proof {
                let cur = self.producers@[i as int];
                assert(cur == consumed_one(s0[i as int], i == 0));
                lemma_sum_gold_update(before, i as int, cur, nn);
                lemma_sum_pop_update(before, i as int, cur, nn);
                lemma_sum_product_update(before, 0, i as int, cur, nn);
                lemma_sum_product_update(before, 1, i as int, cur, nn);
            }
            i = i + 1;
        }
        proof {
            assert(self.producers@ =~= consumed_seq(s0));
        }
    }
}

} // verus!
