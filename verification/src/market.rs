use vstd::prelude::*;
use crate::arith::{lemma_ceil_le, lemma_prorata_diff, lemma_quotient_back};
use crate::economy::Economy;
use crate::fixed::{GOLD_CAP, MIN_OFFER, PROD_CAP, SCALE};
use crate::producer::Producer;
use crate::sums::{
    lemma_sum_gold_update, lemma_sum_pop_update, lemma_sum_product_update, sum_gold, sum_pop,
    sum_product,
};

verus! {

/// A seller of product `t` this round: above-target inventory and
/// above-average gold.
pub open spec fn is_seller(p: Producer, t: int, needed: int, avg: int) -> bool {
    p.product_of(t) > needed && p.gold > avg
}

/// A buyer of product `t` this round: below-target inventory and not a
/// seller. Producers that are neither trade nothing this round.
pub open spec fn is_buyer(p: Producer, t: int, needed: int, avg: int) -> bool {
    !is_seller(p, t, needed, avg) && p.product_of(t) < needed
}

pub open spec fn count_sellers(s: Seq<Producer>, t: int, needed: int, avg: int, n: int) -> int
    decreases n,
{
    if n <= 0 {
        0
    } else {
        count_sellers(s, t, needed, avg, n - 1) + if is_seller(s[n - 1], t, needed, avg) {
            1int
        } else {
            0int
        }
    }
}

pub open spec fn count_buyers(s: Seq<Producer>, t: int, needed: int, avg: int, n: int) -> int
    decreases n,
{
    if n <= 0 {
        0
    } else {
        count_buyers(s, t, needed, avg, n - 1) + if is_buyer(s[n - 1], t, needed, avg) {
            1int
        } else {
            0int
        }
    }
}

/// Gold offered by the first `n` producers' buyers.
pub open spec fn offered_gold(s: Seq<Producer>, t: int, needed: int, avg: int, n: int) -> int
    decreases n,
{
    if n <= 0 {
        0
    } else {
        offered_gold(s, t, needed, avg, n - 1) + if is_buyer(s[n - 1], t, needed, avg) {
            s[n - 1].gold as int
        } else {
            0int
        }
    }
}

/// Surplus of product `t` offered by the first `n` producers' sellers.
pub open spec fn offered_res(s: Seq<Producer>, t: int, needed: int, avg: int, n: int) -> int
    decreases n,
{
    if n <= 0 {
        0
    } else {
        offered_res(s, t, needed, avg, n - 1) + if is_seller(s[n - 1], t, needed, avg) {
            s[n - 1].product_of(t) - needed
        } else {
            0int
        }
    }
}

/// What a buyer purchases: its gold's worth at the clearing price `g / r`,
/// capped by what it lacks to reach the per-capita target.
pub open spec fn buys_of(p: Producer, t: int, needed: int, g: int, r: int) -> int {
    let can = p.gold * r / g;
    let want = needed - p.product_of(t);
    if can < want {
        can
    } else {
        want
    }
}

/// What that purchase costs, rounded up so a buyer never overdraws.
pub open spec fn cost_of(p: Producer, t: int, needed: int, g: int, r: int) -> int {
    (buys_of(p, t, needed, g, r) * g + r - 1) / r
}

/// Total purchased by the first `n` producers' buyers.
pub open spec fn sum_buys(
    s: Seq<Producer>,
    t: int,
    needed: int,
    avg: int,
    g: int,
    r: int,
    n: int,
) -> int
    decreases n,
{
    if n <= 0 {
        0
    } else {
        sum_buys(s, t, needed, avg, g, r, n - 1) + if is_buyer(s[n - 1], t, needed, avg) {
            buys_of(s[n - 1], t, needed, g, r)
        } else {
            0int
        }
    }
}

/// Total paid by the first `n` producers' buyers.
pub open spec fn sum_cost(
    s: Seq<Producer>,
    t: int,
    needed: int,
    avg: int,
    g: int,
    r: int,
    n: int,
) -> int
    decreases n,
{
    if n <= 0 {
        0
    } else {
        sum_cost(s, t, needed, avg, g, r, n - 1) + if is_buyer(s[n - 1], t, needed, avg) {
            cost_of(s[n - 1], t, needed, g, r)
        } else {
            0int
        }
    }
}

/// `p` with its inventory of product `t` replaced by `v`.
pub open spec fn with_product(p: Producer, t: int, v: u64) -> Producer {
    if t == 0 {
        Producer { food: v, ..p }
    } else {
        Producer { goods: v, ..p }
    }
}

/// A buyer after the buying pass.
pub open spec fn buyer_after(p: Producer, t: int, needed: int, g: int, r: int) -> Producer {
    let b = buys_of(p, t, needed, g, r);
    let c = cost_of(p, t, needed, g, r);
    Producer {
        gold: (p.gold - c) as u64,
        ..with_product(p, t, (p.product_of(t) + b) as u64)
    }
}

/// A seller after the selling pass: it gives up its pro-rata share of the
/// total purchase and receives its pro-rata share of the total payment,
/// where `c` is the surplus offered by the sellers before it.
pub open spec fn seller_after(
    p: Producer,
    t: int,
    needed: int,
    c: int,
    b: int,
    paid: int,
    r: int,
) -> Producer {
    let off = p.product_of(t) - needed;
    let sold = (c + off) * b / r - c * b / r;
    let gain = (c + off) * paid / r - c * paid / r;
    Producer {
        gold: (p.gold + gain) as u64,
        ..with_product(p, t, (p.product_of(t) - sold) as u64)
    }
}

/// The state of producer `i` after the buying pass.
pub open spec fn after_buyers(
    s: Seq<Producer>,
    i: int,
    t: int,
    needed: int,
    avg: int,
    g: int,
    r: int,
) -> Producer {
    if is_buyer(s[i], t, needed, avg) {
        buyer_after(s[i], t, needed, g, r)
    } else {
        s[i]
    }
}

/// The state of producer `i` after the whole clearing round.
pub open spec fn trade_after(
    s: Seq<Producer>,
    i: int,
    t: int,
    needed: int,
    avg: int,
    g: int,
    r: int,
    b: int,
    paid: int,
) -> Producer {
    if is_buyer(s[i], t, needed, avg) {
        buyer_after(s[i], t, needed, g, r)
    } else if is_seller(s[i], t, needed, avg) {
        seller_after(s[i], t, needed, offered_res(s, t, needed, avg, i), b, paid, r)
    } else {
        s[i]
    }
}

/// The round executes no trade: one side of the market is empty, the offered
/// surplus is at most 0.1 units, or the buyers have no gold at all (the last
/// guard keeps the clearing price well defined).
pub open spec fn trade_skipped(s: Seq<Producer>, t: int, needed: int, avg: int) -> bool {
    let n = s.len() as int;
    ||| count_sellers(s, t, needed, avg, n) == 0
    ||| count_buyers(s, t, needed, avg, n) == 0
    ||| offered_res(s, t, needed, avg, n) <= MIN_OFFER
    ||| offered_gold(s, t, needed, avg, n) == 0
}

/// The whole producer collection after one clearing round for product `t`:
/// unchanged when the round is skipped, else every producer in its cleared
/// state.
pub open spec fn traded_seq(s: Seq<Producer>, t: int, needed: int, avg: int) -> Seq<Producer> {
    let n = s.len() as int;
    let g = offered_gold(s, t, needed, avg, n);
    let r = offered_res(s, t, needed, avg, n);
    let b = sum_buys(s, t, needed, avg, g, r, n);
    let paid = sum_cost(s, t, needed, avg, g, r, n);
    if trade_skipped(s, t, needed, avg) {
        s
    } else {
        Seq::new(s.len(), |i: int| trade_after(s, i, t, needed, avg, g, r, b, paid))
    }
}

/// The recorded clearing price: offered gold per offered resource, in fixed
/// point, saturating at the largest machine value.
pub open spec fn clearing_price(g: int, r: int) -> int {
    let p = g * SCALE / r;
    if p > u64::MAX {
        u64::MAX as int
    } else {
        p
    }
}

/// The recorded price of product `t` after one clearing round: the old price
/// when the round is skipped, else the clearing price of the round.
pub open spec fn traded_price(s: Seq<Producer>, t: int, needed: int, avg: int, old_price: int) -> int {
    if trade_skipped(s, t, needed, avg) {
        old_price
    } else {
        let n = s.len() as int;
        clearing_price(offered_gold(s, t, needed, avg, n), offered_res(s, t, needed, avg, n))
    }
}

/// A pro-rata floor share never exceeds the distributed total, and the
/// shares grow with the cumulative weight.
proof fn lemma_prorata_share(c: int, off: int, total: int, r: int)
    requires
        0 <= c,
        0 <= off,
        c + off <= r,
        0 <= total,
        0 < r,
    ensures
        c * total / r <= (c + off) * total / r,
        (c + off) * total / r <= total,
        0 <= c * total / r,
{
    assert(0 <= c * total <= (c + off) * total) by (nonlinear_arith)
        requires
            0 <= c,
            0 <= off,
            0 <= total,
    ;
    vstd::arithmetic::div_mod::lemma_div_is_ordered(c * total, (c + off) * total, r);
    assert((c + off) * total <= r * total) by (nonlinear_arith)
        requires
            c + off <= r,
            0 <= total,
    ;
    vstd::arithmetic::div_mod::lemma_div_is_ordered((c + off) * total, r * total, r);
    vstd::arithmetic::div_mod::lemma_div_multiples_vanish(total, r);
    vstd::arithmetic::div_mod::lemma_div_pos_is_pos(c * total, r);
}

/// Prefixes of the offered surplus grow with their length.
proof fn lemma_offered_res_mono(s: Seq<Producer>, t: int, needed: int, avg: int, m: int, n: int)
    requires
        0 <= m <= n,
        0 <= needed,
    ensures
        offered_res(s, t, needed, avg, m) <= offered_res(s, t, needed, avg, n),
    decreases n,
{
    if m < n {
        lemma_offered_res_mono(s, t, needed, avg, m, n - 1);
    }
}

/// The buyers' gold is part of the economy's gold.
proof fn lemma_offered_gold_le_sum(s: Seq<Producer>, t: int, needed: int, avg: int, n: int)
    ensures
        0 <= offered_gold(s, t, needed, avg, n) <= sum_gold(s, n),
    decreases n,
{
    if n > 0 {
        lemma_offered_gold_le_sum(s, t, needed, avg, n - 1);
    }
}

/// The sellers' surplus is part of the economy's inventory.
proof fn lemma_offered_res_le_sum(s: Seq<Producer>, t: int, needed: int, avg: int, n: int)
    requires
        0 <= needed,
    ensures
        0 <= offered_res(s, t, needed, avg, n) <= sum_product(s, t, n),
    decreases n,
{
    if n > 0 {
        lemma_offered_res_le_sum(s, t, needed, avg, n - 1);
    }
}

impl Economy {
    /// One market-clearing round for product `t` against the per-capita
    /// targets `needed` (inventory) and `average_gold`. Buyers below the
    /// inventory target spend up to their gold at the uniform price
    /// `offered_gold / offered_res`; sellers then give up the purchased
    /// amount pro rata to their surplus and share the payment the same way.
    /// Whether or not the round trades, the economy's gold and both
    /// inventories are exactly conserved. Because every purchase is priced
    /// against the buyer's own gold at the uniform rate, the buyers can
    /// never buy more than the sellers offered: the over-sell anomaly is
    /// impossible, not merely detected.
    #[verifier::rlimit(100)]
    #[verifier::spinoff_prover]
    #[verifier::loop_isolation(false)]
    pub fn trade_type(&mut self, t: usize, needed: u64, average_gold: u64)
        requires
            old(self).wf(),
            t < 2,
        ensures
            final(self).wf(),
            final(self).producers@.len() == old(self).n(),
            // the exact result of the round
            final(self).producers@ == traded_seq(
                old(self).producers@,
                t as int,
                needed as int,
                average_gold as int,
            ),
            // the exact prices after the round
            t == 0 ==> final(self).price_food == traded_price(
                old(self).producers@,
                0,
                needed as int,
                average_gold as int,
                old(self).price_food as int,
            ) && final(self).price_goods == old(self).price_goods,
            t == 1 ==> final(self).price_goods == traded_price(
                old(self).producers@,
                1,
                needed as int,
                average_gold as int,
                old(self).price_goods as int,
            ) && final(self).price_food == old(self).price_food,
            // conservation: trading is zero-sum over gold and each inventory
            sum_gold(final(self).producers@, old(self).n()) == sum_gold(
                old(self).producers@,
                old(self).n(),
            ),
            sum_product(final(self).producers@, 0, old(self).n()) == sum_product(
                old(self).producers@,
                0,
                old(self).n(),
            ),
            sum_product(final(self).producers@, 1, old(self).n()) == sum_product(
                old(self).producers@,
                1,
                old(self).n(),
            ),
            sum_pop(final(self).producers@, old(self).n()) == sum_pop(
                old(self).producers@,
                old(self).n(),
            ),
            // a degenerate round changes nothing, prices included
            trade_skipped(old(self).producers@, t as int, needed as int, average_gold as int)
                ==> final(self).producers@ == old(self).producers@ && final(self).price_food
                == old(self).price_food && final(self).price_goods == old(self).price_goods,
            // otherwise every producer moves to its cleared state and the
            // price of `t` is recorded
            !trade_skipped(old(self).producers@, t as int, needed as int, average_gold as int)
                ==> {
                let s = old(self).producers@;
                let n = old(self).n();
                let g = offered_gold(s, t as int, needed as int, average_gold as int, n);
                let r = offered_res(s, t as int, needed as int, average_gold as int, n);
                let b = sum_buys(s, t as int, needed as int, average_gold as int, g, r, n);
                let paid = sum_cost(s, t as int, needed as int, average_gold as int, g, r, n);
                &&& forall|i: int|
                    0 <= i < n ==> final(self).producers@[i] == trade_after(
                        s,
                        i,
                        t as int,
                        needed as int,
                        average_gold as int,
                        g,
                        r,
                        b,
                        paid,
                    )
                &&& (t == 0 ==> final(self).price_food == clearing_price(g, r)
                    && final(self).price_goods == old(self).price_goods)
                &&& (t == 1 ==> final(self).price_goods == clearing_price(g, r)
                    && final(self).price_food == old(self).price_food)
            },
            final(self).names@ == old(self).names@,
    {
        let ghost s0 = self.producers@;
        let ghost nn = self.n();
        let ghost tt = t as int;
        let ghost nd = needed as int;
        let ghost av = average_gold as int;
        let n = self.producers.len();

        // classify producers and aggregate both sides of the market
        let mut n_sellers: usize = 0;
        let mut n_buyers: usize = 0;
        let mut g_total: u128 = 0;
        let mut r_total: u128 = 0;
        let mut i: usize = 0;
        while i < n
            invariant
                i <= n,
                n_sellers as int == count_sellers(s0, tt, nd, av, i as int),
                n_buyers as int == count_buyers(s0, tt, nd, av, i as int),
                n_sellers <= i,
                n_buyers <= i,
                g_total as int == offered_gold(s0, tt, nd, av, i as int),
                r_total as int == offered_res(s0, tt, nd, av, i as int),
                g_total <= i as int * 0xffff_ffff_ffff_ffffu64 as int,
                r_total <= i as int * 0xffff_ffff_ffff_ffffu64 as int,
            decreases n - i,
        {
            let p = self.producers[i];
            let pv = p.product(t);
            if pv > needed && p.gold > average_gold {
                n_sellers = n_sellers + 1;
                r_total = r_total + (pv - needed) as u128;
            } else if pv < needed {
                n_buyers = n_buyers + 1;
                g_total = g_total + p.gold as u128;
            }
            i = i + 1;
        }
        proof {
            lemma_offered_gold_le_sum(s0, tt, nd, av, nn);
            lemma_offered_res_le_sum(s0, tt, nd, av, nn);
        }
        if n_sellers == 0 || n_buyers == 0 {
            return ;
        }
        if r_total <= MIN_OFFER as u128 {
            return ;
        }
        if g_total == 0 {
            return ;
        }
        let ghost g = g_total as int;
        let ghost r = r_total as int;
        assert(g <= GOLD_CAP && 0 < r <= PROD_CAP);

        // record the clearing price for this product type
        let price128 = g_total * SCALE as u128 / r_total;
        let price = if price128 > u64::MAX as u128 {
            u64::MAX
        } else {
            price128 as u64
        };
        if t == 0 {
            self.price_food = price;
        } else {
            self.price_goods = price;
        }

        // buying pass: every buyer purchases up to its target, paying the
        // uniform price, rounded against the buyer
        let mut bought: u128 = 0;
        let mut paid: u128 = 0;
        let mut i: usize = 0;
        while i < n
            invariant
                i <= n,
                self.producers@.len() == n,
                bought as int == sum_buys(s0, tt, nd, av, g, r, i as int),
                paid as int == sum_cost(s0, tt, nd, av, g, r, i as int),
                paid as int <= offered_gold(s0, tt, nd, av, i as int),
                bought as int * g <= offered_gold(s0, tt, nd, av, i as int) * r,
                bought <= i as int * 0xffff_ffff_ffff_ffffu64 as int,
                sum_gold(self.producers@, nn) == sum_gold(s0, nn) - paid,
                sum_product(self.producers@, tt, nn) == sum_product(s0, tt, nn) + bought,
                sum_product(self.producers@, 1 - tt, nn) == sum_product(s0, 1 - tt, nn),
                sum_pop(self.producers@, nn) == sum_pop(s0, nn),
                forall|j: int|
                    0 <= j < i ==> #[trigger] self.producers@[j] == after_buyers(
                        s0,
                        j,
                        tt,
                        nd,
                        av,
                        g,
                        r,
                    ),
                forall|j: int| i <= j < n ==> self.producers@[j] == s0[j],
                self.names@ == old(self).names@,
                t == 0 ==> self.price_food == price && self.price_goods == old(
                    self,
                ).price_goods,
                t == 1 ==> self.price_goods == price && self.price_food == old(self).price_food,
            decreases n - i,
        {
            let ghost before = self.producers@;
            let p = self.producers[i];
            let pv = p.product(t);
            let seller = pv > needed && p.gold > average_gold;
            if !seller && pv < needed {
                proof {
                    crate::arith::lemma_mul_u64_fits(p.gold as int, r_total as int);
                }
                let can128 = p.gold as u128 * r_total / g_total;
                let want = needed - pv;
                let buys = if can128 < want as u128 {
                    can128 as u64
                } else {
                    want
                };
                proof {
                    assert(buys as int <= p.gold as int * r / g) by {
                        vstd::arithmetic::div_mod::lemma_div_pos_is_pos(p.gold as int * r, g);
                    }
                    lemma_quotient_back(buys as int, p.gold as int * r, g);
                    // so buys * g <= gold * r, hence the ceiling cost fits in
                    // the buyer's gold
                    lemma_ceil_le(buys as int * g, r, p.gold as int);
                    assert(buys as int * g_total as int <= 0xffff_ffff_ffff_ffffu64 as int
                        * 0x1000_0000_0000_0000u64 as int) by (nonlinear_arith)
                        requires
                            0 <= buys <= 0xffff_ffff_ffff_ffffu64,
                            0 <= g_total as int <= 0x1000_0000_0000_0000u64 as int,
                    ;
                    lemma_offered_gold_le_sum(s0, tt, nd, av, i as int);
                    crate::sums::lemma_sum_gold_le(s0, i as int, nn);
                }
                let cost128 = (buys as u128 * g_total + (r_total - 1)) / r_total;
                let cost = cost128 as u64;
                assert(cost as int == cost_of(s0[i as int], tt, nd, g, r));
                assert(buys as int == buys_of(s0[i as int], tt, nd, g, r));
                assert(cost <= p.gold);
                proof {
                    vstd::arithmetic::div_mod::lemma_div_pos_is_pos(
                        buys as int * g + r - 1,
                        r,
                    );
                    assert((bought + buys) as int * g == bought as int * g + buys as int * g)
                        by (nonlinear_arith);
                    assert((offered_gold(s0, tt, nd, av, i as int) + p.gold) * r == offered_gold(
                        s0,
                        tt,
                        nd,
                        av,
                        i as int,
                    ) * r + p.gold as int * r) by (nonlinear_arith);
                }
                let q = &mut self.producers[i];
                if t == 0 {
                    q.food = q.food + buys;
                } else {
                    q.goods = q.goods + buys;
                }
                q.gold = q.gold - cost;
                proof {
                    let cur = self.producers@[i as int];
                    assert(cur == buyer_after(s0[i as int], tt, nd, g, r));
                    lemma_sum_gold_update(before, i as int, cur, nn);
                    lemma_sum_pop_update(before, i as int, cur, nn);
                    lemma_sum_product_update(before, 0, i as int, cur, nn);
                    lemma_sum_product_update(before, 1, i as int, cur, nn);
                }
                bought = bought + buys as u128;
                paid = paid + cost as u128;
            }
            i = i + 1;
        }
        assert(bought as int * g <= g * r);
        assert(bought as int <= r) by (nonlinear_arith)
            requires
                bought as int * g <= g * r,
                g > 0,
        ;
        assert(paid as int <= g);

        // selling pass: distribute the purchased amount and the payment over
        // the sellers pro rata to their offered surplus, by cumulative floor
        // differences, so both totals telescope exactly
        let mut c: u128 = 0;
        let mut dist: u128 = 0;
        let mut gains: u128 = 0;
        let mut i: usize = 0;
        while i < n
            invariant
                i <= n,
                self.producers@.len() == n,
                c as int == offered_res(s0, tt, nd, av, i as int),
                c <= r_total,
                dist as int == c as int * bought as int / r,
                gains as int == c as int * paid as int / r,
                dist <= bought,
                gains <= paid,
                sum_gold(self.producers@, nn) == sum_gold(s0, nn) - paid + gains,
                sum_product(self.producers@, tt, nn) == sum_product(s0, tt, nn) + bought - dist,
                sum_product(self.producers@, 1 - tt, nn) == sum_product(s0, 1 - tt, nn),
                sum_pop(self.producers@, nn) == sum_pop(s0, nn),
                forall|j: int|
                    0 <= j < i ==> #[trigger] self.producers@[j] == trade_after(
                        s0,
                        j,
                        tt,
                        nd,
                        av,
                        g,
                        r,
                        bought as int,
                        paid as int,
                    ),
                forall|j: int|
                    i <= j < n ==> #[trigger] self.producers@[j] == after_buyers(
                        s0,
                        j,
                        tt,
                        nd,
                        av,
                        g,
                        r,
                    ),
                self.names@ == old(self).names@,
                t == 0 ==> self.price_food == price && self.price_goods == old(
                    self,
                ).price_goods,
                t == 1 ==> self.price_goods == price && self.price_food == old(self).price_food,
            decreases n - i,
        {
            let ghost before = self.producers@;
            let p = self.producers[i];
            let pv = p.product(t);
            proof {
                if is_buyer(s0[i as int], tt, nd, av) {
                    vstd::arithmetic::div_mod::lemma_div_pos_is_pos(s0[i as int].gold as int * r,
                        g);
                }
            }
            if pv > needed && p.gold > average_gold {
                assert(is_seller(s0[i as int], tt, nd, av) && p == s0[i as int]);
                let off = pv - needed;
                let c_new = c + off as u128;
                proof {
                    lemma_offered_res_mono(s0, tt, nd, av, i as int + 1, nn);
                    assert(c_new as int == offered_res(s0, tt, nd, av, i as int + 1));
                    lemma_prorata_diff(c as int, off as int, bought as int, r);
                    lemma_prorata_share(c as int, off as int, bought as int, r);
                    lemma_prorata_share(c as int, off as int, paid as int, r);
                    crate::sums::lemma_sum_gold_element(s0, i as int, nn);
                    crate::arith::lemma_mul_u64_fits(c_new as int, bought as int);
                    crate::arith::lemma_mul_u64_fits(c_new as int, paid as int);
                }
                let dist_new = c_new * bought / r_total;
                let gains_new = c_new * paid / r_total;
                let sold = (dist_new - dist) as u64;
                let gain = (gains_new - gains) as u64;
                assert(sold <= off);
                let q = &mut self.producers[i];
                if t == 0 {
                    q.food = q.food - sold;
                } else {
                    q.goods = q.goods - sold;
                }
                q.gold = q.gold + gain;
                proof {
                    let cur = self.producers@[i as int];
                    assert(cur == trade_after(s0, i as int, tt, nd, av, g, r, bought as int,
                        paid as int));
                    lemma_sum_gold_update(before, i as int, cur, nn);
                    lemma_sum_pop_update(before, i as int, cur, nn);
                    lemma_sum_product_update(before, 0, i as int, cur, nn);
                    lemma_sum_product_update(before, 1, i as int, cur, nn);
                }
                c = c_new;
                dist = dist_new;
                gains = gains_new;
            } else {
                assert(!is_seller(s0[i as int], tt, nd, av));
                assert(self.producers@[i as int] == trade_after(s0, i as int, tt, nd, av, g, r,
                    bought as int, paid as int));
            }
            i = i + 1;
        }
        proof {
            assert(c as int == r);
            vstd::arithmetic::div_mod::lemma_div_multiples_vanish(bought as int, r);
            assert(r * bought as int == c as int * bought as int) by (nonlinear_arith)
                requires
                    c as int == r,
            ;
            vstd::arithmetic::div_mod::lemma_div_multiples_vanish(paid as int, r);
            assert(r * paid as int == c as int * paid as int) by (nonlinear_arith)
                requires
                    c as int == r,
            ;
            assert(self.producers@ =~= traded_seq(s0, tt, nd, av));
        }
    }
}

} // verus!
