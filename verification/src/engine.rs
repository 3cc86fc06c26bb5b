use vstd::prelude::*;
use crate::consumption::{consumed_one, consumed_seq};
use crate::economy::{sum_tax, taxed_seq, Economy};
use crate::fixed::{GOLD_CAP, PROD_CAP, TRADE_ROUNDS};
use crate::market::{
    count_buyers, count_sellers, is_seller, traded_price, traded_seq, trade_skipped,
};
use crate::migration::{
    distinct, in_range, migrate_pairs_inner, migrate_pairs_outer, sorted_by_happiness,
};
use crate::producer::Producer;
use crate::production::{apply_production, produced_seq, production_overflows, SimError};
use crate::sums::{sum_gold, sum_pop, sum_product};

verus! {

/// The producer collection after `k` market-clearing rounds, each clearing
/// both product types against per-capita targets drawn from totals that
/// accumulate across the rounds without resetting.
pub open spec fn trade_rounds(s: Seq<Producer>, tg: int, t0: int, t1: int, k: int) -> Seq<
    Producer,
>
    decreases k,
{
    if k <= 0 {
        s
    } else {
        let n = s.len() as int;
        let tg2 = tg + sum_gold(s, n);
        let t02 = t0 + sum_product(s, 0, n);
        let t12 = t1 + sum_product(s, 1, n);
        let avg = tg2 / n;
        let s2 = traded_seq(s, 0, t02 / n, avg);
        let s3 = traded_seq(s2, 1, t12 / n, avg);
        trade_rounds(s3, tg2, t02, t12, k - 1)
    }
}

/// The price pair after `k` market-clearing rounds over the same fold: each
/// round records the clearing price of each product type, or keeps the old
/// price when that type's round is skipped.
pub open spec fn rounds_prices(
    s: Seq<Producer>,
    tg: int,
    t0: int,
    t1: int,
    pf: int,
    pg: int,
    k: int,
) -> (int, int)
    decreases k,
{
    if k <= 0 {
        (pf, pg)
    } else {
        let n = s.len() as int;
        let tg2 = tg + sum_gold(s, n);
        let t02 = t0 + sum_product(s, 0, n);
        let t12 = t1 + sum_product(s, 1, n);
        let avg = tg2 / n;
        let s2 = traded_seq(s, 0, t02 / n, avg);
        let s3 = traded_seq(s2, 1, t12 / n, avg);
        let pf2 = traded_price(s, 0, t02 / n, avg, pf);
        let pg2 = traded_price(s2, 1, t12 / n, avg, pg);
        rounds_prices(s3, tg2, t02, t12, pf2, pg2, k - 1)
    }
}

/// The producer collection of a step just before migration: produced,
/// cleared over all rounds, consumed.
pub open spec fn pre_migration_state(s: Seq<Producer>) -> Seq<Producer> {
    consumed_seq(trade_rounds(produced_seq(s), 0, 0, 0, TRADE_ROUNDS as int))
}

/// The price pair a step leaves behind: the round fold applied to the
/// produced state, starting from the step's incoming prices.
pub open spec fn step_prices(s: Seq<Producer>, pf: int, pg: int) -> (int, int) {
    rounds_prices(produced_seq(s), 0, 0, 0, pf, pg, TRADE_ROUNDS as int)
}

/// One successful simulation step, as a relation between economies (producer
/// collection and price pair): the step was possible (the production yield
/// fits under the inventory cap), the producers move to the composed
/// post-state for some happiness-sorted order of the consumed state, and the
/// prices are exactly those the clearing rounds leave.
pub open spec fn step_rel(
    pre: Seq<Producer>,
    pf: int,
    pg: int,
    post: Seq<Producer>,
    pf2: int,
    pg2: int,
) -> bool {
    &&& !production_overflows(pre, pre.len() as int)
    &&& (pf2, pg2) == step_prices(pre, pf, pg)
    &&& exists|idx: Seq<usize>|
        {
            &&& idx.len() == pre.len()
            &&& in_range(idx, pre.len() as int)
            &&& distinct(idx)
            &&& sorted_by_happiness(pre_migration_state(pre), idx)
            &&& post == taxed_seq(
                #[trigger] migrate_pairs_outer(pre_migration_state(pre), idx, 0),
            )
        }
}

/// Adjacent entries of the chain are related by one simulation step. Each
/// entry is a producer collection with its price pair.
pub open spec fn run_chain(c: Seq<(Seq<Producer>, int, int)>) -> bool {
    forall|i: int|
        0 <= i < c.len() - 1 ==> #[trigger] step_rel(
            c[i].0,
            c[i].1,
            c[i].2,
            c[i + 1].0,
            c[i + 1].1,
            c[i + 1].2,
        )
}

/// With a single producer the market never has both a seller and a buyer,
/// so a clearing round is always skipped: producers and price pass through.
proof fn lemma_single_round_skipped(s: Seq<Producer>, t: int, needed: int, avg: int, p: int)
    requires
        s.len() == 1,
    ensures
        trade_skipped(s, t, needed, avg),
        traded_seq(s, t, needed, avg) == s,
        traded_price(s, t, needed, avg, p) == p,
{
    assert(count_sellers(s, t, needed, avg, 0) == 0);
    assert(count_buyers(s, t, needed, avg, 0) == 0);
    if is_seller(s[0], t, needed, avg) {
        assert(count_buyers(s, t, needed, avg, 1) == 0);
    } else {
        assert(count_sellers(s, t, needed, avg, 1) == 0);
    }
}

/// A single producer passes through any number of clearing rounds unchanged,
/// prices included.
proof fn lemma_single_rounds(s: Seq<Producer>, tg: int, t0: int, t1: int, pf: int, pg: int, k: int)
    requires
        s.len() == 1,
    ensures
        trade_rounds(s, tg, t0, t1, k) == s,
        rounds_prices(s, tg, t0, t1, pf, pg, k) == (pf, pg),
    decreases k,
{
    if k > 0 {
        let n = s.len() as int;
        let tg2 = tg + sum_gold(s, n);
        let t02 = t0 + sum_product(s, 0, n);
        let t12 = t1 + sum_product(s, 1, n);
        lemma_single_round_skipped(s, 0, t02 / n, tg2 / n, pf);
        lemma_single_round_skipped(s, 1, t12 / n, tg2 / n, pg);
        lemma_single_rounds(s, tg2, t02, t12, pf, pg, k - 1);
    }
}

/// A lone producer's step is degenerate: no trade executes (the market never
/// has both sides), migration has no pair, and the sole producer is exempt
/// from tax. So the prices, the producer's gold and its population pass
/// through unchanged, and only production and consumption act on it.
pub proof fn lemma_single_producer_step(
    pre: Seq<Producer>,
    pf: int,
    pg: int,
    post: Seq<Producer>,
    pf2: int,
    pg2: int,
)
    requires
        pre.len() == 1,
        step_rel(pre, pf, pg, post, pf2, pg2),
    ensures
        pf2 == pf,
        pg2 == pg,
        post.len() == 1,
        post[0] == consumed_one(apply_production(pre[0]), true),
        post[0].gold == pre[0].gold,
        post[0].population == pre[0].population,
{
    let s1 = produced_seq(pre);
    assert(s1.len() == 1);
    lemma_single_rounds(s1, 0, 0, 0, pf, pg, TRADE_ROUNDS as int);
    let s3 = pre_migration_state(pre);
    assert(s3 == consumed_seq(s1));
    assert(s3.len() == 1);
    assert(s3[0] == consumed_one(apply_production(pre[0]), true));
    let idx = choose|idx: Seq<usize>|
        {
            &&& idx.len() == pre.len()
            &&& in_range(idx, pre.len() as int)
            &&& distinct(idx)
            &&& sorted_by_happiness(pre_migration_state(pre), idx)
            &&& post == taxed_seq(
                #[trigger] migrate_pairs_outer(pre_migration_state(pre), idx, 0),
            )
        };
    assert(migrate_pairs_inner(s3, idx, 0, 1) == s3);
    assert(migrate_pairs_outer(s3, idx, 1) == s3);
    assert(migrate_pairs_outer(s3, idx, 0) == s3);
    assert(sum_tax(s3, 1) == 0);
    assert(taxed_seq(s3).len() == 1);
    assert(taxed_seq(s3)[0] == s3[0]);
}

/// Over a whole single-producer run — any chain of step transitions starting
/// from one producer — the prices and the producer's gold and population
/// never change from their initial values.
pub proof fn lemma_single_producer_chain(c: Seq<(Seq<Producer>, int, int)>)
    requires
        c.len() >= 1,
        c[0].0.len() == 1,
        run_chain(c),
    ensures
        forall|i: int|
            0 <= i < c.len() ==> (#[trigger] c[i]).0.len() == 1 && c[i].1 == c[0].1 && c[i].2
                == c[0].2 && c[i].0[0].gold == c[0].0[0].gold && c[i].0[0].population
                == c[0].0[0].population,
    decreases c.len(),
{
    if c.len() > 1 {
        let d = c.drop_last();
        assert forall|i: int|
            0 <= i < d.len() - 1 implies #[trigger] step_rel(
            d[i].0,
            d[i].1,
            d[i].2,
            d[i + 1].0,
            d[i + 1].1,
            d[i + 1].2,
        ) by {
            assert(step_rel(c[i].0, c[i].1, c[i].2, c[i + 1].0, c[i + 1].1, c[i + 1].2));
        }
        lemma_single_producer_chain(d);
        let j = c.len() - 2;
        assert(step_rel(c[j].0, c[j].1, c[j].2, c[j + 1].0, c[j + 1].1, c[j + 1].2));
        assert(d[j] == c[j] && d[j].0.len() == 1);
        lemma_single_producer_step(c[j].0, c[j].1, c[j].2, c[j + 1].0, c[j + 1].1, c[j + 1].2);
        assert forall|i: int|
            0 <= i < c.len() implies (#[trigger] c[i]).0.len() == 1 && c[i].1 == c[0].1 && c[i].2
            == c[0].2 && c[i].0[0].gold == c[0].0[0].gold && c[i].0[0].population
            == c[0].0[0].population by {
            if i < c.len() - 1 {
                assert(d[i] == c[i] && d[0] == c[0]);
            } else {
                assert(d[j] == c[j] && d[0] == c[0]);
            }
        }
    }
}

impl Economy {
    /// One simulation step: production, four market-clearing rounds over
    /// both product types, consumption, migration, taxation. The clearing
    /// targets are computed from totals that accumulate across the four
    /// rounds without resetting, as the model prescribes. Over the whole
    /// step the economy's gold and population are exactly conserved, and
    /// state and prices move exactly by [`step_rel`].
    #[verifier::rlimit(100)]
    #[verifier::spinoff_prover]
    #[verifier::loop_isolation(false)]
    pub fn step(&mut self) -> (r: Result<(), SimError>)
        requires
            old(self).wf(),
        ensures
            final(self).wf(),
            final(self).producers@.len() == old(self).n(),
            r is Ok <==> !production_overflows(old(self).producers@, old(self).n()),
            r is Err ==> final(self).producers@ == old(self).producers@ && final(self).price_food
                == old(self).price_food && final(self).price_goods == old(self).price_goods,
            // the exact result: one step of the transition relation
            r is Ok ==> step_rel(
                old(self).producers@,
                old(self).price_food as int,
                old(self).price_goods as int,
                final(self).producers@,
                final(self).price_food as int,
                final(self).price_goods as int,
            ),
            sum_gold(final(self).producers@, old(self).n()) == sum_gold(
                old(self).producers@,
                old(self).n(),
            ),
            sum_pop(final(self).producers@, old(self).n()) == sum_pop(
                old(self).producers@,
                old(self).n(),
            ),
            final(self).names@ == old(self).names@,
    {
        match self.produce_all() {
            Err(e) => {
                return Err(e);
            },
            Ok(()) => {},
        }
        let n = self.producers.len();
        let n64 = n as u64;
        let ghost s1 = self.producers@;
        let ghost nn = self.n();
        let ghost pf0 = self.price_food as int;
        let ghost pg0 = self.price_goods as int;
        let mut tg: u64 = 0;
        let mut t0: u64 = 0;
        let mut t1: u64 = 0;
        let mut round: u64 = 0;
        while round < TRADE_ROUNDS
            invariant
                round <= TRADE_ROUNDS,
                self.producers@.len() == n,
                self.wf(),
                sum_gold(self.producers@, nn) == sum_gold(s1, nn),
                sum_pop(self.producers@, nn) == sum_pop(s1, nn),
                sum_product(self.producers@, 0, nn) == sum_product(s1, 0, nn),
                sum_product(self.producers@, 1, nn) == sum_product(s1, 1, nn),
                tg <= round * GOLD_CAP,
                t0 <= round * PROD_CAP,
                t1 <= round * PROD_CAP,
                self.names@ == old(self).names@,
                trade_rounds(
                    self.producers@,
                    tg as int,
                    t0 as int,
                    t1 as int,
                    TRADE_ROUNDS - round,
                ) == trade_rounds(s1, 0, 0, 0, TRADE_ROUNDS as int),
                rounds_prices(
                    self.producers@,
                    tg as int,
                    t0 as int,
                    t1 as int,
                    self.price_food as int,
                    self.price_goods as int,
                    TRADE_ROUNDS - round,
                ) == rounds_prices(s1, 0, 0, 0, pf0, pg0, TRADE_ROUNDS as int),
            decreases TRADE_ROUNDS - round,
        {
            let ghost rs = self.producers@;
            let ghost otg = tg as int;
            let ghost ot0 = t0 as int;
            let ghost ot1 = t1 as int;
            let ghost opf = self.price_food as int;
            let ghost opg = self.price_goods as int;
            let gw = crate::economy::total_gold_wide(&self.producers);
            let fw = crate::economy::total_product_wide(&self.producers, 0);
            let dw = crate::economy::total_product_wide(&self.producers, 1);
            tg = tg + gw as u64;
            t0 = t0 + fw as u64;
            t1 = t1 + dw as u64;
            let average_gold = tg / n64;
            let needed0 = t0 / n64;
            let needed1 = t1 / n64;
            self.trade_type(0, needed0, average_gold);
            let ghost smid = self.producers@;
            self.trade_type(1, needed1, average_gold);
            proof {
                assert(trade_rounds(rs, otg, ot0, ot1, TRADE_ROUNDS - round) == trade_rounds(
                    self.producers@,
                    tg as int,
                    t0 as int,
                    t1 as int,
                    TRADE_ROUNDS - round - 1,
                ));
                assert(smid == traded_seq(rs, 0, needed0 as int, average_gold as int));
                assert(self.price_food as int == traded_price(
                    rs,
                    0,
                    needed0 as int,
                    average_gold as int,
                    opf,
                ));
                assert(self.price_goods as int == traded_price(
                    smid,
                    1,
                    needed1 as int,
                    average_gold as int,
                    opg,
                ));
                assert(rounds_prices(rs, otg, ot0, ot1, opf, opg, TRADE_ROUNDS - round)
                    == rounds_prices(
                    self.producers@,
                    tg as int,
                    t0 as int,
                    t1 as int,
                    self.price_food as int,
                    self.price_goods as int,
                    TRADE_ROUNDS - round - 1,
                ));
            }
            round = round + 1;
        }
        let ghost s2g = self.producers@;
        let ghost pfr = self.price_food as int;
        let ghost pgr = self.price_goods as int;
        self.consume_all();
        let ghost s3g = self.producers@;
        self.migrate_all();
        let ghost mpost = self.producers@;
        let ghost idxw = choose|idx: Seq<usize>|
            {
                &&& idx.len() == nn
                &&& in_range(idx, nn)
                &&& distinct(idx)
                &&& sorted_by_happiness(s3g, idx)
                &&& mpost == #[trigger] migrate_pairs_outer(s3g, idx, 0)
            };
        self.tax_all();
        proof {
            assert(s1 == produced_seq(old(self).producers@));
            assert(s2g == trade_rounds(s1, 0, 0, 0, TRADE_ROUNDS as int));
            assert((pfr, pgr) == rounds_prices(s1, 0, 0, 0, pf0, pg0, TRADE_ROUNDS as int));
            assert((self.price_food as int, self.price_goods as int) == step_prices(
                old(self).producers@,
                old(self).price_food as int,
                old(self).price_goods as int,
            ));
            assert(s3g == consumed_seq(s2g));
            assert(s3g == pre_migration_state(old(self).producers@));
            assert(idxw.len() == nn && in_range(idxw, nn) && distinct(idxw)
                && sorted_by_happiness(s3g, idxw));
            assert(self.producers@ == taxed_seq(
                migrate_pairs_outer(pre_migration_state(old(self).producers@), idxw, 0),
            ));
        }
        Ok(())
    }

    /// Runs the simulation for the given number of steps. The result is a
    /// chain of single-step transitions from the old economy to the final
    /// one: `steps` of them on success, or one per completed step when a
    /// production yield was refused, the refusal showing in the final state.
    /// Gold and population are conserved over the whole run either way.
    #[verifier::rlimit(100)]
    #[verifier::loop_isolation(false)]
    pub fn run(&mut self, steps: u64) -> (r: Result<(), SimError>)
        requires
            old(self).wf(),
        ensures
            final(self).wf(),
            final(self).producers@.len() == old(self).n(),
            sum_gold(final(self).producers@, old(self).n()) == sum_gold(
                old(self).producers@,
                old(self).n(),
            ),
            sum_pop(final(self).producers@, old(self).n()) == sum_pop(
                old(self).producers@,
                old(self).n(),
            ),
            final(self).names@ == old(self).names@,
            // the exact result: a step chain of full length on success
            r is Ok ==> exists|c: Seq<(Seq<Producer>, int, int)>|
                #[trigger] run_chain(c) && c.len() == steps + 1 && c[0] == (
                    old(self).producers@,
                    old(self).price_food as int,
                    old(self).price_goods as int,
                ) && c.last() == (
                    final(self).producers@,
                    final(self).price_food as int,
                    final(self).price_goods as int,
                ),
            // on refusal: a shorter chain, ending in the state whose
            // production yield would pass the inventory cap
            r is Err ==> production_overflows(final(self).producers@, old(self).n()) && exists|
                c: Seq<(Seq<Producer>, int, int)>,
            |
                #[trigger] run_chain(c) && 1 <= c.len() <= steps && c[0] == (
                    old(self).producers@,
                    old(self).price_food as int,
                    old(self).price_goods as int,
                ) && c.last() == (
                    final(self).producers@,
                    final(self).price_food as int,
                    final(self).price_goods as int,
                ),
            steps == 0 ==> final(self).producers@ == old(self).producers@
                && final(self).price_food == old(self).price_food
                && final(self).price_goods == old(self).price_goods,
    {
        let ghost first = (
            old(self).producers@,
            old(self).price_food as int,
            old(self).price_goods as int,
        );
        let ghost mut chain: Seq<(Seq<Producer>, int, int)> = seq![first];
        let mut k: u64 = 0;
        while k < steps
            invariant
                k <= steps,
                self.wf(),
                self.producers@.len() == old(self).n(),
                sum_gold(self.producers@, old(self).n()) == sum_gold(
                    old(self).producers@,
                    old(self).n(),
                ),
                sum_pop(self.producers@, old(self).n()) == sum_pop(
                    old(self).producers@,
                    old(self).n(),
                ),
                self.names@ == old(self).names@,
                chain.len() == k + 1,
                run_chain(chain),
                chain[0] == first,
                chain.last() == (
                    self.producers@,
                    self.price_food as int,
                    self.price_goods as int,
                ),
                steps == 0 ==> self.producers@ == old(self).producers@ && self.price_food == old(
                    self,
                ).price_food && self.price_goods == old(self).price_goods,
            decreases steps - k,
        {
            let ghost prev = chain;
            match self.step() {
                Err(e) => {
                    return Err(e);
                },
                Ok(()) => {},
            }
            proof {
                chain = chain.push(
                    (self.producers@, self.price_food as int, self.price_goods as int),
                );
                assert forall|i: int| 0 <= i < chain.len() - 1 implies #[trigger] step_rel(
                    chain[i].0,
                    chain[i].1,
                    chain[i].2,
                    chain[i + 1].0,
                    chain[i + 1].1,
                    chain[i + 1].2,
                ) by {
                    if i < prev.len() - 1 {
                        assert(step_rel(
                            prev[i].0,
                            prev[i].1,
                            prev[i].2,
                            prev[i + 1].0,
                            prev[i + 1].1,
                            prev[i + 1].2,
                        ));
                    }
                }
            }
            k = k + 1;
        }
        Ok(())
    }
}

} // verus!
