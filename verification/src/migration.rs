use vstd::prelude::*;
use crate::economy::Economy;
use crate::fixed::{COUNT_CAP, GOLD_CAP, MIGRATION_DIVISOR, POP_CAP, POP_FLOOR, PROD_CAP};
use crate::producer::Producer;
use crate::sums::{
    lemma_sum_gold_update, lemma_sum_pop_element, lemma_sum_pop_update, lemma_sum_product_update,
    sum_gold, sum_pop, sum_product,
};

verus! {

/// Every index is a valid producer index.
pub open spec fn in_range(idx: Seq<usize>, n: int) -> bool {
    forall|a: int| 0 <= a < idx.len() ==> (#[trigger] idx[a]) < n
}

/// No producer index appears twice.
pub open spec fn distinct(idx: Seq<usize>) -> bool {
    forall|a: int, b: int| 0 <= a < b < idx.len() ==> #[trigger] idx[a] != #[trigger] idx[b]
}

/// The index order lists producers by non-decreasing happiness.
pub open spec fn sorted_by_happiness(s: Seq<Producer>, idx: Seq<usize>) -> bool {
    forall|a: int, b: int|
        0 <= a < b < idx.len() ==> (#[trigger] s[idx[a] as int]).happiness
            <= (#[trigger] s[idx[b] as int]).happiness
}

/// Selection sort of producer indices by ascending happiness. Ties keep a
/// deterministic order, so a whole run is reproducible.
fn sort_by_happiness(producers: &Vec<Producer>) -> (idx: Vec<usize>)
    ensures
        idx@.len() == producers@.len(),
        in_range(idx@, producers@.len() as int),
        distinct(idx@),
        sorted_by_happiness(producers@, idx@),
{
    let n = producers.len();
    let mut idx: Vec<usize> = Vec::new();
    let mut k: usize = 0;
    while k < n
        invariant
            k <= n,
            idx@.len() == k,
            forall|a: int| 0 <= a < k ==> (#[trigger] idx@[a]) == a,
        decreases n - k,
    {
        idx.push(k);
        k = k + 1;
    }
    let mut i: usize = 0;
    while i < n
        invariant
            i <= n == producers@.len(),
            idx@.len() == n,
            in_range(idx@, n as int),
            distinct(idx@),
            // the prefix is sorted and dominates the suffix
            forall|a: int, b: int|
                0 <= a < i && a < b < n ==> (#[trigger] producers@[idx@[a] as int]).happiness
                    <= (#[trigger] producers@[idx@[b] as int]).happiness,
        decreases n - i,
    {
        let mut m = i;
        let mut j = i + 1;
        while j < n
            invariant
                i <= m < j <= n,
                n == producers@.len(),
                idx@.len() == n,
                in_range(idx@, n as int),
                forall|k2: int|
                    i <= k2 < j ==> (#[trigger] producers@[idx@[m as int] as int]).happiness
                        <= producers@[idx@[k2] as int].happiness,
            decreases n - j,
        {
            if producers[idx[j]].happiness < producers[idx[m]].happiness {
                m = j;
            }
            j = j + 1;
        }
        let ghost before = idx@;
        let vi = idx[i];
        let vm = idx[m];
        let p = &mut idx[i];
        *p = vm;
        let q = &mut idx[m];
        *q = vi;
        proof {
            assert(idx@ == before.update(i as int, vm).update(m as int, vi));
            assert(in_range(idx@, n as int));
            assert forall|a: int, b: int| 0 <= a < b < n implies #[trigger] idx@[a]
                != #[trigger] idx@[b] by {
                assert(distinct(before));
            }
            assert forall|a: int, b: int|
                0 <= a < i + 1 && a < b < n implies (#[trigger] producers@[idx@[a]
                as int]).happiness <= (#[trigger] producers@[idx@[b] as int]).happiness by {}
        }
        i = i + 1;
    }
    idx
}

/// One ordered migration pair: `a` is the less happy producer, `b` the
/// happier one. A tenth of the happiness gap moves from `a` to `b`, but `a`
/// is never pushed below the population floor; a source already below the
/// floor is instead raised to it out of `b`'s population, capped by what `b`
/// has.
pub open spec fn pair_transfer(s: Seq<Producer>, a: int, b: int) -> Seq<Producer> {
    let pa = s[a].population as int;
    let pb = s[b].population as int;
    let delta = (s[b].happiness as int - s[a].happiness as int) / MIGRATION_DIVISOR as int;
    let target = if pa >= delta + POP_FLOOR {
        pa - delta
    } else {
        POP_FLOOR as int
    };
    if pa >= target {
        s.update(a, Producer { population: target as u64, ..s[a] }).update(
            b,
            Producer { population: (pb + (pa - target)) as u64, ..s[b] },
        )
    } else {
        let gap = target - pa;
        let give = if gap < pb {
            gap
        } else {
            pb
        };
        s.update(a, Producer { population: (pa + give) as u64, ..s[a] }).update(
            b,
            Producer { population: (pb - give) as u64, ..s[b] },
        )
    }
}

/// The pairs `(from, to)` for `to` in `[to, n)`, applied in order.
pub open spec fn migrate_pairs_inner(
    s: Seq<Producer>,
    idx: Seq<usize>,
    from: int,
    to: int,
) -> Seq<Producer>
    decreases idx.len() - to,
{
    if to < 0 || to >= idx.len() {
        s
    } else {
        migrate_pairs_inner(pair_transfer(s, idx[from] as int, idx[to] as int), idx, from, to + 1)
    }
}

/// All ordered pairs from position `from` on, applied in sorted order: the
/// exact sequential pairwise migration.
pub open spec fn migrate_pairs_outer(s: Seq<Producer>, idx: Seq<usize>, from: int) -> Seq<Producer>
    decreases idx.len() - from,
{
    if from < 0 || from >= idx.len() {
        s
    } else {
        migrate_pairs_outer(migrate_pairs_inner(s, idx, from, from + 1), idx, from + 1)
    }
}

impl Economy {
    /// Migration: producers are ordered by ascending happiness, and for every
    /// ordered pair one tenth of the happiness difference moves from the less
    /// happy to the happier producer, with the source never pushed below the
    /// population floor of 0.1 units. Transfers are applied sequentially, so
    /// later pairs see the populations already updated by earlier pairs: the
    /// result is exactly [`migrate_pairs_outer`] for a happiness-sorted order
    /// of the producers. Population is exactly conserved, and nothing but
    /// populations changes.
    #[verifier::loop_isolation(false)]
    pub fn migrate_all(&mut self)
        requires
            old(self).wf(),
        ensures
            final(self).wf(),
            final(self).producers@.len() == old(self).n(),
            // only populations change
            forall|i: int|
                0 <= i < old(self).n() ==> #[trigger] final(self).producers@[i] == (Producer {
                    population: final(self).producers@[i].population,
                    ..old(self).producers@[i]
                }),
            // conservation: migration is zero-sum over population and leaves
            // gold and inventories where they were
            sum_pop(final(self).producers@, old(self).n()) == sum_pop(
                old(self).producers@,
                old(self).n(),
            ),
            sum_gold(final(self).producers@, old(self).n()) == sum_gold(
                old(self).producers@,
                old(self).n(),
            ),
            sum_product(final(self).producers@, 0, old(self).n()) == sum_product(
                old(self).producers@,
                0,
                old(self).n(),
            ),
            sum_product(final(self).producers@, 1, old(self).n()) == sum_product(
                old(self).producers@,
                1,
                old(self).n(),
            ),
            // the migration floor: populations at or above 0.1 units stay so
            (forall|i: int|
                0 <= i < old(self).n() ==> (#[trigger] old(self).producers@[i]).population
                    >= POP_FLOOR) ==> (forall|i: int|
                0 <= i < old(self).n() ==> (#[trigger] final(self).producers@[i]).population
                    >= POP_FLOOR),
            // the exact result: the sequential pair fold over some
            // happiness-sorted order of the producers
            exists|idx: Seq<usize>|
                {
                    &&& idx.len() == old(self).n()
                    &&& in_range(idx, old(self).n())
                    &&& distinct(idx)
                    &&& sorted_by_happiness(old(self).producers@, idx)
                    &&& final(self).producers@ == #[trigger] migrate_pairs_outer(
                        old(self).producers@,
                        idx,
                        0,
                    )
                },
            // a single producer migrates nowhere
            old(self).n() == 1 ==> final(self).producers@[0] == old(self).producers@[0],
            final(self).names@ == old(self).names@,
            final(self).price_food == old(self).price_food,
            final(self).price_goods == old(self).price_goods,
    {
        let ghost s0 = self.producers@;
        let ghost nn = self.n();
        let ghost floor0 = forall|i: int|
            0 <= i < nn ==> (#[trigger] s0[i]).population >= POP_FLOOR;
        let idx = sort_by_happiness(&self.producers);
        let n = self.producers.len();
        let mut from: usize = 0;
        while from < n
            invariant
                from <= n,
                self.producers@.len() == n,
                sum_pop(self.producers@, nn) == sum_pop(s0, nn),
                sum_gold(self.producers@, nn) == sum_gold(s0, nn),
                sum_product(self.producers@, 0, nn) == sum_product(s0, 0, nn),
                sum_product(self.producers@, 1, nn) == sum_product(s0, 1, nn),
                forall|j: int|
                    0 <= j < nn ==> #[trigger] self.producers@[j] == (Producer {
                        population: self.producers@[j].population,
                        ..s0[j]
                    }),
                floor0 ==> forall|j: int|
                    0 <= j < nn ==> (#[trigger] self.producers@[j]).population >= POP_FLOOR,
                self.names@ == old(self).names@,
                self.price_food == old(self).price_food,
                self.price_goods == old(self).price_goods,
                migrate_pairs_outer(self.producers@, idx@, from as int) == migrate_pairs_outer(
                    s0,
                    idx@,
                    0,
                ),
            decreases n - from,
        {
            let ghost outer_start = self.producers@;
            let mut to = from + 1;
            while to < n
                invariant
                    from < to <= n,
                    self.producers@.len() == n,
                    sum_pop(self.producers@, nn) == sum_pop(s0, nn),
                    sum_gold(self.producers@, nn) == sum_gold(s0, nn),
                    sum_product(self.producers@, 0, nn) == sum_product(s0, 0, nn),
                    sum_product(self.producers@, 1, nn) == sum_product(s0, 1, nn),
                    forall|j: int|
                        0 <= j < nn ==> #[trigger] self.producers@[j] == (Producer {
                            population: self.producers@[j].population,
                            ..s0[j]
                        }),
                    floor0 ==> forall|j: int|
                        0 <= j < nn ==> (#[trigger] self.producers@[j]).population >= POP_FLOOR,
                    self.names@ == old(self).names@,
                    self.price_food == old(self).price_food,
                    self.price_goods == old(self).price_goods,
                    migrate_pairs_inner(self.producers@, idx@, from as int, to as int)
                        == migrate_pairs_inner(outer_start, idx@, from as int, from as int + 1),
                    migrate_pairs_outer(outer_start, idx@, from as int) == migrate_pairs_outer(
                        s0,
                        idx@,
                        0,
                    ),
                decreases n - to,
            {
                let a = idx[from];
                let b = idx[to];
                assert(a != b);
                let ha = self.producers[a].happiness;
                let hb = self.producers[b].happiness;
                assert(ha == s0[a as int].happiness && hb == s0[b as int].happiness);
                assert(ha <= hb);
                assert(hb <= crate::fixed::HAPPINESS_CAP);
                let delta = (hb - ha) / MIGRATION_DIVISOR;
                let pa = self.producers[a].population;
                let target = if pa >= delta && pa - delta >= POP_FLOOR {
                    pa - delta
                } else {
                    POP_FLOOR
                };
                let ghost mid = self.producers@;
                if pa >= target {
                    let moved = pa - target;
                    proof {
                        lemma_sum_pop_element(mid, b as int, nn);
                    }
                    let p = &mut self.producers[a];
                    p.population = p.population - moved;
                    let ghost mid2 = self.producers@;
                    proof {
                        lemma_sum_pop_update(mid, a as int, mid2[a as int], nn);
                        lemma_sum_gold_update(mid, a as int, mid2[a as int], nn);
                        lemma_sum_product_update(mid, 0, a as int, mid2[a as int], nn);
                        lemma_sum_product_update(mid, 1, a as int, mid2[a as int], nn);
                    }
                    let q = &mut self.producers[b];
                    q.population = q.population + moved;
                    proof {
                        lemma_sum_pop_update(mid2, b as int, self.producers@[b as int], nn);
                        lemma_sum_gold_update(mid2, b as int, self.producers@[b as int], nn);
                        lemma_sum_product_update(mid2, 0, b as int, self.producers@[b as int], nn);
                        lemma_sum_product_update(mid2, 1, b as int, self.producers@[b as int], nn);
                    }
                } else {
                    // the source sits below the floor: the pair rule raises it
                    // to the floor, drawing from the happier producer, capped
                    // by that producer's own population
                    let gap = target - pa;
                    let pb = self.producers[b].population;
                    let give = if gap < pb {
                        gap
                    } else {
                        pb
                    };
                    proof {
                        lemma_sum_pop_element(mid, a as int, nn);
                    }
                    let p = &mut self.producers[a];
                    p.population = p.population + give;
                    let ghost mid2 = self.producers@;
                    proof {
                        lemma_sum_pop_update(mid, a as int, mid2[a as int], nn);
                        lemma_sum_gold_update(mid, a as int, mid2[a as int], nn);
                        lemma_sum_product_update(mid, 0, a as int, mid2[a as int], nn);
                        lemma_sum_product_update(mid, 1, a as int, mid2[a as int], nn);
                    }
                    let q = &mut self.producers[b];
                    q.population = q.population - give;
                    proof {
                        lemma_sum_pop_update(mid2, b as int, self.producers@[b as int], nn);
                        lemma_sum_gold_update(mid2, b as int, self.producers@[b as int], nn);
                        lemma_sum_product_update(mid2, 0, b as int, self.producers@[b as int], nn);
                        lemma_sum_product_update(mid2, 1, b as int, self.producers@[b as int], nn);
                    }
                }
                proof {
                    assert(self.producers@ == pair_transfer(mid, a as int, b as int));
                }
                to = to + 1;
            }
            proof {
                assert(migrate_pairs_inner(self.producers@, idx@, from as int, n as int)
                    == self.producers@);
                assert(migrate_pairs_outer(outer_start, idx@, from as int)
                    == migrate_pairs_outer(
                    migrate_pairs_inner(outer_start, idx@, from as int, from as int + 1),
                    idx@,
                    from as int + 1,
                ));
            }
            from = from + 1;
        }
        proof {
            assert(migrate_pairs_outer(self.producers@, idx@, n as int) == self.producers@);
            assert(self.producers@ == migrate_pairs_outer(s0, idx@, 0));
            assert(idx@.len() == nn && in_range(idx@, nn) && distinct(idx@)
                && sorted_by_happiness(s0, idx@));
        }
        proof {
            if nn == 1 {
                assert(sum_pop(self.producers@, 1) == sum_pop(self.producers@, 0)
                    + self.producers@[0].population);
                assert(sum_pop(s0, 1) == sum_pop(s0, 0) + s0[0].population);
                assert(self.producers@[0].population == s0[0].population);
            }
        }
    }
}

} // verus!
