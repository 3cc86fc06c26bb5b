use vstd::prelude::*;
use crate::arith::{lemma_mul_u64_fits, lemma_quotient_back};
use crate::economy::Economy;
use crate::fixed::{COUNT_CAP, POP_CAP, PROD_CAP, SCALE};
use crate::market::with_product;
use crate::producer::{Producer, Production};
use crate::sums::{
    lemma_sum_gold_update, lemma_sum_pop_element, lemma_sum_pop_update, lemma_sum_product_element,
    lemma_sum_product_update, sum_gold, sum_pop, sum_product,
};

verus! {

/// The engine's one failure: a production step would push an inventory total
/// past its cap. The step is refused and the economy left unchanged.
#[derive(Clone, Copy, Debug, PartialEq, Eq, Structural)]
pub enum SimError {
    ProductionOverflow,
}

/// `r` is the floor of the square root of `n`.
pub open spec fn is_sqrt(n: int, r: int) -> bool {
    r >= 0 && r * r <= n && n < (r + 1) * (r + 1)
}

/// The floor of the square root.
pub open spec fn sqrt_floor(n: int) -> int {
    choose|r: int| #[trigger] is_sqrt(n, r)
}

proof fn lemma_sqrt_exists(n: int)
    requires
        n >= 0,
    ensures
        exists|r: int| #[trigger] is_sqrt(n, r),
    decreases n,
{
    if n == 0 {
        assert(is_sqrt(0, 0));
    } else {
        lemma_sqrt_exists(n - 1);
        let r = choose|r: int| #[trigger] is_sqrt(n - 1, r);
        if (r + 1) * (r + 1) <= n {
            assert(n == (r + 1) * (r + 1));
            assert((r + 1 + 1) * (r + 1 + 1) > n) by (nonlinear_arith)
                requires
                    n == (r + 1) * (r + 1),
                    r >= 0,
            ;
            assert(is_sqrt(n, r + 1));
        } else {
            assert(is_sqrt(n, r));
        }
    }
}

proof fn lemma_sqrt_unique(n: int, a: int, b: int)
    requires
        is_sqrt(n, a),
        is_sqrt(n, b),
    ensures
        a == b,
{
    assert(a == b) by (nonlinear_arith)
        requires
            a >= 0 && a * a <= n && n < (a + 1) * (a + 1),
            b >= 0 && b * b <= n && n < (b + 1) * (b + 1),
    ;
}

/// Binary-search integer square root.
fn isqrt(n: u128) -> (r: u64)
    requires
        n < 0x4000_0000_0000_0000_0000_0000_0000_0000u128,
    ensures
        is_sqrt(n as int, r as int),
        r as int == sqrt_floor(n as int),
{
    let mut lo: u128 = 0;
    let mut hi: u128 = 0x8000_0000_0000_0000u128;
    assert(hi * hi == 0x4000_0000_0000_0000_0000_0000_0000_0000u128);
    while hi - lo > 1
        invariant
            lo < hi <= 0x8000_0000_0000_0000u128,
            lo * lo <= n,
            n < hi * hi,
        decreases hi - lo,
    {
        let mid = lo + (hi - lo) / 2;
        assert(lo < mid < hi);
        assert(mid * mid <= 0x4000_0000_0000_0000_0000_0000_0000_0000u128) by (nonlinear_arith)
            requires
                0 <= mid,
                mid <= 0x8000_0000_0000_0000u128,
        ;
        if mid * mid <= n {
            lo = mid;
        } else {
            hi = mid;
        }
    }
    proof {
        assert(hi == lo + 1);
        assert(is_sqrt(n as int, lo as int));
        lemma_sqrt_exists(n as int);
        lemma_sqrt_unique(n as int, lo as int, sqrt_floor(n as int));
    }
    lo as u64
}

/// The chain of fixed-point square roots: `root_chain(x, j)` approximates
/// `x` raised to the power `2^-j`, in fixed point.
pub open spec fn root_chain(x: int, j: int) -> int
    decreases j,
{
    if j <= 0 {
        x
    } else {
        sqrt_floor(root_chain(x, j - 1) * SCALE)
    }
}

/// Two to the `k`-th power.
pub open spec fn pow_of_two(k: int) -> int
    decreases k,
{
    if k <= 0 {
        1
    } else {
        2 * pow_of_two(k - 1)
    }
}

/// Weight of the `j`-th exponent bit: `SCALE / 2^j`, that is `2^(20 - j)`.
pub open spec fn bit_weight(j: int) -> int {
    pow_of_two(20 - j)
}

proof fn lemma_pow_of_two_pos(k: int)
    ensures
        pow_of_two(k) >= 1,
    decreases k,
{
    if k > 0 {
        lemma_pow_of_two_pos(k - 1);
    }
}

/// Clamp to the largest machine value.
pub open spec fn cap_u64(v: int) -> int {
    if v > u64::MAX {
        u64::MAX as int
    } else {
        v
    }
}

/// Partial product of the root chain over the first `j` bits of the
/// fixed-point exponent `e`: approximates `x^(e / SCALE)` in fixed point.
pub open spec fn pow_acc(x: int, e: int, j: int) -> int
    decreases j,
{
    if j <= 0 {
        SCALE as int
    } else {
        let prev = pow_acc(x, e, j - 1);
        if e / bit_weight(j) % 2 == 1 {
            cap_u64(prev * root_chain(x, j) / SCALE as int)
        } else {
            prev
        }
    }
}

/// `x` raised to the proper fraction `e / SCALE`, in fixed point, by binary
/// decomposition of the exponent over the square-root chain.
fn pow_frac(x: u64, e: u64) -> (r: u64)
    requires
        SCALE <= x <= POP_CAP + SCALE,
        0 < e < SCALE,
    ensures
        r as int == pow_acc(x as int, e as int, 20),
        SCALE <= r,
{
    proof {
        reveal_with_fuel(pow_of_two, 25);
        assert(pow_of_two(19) == SCALE as int / 2);
    }
    let mut s: u64 = x;
    let mut acc: u64 = SCALE;
    let mut w: u64 = SCALE / 2;
    let mut j: u64 = 1;
    while j <= 20
        invariant
            1 <= j <= 21,
            SCALE <= x <= POP_CAP + SCALE,
            s as int == root_chain(x as int, j - 1),
            SCALE <= s <= x,
            j <= 20 ==> w as int == pow_of_two(20 - j as int),
            acc as int == pow_acc(x as int, e as int, j - 1),
            SCALE <= acc,
        decreases 21 - j,
    {
        proof {
            lemma_pow_of_two_pos(20 - j as int);
        }
        let s2 = isqrt(s as u128 * SCALE as u128);
        proof {
            // the root of s * SCALE lies between SCALE and s
            assert(SCALE as int * SCALE as int <= s as int * SCALE as int) by (nonlinear_arith)
                requires
                    SCALE <= s,
            ;
            assert(s as int * SCALE as int <= s as int * s as int) by (nonlinear_arith)
                requires
                    SCALE <= s,
            ;
            assert(s2 as int * s2 as int <= s as int * SCALE as int);
            assert(((s2 as int) + 1) * ((s2 as int) + 1) > s as int * SCALE as int);
            assert(s2 >= SCALE) by (nonlinear_arith)
                requires
                    ((s2 as int) + 1) * ((s2 as int) + 1) > s as int * SCALE as int,
                    SCALE as int * SCALE as int <= s as int * SCALE as int,
                    s2 >= 0,
            ;
            assert(s2 <= s) by (nonlinear_arith)
                requires
                    s2 as int * s2 as int <= s as int * s as int,
                    0 <= s2,
                    0 <= s,
            ;
        }
        s = s2;
        if e / w % 2 == 1 {
            proof {
                lemma_mul_u64_fits(acc as int, s as int);
                // multiplying by a factor of at least one unit cannot shrink
                assert(acc as int * SCALE as int <= acc as int * s as int) by (nonlinear_arith)
                    requires
                        SCALE <= s,
                        0 <= acc,
                ;
                vstd::arithmetic::div_mod::lemma_div_is_ordered(
                    acc as int * SCALE as int,
                    acc as int * s as int,
                    SCALE as int,
                );
                vstd::arithmetic::div_mod::lemma_div_multiples_vanish(acc as int, SCALE as int);
            }
            let prod = acc as u128 * s as u128 / SCALE as u128;
            acc = if prod > u64::MAX as u128 {
                u64::MAX
            } else {
                prod as u64
            };
        }
        w = w / 2;
        j = j + 1;
    }
    acc
}

/// Quantity produced by rule `pr` at population `pop`, in fixed point,
/// saturating at the largest machine value. The diminishing curve is
/// `((pop + 1)^(1 - d) - 1) / (1 - d) * m` evaluated over the root chain.
pub open spec fn produce_qty(pr: Production, pop: int) -> int {
    match pr {
        Production::Idle => 0,
        Production::Relative { product, ratio } => cap_u64(pop * ratio / SCALE as int),
        Production::Diminishing { product, multiple, diminish } => {
            let e = SCALE - diminish;
            let powx = pow_acc(pop + SCALE, e as int, 20);
            let base = if powx >= SCALE {
                cap_u64((powx - SCALE) * SCALE / e as int)
            } else {
                0
            };
            cap_u64(base * multiple / SCALE as int)
        },
    }
}

impl Production {
    /// Runs the production rule: returns the target product slot and the
    /// quantity produced at the given population.
    pub fn produce(&self, population: u64) -> (r: (usize, u64))
        requires
            self.valid(),
            population <= POP_CAP,
        ensures
            r.0 as int == self.target(),
            r.0 < 2,
            r.1 as int == produce_qty(*self, population as int),
    {
        match *self {
            Production::Idle => (0, 0),
            Production::Relative { product, ratio } => {
                proof {
                    lemma_mul_u64_fits(population as int, ratio as int);
                }
                let q128 = population as u128 * ratio as u128 / SCALE as u128;
                let q = if q128 > u64::MAX as u128 {
                    u64::MAX
                } else {
                    q128 as u64
                };
                (product, q)
            },
            Production::Diminishing { product, multiple, diminish } => {
                let e = SCALE - diminish;
                let x = population + SCALE;
                let powx = pow_frac(x, e);
                let base128 = (powx - SCALE) as u128 * SCALE as u128 / e as u128;
                let base = if base128 > u64::MAX as u128 {
                    u64::MAX
                } else {
                    base128 as u64
                };
                proof {
                    lemma_mul_u64_fits(base as int, multiple as int);
                }
                let q128 = base as u128 * multiple as u128 / SCALE as u128;
                let q = if q128 > u64::MAX as u128 {
                    u64::MAX
                } else {
                    q128 as u64
                };
                (product, q)
            },
        }
    }
}

proof fn lemma_sqrt_floor_mono(a: int, b: int)
    requires
        0 <= a <= b,
    ensures
        0 <= sqrt_floor(a) <= sqrt_floor(b),
{
    lemma_sqrt_exists(a);
    lemma_sqrt_exists(b);
    let ra = sqrt_floor(a);
    let rb = sqrt_floor(b);
    assert(is_sqrt(a, ra) && is_sqrt(b, rb));
    assert(ra <= rb) by (nonlinear_arith)
        requires
            ra >= 0,
            rb >= 0,
            ra * ra <= a,
            a <= b,
            b < (rb + 1) * (rb + 1),
    ;
}

proof fn lemma_root_chain_mono(x: int, y: int, j: int)
    requires
        0 <= x <= y,
    ensures
        0 <= root_chain(x, j) <= root_chain(y, j),
    decreases j,
{
    if j > 0 {
        lemma_root_chain_mono(x, y, j - 1);
        lemma_sqrt_floor_mono(root_chain(x, j - 1) * SCALE, root_chain(y, j - 1) * SCALE);
    }
}

proof fn lemma_pow_acc_mono(x: int, y: int, e: int, j: int)
    requires
        0 <= x <= y,
    ensures
        0 <= pow_acc(x, e, j) <= pow_acc(y, e, j),
    decreases j,
{
    if j > 0 {
        lemma_pow_acc_mono(x, y, e, j - 1);
        if e / bit_weight(j) % 2 == 1 {
            lemma_root_chain_mono(x, y, j);
            let px = pow_acc(x, e, j - 1);
            let py = pow_acc(y, e, j - 1);
            let cx = root_chain(x, j);
            let cy = root_chain(y, j);
            assert(0 <= px * cx <= py * cy) by (nonlinear_arith)
                requires
                    0 <= px <= py,
                    0 <= cx <= cy,
            ;
            vstd::arithmetic::div_mod::lemma_div_is_ordered(px * cx, py * cy, SCALE as int);
            vstd::arithmetic::div_mod::lemma_div_pos_is_pos(px * cx, SCALE as int);
        }
    }
}

proof fn lemma_root_chain_bounds(x: int, j: int)
    requires
        x >= SCALE,
        j >= 1,
    ensures
        SCALE <= root_chain(x, j) <= x,
        root_chain(x, j) <= root_chain(x, j - 1),
        root_chain(x, j) * root_chain(x, j) <= root_chain(x, j - 1) * SCALE,
        SCALE <= root_chain(x, j - 1) <= x,
    decreases j,
{
    if j > 1 {
        lemma_root_chain_bounds(x, j - 1);
    }
    let prev = root_chain(x, j - 1);
    let r = root_chain(x, j);
    assert(prev * SCALE >= 0) by (nonlinear_arith)
        requires
            prev >= 0,
    ;
    lemma_sqrt_exists(prev * SCALE);
    assert(is_sqrt(prev * SCALE, r));
    assert(SCALE as int * SCALE as int <= prev * SCALE) by (nonlinear_arith)
        requires
            SCALE <= prev,
    ;
    assert(r >= SCALE) by (nonlinear_arith)
        requires
            prev * SCALE < (r + 1) * (r + 1),
            SCALE as int * SCALE as int <= prev * SCALE,
            r >= 0,
    ;
    assert(prev * SCALE <= prev * prev) by (nonlinear_arith)
        requires
            SCALE <= prev,
    ;
    assert(r <= prev) by (nonlinear_arith)
        requires
            r * r <= prev * prev,
            0 <= r,
            0 <= prev,
    ;
}

/// The budget invariant of the root-chain power: at every level the partial
/// product times the current chain value stays within `x * SCALE`, so the
/// finished power never exceeds `x` itself.
proof fn lemma_pow_acc_budget(x: int, e: int, j: int)
    requires
        x >= SCALE,
        j >= 0,
    ensures
        SCALE <= pow_acc(x, e, j),
        SCALE <= root_chain(x, j) <= x,
        pow_acc(x, e, j) * root_chain(x, j) <= x * SCALE,
    decreases j,
{
    if j == 0 {
        assert(pow_acc(x, e, 0) == SCALE as int);
        assert(root_chain(x, 0) == x);
        assert(SCALE as int * x <= x * SCALE as int) by (nonlinear_arith);
    } else {
        lemma_pow_acc_budget(x, e, j - 1);
        lemma_root_chain_bounds(x, j);
        let prev = pow_acc(x, e, j - 1);
        let sp = root_chain(x, j - 1);
        let sj = root_chain(x, j);
        if e / bit_weight(j) % 2 == 1 {
            let raw = prev * sj / SCALE as int;
            assert(prev * sj >= 0) by (nonlinear_arith)
                requires
                    prev >= 0,
                    sj >= 0,
            ;
            lemma_quotient_back(raw, prev * sj, SCALE as int);
            assert(prev * (SCALE as int) <= prev * sj) by (nonlinear_arith)
                requires
                    0 <= prev,
                    SCALE <= sj,
            ;
            vstd::arithmetic::div_mod::lemma_div_is_ordered(
                prev * SCALE,
                prev * sj,
                SCALE as int,
            );
            assert(prev * (SCALE as int) == (SCALE as int) * prev) by (nonlinear_arith);
            vstd::arithmetic::div_mod::lemma_div_multiples_vanish(prev, SCALE as int);
            assert(raw >= prev);
            // the budget survives the multiplication: raw * sj <= x * SCALE
            assert(raw * sj * SCALE <= prev * sj * sj) by (nonlinear_arith)
                requires
                    raw * SCALE as int <= prev * sj,
                    sj >= 0,
            ;
            assert(prev * sj * sj <= prev * sp * SCALE) by (nonlinear_arith)
                requires
                    sj * sj <= sp * SCALE as int,
                    prev >= 0,
            ;
            assert(prev * sp * SCALE <= x * SCALE * SCALE) by (nonlinear_arith)
                requires
                    prev * sp <= x * SCALE as int,
            ;
            assert(raw * sj <= x * SCALE) by (nonlinear_arith)
                requires
                    raw * sj * SCALE as int <= x * SCALE as int * SCALE as int,
                    SCALE > 0,
            ;
            if raw > u64::MAX {
                assert(cap_u64(raw) * sj <= raw * sj) by (nonlinear_arith)
                    requires
                        cap_u64(raw) <= raw,
                        sj >= 0,
                ;
            }
            assert(pow_acc(x, e, j) == cap_u64(raw));
            assert(pow_acc(x, e, j) * root_chain(x, j) <= x * SCALE);
        } else {
            assert(prev * sj <= prev * sp) by (nonlinear_arith)
                requires
                    sj <= sp,
                    prev >= 0,
            ;
        }
    }
}

/// Growth bound of the diminishing curve: the yield never exceeds the line
/// of slope `multiple / (1 - d)` through the origin — output is bounded by a
/// rule-determined multiple of population, however large the workforce.
pub proof fn lemma_diminishing_growth_bound(product: usize, multiple: u64, diminish: u64, pop: int)
    requires
        product < 2,
        0 < diminish < SCALE,
        pop >= 0,
    ensures
        produce_qty(Production::Diminishing { product, multiple, diminish }, pop) <= cap_u64(
            cap_u64(pop * SCALE / (SCALE - diminish) as int) * multiple / SCALE as int,
        ),
{
    let e = (SCALE - diminish) as int;
    let x = pop + SCALE;
    lemma_pow_acc_budget(x, e, 20);
    let powx = pow_acc(x, e, 20);
    // the budget with the final chain value at least one unit gives powx <= x
    assert(powx * SCALE <= powx * root_chain(x, 20)) by (nonlinear_arith)
        requires
            0 <= powx,
            SCALE <= root_chain(x, 20),
    ;
    assert(powx <= x) by (nonlinear_arith)
        requires
            powx * (SCALE as int) <= x * SCALE as int,
            SCALE > 0,
    ;
    // hence the base is under pop / (1 - d), and the yield under its line
    assert((powx - SCALE) * SCALE <= pop * SCALE) by (nonlinear_arith)
        requires
            powx - SCALE <= pop,
    ;
    vstd::arithmetic::div_mod::lemma_div_is_ordered((powx - SCALE) * SCALE, pop * SCALE, e);
    let base = if powx >= SCALE {
        cap_u64((powx - SCALE) * SCALE / e)
    } else {
        0int
    };
    assert(pop * SCALE >= 0) by (nonlinear_arith)
        requires
            pop >= 0,
    ;
    vstd::arithmetic::div_mod::lemma_div_pos_is_pos(pop * SCALE, e);
    assert(0 <= base <= cap_u64(pop * SCALE / e));
    assert(base * multiple <= cap_u64(pop * SCALE / e) * multiple) by (nonlinear_arith)
        requires
            0 <= base <= cap_u64(pop * SCALE / e),
            multiple >= 0,
    ;
    assert(0 <= base * multiple) by (nonlinear_arith)
        requires
            0 <= base,
            0 <= multiple,
    ;
    vstd::arithmetic::div_mod::lemma_div_is_ordered(
        base * multiple,
        cap_u64(pop * SCALE / e) * multiple,
        SCALE as int,
    );
    vstd::arithmetic::div_mod::lemma_div_pos_is_pos(base * multiple, SCALE as int);
}

/// The production rules are monotone in population: more workers never yield
/// less output. (Strict growth is false of a fixed-point evaluation: a small
/// enough increase can vanish in the rounding.)
pub proof fn lemma_produce_qty_monotone(pr: Production, pop1: int, pop2: int)
    requires
        pr.valid(),
        0 <= pop1 <= pop2,
    ensures
        produce_qty(pr, pop1) <= produce_qty(pr, pop2),
{
    match pr {
        Production::Idle => {},
        Production::Relative { product, ratio } => {
            assert(0 <= pop1 * ratio <= pop2 * ratio) by (nonlinear_arith)
                requires
                    0 <= pop1 <= pop2,
                    0 <= ratio,
            ;
            vstd::arithmetic::div_mod::lemma_div_is_ordered(
                pop1 * ratio,
                pop2 * ratio,
                SCALE as int,
            );
            vstd::arithmetic::div_mod::lemma_div_pos_is_pos(pop1 * ratio, SCALE as int);
        },
        Production::Diminishing { product, multiple, diminish } => {
            let e = (SCALE - diminish) as int;
            lemma_pow_acc_mono(pop1 + SCALE, pop2 + SCALE, e, 20);
            let p1 = pow_acc(pop1 + SCALE, e, 20);
            let p2 = pow_acc(pop2 + SCALE, e, 20);
            let base1 = if p1 >= SCALE {
                cap_u64((p1 - SCALE) * SCALE / e)
            } else {
                0int
            };
            let base2 = if p2 >= SCALE {
                cap_u64((p2 - SCALE) * SCALE / e)
            } else {
                0int
            };
            if p2 >= SCALE {
                assert(0 <= (p2 - SCALE) * SCALE) by (nonlinear_arith)
                    requires
                        p2 >= SCALE,
                ;
                vstd::arithmetic::div_mod::lemma_div_pos_is_pos((p2 - SCALE) * SCALE, e);
                if p1 >= SCALE {
                    vstd::arithmetic::div_mod::lemma_div_is_ordered(
                        (p1 - SCALE) * SCALE,
                        (p2 - SCALE) * SCALE,
                        e,
                    );
                }
            }
            assert(0 <= base1 <= base2);
            assert(0 <= base1 * multiple <= base2 * multiple) by (nonlinear_arith)
                requires
                    0 <= base1 <= base2,
                    0 <= multiple,
            ;
            vstd::arithmetic::div_mod::lemma_div_is_ordered(
                base1 * multiple,
                base2 * multiple,
                SCALE as int,
            );
            vstd::arithmetic::div_mod::lemma_div_pos_is_pos(base1 * multiple, SCALE as int);
        },
    }
}

/// A producer after one production step: the produced quantity is added to
/// the rule's target inventory slot.
pub open spec fn apply_production(p: Producer) -> Producer {
    let t = p.production.target();
    with_product(p, t, (p.product_of(t) + produce_qty(p.production, p.population as int)) as u64)
}

/// The whole producer collection after one production step.
pub open spec fn produced_seq(s: Seq<Producer>) -> Seq<Producer> {
    Seq::new(s.len(), |i: int| apply_production(s[i]))
}

/// Total quantity of product `t` produced by the first `n` producers.
pub open spec fn sum_qty(s: Seq<Producer>, t: int, n: int) -> int
    decreases n,
{
    if n <= 0 {
        0
    } else {
        sum_qty(s, t, n - 1) + if s[n - 1].production.target() == t {
            produce_qty(s[n - 1].production, s[n - 1].population as int)
        } else {
            0int
        }
    }
}

/// This step's production would push an inventory total past its cap.
pub open spec fn production_overflows(s: Seq<Producer>, n: int) -> bool {
    ||| sum_product(s, 0, n) + sum_qty(s, 0, n) > PROD_CAP
    ||| sum_product(s, 1, n) + sum_qty(s, 1, n) > PROD_CAP
}

proof fn lemma_produce_qty_bounds(pr: Production, pop: int)
    requires
        pop >= 0,
        pr.valid(),
    ensures
        0 <= produce_qty(pr, pop) <= u64::MAX,
{
    match pr {
        Production::Idle => {},
        Production::Relative { product, ratio } => {
            assert(0 <= pop * ratio) by (nonlinear_arith)
                requires
                    0 <= pop,
                    0 <= ratio,
            ;
            vstd::arithmetic::div_mod::lemma_div_pos_is_pos(pop * ratio, SCALE as int);
        },
        Production::Diminishing { product, multiple, diminish } => {
            let e = SCALE - diminish;
            let powx = pow_acc(pop + SCALE, e as int, 20);
            if powx >= SCALE {
                assert(0 <= (powx - SCALE) * SCALE) by (nonlinear_arith)
                    requires
                        powx >= SCALE,
                ;
                vstd::arithmetic::div_mod::lemma_div_pos_is_pos((powx - SCALE) * SCALE, e as int);
            }
            let base = if powx >= SCALE {
                cap_u64((powx - SCALE) * SCALE / e as int)
            } else {
                0int
            };
            assert(0 <= base * multiple) by (nonlinear_arith)
                requires
                    0 <= base,
                    0 <= multiple,
            ;
            vstd::arithmetic::div_mod::lemma_div_pos_is_pos(base * multiple, SCALE as int);
        },
    }
}

proof fn lemma_sum_qty_nonneg(s: Seq<Producer>, t: int, n: int)
    requires
        forall|i: int| 0 <= i < n ==> (#[trigger] s[i]).production.valid(),
    ensures
        0 <= sum_qty(s, t, n),
    decreases n,
{
    if n > 0 {
        lemma_sum_qty_nonneg(s, t, n - 1);
        lemma_produce_qty_bounds(s[n - 1].production, s[n - 1].population as int);
    }
}

proof fn lemma_sum_qty_mono(s: Seq<Producer>, t: int, m: int, n: int)
    requires
        0 <= m <= n,
        forall|i: int| 0 <= i < n ==> (#[trigger] s[i]).production.valid(),
    ensures
        sum_qty(s, t, m) <= sum_qty(s, t, n),
    decreases n,
{
    if m < n {
        lemma_sum_qty_mono(s, t, m, n - 1);
        lemma_produce_qty_bounds(s[n - 1].production, s[n - 1].population as int);
    }
}

impl Economy {
    /// Production: every producer's rule runs once against its current
    /// population and the yield is added to the rule's target inventory.
    /// If the step would push an inventory total past its cap — a machine
    /// limit, not an economic rule — the step is refused and nothing changes.
    #[verifier::loop_isolation(false)]
    pub fn produce_all(&mut self) -> (r: Result<(), SimError>)
        requires
            old(self).wf(),
        ensures
            final(self).wf(),
            final(self).producers@.len() == old(self).n(),
            r is Ok <==> !production_overflows(old(self).producers@, old(self).n()),
            r is Err ==> final(self).producers@ == old(self).producers@,
            r is Ok ==> final(self).producers@ == produced_seq(old(self).producers@),
            r is Ok ==> forall|i: int|
                0 <= i < old(self).n() ==> final(self).producers@[i] == apply_production(
                    old(self).producers@[i],
                ),
            sum_gold(final(self).producers@, old(self).n()) == sum_gold(
                old(self).producers@,
                old(self).n(),
            ),
            sum_pop(final(self).producers@, old(self).n()) == sum_pop(
                old(self).producers@,
                old(self).n(),
            ),
            final(self).names@ == old(self).names@,
            final(self).price_food == old(self).price_food,
            final(self).price_goods == old(self).price_goods,
    {
        let ghost s0 = self.producers@;
        let ghost nn = self.n();
        let n = self.producers.len();

        // total the would-be yields per product type
        let mut a0: u128 = 0;
        let mut a1: u128 = 0;
        let mut i: usize = 0;
        while i < n
            invariant
                i <= n,
                a0 as int == sum_qty(s0, 0, i as int),
                a1 as int == sum_qty(s0, 1, i as int),
                a0 <= i as int * 0xffff_ffff_ffff_ffffu64 as int,
                a1 <= i as int * 0xffff_ffff_ffff_ffffu64 as int,
            decreases n - i,
        {
            let p = self.producers[i];
            proof {
                lemma_sum_pop_element(s0, i as int, nn);
            }
            let (tg, q) = p.production.produce(p.population);
            if tg == 0 {
                a0 = a0 + q as u128;
            } else {
                a1 = a1 + q as u128;
            }
            i = i + 1;
        }
        let have0 = crate::economy::total_product_wide(&self.producers, 0);
        let have1 = crate::economy::total_product_wide(&self.producers, 1);
        if have0 + a0 > PROD_CAP as u128 || have1 + a1 > PROD_CAP as u128 {
            return Err(SimError::ProductionOverflow);
        }

        // apply the yields
        let mut i: usize = 0;
        while i < n
            invariant
                i <= n,
                self.producers@.len() == n,
                sum_product(self.producers@, 0, nn) == sum_product(s0, 0, nn) + sum_qty(
                    s0,
                    0,
                    i as int,
                ),
                sum_product(self.producers@, 1, nn) == sum_product(s0, 1, nn) + sum_qty(
                    s0,
                    1,
                    i as int,
                ),
                sum_gold(self.producers@, nn) == sum_gold(s0, nn),
                sum_pop(self.producers@, nn) == sum_pop(s0, nn),
                forall|j: int|
                    0 <= j < i ==> #[trigger] self.producers@[j] == apply_production(s0[j]),
                forall|j: int| i <= j < n ==> self.producers@[j] == s0[j],
                self.names@ == old(self).names@,
                self.price_food == old(self).price_food,
                self.price_goods == old(self).price_goods,
            decreases n - i,
        {
            let ghost before = self.producers@;
            let p = self.producers[i];
            proof {
                lemma_sum_pop_element(s0, i as int, nn);
                lemma_sum_qty_mono(s0, 0, i as int + 1, nn);
                lemma_sum_qty_mono(s0, 1, i as int + 1, nn);
                lemma_sum_qty_nonneg(s0, 0, i as int);
                lemma_sum_qty_nonneg(s0, 1, i as int);
                lemma_produce_qty_bounds(p.production, p.population as int);
                lemma_sum_product_element(self.producers@, 0, i as int, nn);
                lemma_sum_product_element(self.producers@, 1, i as int, nn);
            }
            let (tg, q) = p.production.produce(p.population);
            let qp = &mut self.producers[i];
            if tg == 0 {
                qp.food = qp.food + q;
            } else {
                qp.goods = qp.goods + q;
            }
            proof {
                let cur = self.producers@[i as int];
                assert(cur == apply_production(s0[i as int]));
                lemma_sum_gold_update(before, i as int, cur, nn);
                lemma_sum_pop_update(before, i as int, cur, nn);
                lemma_sum_product_update(before, 0, i as int, cur, nn);
                lemma_sum_product_update(before, 1, i as int, cur, nn);
            }
            i = i + 1;
        }
        proof {
            assert(self.producers@ =~= produced_seq(s0));
        }
        Ok(())
    }
}

} // verus!
