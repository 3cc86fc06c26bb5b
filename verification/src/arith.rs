use vstd::prelude::*;
use vstd::arithmetic::div_mod::{
    lemma_div_is_ordered, lemma_div_multiples_vanish, lemma_div_pos_is_pos,
    lemma_fundamental_div_mod, lemma_hoist_over_denominator, lemma_mod_division_less_than_divisor,
};

verus! {

/// The product of two values that fit in 64 bits fits in 128 bits.
pub proof fn lemma_mul_u64_fits(a: int, b: int)
    requires
        0 <= a <= 0xffff_ffff_ffff_ffff,
        0 <= b <= 0xffff_ffff_ffff_ffff,
    ensures
        0 <= a * b <= 0xffff_ffff_ffff_ffff_ffff_ffff_ffff_ffff,
{
    assert(a * b <= 0xffff_ffff_ffff_ffff * 0xffff_ffff_ffff_ffff) by (nonlinear_arith)
        requires
            0 <= a <= 0xffff_ffff_ffff_ffff,
            0 <= b <= 0xffff_ffff_ffff_ffff,
    ;
    assert(0 <= a * b) by (nonlinear_arith)
        requires
            0 <= a,
            0 <= b,
    ;
}

/// A fraction `a / b` of `s` with `a <= b` is at most `s`.
pub proof fn lemma_frac_le_whole(a: int, b: int, s: int)
    requires
        0 <= a <= b,
        0 < b,
        0 <= s,
    ensures
        0 <= a * s / b <= s,
{
    assert(0 <= a * s <= b * s) by (nonlinear_arith)
        requires
            0 <= a <= b,
            0 <= s,
    ;
    lemma_div_is_ordered(a * s, b * s, b);
    assert(b * s / b == s) by {
        lemma_div_multiples_vanish(s, b);
    }
    lemma_div_pos_is_pos(a * s, b);
}

/// Multiplying a quotient back: `q <= a / b` implies `q * b <= a`.
pub proof fn lemma_quotient_back(q: int, a: int, b: int)
    requires
        0 < b,
        0 <= a,
        0 <= q,
        q <= a / b,
    ensures
        q * b <= a,
{
    lemma_fundamental_div_mod(a, b);
    lemma_mod_division_less_than_divisor(a, b);
    assert(q * b <= (a / b) * b) by (nonlinear_arith)
        requires
            0 <= q <= a / b,
            0 < b,
    ;
    assert((a / b) * b == b * (a / b)) by (nonlinear_arith);
}

/// Ceiling division stays under `g` when `a <= g * b`.
pub proof fn lemma_ceil_le(a: int, b: int, g: int)
    requires
        0 < b,
        0 <= a,
        0 <= g,
        a <= g * b,
    ensures
        (a + b - 1) / b <= g,
{
    lemma_div_is_ordered(a + b - 1, g * b + b - 1, b);
    lemma_hoist_over_denominator(b - 1, g, b as nat);
    assert((b - 1) / b == 0) by {
        lemma_fundamental_div_mod(b - 1, b);
        lemma_mod_division_less_than_divisor(b - 1, b);
        assert(b * ((b - 1) / b) == b - 1 - (b - 1) % b);
        assert(0 <= b - 1 - (b - 1) % b < b);
        assert((b - 1) / b == 0) by (nonlinear_arith)
            requires
                0 < b,
                0 <= b * ((b - 1) / b) < b,
        ;
    }
}

/// Distributing `b` out of `r` pro rata: the floor-difference assigned to a
/// segment of width `off` is between 0 and `off` whenever `b <= r`.
pub proof fn lemma_prorata_diff(c: int, off: int, b: int, r: int)
    requires
        0 <= c,
        0 <= off,
        0 <= b <= r,
        0 < r,
    ensures
        0 <= (c + off) * b / r - c * b / r,
        (c + off) * b / r - c * b / r <= off,
{
    assert(c * b <= (c + off) * b) by (nonlinear_arith)
        requires
            0 <= c,
            0 <= off,
            0 <= b,
    ;
    lemma_div_is_ordered(c * b, (c + off) * b, r);
    assert((c + off) * b <= c * b + off * r) by (nonlinear_arith)
        requires
            0 <= off,
            b <= r,
    ;
    lemma_div_is_ordered((c + off) * b, c * b + off * r, r);
    lemma_hoist_over_denominator(c * b, off, r as nat);
}

} // verus!
