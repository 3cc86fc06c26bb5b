use vstd::prelude::*;

verus! {

/// One whole unit. Every quantity in the engine is a binary fixed-point
/// number: an integer count of `1/SCALE` units, with 20 fractional bits.
pub const SCALE: u64 = 0x10_0000;

/// Number of fractional bits behind [`SCALE`].
pub const FRAC_BITS: u64 = 20;

/// Cap on the total gold of an economy. Far above any realistic run; it
/// exists so that every intermediate sum provably fits in a machine integer.
pub const GOLD_CAP: u64 = 0x1000_0000_0000_0000;

/// Cap on the total population of an economy.
pub const POP_CAP: u64 = 0x1000_0000_0000_0000;

/// Cap on the total inventory of one product type across the economy.
pub const PROD_CAP: u64 = 0x1000_0000_0000_0000;

/// Cap on the number of producers.
pub const COUNT_CAP: usize = 0x1000_0000;

/// Population floor: migration never pushes a producer below 0.1 units.
pub const POP_FLOOR: u64 = SCALE / 10;

/// Flat tax: one fifth (0.2) of each non-privileged producer's gold.
pub const TAX_DIVISOR: u64 = 5;

/// Happiness bonus of the privileged producer at index 0: a factor of
/// `BONUS_NUM / BONUS_DEN` (1.01).
pub const BONUS_NUM: u64 = 101;

/// Denominator of the happiness bonus factor.
pub const BONUS_DEN: u64 = 100;

/// Largest possible happiness value: 1.5 scaled by the 1.01 bonus.
pub const HAPPINESS_CAP: u64 = (SCALE + SCALE / 2) * BONUS_NUM / BONUS_DEN;

/// A clearing round is skipped when sellers offer no more than 0.1 units.
pub const MIN_OFFER: u64 = SCALE / 10;

/// Migration damping: one tenth of the happiness difference moves.
pub const MIGRATION_DIVISOR: u64 = 10;

/// Number of market-clearing rounds per simulation step.
pub const TRADE_ROUNDS: u64 = 4;

} // verus!
