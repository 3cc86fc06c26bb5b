use vstd::prelude::*;
use crate::fixed::SCALE;

verus! {

/// A production rule: a pure function from population to a quantity of one
/// product type. The three variants form a closed set; the diminishing
/// variant is a concave curve `((population + 1)^(1 - d) - 1) / (1 - d) * m`
/// evaluated in fixed point (see [`crate::production`]).
#[derive(Clone, Copy, Debug, PartialEq, Eq, Structural)]
pub enum Production {
    /// Produces nothing.
    Idle,
    /// Produces `population * ratio` units of product `product`.
    Relative { product: usize, ratio: u64 },
    /// Diminishing-returns curve with precomputed fixed-point constants
    /// `multiple` (the scale factor `m`) and `diminish` (the exponent `d`,
    /// a proper fraction: `0 < diminish < SCALE`).
    Diminishing { product: usize, multiple: u64, diminish: u64 },
}

impl Production {
    /// The parameters lie in the rule's domain: the target product slot
    /// exists and a diminishing exponent is a proper fraction.
    pub open spec fn valid(self) -> bool {
        match self {
            Production::Idle => true,
            Production::Relative { product, ratio } => product < 2,
            Production::Diminishing { product, multiple, diminish } => {
                product < 2 && 0 < diminish < SCALE
            },
        }
    }

    /// Runtime check of [`Production::valid`].
    pub fn is_valid(&self) -> (r: bool)
        ensures
            r == self.valid(),
    {
        match *self {
            Production::Idle => true,
            Production::Relative { product, .. } => product < 2,
            Production::Diminishing { product, diminish, .. } => {
                product < 2 && 0 < diminish && diminish < SCALE
            },
        }
    }

    /// Index of the product slot this rule fills.
    pub open spec fn target(self) -> int {
        match self {
            Production::Idle => 0,
            Production::Relative { product, ratio } => product as int,
            Production::Diminishing { product, multiple, diminish } => product as int,
        }
    }
}

/// One economic agent: population, gold, happiness, the two product
/// inventories (food and goods), the per-capita consumption requirement for
/// each product, and a production rule. All quantities are fixed-point
/// numbers in `1/SCALE` units and thus never negative.
#[derive(Clone, Copy, Debug, PartialEq, Eq, Structural)]
pub struct Producer {
    pub population: u64,
    pub gold: u64,
    pub happiness: u64,
    pub food: u64,
    pub goods: u64,
    pub usage_food: u64,
    pub usage_goods: u64,
    pub production: Production,
}

impl Producer {
    /// Inventory of product `t` (0 food, 1 goods).
    pub open spec fn product_of(self, t: int) -> u64 {
        if t == 0 {
            self.food
        } else {
            self.goods
        }
    }

    /// Per-capita consumption requirement for product `t`.
    pub open spec fn usage_of(self, t: int) -> u64 {
        if t == 0 {
            self.usage_food
        } else {
            self.usage_goods
        }
    }

    /// A fresh producer with empty inventories and zero happiness.
    pub fn new(
        population: u64,
        gold: u64,
        usage_food: u64,
        usage_goods: u64,
        production: Production,
    ) -> (r: Producer)
        ensures
            r == (Producer {
                population,
                gold,
                happiness: 0,
                food: 0,
                goods: 0,
                usage_food,
                usage_goods,
                production,
            }),
    {
        Producer {
            population,
            gold,
            happiness: 0,
            food: 0,
            goods: 0,
            usage_food,
            usage_goods,
            production,
        }
    }

    /// Inventory of product `t` (0 food, 1 goods).
    pub fn product(&self, t: usize) -> (r: u64)
        requires
            t < 2,
        ensures
            r == self.product_of(t as int),
    {
        if t == 0 {
            self.food
        } else {
            self.goods
        }
    }
}

} // verus!
