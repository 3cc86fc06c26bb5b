//! A small closed economy of producer agents. Producers manufacture goods,
//! trade them through a uniform-price market-clearing rule, consume them to
//! derive happiness, migrate population toward happier producers, and pay a
//! flat tax to the privileged producer at index 0, over a fixed number of
//! discrete steps.
//!
//! Every quantity (population, gold, inventory, price, happiness) is a binary
//! fixed-point number: an integer count of `1/SCALE` units (see [`fixed`]).
//! All arithmetic is exact integer arithmetic, so a run is deterministic, and
//! the conservation and bound properties of the engine are proved rather than
//! sampled: gold is conserved by trading and taxation, inventories are
//! conserved by trading, balances never go negative, happiness stays within
//! its bound, and migration never pushes a population below its floor.

pub mod arith;
pub mod consumption;
pub mod economy;
pub mod engine;
pub mod fixed;
pub mod market;
pub mod migration;
pub mod producer;
pub mod production;
pub mod sums;
