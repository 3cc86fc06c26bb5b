use economy_sim::economy::Economy;
use economy_sim::fixed::SCALE;
use economy_sim::producer::{Producer, Production};

const S: u64 = SCALE;

fn plain(population: u64, gold: u64, food: u64, goods: u64) -> Producer {
    let mut p = Producer::new(population, gold, S, S, Production::Idle);
    p.food = food;
    p.goods = goods;
    p
}

fn economy_of(producers: Vec<Producer>) -> Economy {
    let names = (0..producers.len()).map(|i| format!("producer {}", i)).collect();
    Economy::new(producers, names).unwrap()
}

#[test]
fn clearing_moves_goods_to_the_buyer_at_the_uniform_price() {
    // seller: above-target inventory and above-average gold;
    // buyer: below-target inventory
    let seller = plain(S, 100, 300_000_000, 0);
    let buyer = plain(S, 60, 0, 0);
    let mut e = economy_of(vec![seller, buyer]);
    let needed: u64 = 100_000_000;
    let average_gold: u64 = 50;
    e.trade_type(0, needed, average_gold);
    // offered_res = 200_000_000, offered_gold = 60;
    // the buyer buys min(60 * R / G, needed) = needed at cost 30;
    // the seller hands over exactly what was bought and earns the payment
    assert_eq!(e.producers[1].food, 100_000_000);
    assert_eq!(e.producers[1].gold, 30);
    assert_eq!(e.producers[0].food, 200_000_000);
    assert_eq!(e.producers[0].gold, 130);
    // price = G * SCALE / R, floored
    assert_eq!(e.price_food, 60 * S / 200_000_000);
    assert_eq!(e.price_goods, S);
}

#[test]
fn clearing_conserves_gold_and_inventory() {
    let a = plain(S, 7_777, 250_000_000, 12_345);
    let b = plain(S, 60, 3, 999);
    let c = plain(S, 1_000_000, 500_000_000, 0);
    let mut e = economy_of(vec![a, b, c]);
    let gold_before: u64 = e.producers.iter().map(|p| p.gold).sum();
    let food_before: u64 = e.producers.iter().map(|p| p.food).sum();
    let goods_before: u64 = e.producers.iter().map(|p| p.goods).sum();
    e.trade_type(0, 100_000_000, 5_000);
    e.trade_type(1, 5_000, 5_000);
    let gold_after: u64 = e.producers.iter().map(|p| p.gold).sum();
    let food_after: u64 = e.producers.iter().map(|p| p.food).sum();
    let goods_after: u64 = e.producers.iter().map(|p| p.goods).sum();
    assert_eq!(gold_before, gold_after);
    assert_eq!(food_before, food_after);
    assert_eq!(goods_before, goods_after);
}

#[test]
fn clearing_skips_without_sellers() {
    // nobody holds both above-target inventory and above-average gold
    let a = plain(S, 10, 300_000_000, 0);
    let b = plain(S, 60, 0, 0);
    let mut e = economy_of(vec![a, b]);
    e.trade_type(0, 100_000_000, 50);
    assert_eq!(e.producers[0].food, 300_000_000);
    assert_eq!(e.producers[1].food, 0);
    assert_eq!(e.producers[1].gold, 60);
    assert_eq!(e.price_food, S);
}

#[test]
fn clearing_skips_tiny_offers() {
    // the offered surplus is at most 0.1 units, so no trade executes
    let seller = plain(S, 100, S / 20 + 10, 0);
    let buyer = plain(S, 60, 0, 0);
    let mut e = economy_of(vec![seller, buyer]);
    e.trade_type(0, 10, 50);
    assert_eq!(e.producers[0].food, S / 20 + 10);
    assert_eq!(e.producers[1].food, 0);
    assert_eq!(e.price_food, S);
}

#[test]
fn clearing_skips_penniless_buyers() {
    let seller = plain(S, 100, 300_000_000, 0);
    let buyer = plain(S, 0, 0, 0);
    let mut e = economy_of(vec![seller, buyer]);
    e.trade_type(0, 100_000_000, 50);
    assert_eq!(e.producers[0].food, 300_000_000);
    assert_eq!(e.producers[1].food, 0);
    assert_eq!(e.price_food, S);
}

#[test]
fn taxation_is_a_zero_sum_fifth() {
    let a = plain(20 * S, 1000 * S, 0, 0);
    let b = plain(20 * S, 1000 * S, 0, 0);
    let mut e = economy_of(vec![a, b]);
    e.tax_all();
    assert_eq!(e.producers[1].gold, 1000 * S - 1000 * S / 5);
    assert_eq!(e.producers[0].gold, 1000 * S + 1000 * S / 5);
    assert_eq!(e.producers[0].gold + e.producers[1].gold, 2000 * S);
}

#[test]
fn consumption_ratios_and_happiness_exact() {
    // index 0: fully satisfied, earns the bonus: (1 + 0.5) * 1.01
    let mut a = plain(S, 0, 2 * S, 3 * S);
    a.usage_food = S;
    a.usage_goods = S;
    // index 1: half the food it needs, no goods: happiness = 0.5
    let b = plain(S, 0, S / 2, 0);
    let mut e = economy_of(vec![a, b]);
    e.consume_all();
    assert_eq!(e.producers[0].food, S);
    assert_eq!(e.producers[0].goods, 2 * S);
    assert_eq!(e.producers[0].happiness, (S + S / 2) * 101 / 100);
    assert_eq!(e.producers[1].food, 0);
    assert_eq!(e.producers[1].goods, 0);
    assert_eq!(e.producers[1].happiness, S / 2);
}

#[test]
fn consumption_with_zero_need_counts_as_satisfied() {
    // zero population means zero need; the ratio policy says fully satisfied
    let mut a = plain(0, 0, 0, 0);
    a.population = 0;
    let b = plain(S, 0, 0, 0);
    let mut e = economy_of(vec![a, b]);
    e.consume_all();
    // fr = gr = 1, so happiness = 1.5, scaled by the index-0 bonus
    assert_eq!(e.producers[0].happiness, (S + S / 2) * 101 / 100);
    assert_eq!(e.producers[1].happiness, 0);
}

#[test]
fn migration_moves_a_tenth_of_the_happiness_gap() {
    let mut a = plain(20 * S, 0, 0, 0);
    a.happiness = 0;
    let mut b = plain(20 * S, 0, 0, 0);
    b.happiness = S;
    let mut e = economy_of(vec![a, b]);
    e.migrate_all();
    let delta = S / 10;
    assert_eq!(e.producers[0].population, 20 * S - delta);
    assert_eq!(e.producers[1].population, 20 * S + delta);
}

#[test]
fn migration_raises_a_source_from_below_the_floor() {
    // a source below the floor is lifted to it out of the happier producer
    let floor = S / 10;
    let mut a = plain(floor / 2, 0, 0, 0);
    a.happiness = 0;
    let mut b = plain(20 * S, 0, 0, 0);
    b.happiness = S;
    let mut e = economy_of(vec![a, b]);
    e.migrate_all();
    assert_eq!(e.producers[0].population, floor);
    assert_eq!(e.producers[1].population, 20 * S - (floor - floor / 2));
}

#[test]
fn migration_respects_the_population_floor() {
    let floor = S / 10;
    let mut a = plain(floor, 0, 0, 0);
    a.happiness = 0;
    let mut b = plain(20 * S, 0, 0, 0);
    b.happiness = S;
    let mut e = economy_of(vec![a, b]);
    e.migrate_all();
    // the source already sits at the floor: nothing moves
    assert_eq!(e.producers[0].population, floor);
    assert_eq!(e.producers[1].population, 20 * S);
}
