use economy_sim::economy::Economy;
use economy_sim::fixed::{POP_CAP, SCALE};
use economy_sim::producer::{Producer, Production};
use economy_sim::production::SimError;

const S: u64 = SCALE;

fn two_producer_economy() -> Economy {
    // producer A makes food at ratio 1.1, producer B goods at ratio 1.05
    // (fixed-point, floored); both start at population 20, gold 1000,
    // empty inventories.
    let a = Producer::new(
        20 * S,
        1000 * S,
        S,
        S,
        Production::Relative { product: 0, ratio: 11 * S / 10 },
    );
    let b = Producer::new(
        20 * S,
        1000 * S,
        S,
        S,
        Production::Relative { product: 1, ratio: 105 * S / 100 },
    );
    Economy::new(vec![a, b], vec!["food maker".to_string(), "goods maker".to_string()]).unwrap()
}

#[test]
fn two_producer_step_conserves_gold_and_depletes_inventories() {
    let mut e = two_producer_economy();
    let produced_a = 20 * (11 * S / 10);
    let produced_b = 20 * (105 * S / 100);
    assert_eq!(e.step(), Ok(()));
    // trade is zero-sum: total gold is unchanged by the whole step
    // (taxation moved some of it to producer 0)
    let total_gold: u64 = e.producers.iter().map(|p| p.gold).sum();
    assert_eq!(total_gold, 2000 * S);
    let total_pop: u64 = e.producers.iter().map(|p| p.population).sum();
    assert_eq!(total_pop, 40 * S);
    // each inventory partially depleted through consumption
    assert!(e.producers[0].food > 0 && e.producers[0].food < produced_a);
    assert!(e.producers[1].goods > 0 && e.producers[1].goods < produced_b);
}

#[test]
fn two_producer_step_exact_state() {
    let mut e = two_producer_economy();
    assert_eq!(e.step(), Ok(()));
    // both producers hold exactly average gold, so the seller set is empty
    // and no trade executes: prices stay at their initial one unit
    assert_eq!(e.prices(), (S, S));
    // producer A eats its population's worth of its 22-unit harvest
    assert_eq!(e.producers[0].food, 20 * (11 * S / 10) - 20 * S);
    assert_eq!(e.producers[0].goods, 0);
    // producer B has no food at all, so its happiness is zero
    assert_eq!(e.producers[1].happiness, 0);
    assert_eq!(e.producers[1].food, 0);
    assert_eq!(e.producers[1].goods, 20 * (105 * S / 100) - 20 * S);
    // taxation: B pays a fifth of 1000 gold to A
    assert_eq!(e.producers[0].gold, 1000 * S + 1000 * S / 5);
    assert_eq!(e.producers[1].gold, 1000 * S - 1000 * S / 5);
    // migration: a tenth of the happiness gap moved from B to A
    let h0 = e.producers[0].happiness;
    assert_eq!(e.producers[0].population, 20 * S + h0 / 10);
    assert_eq!(e.producers[1].population, 20 * S - h0 / 10);
}

#[test]
fn single_producer_trades_nothing() {
    // degenerate economy: with one producer there is never a distinct buyer
    // and seller, so prices stay put and no gold moves; migration and
    // taxation are no-ops for the sole, privileged producer
    let a = Producer::new(20 * S, 1000 * S, S, S, Production::Relative {
        product: 0,
        ratio: 2 * S,
    });
    let mut e = Economy::new(vec![a], vec!["alone".to_string()]).unwrap();
    for _ in 0..5 {
        assert_eq!(e.step(), Ok(()));
        assert_eq!(e.prices(), (S, S));
        assert_eq!(e.producers[0].gold, 1000 * S);
        assert_eq!(e.producers[0].population, 20 * S);
    }
    // only consumption acted: production exceeds need, inventory grows
    assert!(e.producers[0].food > 0);
}

#[test]
fn repeated_runs_are_bit_identical() {
    // the engine is pure integer arithmetic: same parameters, same outputs
    let mut e1 = two_producer_economy();
    let mut e2 = two_producer_economy();
    for _ in 0..25 {
        assert_eq!(e1.step(), Ok(()));
        assert_eq!(e2.step(), Ok(()));
        assert_eq!(e1.populations(), e2.populations());
        assert_eq!(e1.prices(), e2.prices());
        assert_eq!(e1.producers, e2.producers);
    }
}

#[test]
fn run_executes_the_requested_steps() {
    let mut stepped = two_producer_economy();
    for _ in 0..10 {
        assert_eq!(stepped.step(), Ok(()));
    }
    let mut ran = two_producer_economy();
    assert_eq!(ran.run(10), Ok(()));
    assert_eq!(ran.producers, stepped.producers);
    assert_eq!(ran.prices(), stepped.prices());
}

#[test]
fn longer_runs_keep_every_invariant() {
    let mut e = two_producer_economy();
    assert_eq!(e.run(500), Ok(()));
    let total_gold: u64 = e.producers.iter().map(|p| p.gold).sum();
    let total_pop: u64 = e.producers.iter().map(|p| p.population).sum();
    assert_eq!(total_gold, 2000 * S);
    assert_eq!(total_pop, 40 * S);
    for p in &e.producers {
        assert!(p.population >= S / 10);
        assert!(p.happiness <= (S + S / 2) * 101 / 100);
    }
}

#[test]
fn production_overflow_is_refused_and_harmless() {
    // a rule so productive it would blow past the inventory cap: the step
    // reports the machine limit and leaves the economy untouched
    let a = Producer::new(POP_CAP / 2, 1000, S, S, Production::Relative {
        product: 0,
        ratio: u64::MAX,
    });
    let mut e = Economy::new(vec![a], vec!["gusher".to_string()]).unwrap();
    assert_eq!(e.step(), Err(SimError::ProductionOverflow));
    assert_eq!(e.producers[0].gold, 1000);
    assert_eq!(e.producers[0].food, 0);
    assert_eq!(e.producers[0].population, POP_CAP / 2);
}

#[test]
fn economy_new_rejects_bad_initial_data() {
    // no producers at all
    assert!(Economy::new(vec![], vec![]).is_none());
    // name count mismatch
    let a = Producer::new(S, S, S, S, Production::Idle);
    assert!(Economy::new(vec![a], vec![]).is_none());
    // a production rule aimed at a product slot that does not exist
    let bad = Producer::new(S, S, S, S, Production::Relative { product: 7, ratio: S });
    assert!(Economy::new(vec![bad], vec!["x".to_string()]).is_none());
    // a diminishing exponent outside the open unit interval
    let bad2 = Producer::new(S, S, S, S, Production::Diminishing {
        product: 0,
        multiple: S,
        diminish: S,
    });
    assert!(Economy::new(vec![bad2], vec!["x".to_string()]).is_none());
    // total gold past the cap
    let rich = Producer::new(S, u64::MAX, S, S, Production::Idle);
    assert!(Economy::new(vec![rich], vec!["x".to_string()]).is_none());
}

#[test]
fn economy_new_accepts_and_reports_initial_state() {
    let e = two_producer_economy();
    assert_eq!(e.names.len(), 2);
    assert_eq!(e.names[0], "food maker");
    assert_eq!(e.populations(), vec![20 * S, 20 * S]);
    assert_eq!(e.prices(), (S, S));
}
