use economy_sim::fixed::{HAPPINESS_CAP, SCALE};
use economy_sim::producer::{Producer, Production};

const S: u64 = SCALE;

#[test]
fn idle_produces_nothing() {
    let p = Production::Idle;
    assert_eq!(p.produce(20 * S), (0, 0));
}

#[test]
fn relative_production_is_population_times_ratio() {
    // ratio 1.1 in fixed point (floored): population 20 yields 20 * ratio
    let ratio: u64 = 1153433;
    let p = Production::Relative { product: 0, ratio };
    assert_eq!(p.produce(20 * S), (0, 20 * ratio));
}

#[test]
fn relative_production_at_zero_population() {
    let p = Production::Relative { product: 1, ratio: 3 * S };
    assert_eq!(p.produce(0), (1, 0));
}

#[test]
fn diminishing_square_root_curve_exact() {
    // d = 0.5, m = 1: quantity = ((pop + 1)^0.5 - 1) / 0.5.
    // At pop = 3: (sqrt(4) - 1) * 2 = 2, exactly representable.
    let p = Production::Diminishing { product: 1, multiple: S, diminish: S / 2 };
    assert_eq!(p.produce(3 * S), (1, 2 * S));
}

#[test]
fn diminishing_yields_zero_at_zero_population() {
    // (1^e - 1) / e * m == 0 for every exponent and multiple
    let p = Production::Diminishing { product: 0, multiple: 2 * S, diminish: S / 4 };
    assert_eq!(p.produce(0), (0, 0));
}

#[test]
fn diminishing_grows_sublinearly() {
    let p = Production::Diminishing { product: 0, multiple: 2 * S, diminish: S / 2 };
    let (_, q1) = p.produce(10 * S);
    let (_, q4) = p.produce(40 * S);
    assert!(q1 > 0);
    // four times the population yields well under four times the output
    assert!(q4 < 4 * q1);
    assert!(q4 > q1);
}

#[test]
fn producer_new_starts_empty() {
    let p = Producer::new(20 * S, 1000 * S, S, S, Production::Idle);
    assert_eq!(p.population, 20 * S);
    assert_eq!(p.gold, 1000 * S);
    assert_eq!(p.happiness, 0);
    assert_eq!(p.food, 0);
    assert_eq!(p.goods, 0);
}

#[test]
fn happiness_cap_is_one_and_a_half_with_bonus() {
    // 1.5 * 1.01 in fixed point, floored
    assert_eq!(HAPPINESS_CAP, (S + S / 2) * 101 / 100);
    assert_eq!(HAPPINESS_CAP, 1588592);
}
