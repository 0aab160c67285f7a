use cosmic_library::cascade::{FitnessCascade, Stage};

/// Feeds gate outcomes to a fresh cascade; returns the final state and the
/// weights of the scores that entered the fitness.
fn drive(gates: &[bool]) -> (FitnessCascade, Vec<u8>) {
    let mut c = FitnessCascade::new();
    let mut counted = Vec::new();
    for &g in gates {
        let w = c.weight_percent();
        if c.record(g) {
            counted.push(w);
        }
    }
    (c, counted)
}

#[test]
fn fresh_cascade_starts_at_mass_order() {
    let c = FitnessCascade::new();
    assert_eq!(c.stage, Stage::MassOrder);
    assert_eq!(c.tier, 0);
    assert!(!c.is_finished());
    assert_eq!(c.weight_percent(), 0);
}

#[test]
fn mass_order_failure_gives_zero_and_tier_zero() {
    let (c, counted) = drive(&[false, true, true, true, true, true, true]);
    assert_eq!(c.stage, Stage::Finished);
    assert_eq!(c.tier, 0);
    assert!(counted.is_empty());
}

#[test]
fn cosmology_failure_gives_zero_and_tier_zero() {
    let (c, counted) = drive(&[true, false, true, true, true, true, true]);
    assert_eq!(c.stage, Stage::Finished);
    assert_eq!(c.tier, 0);
    assert!(counted.is_empty());
}

#[test]
fn failed_nucleosynthesis_forces_tier_zero() {
    let (c, counted) = drive(&[true, true, false, true, true, true, true]);
    assert_eq!(c.tier, 0);
    assert_eq!(c.stage, Stage::Finished);
    assert_eq!(counted, vec![15, 25]);
}

#[test]
fn failed_stellar_gate_stops_at_tier_one() {
    let (c, counted) = drive(&[true, true, true, false, true, true, true]);
    assert_eq!(c.tier, 1);
    assert_eq!(counted, vec![15, 25, 25]);
}

#[test]
fn failed_black_hole_gate_stops_at_tier_three() {
    let (c, counted) = drive(&[true, true, true, true, true, false, true]);
    assert_eq!(c.tier, 3);
    assert_eq!(counted, vec![15, 25, 25, 20, 15]);
}

#[test]
fn missed_bonus_stops_at_tier_four_without_bonus() {
    let (c, counted) = drive(&[true, true, true, true, true, true, false]);
    assert_eq!(c.tier, 4);
    assert_eq!(c.stage, Stage::Finished);
    assert_eq!(counted, vec![15, 25, 25, 20, 15]);
}

#[test]
fn every_gate_passed_reaches_tier_five_with_bonus() {
    let (c, counted) = drive(&[true; 7]);
    assert_eq!(c.tier, 5);
    assert_eq!(c.stage, Stage::Finished);
    assert_eq!(counted, vec![15, 25, 25, 20, 15, 5]);
    // the weights add up past one whole, which is why the fitness is clamped
    assert_eq!(counted.iter().map(|&w| w as u32).sum::<u32>(), 105);
}

#[test]
fn fitness_with_bonus_is_clamped_to_one() {
    let (_, counted) = drive(&[true; 7]);
    let fitness: f64 = counted.iter().map(|&w| w as f64 / 100.0 * 1.0).sum();
    assert!(fitness > 1.0);
    assert_eq!(fitness.min(1.0), 1.0);
}

#[test]
fn finished_cascade_ignores_further_outcomes() {
    let mut c = FitnessCascade::new();
    assert!(!c.record(false));
    let before = c;
    assert!(!c.record(true));
    assert_eq!(c, before);
}

#[test]
fn stage_weights_follow_the_cascade() {
    let mut c = FitnessCascade::new();
    let mut weights = Vec::new();
    while !c.is_finished() {
        weights.push(c.weight_percent());
        c.record(true);
    }
    assert_eq!(weights, vec![0, 15, 25, 25, 20, 15, 5]);
}
