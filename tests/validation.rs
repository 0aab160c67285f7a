use cosmic_library::validation::{meets_pass_rate, tiered_verdict, ValidationLevel};

#[test]
fn pass_rate_needs_nine_in_ten() {
    assert!(meets_pass_rate(9, 10));
    assert!(!meets_pass_rate(8, 10));
    assert!(meets_pass_rate(4, 4));
    assert!(!meets_pass_rate(3, 4));
    assert!(meets_pass_rate(1, 1));
    assert!(!meets_pass_rate(0, 1));
}

#[test]
fn empty_suite_does_not_pass() {
    assert!(!meets_pass_rate(0, 0));
}

#[test]
fn verdict_fails_on_fundamentals() {
    match tiered_verdict(false, true, true) {
        ValidationLevel::Failed(r) => assert_eq!(r, "Física atómica fundamental"),
        other => panic!("unexpected verdict {:?}", other),
    }
}

#[test]
fn verdict_partial_on_qcd() {
    match tiered_verdict(true, false, true) {
        ValidationLevel::Partial(r) => assert_eq!(r, "QCD requiere calibración"),
        other => panic!("unexpected verdict {:?}", other),
    }
}

#[test]
fn verdict_partial_on_cosmology() {
    match tiered_verdict(true, true, false) {
        ValidationLevel::Partial(r) => assert_eq!(r, "Cosmología requiere refinamiento"),
        other => panic!("unexpected verdict {:?}", other),
    }
}

#[test]
fn verdict_full_when_all_pass() {
    assert!(matches!(tiered_verdict(true, true, true), ValidationLevel::Full));
}
