use vstd::prelude::*;

verus! {

/// How far the engine's predictions held against measured physics.
#[derive(Clone, Copy, Debug)]
pub enum ValidationLevel {
    /// a tier that everything rests on failed
    Failed(&'static str),
    /// the fundamentals hold; the named area needs work
    Partial(&'static str),
    Full,
}

/// Whether a suite passes: it has tests, and at least nine in ten of them passed.
pub open spec fn pass_rate_met(passed: nat, total: nat) -> bool {
    total > 0 && 10 * passed >= 9 * total
}

/// Tells whether `passed` successes out of `total` tests make the suite pass.
pub fn meets_pass_rate(passed: usize, total: usize) -> (r: bool)
    ensures
        r == pass_rate_met(passed as nat, total as nat),
{
    total > 0 && 10 * (passed as u128) >= 9 * (total as u128)
}

/// The verdict of the tiered validation, from the outcome of each suite: atomic
/// fundamentals, then quantum chromodynamics, then cosmology. A later suite only
/// counts once every earlier one has passed.
pub open spec fn verdict(fundamental: bool, qcd: bool, cosmology: bool) -> ValidationLevel {
    if !fundamental {
        ValidationLevel::Failed("Física atómica fundamental")
    } else if !qcd {
        ValidationLevel::Partial("QCD requiere calibración")
    } else if !cosmology {
        ValidationLevel::Partial("Cosmología requiere refinamiento")
    } else {
        ValidationLevel::Full
    }
}

/// Gives the verdict of the tiered validation from the outcome of each suite.
pub fn tiered_verdict(fundamental: bool, qcd: bool, cosmology: bool) -> (r: ValidationLevel)
    ensures
        r == verdict(fundamental, qcd, cosmology),
{
    if !fundamental {
        return ValidationLevel::Failed("Física atómica fundamental");
    }
    if !qcd {
        return ValidationLevel::Partial("QCD requiere calibración");
    }
    if cosmology {
        ValidationLevel::Full
    } else {
        ValidationLevel::Partial("Cosmología requiere refinamiento")
    }
}

} // verus!
