use vstd::prelude::*;

verus! {

/// One gate of the fitness cascade, in the order in which the gates are met.
#[derive(Clone, Copy, Debug, PartialEq, Eq, Structural)]
pub enum Stage {
    /// proton lighter than neutron, and lighter than neutron by more than an electron
    MassOrder,
    /// cosmological viability of at least 0.1
    Cosmology,
    /// nucleosynthesis score above 0.3
    Nucleosynthesis,
    /// stellar formation score above 0.4
    StellarFormation,
    /// heavy-element score above 0.5
    HeavyElements,
    /// black-hole score above 0.6
    BlackHoles,
    /// black-hole score above 0.8 and heavy-element score above 0.7
    Bonus,
    Finished,
}

/// Where an evaluation of the cascade stands: which gate comes next, and which tier is reached.
#[derive(Clone, Copy, Debug, PartialEq, Eq, Structural)]
pub struct FitnessCascade {
    pub stage: Stage,
    pub tier: u8,
}

/// Which gate follows a passed one.
pub open spec fn next_stage(s: Stage) -> Stage {
    match s {
        Stage::MassOrder => Stage::Cosmology,
        Stage::Cosmology => Stage::Nucleosynthesis,
        Stage::Nucleosynthesis => Stage::StellarFormation,
        Stage::StellarFormation => Stage::HeavyElements,
        Stage::HeavyElements => Stage::BlackHoles,
        Stage::BlackHoles => Stage::Bonus,
        Stage::Bonus => Stage::Finished,
        Stage::Finished => Stage::Finished,
    }
}

/// The weight, in hundredths, of the score that a gate adds to the fitness.
pub open spec fn stage_weight(s: Stage) -> u8 {
    match s {
        Stage::Cosmology => 15,
        Stage::Nucleosynthesis => 25,
        Stage::StellarFormation => 25,
        Stage::HeavyElements => 20,
        Stage::BlackHoles => 15,
        Stage::Bonus => 5,
        _ => 0,
    }
}

/// The tier that passing a gate grants; 0 where it grants none.
pub open spec fn tier_granted(s: Stage) -> u8 {
    match s {
        Stage::Nucleosynthesis => 1,
        Stage::StellarFormation => 2,
        Stage::HeavyElements => 3,
        Stage::BlackHoles => 4,
        Stage::Bonus => 5,
        _ => 0,
    }
}

/// Whether the weighted score of a gate enters the fitness. The mass-order gate
/// has no score; cosmology and the bonus count only when passed; the other gates
/// count their score whether or not they pass.
pub open spec fn counts_score(s: Stage, passed: bool) -> bool {
    match s {
        Stage::MassOrder => false,
        Stage::Cosmology => passed,
        Stage::Bonus => passed,
        Stage::Finished => false,
        _ => true,
    }
}

/// The cascade after one gate's outcome: a pass moves on to the next gate and
/// raises the tier where this gate grants one; a failure ends the evaluation.
pub open spec fn step(c: FitnessCascade, passed: bool) -> FitnessCascade {
    if c.stage == Stage::Finished {
        c
    } else if passed {
        FitnessCascade {
            stage: next_stage(c.stage),
            tier: if tier_granted(c.stage) > 0 { tier_granted(c.stage) } else { c.tier },
        }
    } else {
        FitnessCascade { stage: Stage::Finished, tier: c.tier }
    }
}

/// The state of a fresh evaluation.
pub open spec fn start() -> FitnessCascade {
    FitnessCascade { stage: Stage::MassOrder, tier: 0 }
}

/// The cascade after a run of gate outcomes, met in order.
pub open spec fn run(c: FitnessCascade, gates: Seq<bool>) -> FitnessCascade
    decreases gates.len(),
{
    if gates.len() == 0 {
        c
    } else {
        run(step(c, gates[0]), gates.drop_first())
    }
}

/// The gates whose weighted scores enter the fitness over a run of outcomes.
pub open spec fn counted_stages(c: FitnessCascade, gates: Seq<bool>) -> Seq<Stage>
    decreases gates.len(),
{
    if gates.len() == 0 {
        Seq::empty()
    } else {
        let rest = counted_stages(step(c, gates[0]), gates.drop_first());
        if counts_score(c.stage, gates[0]) {
            seq![c.stage] + rest
        } else {
            rest
        }
    }
}

/// The position of a gate in the cascade; the finished state comes last.
pub open spec fn stage_index(s: Stage) -> int {
    match s {
        Stage::MassOrder => 0,
        Stage::Cosmology => 1,
        Stage::Nucleosynthesis => 2,
        Stage::StellarFormation => 3,
        Stage::HeavyElements => 4,
        Stage::BlackHoles => 5,
        Stage::Bonus => 6,
        Stage::Finished => 7,
    }
}

/// The tier held on reaching a gate from a fresh start: each gate past the
/// cosmological one has granted one tier.
pub open spec fn tier_on_arrival(k: int) -> int {
    if k >= 2 { k - 2 } else { 0 }
}

/// A cascade that has reached a gate by passing every earlier one.
pub open spec fn reached_by_passing(c: FitnessCascade) -> bool {
    c.stage != Stage::Finished && c.tier as int == tier_on_arrival(stage_index(c.stage))
}

proof fn lemma_finished_is_final(c: FitnessCascade, gates: Seq<bool>)
    requires
        c.stage == Stage::Finished,
    ensures
        run(c, gates) == c,
        counted_stages(c, gates) == Seq::<Stage>::empty(),
    decreases gates.len(),
{
    if gates.len() > 0 {
        lemma_finished_is_final(step(c, gates[0]), gates.drop_first());
    }
}

proof fn lemma_tier_capped(c: FitnessCascade, gates: Seq<bool>, i: int)
    requires
        reached_by_passing(c),
        0 <= i < gates.len(),
        !gates[i],
    ensures
        run(c, gates).tier as int <= tier_on_arrival(stage_index(c.stage) + i),
        run(c, gates).tier <= 5,
    decreases gates.len(),
{
    let c2 = step(c, gates[0]);
    if !gates[0] {
        lemma_finished_is_final(c2, gates.drop_first());
    } else if c.stage == Stage::Bonus {
        lemma_finished_is_final(c2, gates.drop_first());
    } else {
        lemma_tier_capped(c2, gates.drop_first(), i - 1);
    }
}

proof fn lemma_tier_at_most_five(c: FitnessCascade, gates: Seq<bool>)
    requires
        reached_by_passing(c) || (c.stage == Stage::Finished && c.tier <= 5),
    ensures
        run(c, gates).tier <= 5,
    decreases gates.len(),
{
    if gates.len() > 0 {
        lemma_tier_at_most_five(step(c, gates[0]), gates.drop_first());
    }
}

proof fn lemma_ends_in_time(c: FitnessCascade, gates: Seq<bool>)
    requires
        c.stage == Stage::Finished || gates.len() >= 7 - stage_index(c.stage),
    ensures
        run(c, gates).stage == Stage::Finished,
    decreases gates.len(),
{
    if c.stage == Stage::Finished {
        lemma_finished_is_final(c, gates);
    } else {
        lemma_ends_in_time(step(c, gates[0]), gates.drop_first());
    }
}

/// A universe whose proton is not lighter than its neutron by more than an
/// electron fails the first gate: the evaluation ends at tier 0 and no score
/// enters the fitness, whatever the later gates would give.
pub proof fn lemma_mass_order_failure_scores_nothing(gates: Seq<bool>)
    requires
        gates.len() > 0,
        !gates[0],
    ensures
        run(start(), gates) == (FitnessCascade { stage: Stage::Finished, tier: 0 }),
        counted_stages(start(), gates) == Seq::<Stage>::empty(),
{
    lemma_finished_is_final(step(start(), gates[0]), gates.drop_first());
}

/// A universe that passes the mass order but fails cosmological viability ends
/// at tier 0 with no score in the fitness.
pub proof fn lemma_cosmology_failure_scores_nothing(gates: Seq<bool>)
    requires
        gates.len() > 1,
        gates[0],
        !gates[1],
    ensures
        run(start(), gates) == (FitnessCascade { stage: Stage::Finished, tier: 0 }),
        counted_stages(start(), gates) == Seq::<Stage>::empty(),
{
    let c1 = step(start(), gates[0]);
    let g1 = gates.drop_first();
    assert(g1[0] == gates[1]);
    lemma_finished_is_final(step(c1, g1[0]), g1.drop_first());
    assert(run(start(), gates) == run(c1, g1));
    assert(counted_stages(start(), gates) == counted_stages(c1, g1));
}

/// The tier never passes the gates that held: when a gate at position `i`
/// fails (mass order and cosmology at 0 and 1, then nucleosynthesis, stellar
/// formation, heavy elements, black holes and the bonus), the tier is at most
/// `i - 2`, and 0 for the first three; and it is never above 5.
pub proof fn lemma_tier_bounded_by_failed_gate(gates: Seq<bool>, i: int)
    requires
        0 <= i < gates.len(),
        !gates[i],
    ensures
        run(start(), gates).tier as int <= tier_on_arrival(i),
        run(start(), gates).tier <= 5,
{
    lemma_tier_capped(start(), gates, i);
}

/// Every evaluation ends after at most seven gates, with a tier between 0 and 5.
pub proof fn lemma_cascade_ends_within_seven_gates(gates: Seq<bool>)
    requires
        gates.len() >= 7,
    ensures
        run(start(), gates).stage == Stage::Finished,
        run(start(), gates).tier <= 5,
{
    lemma_ends_in_time(start(), gates);
    lemma_tier_at_most_five(start(), gates);
}

impl FitnessCascade {
    /// A fresh evaluation, at the mass-order gate with tier 0.
    pub fn new() -> (r: FitnessCascade)
        ensures
            r == start(),
    {
        FitnessCascade { stage: Stage::MassOrder, tier: 0 }
    }

    pub fn is_finished(&self) -> (r: bool)
        ensures
            r == (self.stage == Stage::Finished),
    {
        match self.stage {
            Stage::Finished => true,
            _ => false,
        }
    }

    /// The weight, in hundredths, of the current gate's score.
    pub fn weight_percent(&self) -> (r: u8)
        ensures
            r == stage_weight(self.stage),
    {
        match self.stage {
            Stage::Cosmology => 15,
            Stage::Nucleosynthesis => 25,
            Stage::StellarFormation => 25,
            Stage::HeavyElements => 20,
            Stage::BlackHoles => 15,
            Stage::Bonus => 5,
            _ => 0,
        }
    }

    /// Records the outcome of the current gate and tells whether its weighted
    /// score enters the fitness.
    pub fn record(&mut self, passed: bool) -> (counted: bool)
        ensures
            *final(self) == step(*old(self), passed),
            counted == counts_score(old(self).stage, passed),
    {
        let counted = match self.stage {
            Stage::MassOrder => false,
            Stage::Cosmology => passed,
            Stage::Bonus => passed,
            Stage::Finished => false,
            _ => true,
        };
        if self.stage == Stage::Finished {
            return counted;
        }
        if passed {
            let (next, granted): (Stage, u8) = match self.stage {
                Stage::MassOrder => (Stage::Cosmology, 0),
                Stage::Cosmology => (Stage::Nucleosynthesis, 0),
                Stage::Nucleosynthesis => (Stage::StellarFormation, 1),
                Stage::StellarFormation => (Stage::HeavyElements, 2),
                Stage::HeavyElements => (Stage::BlackHoles, 3),
                Stage::BlackHoles => (Stage::Bonus, 4),
                _ => (Stage::Finished, 5),
            };
            self.stage = next;
            if granted > 0 {
                self.tier = granted;
            }
        } else {
            self.stage = Stage::Finished;
        }
        counted
    }
}

} // verus!
