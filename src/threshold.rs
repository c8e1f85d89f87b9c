//! Quorum rules: how much of the snapshot's total power must take part.

use vstd::prelude::*;

verus! {

/// Basis points in one whole (100%).
pub const BPS_ONE: u128 = 10000;

/// A share of total power.
#[derive(Clone, Copy, Debug, PartialEq, Eq, Structural)]
pub enum PercentageThreshold {
    /// Strictly more than half.
    Majority,
    /// At least this many basis points (10000 = 100%).
    Percent { bps: u128 },
}

/// A quorum rule, either relative to the total power or as an absolute count.
#[derive(Clone, Copy, Debug, PartialEq, Eq, Structural)]
pub enum Threshold {
    Percentage { percentage: PercentageThreshold },
    AbsoluteCount { count: u128 },
}

impl Threshold {
    /// A percentage never asks for more than the whole.
    pub open spec fn valid(self) -> bool {
        match self {
            Threshold::Percentage { percentage: PercentageThreshold::Percent { bps } } => bps <= BPS_ONE,
            _ => true,
        }
    }
}

/// Whether `cast` out of `total` meets the rule.
pub open spec fn spec_quorum_met(cast: int, total: int, rule: Threshold) -> bool {
    match rule {
        Threshold::Percentage { percentage: PercentageThreshold::Majority } => 2 * cast > total,
        Threshold::Percentage { percentage: PercentageThreshold::Percent { bps } } =>
            cast * (BPS_ONE as int) >= total * (bps as int),
        Threshold::AbsoluteCount { count } => cast >= count,
    }
}

/// Checks a rule: a percentage above 100% is refused.
pub fn validate_threshold(rule: &Threshold) -> (r: bool)
    ensures
        r == rule.valid(),
{
    match rule {
        Threshold::Percentage { percentage: PercentageThreshold::Percent { bps } } => *bps <= BPS_ONE,
        _ => true,
    }
}

proof fn lemma_percent_met(cast: int, total: int, bps: int)
    requires
        0 <= cast,
        0 <= total,
        0 <= bps <= 10000,
    ensures
        (cast * 10000 >= total * bps) == (cast >= (total / 10000) * bps + ((total % 10000) * bps
            + 9999) / 10000),
{
    let q = total / 10000;
    let r = total % 10000;
    assert(total == q * 10000 + r);
    assert(total * bps == q * bps * 10000 + r * bps) by (nonlinear_arith)
        requires
            total == q * 10000 + r,
    ;
    let c = (r * bps + 9999) / 10000;
    assert(0 <= r * bps) by (nonlinear_arith)
        requires
            0 <= r,
            0 <= bps,
    ;
    // c is the least integer with c * 10000 >= r * bps
    assert(c * 10000 >= r * bps && (c - 1) * 10000 < r * bps);
    if cast >= q * bps + c {
        assert(cast * 10000 >= (q * bps + c) * 10000) by (nonlinear_arith)
            requires
                cast >= q * bps + c,
        ;
        assert((q * bps + c) * 10000 == q * bps * 10000 + c * 10000) by (nonlinear_arith);
    } else {
        assert(cast * 10000 <= (q * bps + c - 1) * 10000) by (nonlinear_arith)
            requires
                cast <= q * bps + c - 1,
        ;
        assert((q * bps + c - 1) * 10000 == q * bps * 10000 + (c - 1) * 10000) by (nonlinear_arith);
    }
}

/// Whether `cast` out of `total` meets the rule (computed without overflow).
pub fn quorum_met(cast: u128, total: u128, rule: &Threshold) -> (r: bool)
    requires
        rule.valid(),
    ensures
        r == spec_quorum_met(cast as int, total as int, *rule),
{
    match rule {
        Threshold::Percentage { percentage: PercentageThreshold::Majority } => cast > total / 2,
        Threshold::Percentage { percentage: PercentageThreshold::Percent { bps } } => {
            let bps: u128 = *bps;
            let q: u128 = total / BPS_ONE;
            let rem: u128 = total % BPS_ONE;
            assert(q * bps + rem <= total) by (nonlinear_arith)
                requires
                    q == total / 10000,
                    rem == total % 10000,
                    bps <= 10000,
                    total >= 0,
            ;
            assert(rem * bps <= 10000 * 10000) by (nonlinear_arith)
                requires
                    rem < 10000,
                    bps <= 10000,
            ;
            let part: u128 = (rem * bps + 9999) / BPS_ONE;
            assert(part <= rem) by (nonlinear_arith)
                requires
                    part == (rem * bps + 9999) / 10000,
                    bps <= 10000,
                    rem >= 0,
            ;
            let need: u128 = q * bps + part;
            proof {
                lemma_percent_met(cast as int, total as int, bps as int);
            }
            cast >= need
        },
        Threshold::AbsoluteCount { count } => cast >= *count,
    }
}

/// Quorum is monotonic in cast power: once met, more cast power keeps it met.
pub proof fn lemma_quorum_monotonic(cast: int, more: int, total: int, rule: Threshold)
    requires
        0 <= cast <= more,
        0 <= total,
        rule.valid(),
        spec_quorum_met(cast, total, rule),
    ensures
        spec_quorum_met(more, total, rule),
{
    match rule {
        Threshold::Percentage { percentage: PercentageThreshold::Percent { bps } } => {
            assert(more * 10000 >= cast * 10000) by (nonlinear_arith)
                requires
                    cast <= more,
            ;
        },
        _ => {},
    }
}

} // verus!
