//! Combat constants, as exact integer ratios, and the records of a trace.

use vstd::prelude::*;

verus! {

/// The stage of the pipeline that a request asks for.
#[derive(Clone, Copy, Debug, PartialEq, Eq, Structural)]
pub enum PipelineStep {
    Prepare,
    Simulate,
    Trace,
}

/// Swiftness to cooldown reduction: 1.25 / 5821 per point (level 70 coefficient
/// 0.5821 × 10000, rapidity to cooldown factor 1.25), as numerator over denominator.
pub const SWIFTNESS_COOLDOWN_REDUCTION_NUM: u64 = 125;
/// See `SWIFTNESS_COOLDOWN_REDUCTION_NUM`.
pub const SWIFTNESS_COOLDOWN_REDUCTION_DEN: u64 = 582_100;
/// Swiftness to attack and movement speed: 1 / 5821 per point.
pub const SWIFTNESS_ATTACK_SPEED_BONUS_NUM: u64 = 1;
/// See `SWIFTNESS_ATTACK_SPEED_BONUS_NUM`.
pub const SWIFTNESS_ATTACK_SPEED_BONUS_DEN: u64 = 5821;
/// Crit stat points per unit of crit rate.
pub const CRIT_STAT_CONVERSION: u64 = 2794;
/// Base critical damage multiplier (200%), in percent.
pub const BASE_CRIT_MULTIPLIER_PERCENT: u64 = 200;
/// Cooldown reduction cap (80%), in percent.
pub const MAX_COOLDOWN_REDUCTION_PERCENT: u64 = 80;
/// Attack speed stays within 60% to 140% of the base: the bound of the change, in percent.
pub const MAX_ATTACK_SPEED_BONUS_PERCENT: u64 = 40;
/// Movement speed rises at most to 140% of the base: the bound of the rise, in percent.
pub const MAX_MOVEMENT_SPEED_BONUS_PERCENT: u64 = 40;
/// Time allowed between combo or chain phases (ms).
pub const COMBO_PHASE_TIMEOUT_MS: u64 = 2000;
/// Extra damage of back and head attacks (5%), in percent.
pub const BACK_HEAD_ATTACK_BONUS_PERCENT: u64 = 5;

/// A buff or debuff as a trace shows it.
pub struct BuffDebuffTraceDetail {
    pub id: String,
    pub name: String,
    pub icon: String,
    pub stacks: u32,
    pub source: String,
}

/// A held card as a trace shows it.
pub struct HeldCardTrace {
    pub card_id: u32,
    pub card_name: String,
}

} // verus!
