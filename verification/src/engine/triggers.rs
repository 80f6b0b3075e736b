//! Trigger effects, hit conditions and trigger filters, and the rules that decide
//! whether a trigger fires.

use vstd::prelude::*;
use crate::engine::buff::{BuffManager, BuffSpec, active_at};
use crate::profile::{SkillTag, TriggerFilter};

verus! {

/// An effect of a trigger. Chances and percentages are in millionths, resource amounts
/// and damage bonuses in thousandths, weights in thousandths; damage rows are named by
/// the index under which the caller keeps them.
pub enum TriggerEffect {
    Sequence(Vec<TriggerEffect>),
    Chance { chance: u32, effect: Box<TriggerEffect> },
    RandomChoice(Vec<TriggerEffect>),
    WeightedRandomChoice(Vec<(u64, TriggerEffect)>),
    Schedule { delay_ms: u32, effect: Box<TriggerEffect> },
    ApplyBuff(BuffSpec),
    ApplyBuffStacks { spec: BuffSpec, stacks: u32 },
    ConsumeBuffStacks { buff_id: String, stacks: u32 },
    ReduceSkillCooldown { percent: u32 },
    ReduceCooldowns { skill_ids: Vec<u32>, percent: u32 },
    ReduceCooldownsOnResourceFull { resource: String, skill_ids: Vec<u32>, percent: u32 },
    ApplyTargetBuff(BuffSpec),
    ApplyTargetBuffStacks { spec: BuffSpec, stacks: u32 },
    SetTargetBuffStacks { spec: BuffSpec, stacks: u32 },
    ConsumeTargetBuff {
        buff_id: String,
        preserve_chance: u32,
        preserve_required_stacks: u32,
        preserve_resource_gain: Option<(String, i64)>,
    },
    GainResource { resource: String, amount: i64 },
    GainResourcePercent { resource: String, percent: u32 },
    RefundCastMp { percent: u32 },
    DrawCard,
    DrawLastUsedCard,
    ResetSkillCooldown,
    ResetConsumedSkillCooldown { buff_id: String, max_charges: u32 },
    DamageBonus(i64),
    DamageBonusPerBuffStack { buff_id: String, per_stack: i64 },
    DealDamageByTargetBuffStacks {
        buff_id: String,
        hits_by_stack: Vec<usize>,
        forced_stacks_while_buff: Option<(String, u32)>,
    },
    DealRuntimeDamage(usize),
    DealDamageAndSetTargetBuffStacks { effect_id: u32, hit: usize, spec: BuffSpec, stacks: u32 },
    ScheduleDot { dot_id: String, hit: usize, first_tick_ms: u32, tick_interval_ms: u32, tick_count: u32, refresh: bool },
}

/// The effect draws the last used card again, itself or as part of a sequence.
pub open spec fn copies_last(e: TriggerEffect) -> bool
    decreases e, 1nat,
{
    match e {
        TriggerEffect::DrawLastUsedCard => true,
        TriggerEffect::Sequence(effects) => copies_any(effects@),
        _ => false,
    }
}

/// Some effect of the sequence draws the last used card again.
pub open spec fn copies_any(effects: Seq<TriggerEffect>) -> bool
    decreases effects, 0nat,
{
    if effects.len() == 0 {
        false
    } else {
        copies_any(effects.drop_last()) || copies_last(effects.last())
    }
}

/// Whether a card effect draws the last used card again; such a card is not itself
/// remembered as the last used card.
pub fn copies_last_used_card(effect: &TriggerEffect) -> (r: bool)
    ensures
        r == copies_last(*effect),
    decreases effect,
{
    match effect {
        TriggerEffect::DrawLastUsedCard => true,
        TriggerEffect::Sequence(effects) => {
            let mut found = false;
            let mut k: usize = 0;
            while k < effects.len()
                invariant
                    0 <= k <= effects@.len(),
                    *effect == TriggerEffect::Sequence(*effects),
                    found == copies_any(effects@.take(k as int)),
                decreases effects@.len() - k,
            {
                proof {
                    assert(effects@.take(k as int + 1).drop_last() =~= effects@.take(k as int));
                    assert(effects@.take(k as int + 1).last() == effects@[k as int]);
                }
                proof {
                    assert(decreases_to!(*effect => (*effect)->Sequence_0));
                    assert(decreases_to!(*effects => effects@));
                    assert(decreases_to!(effects@ => effects@[k as int]));
                    assert(decreases_to!(*effect => effects@[k as int]));
                }
                let here = copies_last_used_card(&effects[k]);
                found = found || here;
                k += 1;
            }
            assert(effects@.take(effects@.len() as int) =~= effects@);
            found
        },
        _ => false,
    }
}

/// A condition on a hit.
pub enum HitCondition {
    Always,
    IsCrit,
    /// The target's health is below the given per-mille; the simulation has no target
    /// health, so this never holds.
    TargetHpBelow(u32),
    BuffActive(String),
    TargetBuffActive(String),
    TargetBuffAtMaxStacks(String),
}

/// The hit condition holds at `t`; `is_crit` is the hit's critical result when known.
pub open spec fn hit_condition_holds(c: HitCondition, buffs: Map<Seq<char>, crate::engine::buff::Buff>, target: Map<Seq<char>, crate::engine::buff::Buff>, t: u64, is_crit: Option<bool>) -> bool {
    match c {
        HitCondition::Always => true,
        HitCondition::IsCrit => is_crit == Some(true),
        HitCondition::TargetHpBelow(_) => false,
        HitCondition::BuffActive(id) => active_at(buffs, id@, t),
        HitCondition::TargetBuffActive(id) => active_at(target, id@, t),
        HitCondition::TargetBuffAtMaxStacks(id) => active_at(target, id@, t) && target[id@].stacks >= target[id@].spec.max_stacks,
    }
}

/// Whether the hit condition holds.
pub fn hit_condition_matches(condition: &HitCondition, buffs: &BuffManager, target_buffs: &BuffManager, time_ms: u64, is_crit: Option<bool>) -> (r: bool)
    ensures
        r == hit_condition_holds(*condition, buffs@, target_buffs@, time_ms, is_crit),
{
    match condition {
        HitCondition::Always => true,
        HitCondition::IsCrit => match is_crit { Some(c) => c, None => false },
        HitCondition::TargetHpBelow(_) => false,
        HitCondition::BuffActive(id) => buffs.is_active(id.as_str(), time_ms),
        HitCondition::TargetBuffActive(id) => target_buffs.is_active(id.as_str(), time_ms),
        HitCondition::TargetBuffAtMaxStacks(id) => target_buffs.is_at_max_stacks(id.as_str(), time_ms),
    }
}

/// The moment at which global triggers are considered.
pub enum TriggerContext {
    BeforeSkillCast { skill_id: u32 },
    SkillCast { skill_id: u32 },
    HitEvent { skill_id: u32, tags: Vec<SkillTag>, is_crit: bool },
    CardUse { card_id: u32 },
}

/// The filter selects the moment.
pub open spec fn filter_selects(filter: TriggerFilter, ctx: TriggerContext) -> bool {
    match (filter, ctx) {
        (TriggerFilter::SkillCast, TriggerContext::SkillCast { .. }) => true,
        (TriggerFilter::AnyHit, TriggerContext::HitEvent { .. }) => true,
        (TriggerFilter::AnyCrit, TriggerContext::HitEvent { is_crit, .. }) => is_crit,
        (TriggerFilter::SkillTag(tag), TriggerContext::HitEvent { tags, .. }) => tags@.contains(tag),
        (TriggerFilter::SkillId(id), TriggerContext::SkillCast { skill_id }) => id == skill_id,
        (TriggerFilter::SkillId(id), TriggerContext::HitEvent { skill_id, .. }) => id == skill_id,
        (TriggerFilter::SkillCastId(id), TriggerContext::SkillCast { skill_id }) => id == skill_id,
        (TriggerFilter::BeforeSkillCastId(id), TriggerContext::BeforeSkillCast { skill_id }) => id == skill_id,
        (TriggerFilter::CardUse, TriggerContext::CardUse { .. }) => true,
        _ => false,
    }
}

fn has_tag(tags: &Vec<SkillTag>, tag: SkillTag) -> (r: bool)
    ensures
        r == tags@.contains(tag),
{
    let mut k: usize = 0;
    while k < tags.len()
        invariant
            0 <= k <= tags@.len(),
            forall|j: int| 0 <= j < k ==> #[trigger] tags@[j] != tag,
        decreases tags@.len() - k,
    {
        if tags[k] == tag {
            assert(tags@[k as int] == tag);
            return true;
        }
        k += 1;
    }
    false
}

/// Whether a global trigger with `filter` is considered at this moment.
pub fn trigger_filter_matches(filter: &TriggerFilter, ctx: &TriggerContext) -> (r: bool)
    ensures
        r == filter_selects(*filter, *ctx),
{
    match (filter, ctx) {
        (TriggerFilter::SkillCast, TriggerContext::SkillCast { .. }) => true,
        (TriggerFilter::AnyHit, TriggerContext::HitEvent { .. }) => true,
        (TriggerFilter::AnyCrit, TriggerContext::HitEvent { is_crit, .. }) => *is_crit,
        (TriggerFilter::SkillTag(tag), TriggerContext::HitEvent { tags, .. }) => has_tag(tags, *tag),
        (TriggerFilter::SkillId(id), TriggerContext::SkillCast { skill_id }) => *id == *skill_id,
        (TriggerFilter::SkillId(id), TriggerContext::HitEvent { skill_id, .. }) => *id == *skill_id,
        (TriggerFilter::SkillCastId(id), TriggerContext::SkillCast { skill_id }) => *id == *skill_id,
        (TriggerFilter::BeforeSkillCastId(id), TriggerContext::BeforeSkillCast { skill_id }) => *id == *skill_id,
        (TriggerFilter::CardUse, TriggerContext::CardUse { .. }) => true,
        _ => false,
    }
}

/// The skill (or card) that a moment belongs to.
pub open spec fn context_skill(ctx: TriggerContext) -> u32 {
    match ctx {
        TriggerContext::BeforeSkillCast { skill_id } => skill_id,
        TriggerContext::SkillCast { skill_id } => skill_id,
        TriggerContext::HitEvent { skill_id, .. } => skill_id,
        TriggerContext::CardUse { card_id } => card_id,
    }
}

/// The skill (or card) that a moment belongs to; trigger effects apply to it.
pub fn context_skill_id(ctx: &TriggerContext) -> (id: u32)
    ensures
        id == context_skill(*ctx),
{
    match ctx {
        TriggerContext::BeforeSkillCast { skill_id } => *skill_id,
        TriggerContext::SkillCast { skill_id } => *skill_id,
        TriggerContext::HitEvent { skill_id, .. } => *skill_id,
        TriggerContext::CardUse { card_id } => *card_id,
    }
}

/// A trigger with a cooldown may fire again only once `cooldown_ms` have passed since it
/// last fired at `last`.
pub open spec fn trigger_off_cooldown(cooldown_ms: Option<u32>, last: Option<u64>, t: u64) -> bool {
    match (cooldown_ms, last) {
        (Some(cd), Some(l)) => !(t < l + cd),
        _ => true,
    }
}

/// Whether a trigger's own cooldown lets it fire at `time_ms`.
pub fn trigger_ready(cooldown_ms: Option<u32>, last_fired: Option<u64>, time_ms: u64) -> (r: bool)
    ensures
        r == trigger_off_cooldown(cooldown_ms, last_fired, time_ms),
{
    match (cooldown_ms, last_fired) {
        (Some(cd), Some(last)) => {
            let end: u128 = last as u128 + cd as u128;
            !((time_ms as u128) < end)
        },
        _ => true,
    }
}


/// Law: each filter selects exactly its moments. A cast filter selects casts, a hit filter
/// hits, a critical-hit filter exactly the critical hits, a tag filter exactly the hits of
/// skills with the tag, a skill filter the casts and hits of that skill, a cast-of-skill
/// filter that skill's casts, a before-cast filter the moment just before that skill's
/// cast, and a card filter card uses. So every moment a narrower filter selects, the wider
/// one selects too: a critical hit or a tagged hit is a hit, and a cast of a given skill is
/// a cast.
pub proof fn law_filters_select_their_moments(ctx: TriggerContext, id: u32, tag: SkillTag)
    ensures
        filter_selects(TriggerFilter::SkillCast, ctx) <==> ctx is SkillCast,
        filter_selects(TriggerFilter::AnyHit, ctx) <==> ctx is HitEvent,
        filter_selects(TriggerFilter::AnyCrit, ctx) <==> (ctx is HitEvent && ctx->HitEvent_is_crit),
        filter_selects(TriggerFilter::SkillTag(tag), ctx) <==> (ctx is HitEvent && ctx->HitEvent_tags@.contains(tag)),
        filter_selects(TriggerFilter::SkillId(id), ctx)
            <==> ((ctx is SkillCast && ctx->SkillCast_skill_id == id) || (ctx is HitEvent && ctx->HitEvent_skill_id == id)),
        filter_selects(TriggerFilter::SkillCastId(id), ctx) <==> (ctx is SkillCast && ctx->SkillCast_skill_id == id),
        filter_selects(TriggerFilter::BeforeSkillCastId(id), ctx)
            <==> (ctx is BeforeSkillCast && ctx->BeforeSkillCast_skill_id == id),
        filter_selects(TriggerFilter::CardUse, ctx) <==> ctx is CardUse,
        filter_selects(TriggerFilter::AnyCrit, ctx) ==> filter_selects(TriggerFilter::AnyHit, ctx),
        filter_selects(TriggerFilter::SkillTag(tag), ctx) ==> filter_selects(TriggerFilter::AnyHit, ctx),
        filter_selects(TriggerFilter::SkillCastId(id), ctx) ==> filter_selects(TriggerFilter::SkillCast, ctx)
            && filter_selects(TriggerFilter::SkillId(id), ctx),
        ctx is HitEvent && !ctx->HitEvent_is_crit ==> !filter_selects(TriggerFilter::AnyCrit, ctx),
{
}

} // verus!
