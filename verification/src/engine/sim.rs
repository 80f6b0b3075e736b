//! Decisions of the simulation loop that need no fractional numbers: timing of hits and
//! action checks, action-list conditions, charge recovery, timed buffs and buff names.

use vstd::prelude::*;
use vstd::string::StringExecFns;
use crate::builder::apl::{AplAction, AplCondition, CondView};
use crate::engine::buff::{Buff, BuffManager, BuffSpec, StackType, active_at, applied};
use crate::engine::cards::CardHand;
use crate::engine::cooldown::{SkillState, SkillTiming, SkillModel, available_time, current_phase, is_available,
    ready_time, phase_of, time_or, count_or, is_phased, used_up};
use crate::engine::events::{Event, EventData, EventQueue, PRIORITY_BUFF_EXPIRE, PRIORITY_CHARGE_RECOVERY, PRIORITY_DOT_TICK,
    PRIORITY_SKILL_HIT, action_check_scheduled, not_tick_of};
use crate::profile::{CompareOperator, StatField, compares, same_text};

verus! {

/// The delay of a hit, scaled from the skill's base cast time to its actual cast time.
pub open spec fn scaled_delay(delay_ms: u32, base_cast_ms: u32, actual_cast_ms: u32) -> u64 {
    if base_cast_ms == 0 { delay_ms as u64 } else { ((delay_ms as int * actual_cast_ms as int) / (base_cast_ms as int)) as u64 }
}

/// Scales a hit's delay by the ratio of actual to base cast time (rounded down).
pub fn scale_action_delay(delay_ms: u32, base_cast_ms: u32, actual_cast_ms: u32) -> (d: u64)
    ensures
        d == scaled_delay(delay_ms, base_cast_ms, actual_cast_ms),
{
    if base_cast_ms == 0 {
        delay_ms as u64
    } else {
        assert(delay_ms as u64 * actual_cast_ms as u64 <= 0xFFFF_FFFFu64 * 0xFFFF_FFFFu64) by (nonlinear_arith);
        delay_ms as u64 * actual_cast_ms as u64 / base_cast_ms as u64
    }
}

/// When a "time remaining below" condition starts to hold: `max - value` if that is still
/// ahead of `t`.
pub open spec fn threshold_of(c: AplCondition, t: u64, max: u64) -> Option<u64> {
    match c {
        AplCondition::TimeRemaining { operator, value_ms } => {
            if operator == CompareOperator::Lt || operator == CompareOperator::Lte {
                let th = if max >= value_ms { (max - value_ms) as u64 } else { 0u64 };
                if th > t { Some(th) } else { None }
            } else {
                None
            }
        },
        _ => None,
    }
}

/// The least threshold among the conditions; `u64::MAX` when none.
pub open spec fn earliest_threshold(conds: Seq<AplCondition>, t: u64, max: u64) -> u64
    decreases conds.len(),
{
    if conds.len() == 0 {
        u64::MAX
    } else {
        let rest = earliest_threshold(conds.drop_last(), t, max);
        match threshold_of(conds.last(), t, max) {
            Some(th) => if th < rest { th } else { rest },
            None => rest,
        }
    }
}

/// The least threshold among the conditions of all actions; `u64::MAX` when none.
pub open spec fn earliest_action_threshold(actions: Seq<AplAction>, t: u64, max: u64) -> u64
    decreases actions.len(),
{
    if actions.len() == 0 {
        u64::MAX
    } else {
        let rest = earliest_action_threshold(actions.drop_last(), t, max);
        let here = earliest_threshold(actions.last().conditions@, t, max);
        if here < rest { here } else { rest }
    }
}

fn condition_threshold(c: &AplCondition, time_ms: u64, max_time_ms: u64) -> (r: Option<u64>)
    ensures
        r == threshold_of(*c, time_ms, max_time_ms),
{
    match c {
        AplCondition::TimeRemaining { operator, value_ms } => {
            match operator {
                CompareOperator::Lt | CompareOperator::Lte => {
                    let th = max_time_ms.saturating_sub(*value_ms);
                    if th > time_ms { Some(th) } else { None }
                },
                _ => None,
            }
        },
        _ => None,
    }
}

/// The next time at which a "time remaining below" condition of the action list becomes
/// true; `u64::MAX` when no such condition lies ahead.
pub fn next_time_remaining_condition_time(actions: &[AplAction], time_ms: u64, max_time_ms: u64) -> (at: u64)
    ensures
        at == earliest_action_threshold(actions@, time_ms, max_time_ms),
{
    let mut best: u64 = u64::MAX;
    let mut i: usize = 0;
    while i < actions.len()
        invariant
            0 <= i <= actions@.len(),
            best == earliest_action_threshold(actions@.take(i as int), time_ms, max_time_ms),
        decreases actions@.len() - i,
    {
        let conds = &actions[i].conditions;
        let mut here: u64 = u64::MAX;
        let mut j: usize = 0;
        while j < conds.len()
            invariant
                0 <= j <= conds@.len(),
                here == earliest_threshold(conds@.take(j as int), time_ms, max_time_ms),
            decreases conds@.len() - j,
        {
            proof {
                assert(conds@.take(j as int + 1).drop_last() =~= conds@.take(j as int));
                assert(conds@.take(j as int + 1).last() == conds@[j as int]);
            }
            match condition_threshold(&conds[j], time_ms, max_time_ms) {
                Some(th) => if th < here { here = th; },
                None => {},
            }
            j += 1;
        }
        proof {
            assert(conds@.take(conds@.len() as int) =~= conds@);
            assert(actions@.take(i as int + 1).drop_last() =~= actions@.take(i as int));
            assert(actions@.take(i as int + 1).last() == actions@[i as int]);
        }
        if here < best {
            best = here;
        }
        i += 1;
    }
    assert(actions@.take(actions@.len() as int) =~= actions@);
    best
}

/// `i` is the last index of a skill with id `id`.
pub open spec fn last_with_id(skills: Seq<SkillTiming>, id: u32, i: int) -> bool {
    0 <= i < skills.len() && skills[i].skill_id == id && forall|j: int| i < j < skills.len() ==> #[trigger] skills[j].skill_id != id
}

/// The index of the skill with id `id` (the last one, should there be several).
pub fn skill_by_id(skills: &[SkillTiming], id: u32) -> (r: Option<usize>)
    ensures
        r matches Some(i) ==> last_with_id(skills@, id, i as int),
        r is None ==> forall|j: int| 0 <= j < skills@.len() ==> #[trigger] skills@[j].skill_id != id,
{
    let mut found: Option<usize> = None;
    let mut k: usize = 0;
    while k < skills.len()
        invariant
            0 <= k <= skills@.len(),
            found matches Some(i) ==> i < k && skills@[i as int].skill_id == id
                && forall|j: int| i < j < k ==> #[trigger] skills@[j].skill_id != id,
            found is None ==> forall|j: int| 0 <= j < k ==> #[trigger] skills@[j].skill_id != id,
        decreases skills@.len() - k,
    {
        if skills[k].skill_id == id {
            found = Some(k);
        }
        k += 1;
    }
    found
}

/// The cooldown left on a skill at `t`: 0 when it is ready or unknown, else the time to its
/// cooldown end (its next charge for a charged skill).
pub open spec fn cooldown_left(skills: Seq<SkillTiming>, s: SkillModel, id: u32, t: u64) -> u64 {
    if exists|i: int| last_with_id(skills, id, i) {
        let i = choose|i: int| last_with_id(skills, id, i);
        let skill = skills[i];
        if ready_time(skill, s, t) <= t {
            0
        } else {
            let end = if skill.max_stacks > 1 { time_or(s.recovery, id, t) } else { time_or(s.cooldowns, id, t) };
            if end >= t { (end - t) as u64 } else { 0 }
        }
    } else {
        0
    }
}

/// There is only one last index of a skill with a given id.
pub proof fn lemma_last_unique(skills: Seq<SkillTiming>, id: u32, i: int, k: int)
    requires
        last_with_id(skills, id, i),
        last_with_id(skills, id, k),
    ensures
        i == k,
{
    if i < k {
        assert(skills[k].skill_id != id);
    } else if k < i {
        assert(skills[i].skill_id != id);
    }
}

/// The cooldown left on the skill `skill_id`.
pub fn skill_cooldown_remaining_ms(skill_id: u32, skills: &[SkillTiming], state: &SkillState, time_ms: u64) -> (left: u64)
    requires
        time_ms < u64::MAX,
    ensures
        left == cooldown_left(skills@, state@, skill_id, time_ms),
{
    let i = match skill_by_id(skills, skill_id) {
        Some(i) => i,
        None => return 0,
    };
    let skill = &skills[i];
    proof {
        assert(last_with_id(skills@, skill_id, i as int));
        let c = choose|k: int| last_with_id(skills@, skill_id, k);
        lemma_last_unique(skills@, skill_id, i as int, c);
        assert(skills@[c] == *skill);
    }
    if is_available(skill, state, time_ms) {
        return 0;
    }
    let end = if skill.max_stacks > 1 {
        match state.charge_recovery_times.get(skill_id) { Some(e) => e, None => time_ms }
    } else {
        match state.skill_cooldowns.get(skill_id) { Some(e) => e, None => time_ms }
    };
    end.saturating_sub(time_ms)
}

/// The skill `id` is known and can be cast at `t`.
pub open spec fn ready_by_id(skills: Seq<SkillTiming>, s: SkillModel, id: u32, t: u64) -> bool {
    exists|i: int| #[trigger] last_with_id(skills, id, i) && ready_time(skills[i], s, t) <= t
}

/// The combo or chain phase of skill `id`; 0 when it is unknown.
pub open spec fn phase_by_id(skills: Seq<SkillTiming>, s: SkillModel, id: u32, t: u64) -> u32 {
    if exists|i: int| last_with_id(skills, id, i) {
        phase_of(skills[choose|i: int| last_with_id(skills, id, i)], s, t)
    } else {
        0
    }
}

/// The condition of an action for skill `current` holds at `t` in a fight lasting `max`;
/// `level` is the level, in thousandths, of the resource that a resource condition names.
/// Counts, stacks and phases are compared in thousandths, times in milliseconds.
pub open spec fn condition_holds(c: CondView, current: u32, skills: Seq<SkillTiming>, s: SkillModel,
    buffs: Map<Seq<char>, Buff>, target: Map<Seq<char>, Buff>, hand: Seq<u32>, level: i64, t: u64, max: u64) -> bool
{
    match c {
        CondView::CooldownReady => ready_by_id(skills, s, current, t),
        CondView::SkillCooldownReady(id) => ready_by_id(skills, s, id, t),
        CondView::SkillCooldownRemaining { skill_id, operator, value_ms } =>
            compares(operator, cooldown_left(skills, s, skill_id, t) as int, value_ms as int),
        CondView::Resource { operator, value, .. } => compares(operator, level as int, value as int),
        CondView::CardHeld(id) => hand.contains(id),
        CondView::CardCount { card_id, operator, value } =>
            compares(operator, (hand.filter(|h: u32| h == card_id).len() * 1000) as int, value as int),
        CondView::NextSkill(_) => false,
        CondView::BuffActive(id) => active_at(buffs, id, t),
        CondView::BuffInactive(id) => !active_at(buffs, id, t),
        CondView::BuffRemaining { buff_id, operator, value_ms } =>
            compares(operator, if active_at(buffs, buff_id, t) { buffs[buff_id].expire_time - t } else { 0 }, value_ms as int),
        CondView::TargetDebuffStacks { debuff_id, operator, value } =>
            compares(operator, if active_at(target, debuff_id, t) { target[debuff_id].stacks * 1000 } else { 0 }, value as int),
        CondView::ComboPhase { skill_id, operator, value } =>
            compares(operator, phase_by_id(skills, s, skill_id, t) * 1000, value as int),
        CondView::ChainPhase { skill_id, operator, value } =>
            compares(operator, phase_by_id(skills, s, skill_id, t) * 1000, value as int),
        CondView::TimeRemaining { operator, value_ms } =>
            compares(operator, if max >= t { max - t } else { 0 }, value_ms as int),
    }
}

fn ready_skill(skills: &[SkillTiming], state: &SkillState, id: u32, time_ms: u64) -> (r: bool)
    requires
        time_ms < u64::MAX,
    ensures
        r == ready_by_id(skills@, state@, id, time_ms),
{
    match skill_by_id(skills, id) {
        Some(i) => {
            let r = is_available(&skills[i], state, time_ms);
            proof {
                if !r {
                    assert forall|k: int| #[trigger] last_with_id(skills@, id, k) implies !(ready_time(skills@[k], state@, time_ms) <= time_ms) by {
                        lemma_last_unique(skills@, id, i as int, k);
                    }
                }
            }
            r
        },
        None => false,
    }
}

fn phase_of_skill(skills: &[SkillTiming], state: &SkillState, id: u32, time_ms: u64) -> (p: u32)
    ensures
        p == phase_by_id(skills@, state@, id, time_ms),
{
    match skill_by_id(skills, id) {
        Some(i) => {
            proof {
                let c = choose|k: int| last_with_id(skills@, id, k);
                lemma_last_unique(skills@, id, i as int, c);
            }
            current_phase(&skills[i], state, time_ms)
        },
        None => 0,
    }
}

/// Whether the condition of an action for skill `current_skill_id` holds at `time_ms`;
/// `resource_level` is the level, in thousandths, of the resource that a resource
/// condition names.
pub fn apl_condition_matches(condition: &AplCondition, current_skill_id: u32, skills: &[SkillTiming], state: &SkillState,
    buffs: &BuffManager, target_buffs: &BuffManager, hand: &CardHand, resource_level: i64, time_ms: u64, max_time_ms: u64) -> (r: bool)
    requires
        time_ms < u64::MAX,
    ensures
        r == condition_holds(condition@, current_skill_id, skills@, state@, buffs@, target_buffs@, hand.held(), resource_level, time_ms, max_time_ms),
{
    match condition {
        AplCondition::CooldownReady => ready_skill(skills, state, current_skill_id, time_ms),
        AplCondition::SkillCooldownReady(id) => ready_skill(skills, state, *id, time_ms),
        AplCondition::SkillCooldownRemaining { skill_id, operator, value_ms } => {
            let left = skill_cooldown_remaining_ms(*skill_id, skills, state, time_ms);
            operator.compare(left as i128, *value_ms as i128)
        },
        AplCondition::Resource { operator, value, .. } => operator.compare(resource_level as i128, *value as i128),
        AplCondition::CardHeld(id) => hand.has_card(*id),
        AplCondition::CardCount { card_id, operator, value } => {
            let count = hand.card_count(*card_id);
            assert(count <= hand.held().len());
            operator.compare(count as i128 * 1000, *value as i128)
        },
        AplCondition::NextSkill(_) => false,
        AplCondition::BuffActive(id) => buffs.is_active(id.as_str(), time_ms),
        AplCondition::BuffInactive(id) => !buffs.is_active(id.as_str(), time_ms),
        AplCondition::BuffRemaining { buff_id, operator, value_ms } => {
            let left = buffs.remaining_ms(buff_id.as_str(), time_ms);
            operator.compare(left as i128, *value_ms as i128)
        },
        AplCondition::TargetDebuffStacks { debuff_id, operator, value } => {
            let stacks = target_buffs.stacks(debuff_id.as_str(), time_ms);
            operator.compare(stacks as i128 * 1000, *value as i128)
        },
        AplCondition::ComboPhase { skill_id, operator, value } => {
            let phase = phase_of_skill(skills, state, *skill_id, time_ms);
            operator.compare(phase as i128 * 1000, *value as i128)
        },
        AplCondition::ChainPhase { skill_id, operator, value } => {
            let phase = phase_of_skill(skills, state, *skill_id, time_ms);
            operator.compare(phase as i128 * 1000, *value as i128)
        },
        AplCondition::TimeRemaining { operator, value_ms } => {
            let left = max_time_ms.saturating_sub(time_ms);
            operator.compare(left as i128, *value_ms as i128)
        },
    }
}

/// Whether every condition of the action holds.
pub fn apl_action_conditions_match(action: &AplAction, skills: &[SkillTiming], state: &SkillState,
    buffs: &BuffManager, target_buffs: &BuffManager, hand: &CardHand, resource_levels: &[i64], time_ms: u64, max_time_ms: u64) -> (r: bool)
    requires
        time_ms < u64::MAX,
        resource_levels@.len() == action.conditions@.len(),
    ensures
        r == forall|i: int| 0 <= i < action.conditions@.len() ==> condition_holds(#[trigger] action.conditions@[i]@, action.skill_id,
            skills@, state@, buffs@, target_buffs@, hand.held(), resource_levels@[i], time_ms, max_time_ms),
{
    let mut k: usize = 0;
    while k < action.conditions.len()
        invariant
            0 <= k <= action.conditions@.len(),
            time_ms < u64::MAX,
            resource_levels@.len() == action.conditions@.len(),
            forall|i: int| 0 <= i < k ==> condition_holds(#[trigger] action.conditions@[i]@, action.skill_id,
                skills@, state@, buffs@, target_buffs@, hand.held(), resource_levels@[i], time_ms, max_time_ms),
        decreases action.conditions@.len() - k,
    {
        if !apl_condition_matches(&action.conditions[k], action.skill_id, skills, state, buffs, target_buffs, hand,
            resource_levels[k], time_ms, max_time_ms) {
            return false;
        }
        k += 1;
    }
    true
}

/// The name shown for a buff that has no name of its own, from the stats it changes.
pub open spec fn shown_name(id: Seq<char>, fields: Seq<StatField>, source: Seq<char>) -> Seq<char> {
    if id == "arcana_ruin_stack"@ { "스택트"@ }
    else if fields.contains(StatField::AttackSpeed) { "공격속도 증가"@ }
    else if fields.contains(StatField::MovementSpeed) { "이동속도 증가"@ }
    else if fields.contains(StatField::CritRate) { "치명타 적중률 증가"@ }
    else if fields.contains(StatField::CritDmg) { "치명타 피해 증가"@ }
    else if fields.contains(StatField::CooldownReduction) { "재사용 대기시간 감소"@ }
    else if fields.contains(StatField::TargetDefenseReduction) { "방어력 감소"@ }
    else if fields.contains(StatField::AttackPowerMul) { "공격력 증가"@ }
    else if fields.contains(StatField::DamageIncrease) || fields.contains(StatField::TargetDamageIncrease) { "피해 증가"@ }
    else if source == "target"@ { "대상 상태 효과"@ }
    else { "상태 효과"@ }
}

fn has_field(fields: &[StatField], f: StatField) -> (r: bool)
    ensures
        r == fields@.contains(f),
{
    let mut k: usize = 0;
    while k < fields.len()
        invariant
            0 <= k <= fields@.len(),
            forall|j: int| 0 <= j < k ==> #[trigger] fields@[j] != f,
        decreases fields@.len() - k,
    {
        if fields[k] == f {
            assert(fields@[k as int] == f);
            return true;
        }
        k += 1;
    }
    false
}

/// The name shown for a buff without a name of its own; `fields` are the stats that its
/// effects change and `source` is "actor" or "target".
pub fn display_buff_name(spec: &BuffSpec, fields: &[StatField], source: &str) -> (name: String)
    ensures
        name@ == shown_name(spec.id@, fields@, source@),
{
    if same_text(spec.id.as_str(), "arcana_ruin_stack") { String::from_str("스택트") }
    else if has_field(fields, StatField::AttackSpeed) { String::from_str("공격속도 증가") }
    else if has_field(fields, StatField::MovementSpeed) { String::from_str("이동속도 증가") }
    else if has_field(fields, StatField::CritRate) { String::from_str("치명타 적중률 증가") }
    else if has_field(fields, StatField::CritDmg) { String::from_str("치명타 피해 증가") }
    else if has_field(fields, StatField::CooldownReduction) { String::from_str("재사용 대기시간 감소") }
    else if has_field(fields, StatField::TargetDefenseReduction) { String::from_str("방어력 감소") }
    else if has_field(fields, StatField::AttackPowerMul) { String::from_str("공격력 증가") }
    else if has_field(fields, StatField::DamageIncrease) || has_field(fields, StatField::TargetDamageIncrease) { String::from_str("피해 증가") }
    else if same_text(source, "target") { String::from_str("대상 상태 효과") }
    else { String::from_str("상태 효과") }
}

/// The skill state and queue after a charge recovery event of `skill` at `t`, when that
/// event is the one currently due (its time is the kept recovery time); else nothing changes.
pub open spec fn recovered(skill: SkillTiming, s: SkillModel, q: Seq<Event>, t: u64, r: SkillModel, rq: Seq<Event>) -> bool {
    let id = skill.skill_id;
    if time_or(s.recovery, id, 0) != t || !s.recovery.contains_key(id) {
        r == s && rq == q
    } else {
        let c = count_or(s.charges, id, 0);
        if c < skill.max_stacks {
            let c1 = (c + 1) as u32;
            let charged = SkillModel { charges: s.charges.insert(id, c1), ..s };
            if c1 < skill.max_stacks && skill.charge_recovery_ms > 0 {
                let next = (t + skill.charge_recovery_ms) as u64;
                &&& r == SkillModel { recovery: s.recovery.insert(id, next), ..charged }
                &&& rq == q.push(Event { time_ms: next, priority: PRIORITY_CHARGE_RECOVERY, data: EventData::ChargeRecovery { skill_id: id } })
            } else {
                r == SkillModel { recovery: s.recovery.remove(id), ..charged } && rq == q
            }
        } else {
            r == SkillModel { charges: s.charges.insert(id, c), ..s } && rq == q
        }
    }
}

/// Handles a charge recovery event of `skill` at `time_ms`: one charge comes back, and the
/// next recovery is scheduled while the skill is not full. A stale event does nothing.
pub fn recover_charge(skill: &SkillTiming, state: &mut SkillState, queue: &mut EventQueue, time_ms: u64)
    requires
        time_ms + skill.charge_recovery_ms <= u64::MAX,
    ensures
        recovered(*skill, old(state)@, old(queue).pending(), time_ms, final(state)@, final(queue).pending()),
{
    let id = skill.skill_id;
    match state.charge_recovery_times.get(id) {
        Some(t) => if t != time_ms { return; },
        None => return,
    }
    let c = match state.skill_charges.get(id) { Some(c) => c, None => 0 };
    if c < skill.max_stacks {
        let c1 = c + 1;
        state.skill_charges.insert(id, c1);
        if c1 < skill.max_stacks && skill.charge_recovery_ms > 0 {
            let next = time_ms + skill.charge_recovery_ms as u64;
            state.charge_recovery_times.insert(id, next);
            queue.push(Event { time_ms: next, priority: PRIORITY_CHARGE_RECOVERY, data: EventData::ChargeRecovery { skill_id: id } });
        } else {
            state.charge_recovery_times.remove(id);
        }
    } else {
        state.skill_charges.insert(id, c);
    }
}

/// `after` is `before` with the first tick of a damage-over-time effect scheduled at `t`;
/// with `refresh`, the pending ticks of the same effect are dropped first. Nothing changes
/// for zero ticks.
pub open spec fn dot_scheduled(before: Seq<Event>, after: Seq<Event>, dot_id: Seq<char>, skill_id: u32, hit: usize,
    first_tick_ms: u32, tick_interval_ms: u32, tick_count: u32, refresh: bool, t: u64) -> bool
{
    if tick_count == 0 {
        after == before
    } else {
        &&& after.len() > 0
        &&& after.drop_last() == (if refresh { before.filter(not_tick_of(dot_id)) } else { before })
        &&& after.last().time_ms == t + first_tick_ms
        &&& after.last().priority == PRIORITY_DOT_TICK
        &&& match after.last().data {
            EventData::DotTick { dot_id: d, skill_id: s, hit: h, remaining_ticks: n, tick_interval_ms: i } =>
                d@ == dot_id && s == skill_id && h == hit && n == tick_count && i == tick_interval_ms,
            _ => false,
        }
    }
}

/// Schedules the first tick of a damage-over-time effect; with `refresh`, the pending
/// ticks of the same effect are dropped first. Nothing happens for zero ticks.
pub fn schedule_dot(queue: &mut EventQueue, dot_id: &str, skill_id: u32, hit: usize, first_tick_ms: u32,
    tick_interval_ms: u32, tick_count: u32, refresh: bool, time_ms: u64)
    requires
        time_ms + first_tick_ms <= u64::MAX,
    ensures
        dot_scheduled(old(queue).pending(), final(queue).pending(), dot_id@, skill_id, hit, first_tick_ms, tick_interval_ms,
            tick_count, refresh, time_ms),
{
    if tick_count == 0 {
        return;
    }
    if refresh {
        queue.remove_dot(dot_id);
    }
    let ghost kept = queue.pending();
    queue.push(Event {
        time_ms: time_ms + first_tick_ms as u64,
        priority: PRIORITY_DOT_TICK,
        data: EventData::DotTick { dot_id: String::from_str(dot_id), skill_id, hit, remaining_ticks: tick_count, tick_interval_ms },
    });
    assert(queue.pending().drop_last() =~= kept);
}

/// The next tick of a damage-over-time effect after the one at `time_ms`, while ticks remain.
pub fn next_dot_tick(dot_id: String, skill_id: u32, hit: usize, remaining_ticks: u32, tick_interval_ms: u32, time_ms: u64) -> (e: Option<Event>)
    requires
        time_ms + tick_interval_ms <= u64::MAX,
    ensures
        remaining_ticks <= 1 ==> e is None,
        remaining_ticks > 1 ==> e == Some(Event {
            time_ms: (time_ms + tick_interval_ms) as u64,
            priority: PRIORITY_DOT_TICK,
            data: EventData::DotTick { dot_id, skill_id, hit, remaining_ticks: (remaining_ticks - 1) as u32, tick_interval_ms },
        }),
{
    if remaining_ticks > 1 {
        Some(Event {
            time_ms: time_ms + tick_interval_ms as u64,
            priority: PRIORITY_DOT_TICK,
            data: EventData::DotTick { dot_id, skill_id, hit, remaining_ticks: remaining_ticks - 1, tick_interval_ms },
        })
    } else {
        None
    }
}

/// `after` and `queue_after` are the buffs and the queue after applying `spec` at `t`
/// with `stacks` stacks to `before` and scheduling the expiry under the expiry now kept (an
/// event of the target's buffs with `on_target`).
pub open spec fn timed_applied(before: Map<Seq<char>, Buff>, after: Map<Seq<char>, Buff>, queue_before: Seq<Event>,
    queue_after: Seq<Event>, spec: BuffSpec, stacks: u32, on_target: bool, t: u64) -> bool
{
    let b = applied(if before.contains_key(spec.id@) { Some(before[spec.id@]) } else { None },
        spec, (t + spec.duration_ms) as u64, stacks);
    &&& after == before.insert(spec.id@, b)
    &&& queue_after.len() == queue_before.len() + 1
    &&& queue_after.drop_last() == queue_before
    &&& queue_after.last().time_ms == b.expire_time
    &&& queue_after.last().priority == PRIORITY_BUFF_EXPIRE
    &&& match queue_after.last().data {
        EventData::BuffExpire { buff_id, expire_at } => !on_target && buff_id@ == spec.id@ && expire_at == b.expire_time,
        EventData::TargetBuffExpire { buff_id, expire_at } => on_target && buff_id@ == spec.id@ && expire_at == b.expire_time,
        _ => false,
    }
}

/// Applies a timed buff at `time_ms` with `stacks` stacks, to the actor's buffs or (with
/// `on_target`) the target's, and schedules its expiry under the returned token.
pub fn apply_timed_buff(spec: BuffSpec, stacks: u32, on_target: bool, buffs: &mut BuffManager, queue: &mut EventQueue, time_ms: u64)
    requires
        time_ms + spec.duration_ms <= u64::MAX,
    ensures
        timed_applied(old(buffs)@, final(buffs)@, old(queue).pending(), final(queue).pending(), spec, stacks, on_target, time_ms),
{
    let expire = time_ms + spec.duration_ms as u64;
    let buff_id = spec.id.clone();
    let token = buffs.apply(spec, expire, stacks);
    let data = if on_target {
        EventData::TargetBuffExpire { buff_id, expire_at: token }
    } else {
        EventData::BuffExpire { buff_id, expire_at: token }
    };
    let ghost before = queue.pending();
    queue.push(Event { time_ms: token, priority: PRIORITY_BUFF_EXPIRE, data });
    assert(queue.pending().drop_last() =~= before);
}

/// The skill state and buffs after giving back a consumed cast of the skill `skill_id`: a
/// charged skill (`max_charges` above 1) regains a charge, up to the maximum, and forgets
/// its recovery once full; any other skill loses its running cooldown. The enabling buff
/// `buff_id` goes, if something was given back.
pub open spec fn cast_given_back(s: SkillModel, r: SkillModel, buffs: Map<Seq<char>, Buff>, buffs_after: Map<Seq<char>, Buff>,
    skill_id: u32, buff_id: Seq<char>, max_charges: u32) -> bool
{
    if max_charges > 1 {
        let c = count_or(s.charges, skill_id, max_charges);
        let c1 = if c + 1 < max_charges { (c + 1) as u32 } else { max_charges };
        &&& r == SkillModel {
            charges: s.charges.insert(skill_id, c1),
            recovery: if c1 == max_charges { s.recovery.remove(skill_id) } else { s.recovery },
            ..s
        }
        &&& buffs_after == buffs.remove(buff_id)
    } else {
        &&& r == SkillModel { cooldowns: s.cooldowns.remove(skill_id), ..s }
        &&& buffs_after == (if s.cooldowns.contains_key(skill_id) { buffs.remove(buff_id) } else { buffs })
    }
}

/// Gives back a consumed cast of the skill `skill_id`: a charged skill (`max_charges`
/// above 1) regains a charge, up to the maximum, and forgets its recovery once full; any
/// other skill loses its running cooldown. The enabling buff `buff_id` is then removed,
/// if something was given back.
pub fn reset_consumed_skill_cooldown(state: &mut SkillState, buffs: &mut BuffManager, skill_id: u32, buff_id: &str, max_charges: u32)
    ensures
        cast_given_back(old(state)@, final(state)@, old(buffs)@, final(buffs)@, skill_id, buff_id@, max_charges),
{
    let reset = if max_charges > 1 {
        let c = match state.skill_charges.get(skill_id) { Some(c) => c, None => max_charges };
        let c1 = if c < max_charges - 1 { c + 1 } else { max_charges };
        state.skill_charges.insert(skill_id, c1);
        if c1 == max_charges {
            state.charge_recovery_times.remove(skill_id);
        }
        true
    } else {
        state.skill_cooldowns.remove(skill_id).is_some()
    };
    if reset {
        buffs.expire(buff_id);
    }
}


/// A hit of a skill, as a cast schedules it: the phase it belongs to, a delay that scales
/// with the cast time, and a fixed delay.
#[derive(Clone, Copy, Debug)]
pub struct HitTiming {
    pub phase: u32,
    pub action_delay_ms: u32,
    pub fixed_delay_ms: u32,
}

/// The base cast time of `phase`: its own, else the first phase's, else 0.
pub open spec fn base_cast_of(cast_times: Seq<u32>, phase: u32) -> u32 {
    if phase < cast_times.len() { cast_times[phase as int] } else if cast_times.len() > 0 { cast_times[0] } else { 0 }
}

/// When hit `h` of a cast at `t` lands.
pub open spec fn hit_time(h: HitTiming, base_cast_ms: u32, actual_cast_ms: u32, t: u64) -> int {
    t + scaled_delay(h.action_delay_ms, base_cast_ms, actual_cast_ms) + h.fixed_delay_ms
}

/// The hit events that a cast of `skill_id` at `t` in `phase` queues for the first `k` hits,
/// in order: each hit of that phase that lands no later than `max`.
pub open spec fn hit_events(hits: Seq<HitTiming>, k: int, skill_id: u32, phase: u32, base_cast_ms: u32,
    actual_cast_ms: u32, snap: usize, t: u64, max: u64) -> Seq<Event>
    decreases k,
{
    if k <= 0 {
        Seq::empty()
    } else {
        let before = hit_events(hits, k - 1, skill_id, phase, base_cast_ms, actual_cast_ms, snap, t, max);
        let h = hits[k - 1];
        let at = hit_time(h, base_cast_ms, actual_cast_ms, t);
        if h.phase == phase && at <= max {
            before.push(Event { time_ms: at as u64, priority: PRIORITY_SKILL_HIT,
                data: EventData::SkillHit { skill_id, hit_index: (k - 1) as usize, snap } })
        } else {
            before
        }
    }
}

/// The skill state and queue after the bookkeeping of a cast of `skill` at `t` (before the
/// next action check): a charged skill that is not full schedules its next charge after
/// `recovery_ms`, the use count goes up by one, and the hits of `phase` are queued.
pub open spec fn cast_recorded(skill: SkillTiming, s: SkillModel, q: Seq<Event>, hits: Seq<HitTiming>, cast_times: Seq<u32>,
    phase: u32, actual_cast_ms: u32, recovery_ms: u32, snap: usize, t: u64, max: u64) -> (SkillModel, Seq<Event>)
{
    let id = skill.skill_id;
    let next = (t + recovery_ms) as u64;
    let recharging = skill.max_stacks > 1 && recovery_ms > 0 && count_or(s.charges, id, 0) < skill.max_stacks;
    let s1 = if recharging { SkillModel { recovery: s.recovery.insert(id, next), ..s } } else { s };
    let q1 = if recharging {
        q.push(Event { time_ms: next, priority: PRIORITY_CHARGE_RECOVERY, data: EventData::ChargeRecovery { skill_id: id } })
    } else {
        q
    };
    let s2 = SkillModel { uses: s1.uses.insert(id, (count_or(s1.uses, id, 0) + 1) as u32), ..s1 };
    (s2, q1 + hit_events(hits, hits.len() as int, id, phase, base_cast_of(cast_times, phase), actual_cast_ms, snap, t, max))
}

/// Records a cast of `skill` at `time_ms` in combo phase `phase`, after its cooldown was
/// consumed with `recovery_ms` as the charge recovery time: schedules the next charge, counts
/// the use, queues the hits of the phase that land by `max_time_ms` (their delays scaled to
/// the actual cast time `actual_cast_ms`, hit `i` under index `i` with snapshot `snap`), and
/// asks for the next action when the cast ends (at least 1 ms later), if that is by
/// `max_time_ms`.
pub fn schedule_cast(skill: &SkillTiming, hits: &[HitTiming], cast_times_ms: &[u32], phase: u32, actual_cast_ms: u32,
    recovery_ms: u32, snap: usize, state: &mut SkillState, queue: &mut EventQueue, time_ms: u64, max_time_ms: u64)
    requires
        time_ms + recovery_ms <= u64::MAX,
        count_or(old(state)@.uses, skill.skill_id, 0) < u32::MAX,
    ensures
        ({
            let (s, q) = cast_recorded(*skill, old(state)@, old(queue).pending(), hits@, cast_times_ms@, phase,
                actual_cast_ms, recovery_ms, snap, time_ms, max_time_ms);
            let next_action = time_ms + (if actual_cast_ms >= 1 { actual_cast_ms as int } else { 1 });
            &&& final(state)@ == s
            &&& next_action <= max_time_ms ==> action_check_scheduled(q, next_action as u64, final(queue).pending())
            &&& next_action > max_time_ms ==> final(queue).pending() == q
        }),
{
    let id = skill.skill_id;
    let ghost s0 = state@;
    let ghost q0 = queue.pending();
    let charges = match state.skill_charges.get(id) { Some(c) => c, None => 0 };
    if skill.max_stacks > 1 && recovery_ms > 0 && charges < skill.max_stacks {
        let next = time_ms + recovery_ms as u64;
        state.charge_recovery_times.insert(id, next);
        queue.push(Event { time_ms: next, priority: PRIORITY_CHARGE_RECOVERY, data: EventData::ChargeRecovery { skill_id: id } });
    }
    let uses = match state.skill_use_counts.get(id) { Some(c) => c, None => 0 };
    state.skill_use_counts.insert(id, uses + 1);
    let ghost q1 = queue.pending();
    let base: u32 = if (phase as usize) < cast_times_ms.len() {
        cast_times_ms[phase as usize]
    } else if cast_times_ms.len() > 0 {
        cast_times_ms[0]
    } else {
        0
    };
    let n = hits.len();
    let mut k: usize = 0;
    while k < n
        invariant
            n == hits@.len(),
            0 <= k <= n,
            base == base_cast_of(cast_times_ms@, phase),
            queue.pending() == q1 + hit_events(hits@, k as int, id, phase, base, actual_cast_ms, snap, time_ms, max_time_ms),
        decreases n - k,
    {
        let h = hits[k];
        if h.phase == phase {
            let delay = scale_action_delay(h.action_delay_ms, base, actual_cast_ms);
            let at: u128 = time_ms as u128 + delay as u128 + h.fixed_delay_ms as u128;
            if at <= max_time_ms as u128 {
                queue.push(Event { time_ms: at as u64, priority: PRIORITY_SKILL_HIT,
                    data: EventData::SkillHit { skill_id: id, hit_index: k, snap } });
            }
        }
        proof {
            let pre = hit_events(hits@, k as int, id, phase, base, actual_cast_ms, snap, time_ms, max_time_ms);
            assert(hits@[k as int] == h);
            if h.phase == phase && hit_time(h, base, actual_cast_ms, time_ms) <= max_time_ms {
                assert(q1 + pre.push(hit_events(hits@, k as int + 1, id, phase, base, actual_cast_ms, snap, time_ms, max_time_ms).last())
                    =~= (q1 + pre).push(hit_events(hits@, k as int + 1, id, phase, base, actual_cast_ms, snap, time_ms, max_time_ms).last()));
            }
        }
        k += 1;
    }
    let span: u64 = if actual_cast_ms >= 1 { actual_cast_ms as u64 } else { 1 };
    if (time_ms as u128) + (span as u128) <= max_time_ms as u128 {
        queue.schedule_action_check(time_ms + span);
    }
}


/// Law: a time-remaining condition compares the time left in the fight, `max - t` (none
/// once the fight is over), with its value; so a "remaining at most / below" condition,
/// once it holds, keeps holding as the fight goes on, and the threshold at which the
/// scheduler looks again is exactly when it starts to hold: it does not hold before, an
/// "at most" condition holds at the threshold, a "below" condition one millisecond later.
pub proof fn law_time_remaining_counts_down(op: CompareOperator, v: u64, current: u32, skills: Seq<SkillTiming>,
    s: SkillModel, buffs: Map<Seq<char>, Buff>, target: Map<Seq<char>, Buff>, hand: Seq<u32>, level: i64,
    t: u64, later: u64, max: u64)
    requires
        t <= later,
    ensures
        condition_holds(CondView::TimeRemaining { operator: op, value_ms: v }, current, skills, s, buffs, target, hand, level, t, max)
            == compares(op, if t <= max { max - t } else { 0 }, v as int),
        (op == CompareOperator::Lt || op == CompareOperator::Lte)
            && condition_holds(CondView::TimeRemaining { operator: op, value_ms: v }, current, skills, s, buffs, target, hand, level, t, max)
            ==> condition_holds(CondView::TimeRemaining { operator: op, value_ms: v }, current, skills, s, buffs, target, hand, level, later, max),
        threshold_of(AplCondition::TimeRemaining { operator: op, value_ms: v }, t, max) matches Some(th) ==> {
            &&& th == max - v
            &&& !condition_holds(CondView::TimeRemaining { operator: op, value_ms: v }, current, skills, s, buffs, target, hand, level, t, max)
            &&& op == CompareOperator::Lte
                ==> condition_holds(CondView::TimeRemaining { operator: op, value_ms: v }, current, skills, s, buffs, target, hand, level, th, max)
            &&& op == CompareOperator::Lt && th < max
                ==> condition_holds(CondView::TimeRemaining { operator: op, value_ms: v }, current, skills, s, buffs, target, hand, level, (th + 1) as u64, max)
        },
{
}


/// Law: how the conditions relate. The plain cooldown condition of an action is the
/// named-skill cooldown condition of the action's own skill; a buff is inactive exactly when
/// it is not active; a card is held exactly when at least one copy of it is counted; and a
/// next-skill condition never holds when an action is being chosen.
pub proof fn law_conditions_relate(current: u32, id: u32, buff: Seq<char>, skills: Seq<SkillTiming>, s: SkillModel,
    buffs: Map<Seq<char>, Buff>, target: Map<Seq<char>, Buff>, hand: Seq<u32>, level: i64, t: u64, max: u64)
    ensures
        condition_holds(CondView::CooldownReady, current, skills, s, buffs, target, hand, level, t, max)
            == condition_holds(CondView::SkillCooldownReady(current), current, skills, s, buffs, target, hand, level, t, max),
        condition_holds(CondView::BuffInactive(buff), current, skills, s, buffs, target, hand, level, t, max)
            == !condition_holds(CondView::BuffActive(buff), current, skills, s, buffs, target, hand, level, t, max),
        condition_holds(CondView::BuffActive(buff), current, skills, s, buffs, target, hand, level, t, max)
            == (buffs.contains_key(buff) && buffs[buff].expire_time > t),
        condition_holds(CondView::CardHeld(id), current, skills, s, buffs, target, hand, level, t, max) == hand.contains(id),
        condition_holds(CondView::CardHeld(id), current, skills, s, buffs, target, hand, level, t, max)
            == condition_holds(CondView::CardCount { card_id: id, operator: CompareOperator::Gte, value: 1000 },
                current, skills, s, buffs, target, hand, level, t, max),
        !condition_holds(CondView::NextSkill(id), current, skills, s, buffs, target, hand, level, t, max),
{
    let f = |h: u32| h == id;
    let kept = hand.filter(f);
    if hand.contains(id) {
        let i = choose|i: int| 0 <= i < hand.len() && hand[i] == id;
        hand.lemma_filter_contains(f, i);
        assert(kept.len() >= 1);
    }
    if kept.len() >= 1 {
        hand.lemma_filter_pred(f, 0);
        assert(kept.contains(kept[0]));
        hand.lemma_filter_contains_rev(f, kept[0]);
    }
}


/// Law: the remaining-time conditions agree with the state they read. A skill that is ready
/// has no cooldown left; a plain skill (no phases, no charges) with casts left whose cooldown
/// ends at `e`, after `t`, has `e - t` left. A buff has time remaining exactly when it is
/// active, and a debuff on the target has stacks exactly when it is active with stacks.
pub proof fn law_remaining_conditions(current: u32, id: u32, i: int, buff: Seq<char>, op: CompareOperator,
    skills: Seq<SkillTiming>, s: SkillModel, buffs: Map<Seq<char>, Buff>, target: Map<Seq<char>, Buff>, hand: Seq<u32>,
    level: i64, t: u64, max: u64)
    ensures
        condition_holds(CondView::SkillCooldownReady(id), current, skills, s, buffs, target, hand, level, t, max)
            ==> cooldown_left(skills, s, id, t) == 0
            && condition_holds(CondView::SkillCooldownRemaining { skill_id: id, operator: CompareOperator::Lte, value_ms: 0 },
                current, skills, s, buffs, target, hand, level, t, max),
        last_with_id(skills, id, i) && skills[i].max_stacks <= 1 && !is_phased(skills[i]) && !used_up(skills[i], s)
            && s.cooldowns.contains_key(id) && s.cooldowns[id] > t ==> cooldown_left(skills, s, id, t) == s.cooldowns[id] - t,
        condition_holds(CondView::BuffRemaining { buff_id: buff, operator: CompareOperator::Gt, value_ms: 0 },
            current, skills, s, buffs, target, hand, level, t, max)
            == condition_holds(CondView::BuffActive(buff), current, skills, s, buffs, target, hand, level, t, max),
        condition_holds(CondView::TargetDebuffStacks { debuff_id: buff, operator: CompareOperator::Gt, value: 0 },
            current, skills, s, buffs, target, hand, level, t, max)
            == (target.contains_key(buff) && target[buff].expire_time > t && target[buff].stacks > 0),
{
    if condition_holds(CondView::SkillCooldownReady(id), current, skills, s, buffs, target, hand, level, t, max) {
        let k = choose|k: int| #[trigger] last_with_id(skills, id, k) && ready_time(skills[k], s, t) <= t;
        let c = choose|k: int| last_with_id(skills, id, k);
        lemma_last_unique(skills, id, k, c);
    }
    if last_with_id(skills, id, i) {
        let c = choose|k: int| last_with_id(skills, id, k);
        lemma_last_unique(skills, id, i, c);
    }
}


/// Law: `earliest_threshold` is the least threshold among the conditions: no condition's
/// threshold comes before it, and it is the threshold of one of them (or `u64::MAX` when
/// none has one ahead).
pub proof fn law_earliest_threshold_is_least(conds: Seq<AplCondition>, t: u64, max: u64)
    ensures
        forall|j: int| 0 <= j < conds.len() && #[trigger] threshold_of(conds[j], t, max) is Some
            ==> earliest_threshold(conds, t, max) <= threshold_of(conds[j], t, max)->0,
        earliest_threshold(conds, t, max) == u64::MAX || exists|j: int| 0 <= j < conds.len()
            && #[trigger] threshold_of(conds[j], t, max) == Some(earliest_threshold(conds, t, max)),
    decreases conds.len(),
{
    if conds.len() > 0 {
        let init = conds.drop_last();
        law_earliest_threshold_is_least(init, t, max);
        assert forall|j: int| 0 <= j < conds.len() && #[trigger] threshold_of(conds[j], t, max) is Some
            implies earliest_threshold(conds, t, max) <= threshold_of(conds[j], t, max)->0 by {
            if j < conds.len() - 1 {
                assert(init[j] == conds[j]);
            }
        }
        if earliest_threshold(conds, t, max) != u64::MAX && earliest_threshold(conds, t, max) == earliest_threshold(init, t, max) {
            let j = choose|j: int| 0 <= j < init.len() && #[trigger] threshold_of(init[j], t, max) == Some(earliest_threshold(init, t, max));
            assert(conds[j] == init[j]);
        }
    }
}

/// Law: `earliest_action_threshold` is the least threshold among the conditions of all the
/// actions: no condition of any action has its threshold before it.
pub proof fn law_earliest_action_threshold_is_least(actions: Seq<AplAction>, t: u64, max: u64)
    ensures
        forall|a: int, j: int| 0 <= a < actions.len() && 0 <= j < actions[a].conditions@.len()
            && #[trigger] threshold_of(actions[a].conditions@[j], t, max) is Some
            ==> earliest_action_threshold(actions, t, max) <= threshold_of(actions[a].conditions@[j], t, max)->0,
        earliest_action_threshold(actions, t, max) == u64::MAX || exists|a: int| 0 <= a < actions.len()
            && #[trigger] earliest_threshold(actions[a].conditions@, t, max) == earliest_action_threshold(actions, t, max),
    decreases actions.len(),
{
    if actions.len() > 0 {
        let init = actions.drop_last();
        law_earliest_action_threshold_is_least(init, t, max);
        law_earliest_threshold_is_least(actions.last().conditions@, t, max);
        assert forall|a: int, j: int| 0 <= a < actions.len() && 0 <= j < actions[a].conditions@.len()
            && #[trigger] threshold_of(actions[a].conditions@[j], t, max) is Some
            implies earliest_action_threshold(actions, t, max) <= threshold_of(actions[a].conditions@[j], t, max)->0 by {
            if a < actions.len() - 1 {
                assert(init[a] == actions[a]);
            } else {
                assert(actions[a] == actions.last());
            }
        }
        if earliest_action_threshold(actions, t, max) != u64::MAX
            && earliest_action_threshold(actions, t, max) == earliest_action_threshold(init, t, max) {
            let a = choose|a: int| 0 <= a < init.len()
                && #[trigger] earliest_threshold(init[a].conditions@, t, max) == earliest_action_threshold(init, t, max);
            assert(actions[a] == init[a]);
        }
    }
}

} // verus!
