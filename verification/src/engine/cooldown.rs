//! Cooldowns, charges and combo/chain phases of skills.

use vstd::prelude::*;
use crate::collections::{TimeTable, CountTable, times, counts};

verus! {

/// How a skill is cast.
#[derive(Clone, Copy, Debug, PartialEq, Eq, Structural)]
pub enum SkillType {
    Normal,
    /// Phases `0..=last_phase`; each phase but the last is free of cooldown if the
    /// next cast comes within `phase_timeout_ms`.
    Combo { last_phase: u32, phase_timeout_ms: u32 },
    /// Like a combo, for chain skills.
    Chain { last_phase: u32, phase_timeout_ms: u32 },
    Holding { max_hold_ms: u32 },
    Point,
}

/// What the cooldown rules read of a skill.
#[derive(Clone, Copy, Debug)]
pub struct SkillTiming {
    pub skill_id: u32,
    pub skill_type: SkillType,
    /// Casts allowed per fight; 0 means no limit.
    pub max_uses: u32,
    /// Charges; above 1 the skill is a charged skill.
    pub max_stacks: u32,
    pub charge_recovery_ms: u32,
}

/// The per-skill state that changes while a fight runs.
pub struct SkillState {
    /// skill id to the end of its cooldown (ms)
    pub skill_cooldowns: TimeTable,
    /// skill id to its charges left
    pub skill_charges: CountTable,
    /// skill id to the time of its next charge (ms)
    pub charge_recovery_times: TimeTable,
    /// skill id to the number of casts so far
    pub skill_use_counts: CountTable,
    /// skill id to its current combo phase
    pub combo_phases: CountTable,
    /// skill id to the time its combo phase lapses (ms)
    pub combo_timeouts: TimeTable,
    /// skill id to its current chain phase
    pub chain_phases: CountTable,
    /// skill id to the time its chain phase lapses (ms)
    pub chain_timeouts: TimeTable,
}

/// The contents of a `SkillState`.
pub struct SkillModel {
    pub cooldowns: Map<u32, u64>,
    pub charges: Map<u32, u32>,
    pub recovery: Map<u32, u64>,
    pub uses: Map<u32, u32>,
    pub combo_phases: Map<u32, u32>,
    pub combo_timeouts: Map<u32, u64>,
    pub chain_phases: Map<u32, u32>,
    pub chain_timeouts: Map<u32, u64>,
}

impl View for SkillState {
    type V = SkillModel;

    open spec fn view(&self) -> SkillModel {
        SkillModel {
            cooldowns: times(self.skill_cooldowns),
            charges: counts(self.skill_charges),
            recovery: times(self.charge_recovery_times),
            uses: counts(self.skill_use_counts),
            combo_phases: counts(self.combo_phases),
            combo_timeouts: times(self.combo_timeouts),
            chain_phases: counts(self.chain_phases),
            chain_timeouts: times(self.chain_timeouts),
        }
    }
}

impl SkillState {
    /// No cooldown, no charge used, no phase started.
    pub fn new() -> (s: Self)
        ensures
            s@.cooldowns.dom().is_empty(),
            s@.charges.dom().is_empty(),
            s@.recovery.dom().is_empty(),
            s@.uses.dom().is_empty(),
            s@.combo_phases.dom().is_empty(),
            s@.combo_timeouts.dom().is_empty(),
            s@.chain_phases.dom().is_empty(),
            s@.chain_timeouts.dom().is_empty(),
    {
        SkillState {
            skill_cooldowns: TimeTable::new(),
            skill_charges: CountTable::new(),
            charge_recovery_times: TimeTable::new(),
            skill_use_counts: CountTable::new(),
            combo_phases: CountTable::new(),
            combo_timeouts: TimeTable::new(),
            chain_phases: CountTable::new(),
            chain_timeouts: TimeTable::new(),
        }
    }
}

/// `m[k]`, or `d` when `k` is absent.
pub open spec fn time_or(m: Map<u32, u64>, k: u32, d: u64) -> u64 {
    if m.contains_key(k) { m[k] } else { d }
}

/// `m[k]`, or `d` when `k` is absent.
pub open spec fn count_or(m: Map<u32, u32>, k: u32, d: u32) -> u32 {
    if m.contains_key(k) { m[k] } else { d }
}

/// The phase kept in `phases`, while its timeout has not passed; else 0.
pub open spec fn live_phase(phases: Map<u32, u32>, timeouts: Map<u32, u64>, id: u32, t: u64) -> u32 {
    let p = count_or(phases, id, 0);
    if p > 0 && t <= time_or(timeouts, id, 0) { p } else { 0 }
}

/// The phase a combo or chain skill is in at `t`; 0 for other skills.
pub open spec fn phase_of(skill: SkillTiming, s: SkillModel, t: u64) -> u32 {
    match skill.skill_type {
        SkillType::Combo { .. } => live_phase(s.combo_phases, s.combo_timeouts, skill.skill_id, t),
        SkillType::Chain { .. } => live_phase(s.chain_phases, s.chain_timeouts, skill.skill_id, t),
        _ => 0,
    }
}

/// The skill is a combo or chain skill.
pub open spec fn is_phased(skill: SkillTiming) -> bool {
    skill.skill_type is Combo || skill.skill_type is Chain
}

/// The skill has used up its casts for the fight.
pub open spec fn used_up(skill: SkillTiming, s: SkillModel) -> bool {
    skill.max_uses > 0 && count_or(s.uses, skill.skill_id, 0) >= skill.max_uses
}

/// The earliest time, not before `t`, at which the skill can be cast; `u64::MAX` when never.
pub open spec fn ready_time(skill: SkillTiming, s: SkillModel, t: u64) -> u64 {
    let id = skill.skill_id;
    if used_up(skill, s) {
        u64::MAX
    } else if is_phased(skill) && phase_of(skill, s, t) > 0 {
        t
    } else if skill.max_stacks > 1 {
        if count_or(s.charges, id, skill.max_stacks) > 0 {
            t
        } else if s.recovery.contains_key(id) {
            s.recovery[id]
        } else {
            (t + 1) as u64
        }
    } else {
        let end = time_or(s.cooldowns, id, 0);
        if end >= t { end } else { t }
    }
}

/// The state after casting the skill at `t` with cooldown `cd`, and the charge
/// recovery time to schedule (0 when none).
pub open spec fn consumed(skill: SkillTiming, s: SkillModel, t: u64, cd: u32) -> (SkillModel, u32) {
    let id = skill.skill_id;
    let p = phase_of(skill, s, t);
    match skill.skill_type {
        SkillType::Combo { last_phase, phase_timeout_ms } if p < last_phase => (
            SkillModel {
                combo_phases: s.combo_phases.insert(id, (p + 1) as u32),
                combo_timeouts: s.combo_timeouts.insert(id, (t + phase_timeout_ms) as u64),
                ..s
            },
            0,
        ),
        SkillType::Chain { last_phase, phase_timeout_ms } if p < last_phase => (
            SkillModel {
                chain_phases: s.chain_phases.insert(id, (p + 1) as u32),
                chain_timeouts: s.chain_timeouts.insert(id, (t + phase_timeout_ms) as u64),
                ..s
            },
            0,
        ),
        _ => {
            let reset = match skill.skill_type {
                SkillType::Combo { .. } => SkillModel {
                    combo_phases: s.combo_phases.remove(id),
                    combo_timeouts: s.combo_timeouts.remove(id),
                    ..s
                },
                SkillType::Chain { .. } => SkillModel {
                    chain_phases: s.chain_phases.remove(id),
                    chain_timeouts: s.chain_timeouts.remove(id),
                    ..s
                },
                _ => s,
            };
            if skill.max_stacks > 1 {
                let c = count_or(reset.charges, id, skill.max_stacks);
                (
                    SkillModel { charges: reset.charges.insert(id, if c > 0 { (c - 1) as u32 } else { 0 }), ..reset },
                    skill.charge_recovery_ms,
                )
            } else {
                (SkillModel { cooldowns: reset.cooldowns.insert(id, (t + cd) as u64), ..reset }, 0)
            }
        },
    }
}

/// The combo or chain phase of the skill at `current_time`; 0 when none is running.
pub fn current_phase(skill: &SkillTiming, state: &SkillState, current_time: u64) -> (phase: u32)
    ensures
        phase == phase_of(*skill, state@, current_time),
{
    let id = skill.skill_id;
    let (phase, timeout) = match skill.skill_type {
        SkillType::Combo { .. } => (state.combo_phases.get(id), state.combo_timeouts.get(id)),
        SkillType::Chain { .. } => (state.chain_phases.get(id), state.chain_timeouts.get(id)),
        _ => return 0,
    };
    let p = match phase { Some(p) => p, None => 0 };
    let limit = match timeout { Some(t) => t, None => 0 };
    if p > 0 && current_time <= limit { p } else { 0 }
}

/// The earliest time, not before `current_time`, at which the skill can be cast;
/// `u64::MAX` when its casts are used up.
pub fn available_time(skill: &SkillTiming, state: &SkillState, current_time: u64) -> (at: u64)
    requires
        current_time < u64::MAX,
    ensures
        at == ready_time(*skill, state@, current_time),
{
    let id = skill.skill_id;
    if skill.max_uses > 0 {
        let used = match state.skill_use_counts.get(id) { Some(n) => n, None => 0 };
        if used >= skill.max_uses {
            return u64::MAX;
        }
    }
    match skill.skill_type {
        SkillType::Combo { .. } | SkillType::Chain { .. } => {
            if current_phase(skill, state, current_time) > 0 {
                return current_time;
            }
        },
        _ => {},
    }
    if skill.max_stacks > 1 {
        let charges = match state.skill_charges.get(id) { Some(c) => c, None => skill.max_stacks };
        if charges > 0 {
            return current_time;
        }
        return match state.charge_recovery_times.get(id) {
            Some(t) => t,
            None => current_time + 1,
        };
    }
    let end = match state.skill_cooldowns.get(id) { Some(t) => t, None => 0 };
    if end >= current_time { end } else { current_time }
}

/// The skill can be cast at `current_time`.
pub fn is_available(skill: &SkillTiming, state: &SkillState, current_time: u64) -> (r: bool)
    requires
        current_time < u64::MAX,
    ensures
        r == (ready_time(*skill, state@, current_time) <= current_time),
{
    available_time(skill, state, current_time) <= current_time
}

/// Casts the skill at `current_time`: advances its combo or chain phase, or spends a
/// charge, or starts its cooldown of `actual_cooldown_ms`. Returns the charge recovery
/// time of a charged skill, else 0.
pub fn consume(skill: &SkillTiming, state: &mut SkillState, current_time: u64, actual_cooldown_ms: u32) -> (recovery_ms: u32)
    requires
        current_time + actual_cooldown_ms <= u64::MAX,
        match skill.skill_type {
            SkillType::Combo { phase_timeout_ms, .. } => current_time + phase_timeout_ms <= u64::MAX,
            SkillType::Chain { phase_timeout_ms, .. } => current_time + phase_timeout_ms <= u64::MAX,
            _ => true,
        },
    ensures
        (final(state)@, recovery_ms) == consumed(*skill, old(state)@, current_time, actual_cooldown_ms),
{
    let id = skill.skill_id;
    match skill.skill_type {
        SkillType::Combo { last_phase, phase_timeout_ms } => {
            let p = current_phase(skill, state, current_time);
            if p < last_phase {
                state.combo_phases.insert(id, p + 1);
                state.combo_timeouts.insert(id, current_time + phase_timeout_ms as u64);
                return 0;
            } else {
                state.combo_phases.remove(id);
                state.combo_timeouts.remove(id);
            }
        },
        SkillType::Chain { last_phase, phase_timeout_ms } => {
            let p = current_phase(skill, state, current_time);
            if p < last_phase {
                state.chain_phases.insert(id, p + 1);
                state.chain_timeouts.insert(id, current_time + phase_timeout_ms as u64);
                return 0;
            } else {
                state.chain_phases.remove(id);
                state.chain_timeouts.remove(id);
            }
        },
        _ => {},
    }
    if skill.max_stacks > 1 {
        let c = match state.skill_charges.get(id) { Some(c) => c, None => skill.max_stacks };
        state.skill_charges.insert(id, if c > 0 { c - 1 } else { 0 });
        return skill.charge_recovery_ms;
    }
    state.skill_cooldowns.insert(id, current_time + actual_cooldown_ms as u64);
    0
}

/// When the skill's cooldown ends, or its next charge comes back for a charged skill.
pub open spec fn end_of(skill: SkillTiming, s: SkillModel) -> u64 {
    if skill.max_stacks > 1 {
        time_or(s.recovery, skill.skill_id, 0)
    } else {
        time_or(s.cooldowns, skill.skill_id, 0)
    }
}

/// The skill is a combo or chain skill in the middle of its phases, with casts left.
pub open spec fn in_progress(skill: SkillTiming, s: SkillModel, t: u64) -> bool {
    ready_time(skill, s, t) != u64::MAX && is_phased(skill) && phase_of(skill, s, t) > 0
}

/// The least `end_of` over the skills that still have casts left; `u64::MAX` when none.
pub open spec fn earliest_end(skills: Seq<SkillTiming>, s: SkillModel, t: u64) -> u64
    decreases skills.len(),
{
    if skills.len() == 0 {
        u64::MAX
    } else {
        let rest = earliest_end(skills.drop_last(), s, t);
        let k = skills.last();
        if ready_time(k, s, t) != u64::MAX && end_of(k, s) < rest { end_of(k, s) } else { rest }
    }
}

/// When to look again for a castable skill: now if a combo or chain is running, else
/// the earliest cooldown end, but never before `t + 1`.
pub open spec fn next_ready(skills: Seq<SkillTiming>, s: SkillModel, t: u64) -> u64 {
    if exists|i: int| 0 <= i < skills.len() && in_progress(#[trigger] skills[i], s, t) {
        t
    } else {
        let m = earliest_end(skills, s, t);
        if m == u64::MAX || m < t + 1 { (t + 1) as u64 } else { m }
    }
}

/// The time at which the next action check should run when no skill can be cast now.
pub fn next_available_time(skills: &[SkillTiming], state: &SkillState, current_time: u64) -> (at: u64)
    requires
        current_time < u64::MAX,
    ensures
        at == next_ready(skills@, state@, current_time),
{
    let mut earliest: u64 = u64::MAX;
    let n = skills.len();
    let mut k: usize = 0;
    while k < n
        invariant
            n == skills@.len(),
            0 <= k <= n,
            current_time < u64::MAX,
            earliest == earliest_end(skills@.take(k as int), state@, current_time),
            forall|i: int| 0 <= i < k ==> !in_progress(#[trigger] skills@[i], state@, current_time),
        decreases n - k,
    {
        let skill = &skills[k];
        proof {
            assert(skills@.take(k as int + 1).drop_last() =~= skills@.take(k as int));
            assert(skills@.take(k as int + 1).last() == skills@[k as int]);
        }
        if available_time(skill, state, current_time) != u64::MAX {
            match skill.skill_type {
                SkillType::Combo { .. } | SkillType::Chain { .. } => {
                    if current_phase(skill, state, current_time) > 0 {
                        assert(in_progress(skills@[k as int], state@, current_time));
                        return current_time;
                    }
                },
                _ => {},
            }
            let end = if skill.max_stacks > 1 {
                match state.charge_recovery_times.get(skill.skill_id) { Some(t) => t, None => 0 }
            } else {
                match state.skill_cooldowns.get(skill.skill_id) { Some(t) => t, None => 0 }
            };
            if end < earliest {
                earliest = end;
            }
        }
        k += 1;
    }
    assert(skills@.take(n as int) =~= skills@);
    if earliest == u64::MAX {
        current_time + 1
    } else if earliest >= current_time + 1 {
        earliest
    } else {
        current_time + 1
    }
}

/// Law: after a plain skill (no phases, no charges) is cast at `t` with cooldown `cd`, it is
/// next ready at `t + cd`, or at once if that has passed, as long as it has casts left.
pub proof fn law_ready_after_cooldown(skill: SkillTiming, s: SkillModel, t: u64, cd: u32, later: u64)
    requires
        !is_phased(skill),
        skill.max_stacks <= 1,
        t + cd <= u64::MAX,
        !used_up(skill, consumed(skill, s, t, cd).0),
    ensures
        ready_time(skill, consumed(skill, s, t, cd).0, later) == (if t + cd >= later { (t + cd) as u64 } else { later }),
{
}

/// Law: casting a combo or chain skill before its last phase moves it to the next phase,
/// castable at once until the phase times out.
pub proof fn law_phase_advances(skill: SkillTiming, s: SkillModel, t: u64, cd: u32, later: u64)
    requires
        is_phased(skill),
        match skill.skill_type {
            SkillType::Combo { last_phase, phase_timeout_ms } => phase_of(skill, s, t) < last_phase && t <= later <= t + phase_timeout_ms && t + phase_timeout_ms <= u64::MAX,
            SkillType::Chain { last_phase, phase_timeout_ms } => phase_of(skill, s, t) < last_phase && t <= later <= t + phase_timeout_ms && t + phase_timeout_ms <= u64::MAX,
            _ => false,
        },
        !used_up(skill, consumed(skill, s, t, cd).0),
    ensures
        phase_of(skill, consumed(skill, s, t, cd).0, later) == phase_of(skill, s, t) + 1,
        ready_time(skill, consumed(skill, s, t, cd).0, later) == later,
        consumed(skill, s, t, cd).1 == 0,
{
}

/// Law: a skill whose casts are used up is never ready.
pub proof fn law_used_up_never_ready(skill: SkillTiming, s: SkillModel, t: u64)
    requires
        used_up(skill, s),
    ensures
        ready_time(skill, s, t) == u64::MAX,
{
}

/// Law: casting a charged skill (no phases) spends one charge, if it has one, and asks for
/// its recovery time to be scheduled.
pub proof fn law_charge_spent(skill: SkillTiming, s: SkillModel, t: u64, cd: u32)
    requires
        !is_phased(skill),
        skill.max_stacks > 1,
    ensures
        ({
            let (r, rec) = consumed(skill, s, t, cd);
            let c = count_or(s.charges, skill.skill_id, skill.max_stacks);
            &&& r.charges[skill.skill_id] == (if c > 0 { c - 1 } else { 0 })
            &&& rec == skill.charge_recovery_ms
            &&& r.cooldowns == s.cooldowns
        }),
{
}


/// Law: `earliest_end` is the least cooldown end among the skills that have casts left: no
/// such skill's cooldown ends before it, and it is the end of one of them (or `u64::MAX`
/// when none has casts left).
pub proof fn law_earliest_end_is_least(skills: Seq<SkillTiming>, s: SkillModel, t: u64)
    ensures
        forall|i: int| 0 <= i < skills.len() && ready_time(#[trigger] skills[i], s, t) != u64::MAX
            ==> earliest_end(skills, s, t) <= end_of(skills[i], s),
        earliest_end(skills, s, t) == u64::MAX || exists|i: int| 0 <= i < skills.len()
            && ready_time(#[trigger] skills[i], s, t) != u64::MAX && earliest_end(skills, s, t) == end_of(skills[i], s),
    decreases skills.len(),
{
    if skills.len() > 0 {
        let init = skills.drop_last();
        law_earliest_end_is_least(init, s, t);
        assert forall|i: int| 0 <= i < skills.len() && ready_time(#[trigger] skills[i], s, t) != u64::MAX
            implies earliest_end(skills, s, t) <= end_of(skills[i], s) by {
            if i < skills.len() - 1 {
                assert(init[i] == skills[i]);
            }
        }
        if earliest_end(skills, s, t) != u64::MAX {
            if earliest_end(skills, s, t) == earliest_end(init, s, t) {
                let j = choose|j: int| 0 <= j < init.len() && ready_time(#[trigger] init[j], s, t) != u64::MAX
                    && earliest_end(init, s, t) == end_of(init[j], s);
                assert(skills[j] == init[j]);
            } else {
                assert(ready_time(skills[skills.len() - 1], s, t) != u64::MAX);
            }
        }
    }
}

/// Law: when no combo or chain is running, the next look for a castable skill comes after
/// `t`, and no later than the end of the cooldown of any skill with casts left whose
/// cooldown ends after `t`; when one is running, it is `t` itself.
pub proof fn law_next_ready_is_the_first_end(skills: Seq<SkillTiming>, s: SkillModel, t: u64)
    requires
        t < u64::MAX,
    ensures
        (exists|i: int| 0 <= i < skills.len() && in_progress(#[trigger] skills[i], s, t)) ==> next_ready(skills, s, t) == t,
        !(exists|i: int| 0 <= i < skills.len() && in_progress(#[trigger] skills[i], s, t)) ==> {
            &&& next_ready(skills, s, t) > t
            &&& forall|i: int| 0 <= i < skills.len() && ready_time(#[trigger] skills[i], s, t) != u64::MAX
                && end_of(skills[i], s) > t ==> next_ready(skills, s, t) <= end_of(skills[i], s)
        },
{
    law_earliest_end_is_least(skills, s, t);
}

} // verus!
