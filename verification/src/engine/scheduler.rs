//! Which skill the action list casts next, and when to look again when none can be cast.
//!
//! Whether the character can pay a skill's resource cost is decided outside, on the
//! fractional resource values: it comes in as one flag per skill (`affordable`). The level
//! that each resource condition reads comes in, in thousandths, per action and condition
//! (`levels`).

use vstd::prelude::*;
use crate::builder::apl::{AplAction, AplCondition, CardAplAction};
use crate::engine::buff::{Buff, BuffManager, active_at};
use crate::engine::cards::CardHand;
use crate::engine::cooldown::{SkillState, SkillTiming, SkillModel, available_time, is_available, next_available_time,
    ready_time, next_ready};
use crate::engine::events::{Event, EventQueue};
use crate::engine::sim::{apl_action_conditions_match, apl_condition_matches, condition_holds, earliest_action_threshold,
    last_with_id, lemma_last_unique, next_time_remaining_condition_time, skill_by_id};

verus! {

/// The skill at index `k` is ready at `t` and its cost can be paid.
pub open spec fn castable(skills: Seq<SkillTiming>, s: SkillModel, affordable: Seq<bool>, k: int, t: u64) -> bool {
    ready_time(skills[k], s, t) <= t && affordable[k]
}

/// Every condition of `a` holds; `levels[c]` is what a resource condition `c` reads.
pub open spec fn all_hold(a: AplAction, levels: Seq<i64>, skills: Seq<SkillTiming>, s: SkillModel,
    buffs: Map<Seq<char>, Buff>, target: Map<Seq<char>, Buff>, hand: Seq<u32>, t: u64, max: u64) -> bool
{
    forall|c: int| 0 <= c < a.conditions@.len() ==> condition_holds(#[trigger] a.conditions@[c]@, a.skill_id,
        skills, s, buffs, target, hand, levels[c], t, max)
}

/// The action `a` can be taken now with the skill at index `k`.
pub open spec fn takes(a: AplAction, levels: Seq<i64>, k: int, skills: Seq<SkillTiming>, s: SkillModel, affordable: Seq<bool>,
    buffs: Map<Seq<char>, Buff>, target: Map<Seq<char>, Buff>, hand: Seq<u32>, t: u64, max: u64) -> bool
{
    last_with_id(skills, a.skill_id, k) && castable(skills, s, affordable, k, t)
        && all_hold(a, levels, skills, s, buffs, target, hand, t, max)
}

/// The action `a` can be taken now.
pub open spec fn can_take(a: AplAction, levels: Seq<i64>, skills: Seq<SkillTiming>, s: SkillModel, affordable: Seq<bool>,
    buffs: Map<Seq<char>, Buff>, target: Map<Seq<char>, Buff>, hand: Seq<u32>, t: u64, max: u64) -> bool
{
    exists|k: int| #[trigger] takes(a, levels, k, skills, s, affordable, buffs, target, hand, t, max)
}

/// The skill `id` is known and can be cast now.
pub open spec fn can_cast(id: u32, skills: Seq<SkillTiming>, s: SkillModel, affordable: Seq<bool>, t: u64) -> bool {
    exists|k: int| #[trigger] last_with_id(skills, id, k) && castable(skills, s, affordable, k, t)
}

/// The next cast of the action list: with actions, the first action that can be taken;
/// without, the first skill of `order` that can be cast. Each comes with its skill's index.
pub open spec fn chosen(r: Option<(u32, usize)>, actions: Seq<AplAction>, levels: Seq<Seq<i64>>, order: Seq<u32>,
    skills: Seq<SkillTiming>, s: SkillModel, affordable: Seq<bool>,
    buffs: Map<Seq<char>, Buff>, target: Map<Seq<char>, Buff>, hand: Seq<u32>, t: u64, max: u64) -> bool
{
    if actions.len() > 0 {
        &&& r is Some ==> exists|i: int| 0 <= i < actions.len()
            && #[trigger] takes(actions[i], levels[i], r->Some_0.1 as int, skills, s, affordable, buffs, target, hand, t, max)
            && r->Some_0.0 == actions[i].skill_id
            && forall|j: int| 0 <= j < i ==> !can_take(#[trigger] actions[j], levels[j], skills, s, affordable, buffs, target, hand, t, max)
        &&& r is None ==> forall|j: int| 0 <= j < actions.len()
            ==> !can_take(#[trigger] actions[j], levels[j], skills, s, affordable, buffs, target, hand, t, max)
    } else {
        &&& r is Some ==> exists|i: int| 0 <= i < order.len() && #[trigger] order[i] == r->Some_0.0
            && last_with_id(skills, r->Some_0.0, r->Some_0.1 as int) && castable(skills, s, affordable, r->Some_0.1 as int, t)
            && forall|j: int| 0 <= j < i ==> !can_cast(#[trigger] order[j], skills, s, affordable, t)
        &&& r is None ==> forall|j: int| 0 <= j < order.len() ==> !can_cast(#[trigger] order[j], skills, s, affordable, t)
    }
}

/// Picks the next cast: with actions, the first action whose skill can be cast and whose
/// conditions hold; without, the first skill of `order` that can be cast.
pub fn choose_apl_action(actions: &[AplAction], levels: &[Vec<i64>], order: &[u32], skills: &[SkillTiming], state: &SkillState,
    affordable: &[bool], buffs: &BuffManager, target_buffs: &BuffManager, hand: &CardHand, time_ms: u64, max_time_ms: u64)
    -> (r: Option<(u32, usize)>)
    requires
        time_ms < u64::MAX,
        affordable@.len() == skills@.len(),
        levels@.len() == actions@.len(),
        forall|i: int| 0 <= i < actions@.len() ==> (#[trigger] levels@[i])@.len() == actions@[i].conditions@.len(),
    ensures
        chosen(r, actions@, levels@.map_values(|l: Vec<i64>| l@), order@, skills@, state@, affordable@,
            buffs@, target_buffs@, hand.held(), time_ms, max_time_ms),
{
    let ghost lv = levels@.map_values(|l: Vec<i64>| l@);
    if actions.len() > 0 {
        let mut i: usize = 0;
        while i < actions.len()
            invariant
                0 <= i <= actions@.len(),
                time_ms < u64::MAX,
                affordable@.len() == skills@.len(),
                levels@.len() == actions@.len(),
                lv == levels@.map_values(|l: Vec<i64>| l@),
                forall|i: int| 0 <= i < actions@.len() ==> (#[trigger] levels@[i])@.len() == actions@[i].conditions@.len(),
                forall|j: int| 0 <= j < i ==> !can_take(#[trigger] actions@[j], lv[j], skills@, state@, affordable@,
                    buffs@, target_buffs@, hand.held(), time_ms, max_time_ms),
            decreases actions@.len() - i,
        {
            let a = &actions[i];
            match skill_by_id(skills, a.skill_id) {
                Some(k) => {
                    if is_available(&skills[k], state, time_ms) && affordable[k]
                        && apl_action_conditions_match(a, skills, state, buffs, target_buffs, hand, levels[i].as_slice(),
                            time_ms, max_time_ms)
                    {
                        let ghost r = Some((a.skill_id, k));
                        assert(takes(actions@[i as int], lv[i as int], r->Some_0.1 as int, skills@, state@, affordable@,
                            buffs@, target_buffs@, hand.held(), time_ms, max_time_ms));
                        return Some((a.skill_id, k));
                    }
                    assert forall|m: int| !#[trigger] takes(actions@[i as int], lv[i as int], m, skills@, state@, affordable@,
                        buffs@, target_buffs@, hand.held(), time_ms, max_time_ms) by {
                        if last_with_id(skills@, a.skill_id, m) {
                            lemma_last_unique(skills@, a.skill_id, k as int, m);
                        }
                    }
                },
                None => {},
            }
            i += 1;
        }
        None
    } else {
        let mut i: usize = 0;
        while i < order.len()
            invariant
                actions@.len() == 0,
                0 <= i <= order@.len(),
                time_ms < u64::MAX,
                affordable@.len() == skills@.len(),
                forall|j: int| 0 <= j < i ==> !can_cast(#[trigger] order@[j], skills@, state@, affordable@, time_ms),
            decreases order@.len() - i,
        {
            let id = order[i];
            match skill_by_id(skills, id) {
                Some(k) => {
                    if is_available(&skills[k], state, time_ms) && affordable[k] {
                        assert(order@[i as int] == id);
                        return Some((id, k));
                    }
                    assert forall|m: int| #[trigger] last_with_id(skills@, id, m) implies !castable(skills@, state@, affordable@, m, time_ms) by {
                        lemma_last_unique(skills@, id, k as int, m);
                    }
                },
                None => {},
            }
            i += 1;
        }
        None
    }
}

/// The skill `id` is among `skills`.
pub open spec fn known(skills: Seq<SkillTiming>, id: u32) -> bool {
    exists|k: int| last_with_id(skills, id, k)
}

/// The index of the skill `id` among `skills` (the last one, should there be several).
pub open spec fn slot_of(skills: Seq<SkillTiming>, id: u32) -> int {
    choose|k: int| last_with_id(skills, id, k)
}

/// When the first `n` conditions of an action for skill `current` let it run, from `start`
/// on: a ready condition on a skill waits for that skill, a condition of any other kind must
/// hold now; `None` when one names an unknown skill or does not hold.
pub open spec fn wait_upto(conds: Seq<AplCondition>, levels: Seq<i64>, n: int, current: u32, start: u64,
    skills: Seq<SkillTiming>, s: SkillModel, buffs: Map<Seq<char>, Buff>, target: Map<Seq<char>, Buff>, hand: Seq<u32>,
    t: u64, max: u64) -> Option<u64>
    decreases n,
{
    if n <= 0 {
        Some(start)
    } else {
        match wait_upto(conds, levels, n - 1, current, start, skills, s, buffs, target, hand, t, max) {
            None => None,
            Some(r) => match conds[n - 1] {
                AplCondition::CooldownReady => Some(if r >= start { r } else { start }),
                AplCondition::SkillCooldownReady(id) => if known(skills, id) {
                    let w = ready_time(skills[slot_of(skills, id)], s, t);
                    Some(if r >= w { r } else { w })
                } else {
                    None
                },
                _ => if condition_holds(conds[n - 1]@, current, skills, s, buffs, target, hand, levels[n - 1], t, max) {
                    Some(r)
                } else {
                    None
                },
            },
        }
    }
}

/// When action `a`, which cannot run now, will be able to run without a change of state:
/// its skill must be known and affordable, and the time must lie after `t + 1`.
pub open spec fn action_wait(a: AplAction, levels: Seq<i64>, skills: Seq<SkillTiming>, s: SkillModel, affordable: Seq<bool>,
    buffs: Map<Seq<char>, Buff>, target: Map<Seq<char>, Buff>, hand: Seq<u32>, t: u64, max: u64) -> Option<u64>
{
    if !known(skills, a.skill_id) || !affordable[slot_of(skills, a.skill_id)] {
        None
    } else {
        let start = ready_time(skills[slot_of(skills, a.skill_id)], s, t);
        match wait_upto(a.conditions@, levels, a.conditions@.len() as int, a.skill_id, start, skills, s, buffs, target, hand, t, max) {
            Some(r) => if r > t + 1 { Some(r) } else { None },
            None => None,
        }
    }
}

/// The least wait among the first `n` actions; `u64::MAX` when none has one.
pub open spec fn earliest_wait(actions: Seq<AplAction>, levels: Seq<Seq<i64>>, n: int, skills: Seq<SkillTiming>, s: SkillModel,
    affordable: Seq<bool>, buffs: Map<Seq<char>, Buff>, target: Map<Seq<char>, Buff>, hand: Seq<u32>, t: u64, max: u64) -> u64
    decreases n,
{
    if n <= 0 {
        u64::MAX
    } else {
        let rest = earliest_wait(actions, levels, n - 1, skills, s, affordable, buffs, target, hand, t, max);
        match action_wait(actions[n - 1], levels[n - 1], skills, s, affordable, buffs, target, hand, t, max) {
            Some(w) => if w < rest { w } else { rest },
            None => rest,
        }
    }
}

proof fn lemma_wait_stays_none(conds: Seq<AplCondition>, levels: Seq<i64>, m: int, n: int, current: u32, start: u64,
    skills: Seq<SkillTiming>, s: SkillModel, buffs: Map<Seq<char>, Buff>, target: Map<Seq<char>, Buff>, hand: Seq<u32>,
    t: u64, max: u64)
    requires
        0 <= m <= n,
        wait_upto(conds, levels, m, current, start, skills, s, buffs, target, hand, t, max) is None,
    ensures
        wait_upto(conds, levels, n, current, start, skills, s, buffs, target, hand, t, max) is None,
    decreases n - m,
{
    if m < n {
        lemma_wait_stays_none(conds, levels, m + 1, n, current, start, skills, s, buffs, target, hand, t, max);
    }
}

fn ready_time_by_id(skills: &[SkillTiming], state: &SkillState, id: u32, time_ms: u64) -> (r: Option<u64>)
    requires
        time_ms < u64::MAX,
    ensures
        r is Some <==> known(skills@, id),
        r matches Some(w) ==> w == ready_time(skills@[slot_of(skills@, id)], state@, time_ms),
{
    match skill_by_id(skills, id) {
        Some(k) => {
            proof { lemma_last_unique(skills@, id, k as int, slot_of(skills@, id)); }
            Some(available_time(&skills[k], state, time_ms))
        },
        None => None,
    }
}

fn action_wait_time(a: &AplAction, levels: &[i64], skills: &[SkillTiming], state: &SkillState, affordable: &[bool],
    buffs: &BuffManager, target_buffs: &BuffManager, hand: &CardHand, time_ms: u64, max_time_ms: u64) -> (r: Option<u64>)
    requires
        time_ms < u64::MAX,
        affordable@.len() == skills@.len(),
        levels@.len() == a.conditions@.len(),
    ensures
        r == action_wait(*a, levels@, skills@, state@, affordable@, buffs@, target_buffs@, hand.held(), time_ms, max_time_ms),
{
    let k = match skill_by_id(skills, a.skill_id) {
        Some(k) => k,
        None => return None,
    };
    proof { lemma_last_unique(skills@, a.skill_id, k as int, slot_of(skills@, a.skill_id)); }
    if !affordable[k] {
        return None;
    }
    let start = available_time(&skills[k], state, time_ms);
    let mut ready_at = start;
    let n = a.conditions.len();
    let mut c: usize = 0;
    while c < n
        invariant
            n == a.conditions@.len(),
            levels@.len() == n,
            0 <= c <= n,
            time_ms < u64::MAX,
            k < skills@.len(),
            k as int == slot_of(skills@, a.skill_id),
            start == ready_time(skills@[k as int], state@, time_ms),
            wait_upto(a.conditions@, levels@, c as int, a.skill_id, start, skills@, state@, buffs@, target_buffs@,
                hand.held(), time_ms, max_time_ms) == Some(ready_at),
        decreases n - c,
    {
        match &a.conditions[c] {
            AplCondition::CooldownReady => {
                if start > ready_at {
                    ready_at = start;
                }
            },
            AplCondition::SkillCooldownReady(id) => {
                match ready_time_by_id(skills, state, *id, time_ms) {
                    Some(w) => {
                        if w > ready_at {
                            ready_at = w;
                        }
                    },
                    None => {
                        proof {
                            lemma_wait_stays_none(a.conditions@, levels@, c as int + 1, n as int, a.skill_id, start, skills@,
                                state@, buffs@, target_buffs@, hand.held(), time_ms, max_time_ms);
                        }
                        return None;
                    },
                }
            },
            _ => {
                if !apl_condition_matches(&a.conditions[c], a.skill_id, skills, state, buffs, target_buffs, hand, levels[c],
                    time_ms, max_time_ms) {
                    proof {
                        lemma_wait_stays_none(a.conditions@, levels@, c as int + 1, n as int, a.skill_id, start, skills@,
                            state@, buffs@, target_buffs@, hand.held(), time_ms, max_time_ms);
                    }
                    return None;
                }
            },
        }
        c += 1;
    }
    if ready_at > time_ms + 1 { Some(ready_at) } else { None }
}

/// The earliest time after `time_ms + 1` at which an action that is waiting only on
/// cooldowns could run; `u64::MAX` when there is none.
pub fn next_condition_satisfied_action_time(actions: &[AplAction], levels: &[Vec<i64>], skills: &[SkillTiming], state: &SkillState,
    affordable: &[bool], buffs: &BuffManager, target_buffs: &BuffManager, hand: &CardHand, time_ms: u64, max_time_ms: u64)
    -> (at: u64)
    requires
        time_ms < u64::MAX,
        affordable@.len() == skills@.len(),
        levels@.len() == actions@.len(),
        forall|i: int| 0 <= i < actions@.len() ==> (#[trigger] levels@[i])@.len() == actions@[i].conditions@.len(),
    ensures
        at == earliest_wait(actions@, levels@.map_values(|l: Vec<i64>| l@), actions@.len() as int, skills@, state@, affordable@,
            buffs@, target_buffs@, hand.held(), time_ms, max_time_ms),
{
    let ghost lv = levels@.map_values(|l: Vec<i64>| l@);
    let mut best: u64 = u64::MAX;
    let mut i: usize = 0;
    while i < actions.len()
        invariant
            0 <= i <= actions@.len(),
            time_ms < u64::MAX,
            affordable@.len() == skills@.len(),
            levels@.len() == actions@.len(),
            lv == levels@.map_values(|l: Vec<i64>| l@),
            forall|i: int| 0 <= i < actions@.len() ==> (#[trigger] levels@[i])@.len() == actions@[i].conditions@.len(),
            best == earliest_wait(actions@, lv, i as int, skills@, state@, affordable@, buffs@, target_buffs@, hand.held(),
                time_ms, max_time_ms),
        decreases actions@.len() - i,
    {
        match action_wait_time(&actions[i], levels[i].as_slice(), skills, state, affordable, buffs, target_buffs, hand,
            time_ms, max_time_ms) {
            Some(w) => {
                if w < best {
                    best = w;
                }
            },
            None => {},
        }
        i += 1;
    }
    best
}

/// How long to wait before looking again when nothing can be done now.
pub const IDLE_POLL_INTERVAL_MS: u64 = 50;

/// `x` is the time of a pending event and no event is due before it.
pub open spec fn is_soonest(q: Seq<Event>, x: u64) -> bool {
    (exists|i: int| 0 <= i < q.len() && #[trigger] q[i].time_ms == x)
        && forall|j: int| 0 <= j < q.len() ==> x <= #[trigger] q[j].time_ms
}

/// The time of the event due first; `u64::MAX` when none is pending.
pub open spec fn soonest(q: Seq<Event>) -> u64 {
    if q.len() == 0 {
        u64::MAX
    } else {
        choose|x: u64| #[trigger] is_soonest(q, x)
    }
}

/// The next action check when nothing was cast at `t`: the earliest of the waiting action
/// (`ready`), the next event and the next time-remaining threshold; with no waiting action
/// the next cooldown end (`cooldown`) takes its place, or a poll interval when that is
/// already due. Never sooner than `t + 2`; else one poll interval on.
pub open spec fn next_check(ready: u64, cooldown: u64, event: u64, time_cond: u64, t: u64) -> u64 {
    let change = if event < time_cond { event } else { time_cond };
    let poll = t + IDLE_POLL_INTERVAL_MS;
    let next: int = if ready != u64::MAX {
        if ready < change { ready as int } else { change as int }
    } else if cooldown <= t + 1 {
        if change < poll { change as int } else { poll }
    } else {
        if cooldown < change { cooldown as int } else { change as int }
    };
    if next > t + 1 { next as u64 } else { poll as u64 }
}

/// When to run the next action check after one at `time_ms` that cast nothing.
pub fn next_action_check_time(actions: &[AplAction], levels: &[Vec<i64>], skills: &[SkillTiming], state: &SkillState,
    affordable: &[bool], buffs: &BuffManager, target_buffs: &BuffManager, hand: &CardHand, queue: &EventQueue,
    time_ms: u64, max_time_ms: u64) -> (at: u64)
    requires
        time_ms + IDLE_POLL_INTERVAL_MS <= u64::MAX,
        affordable@.len() == skills@.len(),
        levels@.len() == actions@.len(),
        forall|i: int| 0 <= i < actions@.len() ==> (#[trigger] levels@[i])@.len() == actions@[i].conditions@.len(),
    ensures
        at == next_check(
            earliest_wait(actions@, levels@.map_values(|l: Vec<i64>| l@), actions@.len() as int, skills@, state@, affordable@,
                buffs@, target_buffs@, hand.held(), time_ms, max_time_ms),
            next_ready(skills@, state@, time_ms),
            soonest(queue.pending()),
            earliest_action_threshold(actions@, time_ms, max_time_ms),
            time_ms,
        ),
        at > time_ms + 1,
{
    let next_action_ready = next_condition_satisfied_action_time(actions, levels, skills, state, affordable, buffs, target_buffs,
        hand, time_ms, max_time_ms);
    let next_cooldown = next_available_time(skills, state, time_ms);
    let next_event = match queue.peek_time() {
        Some(t) => t,
        None => u64::MAX,
    };
    proof {
        let q = queue.pending();
        if q.len() > 0 {
            let x = soonest(q);
            assert(is_soonest(q, next_event));
            let i = choose|i: int| 0 <= i < q.len() && #[trigger] q[i].time_ms == x;
            let j = choose|j: int| 0 <= j < q.len() && #[trigger] q[j].time_ms == next_event;
            assert(x <= q[j].time_ms);
            assert(next_event <= q[i].time_ms);
        }
    }
    let next_time_condition = next_time_remaining_condition_time(actions, time_ms, max_time_ms);
    let next_state_change = if next_event < next_time_condition { next_event } else { next_time_condition };
    let poll = time_ms + IDLE_POLL_INTERVAL_MS;
    let next = if next_action_ready != u64::MAX {
        if next_action_ready < next_state_change { next_action_ready } else { next_state_change }
    } else if next_cooldown <= time_ms + 1 {
        if next_state_change < poll { next_state_change } else { poll }
    } else {
        if next_cooldown < next_state_change { next_cooldown } else { next_state_change }
    };
    if next > time_ms + 1 { next } else { poll }
}

/// Condition `c` of a card action holds; a next-skill condition holds when the skill the
/// action list would cast next is that skill.
pub open spec fn card_condition_holds(c: AplCondition, level: i64, next_skill: Option<u32>, skills: Seq<SkillTiming>,
    s: SkillModel, buffs: Map<Seq<char>, Buff>, target: Map<Seq<char>, Buff>, hand: Seq<u32>, t: u64, max: u64) -> bool
{
    match c {
        AplCondition::NextSkill(id) => next_skill == Some(id),
        _ => condition_holds(c@, 0, skills, s, buffs, target, hand, level, t, max),
    }
}

/// An active buff of `blocking` stops card `card` from being played.
pub open spec fn blocked(card: u32, blocking: Seq<(u32, String)>, buffs: Map<Seq<char>, Buff>, t: u64) -> bool {
    exists|i: int| 0 <= i < blocking.len() && #[trigger] blocking[i].0 == card && active_at(buffs, blocking[i].1@, t)
}

/// The card action can be played now: its card is held and not blocked, and every
/// condition holds.
pub open spec fn playable(a: CardAplAction, levels: Seq<i64>, next_skill: Option<u32>, blocking: Seq<(u32, String)>,
    skills: Seq<SkillTiming>, s: SkillModel, buffs: Map<Seq<char>, Buff>, target: Map<Seq<char>, Buff>, hand: Seq<u32>,
    t: u64, max: u64) -> bool
{
    &&& !blocked(a.card_id, blocking, buffs, t)
    &&& forall|c: int| 0 <= c < a.conditions@.len() ==> card_condition_holds(#[trigger] a.conditions@[c], levels[c], next_skill,
            skills, s, buffs, target, hand, t, max)
    &&& hand.contains(a.card_id)
}

fn is_blocked(card: u32, blocking: &[(u32, String)], buffs: &BuffManager, time_ms: u64) -> (r: bool)
    ensures
        r == blocked(card, blocking@, buffs@, time_ms),
{
    let mut i: usize = 0;
    while i < blocking.len()
        invariant
            0 <= i <= blocking@.len(),
            forall|j: int| 0 <= j < i ==> !(#[trigger] blocking@[j].0 == card && active_at(buffs@, blocking@[j].1@, time_ms)),
        decreases blocking@.len() - i,
    {
        if blocking[i].0 == card && buffs.is_active(blocking[i].1.as_str(), time_ms) {
            return true;
        }
        i += 1;
    }
    false
}

fn card_conditions_match(a: &CardAplAction, levels: &[i64], next_skill: Option<u32>, skills: &[SkillTiming], state: &SkillState,
    buffs: &BuffManager, target_buffs: &BuffManager, hand: &CardHand, time_ms: u64, max_time_ms: u64) -> (r: bool)
    requires
        time_ms < u64::MAX,
        levels@.len() == a.conditions@.len(),
    ensures
        r == forall|c: int| 0 <= c < a.conditions@.len() ==> card_condition_holds(#[trigger] a.conditions@[c], levels@[c], next_skill,
            skills@, state@, buffs@, target_buffs@, hand.held(), time_ms, max_time_ms),
{
    let mut c: usize = 0;
    while c < a.conditions.len()
        invariant
            0 <= c <= a.conditions@.len(),
            time_ms < u64::MAX,
            levels@.len() == a.conditions@.len(),
            forall|k: int| 0 <= k < c ==> card_condition_holds(#[trigger] a.conditions@[k], levels@[k], next_skill,
                skills@, state@, buffs@, target_buffs@, hand.held(), time_ms, max_time_ms),
        decreases a.conditions@.len() - c,
    {
        let holds = match &a.conditions[c] {
            AplCondition::NextSkill(id) => match next_skill {
                Some(n) => n == *id,
                None => false,
            },
            _ => apl_condition_matches(&a.conditions[c], 0, skills, state, buffs, target_buffs, hand, levels[c], time_ms, max_time_ms),
        };
        if !holds {
            return false;
        }
        c += 1;
    }
    true
}

/// Plays the first card action that can be played now: its card leaves the hand and its
/// index is returned. `next_skill` is what the action list would cast next; `blocking`
/// pairs cards with the buffs that stop them.
pub fn next_card_action(card_actions: &[CardAplAction], levels: &[Vec<i64>], next_skill: Option<u32>, blocking: &[(u32, String)],
    skills: &[SkillTiming], state: &SkillState, buffs: &BuffManager, target_buffs: &BuffManager, hand: &mut CardHand,
    time_ms: u64, max_time_ms: u64) -> (r: Option<usize>)
    requires
        time_ms < u64::MAX,
        levels@.len() == card_actions@.len(),
        forall|i: int| 0 <= i < card_actions@.len() ==> (#[trigger] levels@[i])@.len() == card_actions@[i].conditions@.len(),
    ensures
        final(hand).pool() == old(hand).pool(),
        final(hand).last_used() == old(hand).last_used(),
        r is None ==> final(hand).held() == old(hand).held()
            && forall|j: int| 0 <= j < card_actions@.len() ==> !playable(#[trigger] card_actions@[j], levels@[j]@, next_skill, blocking@,
                skills@, state@, buffs@, target_buffs@, old(hand).held(), time_ms, max_time_ms),
        r matches Some(i) ==> i < card_actions@.len()
            && playable(card_actions@[i as int], levels@[i as int]@, next_skill, blocking@, skills@, state@, buffs@, target_buffs@,
                old(hand).held(), time_ms, max_time_ms)
            && (forall|j: int| 0 <= j < i ==> !playable(#[trigger] card_actions@[j], levels@[j]@, next_skill, blocking@,
                skills@, state@, buffs@, target_buffs@, old(hand).held(), time_ms, max_time_ms))
            && exists|k: int| 0 <= k < old(hand).held().len()
                && old(hand).held()[k] == card_actions@[i as int].card_id
                && (forall|j: int| 0 <= j < k ==> #[trigger] old(hand).held()[j] != card_actions@[i as int].card_id)
                && final(hand).held() == old(hand).held().remove(k),
{
    let mut i: usize = 0;
    while i < card_actions.len()
        invariant
            0 <= i <= card_actions@.len(),
            time_ms < u64::MAX,
            levels@.len() == card_actions@.len(),
            forall|i: int| 0 <= i < card_actions@.len() ==> (#[trigger] levels@[i])@.len() == card_actions@[i].conditions@.len(),
            hand.held() == old(hand).held(),
            hand.pool() == old(hand).pool(),
            hand.last_used() == old(hand).last_used(),
            forall|j: int| 0 <= j < i ==> !playable(#[trigger] card_actions@[j], levels@[j]@, next_skill, blocking@,
                skills@, state@, buffs@, target_buffs@, old(hand).held(), time_ms, max_time_ms),
        decreases card_actions@.len() - i,
    {
        let a = &card_actions[i];
        if !is_blocked(a.card_id, blocking, buffs, time_ms)
            && card_conditions_match(a, levels[i].as_slice(), next_skill, skills, state, buffs, target_buffs, hand,
                time_ms, max_time_ms)
        {
            if hand.use_card(a.card_id) {
                return Some(i);
            }
        }
        i += 1;
    }
    None
}

} // verus!
