//! Trigger effects that need no fractional numbers: buffs and debuffs, card draws,
//! cooldown resets, damage-over-time schedules, and sequences, chances, random choices and
//! delayed schedules of such effects. Effects that change resources or scale cooldowns by
//! a percentage are applied by the caller.

use vstd::prelude::*;
use crate::engine::buff::{Buff, BuffManager, active_at};
use crate::engine::cards::{CardHand, CardPoolEntry, DRAW_SCALE, HAND_LIMIT, after_draw, split_roll};
use crate::engine::rng::xorshift;
use crate::engine::cooldown::{SkillModel, SkillState};
use crate::engine::events::{Event, EventData, EventQueue, PRIORITY_SCHEDULED_TRIGGER};
use crate::engine::rng::Rng;
use crate::engine::sim::{apply_timed_buff, cast_given_back, dot_scheduled, reset_consumed_skill_cooldown, schedule_dot,
    timed_applied};
use crate::engine::triggers::TriggerEffect;

verus! {

/// The state that trigger effects change, by its views.
pub struct EffectState {
    pub skills: SkillModel,
    pub buffs: Map<Seq<char>, Buff>,
    pub target: Map<Seq<char>, Buff>,
    pub held: Seq<u32>,
    pub queue: Seq<Event>,
    pub rng: u64,
}

/// `apply_state_effect` applies the effect itself.
pub open spec fn is_state_effect(e: TriggerEffect) -> bool {
    match e {
        TriggerEffect::ApplyBuff(_) => true,
        TriggerEffect::ApplyBuffStacks { .. } => true,
        TriggerEffect::ConsumeBuffStacks { .. } => true,
        TriggerEffect::ApplyTargetBuff(_) => true,
        TriggerEffect::ApplyTargetBuffStacks { .. } => true,
        TriggerEffect::SetTargetBuffStacks { .. } => true,
        TriggerEffect::DrawCard => true,
        TriggerEffect::DrawLastUsedCard => true,
        TriggerEffect::ResetSkillCooldown => true,
        TriggerEffect::ResetConsumedSkillCooldown { .. } => true,
        TriggerEffect::ScheduleDot { .. } => true,
        _ => false,
    }
}

/// The buffs after taking `stacks` stacks off buff `id` at `t`: an expired buff, or one with
/// no more than that many stacks, goes.
pub open spec fn stacks_taken(m: Map<Seq<char>, Buff>, id: Seq<char>, stacks: u32, t: u64) -> Map<Seq<char>, Buff> {
    if !m.contains_key(id) {
        m
    } else if m[id].expire_time <= t || m[id].stacks <= stacks {
        m.remove(id)
    } else {
        m.insert(id, Buff { stacks: (m[id].stacks - stacks) as u32, ..m[id] })
    }
}

/// `a` is `b` after effect `e` of skill `skill_id` at `t`, with the hand drawing from `pool`
/// and remembering `last_used`; an effect that `apply_state_effect` does not apply changes
/// nothing.
pub open spec fn effect_applied(e: TriggerEffect, skill_id: u32, t: u64, pool: Seq<CardPoolEntry>,
    last_used: Option<u32>, b: EffectState, a: EffectState) -> bool
{
    match e {
        TriggerEffect::ApplyBuff(spec) =>
            timed_applied(b.buffs, a.buffs, b.queue, a.queue, spec, 1, false, t) && a == EffectState { buffs: a.buffs, queue: a.queue, ..b },
        TriggerEffect::ApplyBuffStacks { spec, stacks } =>
            timed_applied(b.buffs, a.buffs, b.queue, a.queue, spec, stacks, false, t) && a == EffectState { buffs: a.buffs, queue: a.queue, ..b },
        TriggerEffect::ConsumeBuffStacks { buff_id, stacks } =>
            a == EffectState { buffs: stacks_taken(b.buffs, buff_id@, stacks, t), ..b },
        TriggerEffect::ApplyTargetBuff(spec) =>
            timed_applied(b.target, a.target, b.queue, a.queue, spec, 1, true, t) && a == EffectState { target: a.target, queue: a.queue, ..b },
        TriggerEffect::ApplyTargetBuffStacks { spec, stacks } =>
            timed_applied(b.target, a.target, b.queue, a.queue, spec, stacks, true, t) && a == EffectState { target: a.target, queue: a.queue, ..b },
        TriggerEffect::SetTargetBuffStacks { spec, stacks } =>
            timed_applied(b.target.remove(spec.id@), a.target, b.queue, a.queue, spec, stacks, true, t)
                && a == EffectState { target: a.target, queue: a.queue, ..b },
        TriggerEffect::DrawCard =>
            (a.held, a.rng) == after_draw(pool, b.held, b.rng) && a == EffectState { held: a.held, rng: a.rng, ..b },
        TriggerEffect::DrawLastUsedCard => a == EffectState {
            held: match last_used {
                Some(id) if b.held.len() < HAND_LIMIT => b.held.push(id),
                _ => b.held,
            },
            ..b
        },
        TriggerEffect::ResetSkillCooldown =>
            a == EffectState { skills: SkillModel { cooldowns: b.skills.cooldowns.remove(skill_id), ..b.skills }, ..b },
        TriggerEffect::ResetConsumedSkillCooldown { buff_id, max_charges } =>
            cast_given_back(b.skills, a.skills, b.buffs, a.buffs, skill_id, buff_id@, max_charges)
                && a == EffectState { skills: a.skills, buffs: a.buffs, ..b },
        TriggerEffect::ScheduleDot { dot_id, hit, first_tick_ms, tick_interval_ms, tick_count, refresh } =>
            dot_scheduled(b.queue, a.queue, dot_id@, skill_id, hit, first_tick_ms, tick_interval_ms, tick_count, refresh, t)
                && a == EffectState { queue: a.queue, ..b },
        _ => a == b,
    }
}

/// The effect, and every effect that it runs now, can be applied at `t` without overflow.
pub open spec fn effect_fits(e: TriggerEffect, t: u64, pool: Seq<CardPoolEntry>) -> bool
    decreases e, 1nat,
{
    match e {
        TriggerEffect::Sequence(effects) => all_fit(effects@, t, pool),
        TriggerEffect::Chance { effect, .. } => effect_fits(*effect, t, pool),
        TriggerEffect::RandomChoice(effects) => all_fit(effects@, t, pool),
        TriggerEffect::WeightedRandomChoice(choices) => all_choices_fit(choices@, t, pool),
        TriggerEffect::Schedule { delay_ms, .. } => t + delay_ms <= u64::MAX,
        TriggerEffect::ApplyBuff(spec) => t + spec.duration_ms <= u64::MAX,
        TriggerEffect::ApplyBuffStacks { spec, .. } => t + spec.duration_ms <= u64::MAX,
        TriggerEffect::ApplyTargetBuff(spec) => t + spec.duration_ms <= u64::MAX,
        TriggerEffect::ApplyTargetBuffStacks { spec, .. } => t + spec.duration_ms <= u64::MAX,
        TriggerEffect::SetTargetBuffStacks { spec, .. } => t + spec.duration_ms <= u64::MAX,
        TriggerEffect::ScheduleDot { first_tick_ms, .. } => t + first_tick_ms <= u64::MAX,
        _ => true,
    }
}

/// Every effect of the sequence fits.
pub open spec fn all_fit(effects: Seq<TriggerEffect>, t: u64, pool: Seq<CardPoolEntry>) -> bool
    decreases effects, 0nat,
{
    if effects.len() == 0 {
        true
    } else {
        all_fit(effects.drop_last(), t, pool) && effect_fits(effects.last(), t, pool)
    }
}

/// Every effect among the weighted choices fits.
pub open spec fn all_choices_fit(choices: Seq<(u64, TriggerEffect)>, t: u64, pool: Seq<CardPoolEntry>) -> bool
    decreases choices, 0nat,
{
    if choices.len() == 0 {
        true
    } else {
        all_choices_fit(choices.drop_last(), t, pool) && effect_fits(choices.last().1, t, pool)
    }
}

/// Applies effect `e` of skill `skill_id` at `time_ms` when it changes only buffs, cards,
/// cooldowns or the queue, and says whether it did; any other effect is left to the caller.
pub fn apply_state_effect(e: &TriggerEffect, skill_id: u32, skills: &mut SkillState, buffs: &mut BuffManager,
    target_buffs: &mut BuffManager, hand: &mut CardHand, queue: &mut EventQueue, rng: &mut Rng, time_ms: u64) -> (handled: bool)
    requires
        effect_fits(*e, time_ms, old(hand).pool()),
    ensures
        handled == is_state_effect(*e),
        final(hand).pool() == old(hand).pool(),
        final(hand).last_used() == old(hand).last_used(),
        effect_applied(*e, skill_id, time_ms, old(hand).pool(), old(hand).last_used(),
            EffectState { skills: old(skills)@, buffs: old(buffs)@, target: old(target_buffs)@, held: old(hand).held(),
                queue: old(queue).pending(), rng: old(rng)@ },
            EffectState { skills: final(skills)@, buffs: final(buffs)@, target: final(target_buffs)@, held: final(hand).held(),
                queue: final(queue).pending(), rng: final(rng)@ }),
{
    match e {
        TriggerEffect::ApplyBuff(spec) => {
            apply_timed_buff(spec.clone(), 1, false, buffs, queue, time_ms);
            true
        },
        TriggerEffect::ApplyBuffStacks { spec, stacks } => {
            apply_timed_buff(spec.clone(), *stacks, false, buffs, queue, time_ms);
            true
        },
        TriggerEffect::ConsumeBuffStacks { buff_id, stacks } => {
            buffs.consume_stacks(buff_id.as_str(), *stacks, time_ms);
            true
        },
        TriggerEffect::ApplyTargetBuff(spec) => {
            apply_timed_buff(spec.clone(), 1, true, target_buffs, queue, time_ms);
            true
        },
        TriggerEffect::ApplyTargetBuffStacks { spec, stacks } => {
            apply_timed_buff(spec.clone(), *stacks, true, target_buffs, queue, time_ms);
            true
        },
        TriggerEffect::SetTargetBuffStacks { spec, stacks } => {
            target_buffs.expire(spec.id.as_str());
            apply_timed_buff(spec.clone(), *stacks, true, target_buffs, queue, time_ms);
            true
        },
        TriggerEffect::DrawCard => {
            hand.draw_card(rng);
            true
        },
        TriggerEffect::DrawLastUsedCard => {
            hand.draw_last_used_card();
            true
        },
        TriggerEffect::ResetSkillCooldown => {
            skills.skill_cooldowns.remove(skill_id);
            true
        },
        TriggerEffect::ResetConsumedSkillCooldown { buff_id, max_charges } => {
            reset_consumed_skill_cooldown(skills, buffs, skill_id, buff_id.as_str(), *max_charges);
            true
        },
        TriggerEffect::ScheduleDot { dot_id, hit, first_tick_ms, tick_interval_ms, tick_count, refresh } => {
            schedule_dot(queue, dot_id.as_str(), skill_id, *hit, *first_tick_ms, *tick_interval_ms, *tick_count, *refresh, time_ms);
            true
        },
        _ => false,
    }
}

/// The effect runs nothing that needs fractional numbers: it is a state effect, a sequence,
/// a chance or a (weighted) random choice of such effects, a target-buff consumption that
/// gains no resource, or a schedule (whose effect runs later).
pub open spec fn runs_here(e: TriggerEffect) -> bool
    decreases e, 1nat,
{
    match e {
        TriggerEffect::Sequence(effects) => all_run_here(effects@),
        TriggerEffect::Chance { effect, .. } => runs_here(*effect),
        TriggerEffect::RandomChoice(effects) => all_run_here(effects@),
        TriggerEffect::WeightedRandomChoice(choices) => all_choices_run_here(choices@),
        TriggerEffect::ConsumeTargetBuff { preserve_resource_gain, .. } => preserve_resource_gain is None,
        TriggerEffect::Schedule { .. } => true,
        _ => is_state_effect(e),
    }
}

/// Every effect of the sequence runs here.
pub open spec fn all_run_here(effects: Seq<TriggerEffect>) -> bool
    decreases effects, 0nat,
{
    if effects.len() == 0 {
        true
    } else {
        all_run_here(effects.drop_last()) && runs_here(effects.last())
    }
}

/// Every effect among the weighted choices runs here.
pub open spec fn all_choices_run_here(choices: Seq<(u64, TriggerEffect)>) -> bool
    decreases choices, 0nat,
{
    if choices.len() == 0 {
        true
    } else {
        all_choices_run_here(choices.drop_last()) && runs_here(choices.last().1)
    }
}

/// A chance of `chance` millionths comes up for the random value `x`: the top 53 bits of
/// `x`, read as a fraction, are below the chance.
pub open spec fn chance_hits(x: u64, chance: u32) -> bool {
    (x >> 11u64) * 1_000_000 < chance * DRAW_SCALE
}

/// The index that a random value `x` picks uniformly among `len` choices: the top 53 bits
/// of `x`, read as a fraction, times `len`, rounded down.
pub open spec fn uniform_index(x: u64, len: nat) -> int {
    ((x >> 11u64) * len) / (DRAW_SCALE as int)
}

/// The sum of the weights of the choices.
pub open spec fn choice_weight(choices: Seq<(u64, TriggerEffect)>) -> nat
    decreases choices.len(),
{
    if choices.len() == 0 { 0 } else { choice_weight(choices.drop_last()) + choices.last().0 as nat }
}

/// The index of the choice that a roll of `roll` (in units of 2^-53 of a weight) picks:
/// walking the choices in order and taking each weight off the roll, the first one that
/// leaves nothing.
pub open spec fn picked(choices: Seq<(u64, TriggerEffect)>, roll: int) -> Option<int>
    decreases choices.len(),
{
    if choices.len() == 0 {
        None
    } else if roll - choices[0].0 * DRAW_SCALE <= 0 {
        Some(0)
    } else {
        match picked(choices.skip(1), roll - choices[0].0 * DRAW_SCALE) {
            Some(i) => Some(i + 1),
            None => None,
        }
    }
}

/// `a` is `b` after effect `e` of skill `skill_id` at `t`: a sequence runs its effects in
/// order; a chance takes one random value and runs its effect when it comes up; a random
/// choice takes one random value, when there is something to choose, and runs the effect
/// it picks (uniformly, or by weight); a target-buff consumption may keep the buff on a
/// chance (taken only when the required stacks are there and the chance is positive) and
/// otherwise removes it; a schedule queues its effect at `t` plus its delay; any other
/// effect is a state effect.
pub open spec fn effect_done(e: TriggerEffect, skill_id: u32, t: u64, pool: Seq<CardPoolEntry>, last_used: Option<u32>,
    b: EffectState, a: EffectState) -> bool
    decreases e, 1nat,
{
    match e {
        TriggerEffect::Sequence(effects) => sequence_done(effects@, skill_id, t, pool, last_used, b, a),
        TriggerEffect::Chance { chance, effect } => {
            let x = xorshift(b.rng);
            let rolled = EffectState { rng: x, ..b };
            if chance_hits(x, chance) {
                effect_done(*effect, skill_id, t, pool, last_used, rolled, a)
            } else {
                a == rolled
            }
        },
        TriggerEffect::RandomChoice(effects) => {
            if effects@.len() == 0 {
                a == b
            } else {
                let x = xorshift(b.rng);
                let rolled = EffectState { rng: x, ..b };
                let i = uniform_index(x, effects@.len());
                if 0 <= i < effects@.len() {
                    effect_done(effects@[i], skill_id, t, pool, last_used, rolled, a)
                } else {
                    a == rolled
                }
            }
        },
        TriggerEffect::WeightedRandomChoice(choices) => {
            let total = choice_weight(choices@);
            if total == 0 {
                a == b
            } else {
                let x = xorshift(b.rng);
                let rolled = EffectState { rng: x, ..b };
                match picked(choices@, (x >> 11u64) * total) {
                    Some(i) => if 0 <= i < choices@.len() {
                        effect_done(choices@[i].1, skill_id, t, pool, last_used, rolled, a)
                    } else {
                        a == rolled
                    },
                    None => a == rolled,
                }
            }
        },
        TriggerEffect::ConsumeTargetBuff { buff_id, preserve_chance, preserve_required_stacks, .. } => {
            let id = buff_id@;
            let stacks: u32 = if active_at(b.target, id, t) { b.target[id].stacks } else { 0 };
            let tries = (preserve_required_stacks == 0 || stacks == preserve_required_stacks) && preserve_chance > 0;
            let x = xorshift(b.rng);
            if tries && chance_hits(x, preserve_chance) {
                a == EffectState { rng: x, ..b }
            } else if tries {
                a == EffectState { rng: x, target: b.target.remove(id), ..b }
            } else {
                a == EffectState { target: b.target.remove(id), ..b }
            }
        },
        TriggerEffect::Schedule { delay_ms, effect } => a == EffectState {
            queue: b.queue.push(Event {
                time_ms: (t + delay_ms) as u64,
                priority: PRIORITY_SCHEDULED_TRIGGER,
                data: EventData::ScheduledTrigger { skill_id, effect },
            }),
            ..b
        },
        _ => effect_applied(e, skill_id, t, pool, last_used, b, a),
    }
}

/// `a` is `b` after the effects of the sequence, in order.
pub open spec fn sequence_done(effects: Seq<TriggerEffect>, skill_id: u32, t: u64, pool: Seq<CardPoolEntry>,
    last_used: Option<u32>, b: EffectState, a: EffectState) -> bool
    decreases effects, 0nat,
{
    if effects.len() == 0 {
        a == b
    } else {
        exists|m: EffectState| #![trigger m.rng] sequence_done(effects.drop_last(), skill_id, t, pool, last_used, b, m)
            && effect_done(effects.last(), skill_id, t, pool, last_used, m, a)
    }
}

proof fn lemma_all_run_here(effects: Seq<TriggerEffect>, k: int)
    requires
        all_run_here(effects),
        0 <= k < effects.len(),
    ensures
        runs_here(effects[k]),
    decreases effects.len(),
{
    if k < effects.len() - 1 {
        lemma_all_run_here(effects.drop_last(), k);
    }
}

proof fn lemma_all_fit(effects: Seq<TriggerEffect>, k: int, t: u64, pool: Seq<CardPoolEntry>)
    requires
        all_fit(effects, t, pool),
        0 <= k < effects.len(),
    ensures
        effect_fits(effects[k], t, pool),
    decreases effects.len(),
{
    if k < effects.len() - 1 {
        lemma_all_fit(effects.drop_last(), k, t, pool);
    }
}

/// Whether a chance of `chance` millionths comes up for the random value `x`.
fn chance_came_up(x: u64, chance: u32) -> (r: bool)
    ensures
        r == chance_hits(x, chance),
{
    ((x >> 11) as u128) * 1_000_000 < (chance as u128) * DRAW_SCALE
}

/// `o` with its index moved on by `d`.
pub open spec fn shifted(o: Option<int>, d: int) -> Option<int> {
    match o {
        Some(i) => Some(i + d),
        None => None,
    }
}

/// The sum of the weights of the choices.
fn choice_total(choices: &Vec<(u64, TriggerEffect)>) -> (total: u128)
    ensures
        total == choice_weight(choices@),
{
    let n = choices.len();
    let mut total: u128 = 0;
    let mut k: usize = 0;
    while k < n
        invariant
            n == choices@.len(),
            0 <= k <= n,
            total == choice_weight(choices@.take(k as int)),
            total <= k * 0xFFFF_FFFF_FFFF_FFFFu128,
        decreases n - k,
    {
        proof {
            assert(choices@.take(k as int + 1).drop_last() =~= choices@.take(k as int));
        }
        total = total + choices[k].0 as u128;
        k += 1;
    }
    assert(choices@.take(n as int) =~= choices@);
    total
}

/// The index of the choice that the roll `q * 2^53 + rem` picks.
fn pick_choice(choices: &Vec<(u64, TriggerEffect)>, q: u128, rem: u128, Ghost(roll): Ghost<int>) -> (r: Option<usize>)
    requires
        roll == q * DRAW_SCALE + rem,
        rem < DRAW_SCALE,
    ensures
        match r {
            Some(j) => picked(choices@, roll) == Some(j as int) && j < choices@.len(),
            None => picked(choices@, roll) is None,
        },
{
    let n = choices.len();
    let ghost all = choices@;
    let mut cum: u128 = 0;
    let mut j: usize = 0;
    assert(all.skip(0) =~= all);
    while j < n
        invariant
            n == all.len(),
            all == choices@,
            0 <= j <= n,
            roll == q * DRAW_SCALE + rem,
            rem < DRAW_SCALE,
            cum <= j * 0xFFFF_FFFF_FFFF_FFFFu128,
            picked(all, roll) == shifted(picked(all.skip(j as int), roll - cum * DRAW_SCALE), j as int),
        decreases n - j,
    {
        let w = choices[j].0;
        let next: u128 = cum + w as u128;
        proof {
            let tail = all.skip(j as int);
            assert(tail[0] == all[j as int]);
            assert(tail.skip(1) =~= all.skip(j as int + 1));
            assert(roll - cum * DRAW_SCALE - w * DRAW_SCALE == roll - next * DRAW_SCALE);
        }
        if q < next || (q == next && rem == 0) {
            proof {
                assert(roll - next * DRAW_SCALE <= 0);
            }
            return Some(j);
        }
        proof {
            assert(roll - next * DRAW_SCALE > 0);
            let o = picked(all.skip(j as int + 1), roll - next * DRAW_SCALE);
            assert(shifted(shifted(o, 1), j as int) == shifted(o, j as int + 1));
        }
        cum = next;
        j += 1;
    }
    assert(all.skip(n as int).len() == 0);
    None
}

proof fn lemma_all_choices_run_here(choices: Seq<(u64, TriggerEffect)>, k: int)
    requires
        all_choices_run_here(choices),
        0 <= k < choices.len(),
    ensures
        runs_here(choices[k].1),
    decreases choices.len(),
{
    if k < choices.len() - 1 {
        lemma_all_choices_run_here(choices.drop_last(), k);
    }
}

proof fn lemma_all_choices_fit(choices: Seq<(u64, TriggerEffect)>, k: int, t: u64, pool: Seq<CardPoolEntry>)
    requires
        all_choices_fit(choices, t, pool),
        0 <= k < choices.len(),
    ensures
        effect_fits(choices[k].1, t, pool),
    decreases choices.len(),
{
    if k < choices.len() - 1 {
        lemma_all_choices_fit(choices.drop_last(), k, t, pool);
    }
}

/// Runs effect `e` of skill `skill_id` at `time_ms`: the effects of a sequence in order, the
/// effect of a chance when it comes up, the effect a random choice picks, a target-buff
/// consumption, and a schedule by queueing its effect.
pub fn apply_effect(e: TriggerEffect, skill_id: u32, skills: &mut SkillState, buffs: &mut BuffManager,
    target_buffs: &mut BuffManager, hand: &mut CardHand, queue: &mut EventQueue, rng: &mut Rng, time_ms: u64)
    requires
        runs_here(e),
        effect_fits(e, time_ms, old(hand).pool()),
    ensures
        final(hand).pool() == old(hand).pool(),
        final(hand).last_used() == old(hand).last_used(),
        effect_done(e, skill_id, time_ms, old(hand).pool(), old(hand).last_used(),
            EffectState { skills: old(skills)@, buffs: old(buffs)@, target: old(target_buffs)@, held: old(hand).held(),
                queue: old(queue).pending(), rng: old(rng)@ },
            EffectState { skills: final(skills)@, buffs: final(buffs)@, target: final(target_buffs)@, held: final(hand).held(),
                queue: final(queue).pending(), rng: final(rng)@ }),
    decreases e,
{
    let ghost ge = e;
    let ghost start = EffectState { skills: skills@, buffs: buffs@, target: target_buffs@, held: hand.held(),
        queue: queue.pending(), rng: rng@ };
    let ghost pool = hand.pool();
    let ghost last_used = hand.last_used();
    match e {
        TriggerEffect::Sequence(mut effects) => {
            let ghost v0 = effects;
            let ghost all = effects@;
            let ghost mut k: int = 0;
            assert(all.take(0) =~= Seq::<TriggerEffect>::empty());
            while effects.len() > 0
                invariant
                    0 <= k <= all.len(),
                    all == v0@,
                    ge == TriggerEffect::Sequence(v0),
                    ge == e,
                    effects@ == all.skip(k),
                    all_run_here(all),
                    all_fit(all, time_ms, pool),
                    hand.pool() == pool,
                    hand.last_used() == last_used,
                    sequence_done(all.take(k), skill_id, time_ms, pool, last_used, start,
                        EffectState { skills: skills@, buffs: buffs@, target: target_buffs@, held: hand.held(),
                            queue: queue.pending(), rng: rng@ }),
                decreases effects@.len(),
            {
                let x = effects.remove(0);
                proof {
                    assert(x == all[k]);
                    lemma_all_run_here(all, k);
                    lemma_all_fit(all, k, time_ms, pool);
                    assert(decreases_to!(ge => ge->Sequence_0));
                    assert(ge->Sequence_0 == v0);
                    assert(decreases_to!(v0 => v0@));
                    assert(decreases_to!(v0@ => v0@[k]));
                    assert(decreases_to!(ge => x));
                }
                let ghost rng_before = rng@;
                let ghost before = EffectState { skills: skills@, buffs: buffs@, target: target_buffs@, held: hand.held(),
                    queue: queue.pending(), rng: rng@ };
                apply_effect(x, skill_id, skills, buffs, target_buffs, hand, queue, rng, time_ms);
                proof {
                    let after = EffectState { skills: skills@, buffs: buffs@, target: target_buffs@, held: hand.held(),
                        queue: queue.pending(), rng: rng@ };
                    let longer = all.take(k + 1);
                    assert(longer.drop_last() =~= all.take(k));
                    assert(longer.last() == x);
                    assert(effect_done(x, skill_id, time_ms, pool, last_used, before, after));
                    assert(sequence_done(longer.drop_last(), skill_id, time_ms, pool, last_used, start, before));
                    assert(before.rng == rng_before);
                    assert(sequence_done(longer, skill_id, time_ms, pool, last_used, start, after));
                    assert(effects@ =~= all.skip(k + 1));
                    k = k + 1;
                }
            }
            assert(all.take(all.len() as int) =~= all);
        },
        TriggerEffect::Chance { chance, effect } => {
            let x = rng.next_u64();
            if chance_came_up(x, chance) {
                apply_effect(*effect, skill_id, skills, buffs, target_buffs, hand, queue, rng, time_ms);
            }
        },
        TriggerEffect::RandomChoice(mut effects) => {
            let ghost v0 = effects;
            let len = effects.len();
            if len > 0 {
                let x = rng.next_u64();
                let r: u64 = x >> 11;
                assert(r < 0x20_0000_0000_0000u64) by (bit_vector)
                    requires r == x >> 11u64;
                let (q, rem) = split_roll(r, len as u128);
                proof {
                    vstd::arithmetic::div_mod::lemma_fundamental_div_mod_converse_div(
                        r * len, DRAW_SCALE as int, q as int, rem as int);
                    assert(r * len < DRAW_SCALE * len) by (nonlinear_arith)
                        requires r < DRAW_SCALE, len > 0;
                    assert(q as int == uniform_index(x, v0@.len()));
                }
                let i = q as usize;
                let chosen = effects.remove(i);
                proof {
                    lemma_all_run_here(v0@, i as int);
                    lemma_all_fit(v0@, i as int, time_ms, pool);
                    assert(ge->RandomChoice_0 == v0);
                    assert(decreases_to!(ge => v0));
                    assert(decreases_to!(v0 => v0@));
                    assert(decreases_to!(v0@ => v0@[i as int]));
                    assert(decreases_to!(ge => chosen));
                }
                apply_effect(chosen, skill_id, skills, buffs, target_buffs, hand, queue, rng, time_ms);
            }
        },
        TriggerEffect::WeightedRandomChoice(mut choices) => {
            let ghost v0 = choices;
            let total = choice_total(&choices);
            if total > 0 {
                let x = rng.next_u64();
                let r: u64 = x >> 11;
                assert(r < 0x20_0000_0000_0000u64) by (bit_vector)
                    requires r == x >> 11u64;
                let (q, rem) = split_roll(r, total);
                match pick_choice(&choices, q, rem, Ghost((x >> 11u64) * choice_weight(v0@))) {
                    Some(j) => {
                        let (_, chosen) = choices.remove(j);
                        proof {
                            lemma_all_choices_run_here(v0@, j as int);
                            lemma_all_choices_fit(v0@, j as int, time_ms, pool);
                            assert(ge->WeightedRandomChoice_0 == v0);
                            assert(decreases_to!(ge => v0));
                            assert(decreases_to!(v0 => v0@));
                            assert(decreases_to!(v0@ => v0@[j as int]));
                            assert(decreases_to!(v0@[j as int] => v0@[j as int].1));
                            assert(decreases_to!(ge => chosen));
                        }
                        apply_effect(chosen, skill_id, skills, buffs, target_buffs, hand, queue, rng, time_ms);
                    },
                    None => {},
                }
            }
        },
        TriggerEffect::ConsumeTargetBuff { buff_id, preserve_chance, preserve_required_stacks, .. } => {
            let stacks = target_buffs.stacks(buff_id.as_str(), time_ms);
            let tries = (preserve_required_stacks == 0 || stacks == preserve_required_stacks) && preserve_chance > 0;
            let mut kept = false;
            if tries {
                let x = rng.next_u64();
                kept = chance_came_up(x, preserve_chance);
            }
            if !kept {
                target_buffs.expire(buff_id.as_str());
            }
        },
        TriggerEffect::Schedule { delay_ms, effect } => {
            queue.push(Event {
                time_ms: time_ms + delay_ms as u64,
                priority: PRIORITY_SCHEDULED_TRIGGER,
                data: EventData::ScheduledTrigger { skill_id, effect },
            });
        },
        other => {
            apply_state_effect(&other, skill_id, skills, buffs, target_buffs, hand, queue, rng, time_ms);
        },
    }
}

} // verus!
