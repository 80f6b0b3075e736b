use loa_sim::collections::{CountTable, TimeTable};
use loa_sim::engine::buff::{BuffManager, BuffSpec, StackType};
use loa_sim::engine::cards::{CardHand, CardPoolEntry};
use loa_sim::engine::cooldown::{
    available_time, consume, current_phase, is_available, next_available_time, SkillState, SkillTiming, SkillType,
};
use loa_sim::engine::events::{
    Event, EventData, EventQueue, PRIORITY_ACTION_CHECK, PRIORITY_SCHEDULED_TRIGGER, PRIORITY_SKILL_HIT,
};
use loa_sim::engine::effects::{apply_effect, apply_state_effect};
use loa_sim::engine::rng::Rng;
use loa_sim::engine::sim::{
    schedule_cast, HitTiming, next_dot_tick, reset_consumed_skill_cooldown, scale_action_delay, skill_cooldown_remaining_ms,
};
use loa_sim::engine::triggers::{copies_last_used_card, trigger_ready, TriggerEffect};
use loa_sim::builder::dto::BuffMetadataInput;
use loa_sim::builder::engraving::EngravingInput;
use loa_sim::collections::CardNameTable;
use loa_sim::engine::trace::{buff_metadata, buff_trace_details, decimal_text, held_card_details, lookup_metadata};
use loa_sim::profile::StatField;

fn spec(id: &str, max_stacks: u32, duration_ms: u32) -> BuffSpec {
    BuffSpec { id: id.to_string(), effects: 0, max_stacks, stack_type: StackType::Refresh, duration_ms }
}

fn as_fraction(x: u64) -> f64 {
    (x >> 11) as f64 * (1.0 / (1u64 << 53) as f64)
}

fn timing(skill_id: u32, skill_type: SkillType, max_stacks: u32) -> SkillTiming {
    SkillTiming { skill_id, skill_type, max_uses: 0, max_stacks, charge_recovery_ms: 1000 }
}

#[test]
fn redraw_card_effect_is_not_recorded_as_its_own_copy_target() {
    assert!(copies_last_used_card(&TriggerEffect::Sequence(vec![TriggerEffect::DrawLastUsedCard])));
    assert!(!copies_last_used_card(&TriggerEffect::DrawCard));
}

#[test]
fn nested_and_chanced_copies_are_told_apart() {
    assert!(copies_last_used_card(&TriggerEffect::Sequence(vec![
        TriggerEffect::DrawCard,
        TriggerEffect::Sequence(vec![TriggerEffect::DrawLastUsedCard]),
    ])));
    assert!(!copies_last_used_card(&TriggerEffect::Chance {
        chance: 1_000_000,
        effect: Box::new(TriggerEffect::DrawLastUsedCard),
    }));
    assert!(!copies_last_used_card(&TriggerEffect::Sequence(Vec::new())));
}

#[test]
fn keeps_only_the_earliest_action_check() {
    let mut queue = EventQueue::new();
    queue.schedule_action_check(100);
    queue.schedule_action_check(200);
    queue.schedule_action_check(50);

    assert_eq!(queue.pop().unwrap().time_ms, 50);
    assert!(queue.pop().is_none());
}

#[test]
fn events_come_out_by_time_then_priority() {
    let mut queue = EventQueue::new();
    queue.push(Event { time_ms: 30, priority: PRIORITY_SKILL_HIT, data: EventData::ChargeRecovery { skill_id: 1 } });
    queue.push(Event { time_ms: 20, priority: PRIORITY_ACTION_CHECK, data: EventData::ActionCheck });
    queue.push(Event { time_ms: 20, priority: PRIORITY_SKILL_HIT, data: EventData::ChargeRecovery { skill_id: 2 } });
    assert_eq!(queue.peek_time(), Some(20));
    let first = queue.pop().unwrap();
    assert_eq!((first.time_ms, first.priority), (20, PRIORITY_SKILL_HIT));
    let second = queue.pop().unwrap();
    assert_eq!((second.time_ms, second.priority), (20, PRIORITY_ACTION_CHECK));
    assert_eq!(queue.pop().unwrap().time_ms, 30);
    assert_eq!(queue.peek_time(), None);
}

#[test]
fn removing_a_dot_drops_only_its_ticks() {
    let mut queue = EventQueue::new();
    let tick = |id: &str, t: u64| Event {
        time_ms: t,
        priority: 2,
        data: EventData::DotTick { dot_id: id.to_string(), skill_id: 1, hit: 0, remaining_ticks: 2, tick_interval_ms: 100 },
    };
    queue.push(tick("burn", 10));
    queue.push(tick("bleed", 20));
    queue.push(tick("burn", 30));
    queue.remove_dot("burn");
    assert_eq!(queue.pop().unwrap().time_ms, 20);
    assert!(queue.pop().is_none());
}

#[test]
fn seeds_are_reproducible_and_adjacent_seeds_are_diffused() {
    let first = as_fraction(Rng::new(1).next_u64());
    assert_eq!(first, as_fraction(Rng::new(1).next_u64()));
    assert!((first - as_fraction(Rng::new(2).next_u64())).abs() > 0.01);
}

#[test]
fn generator_follows_the_xorshift_steps() {
    let mut rng = Rng::new(0);
    let a = rng.next_u64();
    let b = rng.next_u64();
    let mut x = a;
    x ^= x << 13;
    x ^= x >> 7;
    x ^= x << 17;
    assert_eq!(b, x);
    assert_ne!(a, b);
}

#[test]
fn draws_only_from_the_raw_card_pool() {
    let mut hand = CardHand::new(vec![
        CardPoolEntry { skill_id: 19097, draw_weight: 1000 },
        CardPoolEntry { skill_id: 19280, draw_weight: 1000 },
    ]);
    let mut rng = Rng::new(1);

    for _ in 0..20 {
        hand.draw_card(&mut rng);
    }

    assert_eq!(hand.cards.len(), 2);
    assert!(hand.cards.iter().all(|id| [19097, 19280].contains(id)));
}

#[test]
fn uses_card_draw_weights() {
    let mut hand = CardHand::new(vec![
        CardPoolEntry { skill_id: 19097, draw_weight: 0 },
        CardPoolEntry { skill_id: 19280, draw_weight: 1000 },
    ]);
    let mut rng = Rng::new(1);

    hand.draw_card(&mut rng);

    assert_eq!(hand.cards, vec![19280]);
}

#[test]
fn does_not_draw_a_card_already_in_hand() {
    let mut hand = CardHand::new(vec![
        CardPoolEntry { skill_id: 19097, draw_weight: 100_000 },
        CardPoolEntry { skill_id: 19280, draw_weight: 1000 },
    ]);
    let mut rng = Rng::new(1);

    hand.draw_card(&mut rng);
    hand.draw_card(&mut rng);

    assert_eq!(hand.cards.len(), 2);
    assert_ne!(hand.cards[0], hand.cards[1]);
}

#[test]
fn reports_a_specific_card_in_hand() {
    let mut hand = CardHand::new(Vec::new());
    hand.cards.push(19098);
    hand.cards.push(19098);

    assert!(hand.has_card(19098));
    assert!(!hand.has_card(19097));
    assert_eq!(hand.card_count(19098), 2);
}

#[test]
fn redraws_the_last_remembered_card_without_exceeding_two_slots() {
    let mut hand = CardHand::new(Vec::new());
    hand.remember_card_use(19098);
    hand.draw_last_used_card();
    hand.draw_last_used_card();
    hand.draw_last_used_card();

    assert_eq!(hand.cards, vec![19098, 19098]);
}

#[test]
fn a_pool_without_weight_draws_nothing_and_keeps_the_generator() {
    let mut hand = CardHand::new(vec![CardPoolEntry { skill_id: 1, draw_weight: 0 }]);
    let mut rng = Rng::new(5);
    hand.draw_card(&mut rng);
    assert!(hand.cards.is_empty());
    assert_eq!(rng.next_u64(), Rng::new(5).next_u64());
}

#[test]
fn using_a_card_takes_one_copy_out() {
    let mut hand = CardHand::new(Vec::new());
    hand.cards.push(7);
    hand.cards.push(7);
    assert!(hand.use_card(7));
    assert_eq!(hand.held_cards(), vec![7]);
    assert!(!hand.use_card(8));
    assert!(hand.use_card(7));
    assert!(!hand.has_cards());
}

#[test]
fn target_buffs_are_tracked_separately_from_actor_buffs() {
    let buffs = BuffManager::new();
    let mut target_buffs = BuffManager::new();

    target_buffs.apply(spec("arcana_ruin_stack", 4, 10_000), 10_000, 1);

    assert_eq!(target_buffs.stacks("arcana_ruin_stack", 1), 1);
    assert_eq!(buffs.stacks("arcana_ruin_stack", 1), 0);
}

#[test]
fn stacks_are_capped_and_expire_at_their_time() {
    let mut buffs = BuffManager::new();
    buffs.apply(spec("s", 3, 1000), 1000, 2);
    buffs.apply(spec("s", 3, 1000), 1500, 2);
    assert_eq!(buffs.stacks("s", 100), 3);
    assert!(buffs.is_at_max_stacks("s", 100));
    assert_eq!(buffs.remaining_ms("s", 500), 1000);
    assert!(buffs.is_active("s", 1499));
    assert!(!buffs.is_active("s", 1500));
    assert_eq!(buffs.stacks("s", 1500), 0);
}

#[test]
fn a_stale_expiry_leaves_a_refreshed_buff() {
    let mut buffs = BuffManager::new();
    let first = buffs.apply(spec("s", 1, 1000), 1000, 1);
    let second = buffs.apply(spec("s", 1, 1000), 2000, 1);
    assert_eq!((first, second), (1000, 2000));
    buffs.expire_if("s", first);
    assert!(buffs.is_active("s", 1500));
    buffs.expire_if("s", second);
    assert!(!buffs.is_active("s", 1500));
}

#[test]
fn consuming_stacks_removes_an_emptied_buff() {
    let mut buffs = BuffManager::new();
    buffs.apply(spec("s", 5, 1000), 1000, 3);
    buffs.consume_stacks("s", 2, 10);
    assert_eq!(buffs.stacks("s", 10), 1);
    buffs.consume_stacks("s", 5, 10);
    assert!(!buffs.is_active("s", 10));
    assert!(buffs.active_ids(10).is_empty());
}

#[test]
fn wheel_restores_one_consumed_charge() {
    let mut state = SkillState::new();
    state.skill_charges.insert(7, 1);
    state.charge_recovery_times.insert(7, 1000);
    let mut buffs = BuffManager::new();
    buffs.apply(spec("190950", 1, u32::MAX), u32::MAX as u64, 1);

    reset_consumed_skill_cooldown(&mut state, &mut buffs, 7, "190950", 2);

    assert_eq!(state.skill_charges.get(7), Some(2));
    assert_eq!(state.charge_recovery_times.get(7), None);
    assert!(!buffs.is_active("190950", 0));
}

#[test]
fn resetting_a_skill_without_cooldown_keeps_the_buff() {
    let mut state = SkillState::new();
    let mut buffs = BuffManager::new();
    buffs.apply(spec("wheel", 1, 1000), 1000, 1);
    reset_consumed_skill_cooldown(&mut state, &mut buffs, 3, "wheel", 1);
    assert!(buffs.is_active("wheel", 0));
    state.skill_cooldowns.insert(3, 5000);
    reset_consumed_skill_cooldown(&mut state, &mut buffs, 3, "wheel", 1);
    assert_eq!(state.skill_cooldowns.get(3), None);
    assert!(!buffs.is_active("wheel", 0));
}

#[test]
fn a_normal_skill_is_ready_again_after_its_cooldown() {
    let skill = timing(1, SkillType::Normal, 1);
    let mut state = SkillState::new();
    assert!(is_available(&skill, &state, 0));
    assert_eq!(consume(&skill, &mut state, 100, 5000), 0);
    assert!(!is_available(&skill, &state, 5099));
    assert_eq!(available_time(&skill, &state, 200), 5100);
    assert!(is_available(&skill, &state, 5100));
    assert_eq!(skill_cooldown_remaining_ms(1, &[skill], &state, 1100), 4000);
}

#[test]
fn a_combo_advances_its_phase_within_the_timeout() {
    let skill = timing(2, SkillType::Combo { last_phase: 1, phase_timeout_ms: 2000 }, 1);
    let mut state = SkillState::new();
    consume(&skill, &mut state, 0, 8000);
    assert_eq!(current_phase(&skill, &state, 1000), 1);
    assert!(is_available(&skill, &state, 1000));
    assert_eq!(current_phase(&skill, &state, 2001), 0);
    consume(&skill, &mut state, 1000, 8000);
    assert_eq!(current_phase(&skill, &state, 1000), 0);
    assert_eq!(available_time(&skill, &state, 1000), 9000);
}

#[test]
fn a_charged_skill_spends_charges() {
    let skill = timing(3, SkillType::Normal, 2);
    let mut state = SkillState::new();
    assert_eq!(consume(&skill, &mut state, 0, 3000), 1000);
    assert_eq!(state.skill_charges.get(3), Some(1));
    assert!(is_available(&skill, &state, 0));
}

#[test]
fn the_next_ready_time_is_the_earliest_cooldown_end() {
    let a = timing(1, SkillType::Normal, 1);
    let b = timing(2, SkillType::Normal, 1);
    let mut state = SkillState::new();
    consume(&a, &mut state, 0, 4000);
    consume(&b, &mut state, 0, 2500);
    assert_eq!(next_available_time(&[a, b], &state, 100), 2500);
    assert_eq!(next_available_time(&[], &state, 100), 101);
}

#[test]
fn hit_delays_scale_with_the_cast_time() {
    assert_eq!(scale_action_delay(300, 1000, 500), 150);
    assert_eq!(scale_action_delay(300, 0, 500), 300);
    assert_eq!(scale_action_delay(u32::MAX, 1, u32::MAX), u32::MAX as u64 * u32::MAX as u64);
}

#[test]
fn a_dot_schedules_its_next_tick_until_the_last() {
    let next = next_dot_tick("burn".to_string(), 4, 0, 2, 100, 1000).unwrap();
    assert_eq!(next.time_ms, 1100);
    match next.data {
        EventData::DotTick { remaining_ticks, .. } => assert_eq!(remaining_ticks, 1),
        _ => panic!("not a tick"),
    }
    assert!(next_dot_tick("burn".to_string(), 4, 0, 1, 100, 1100).is_none());
}

#[test]
fn triggers_wait_out_their_cooldown() {
    assert!(trigger_ready(None, None, 0));
    assert!(trigger_ready(Some(1000), None, 0));
    assert!(!trigger_ready(Some(1000), Some(500), 1499));
    assert!(trigger_ready(Some(1000), Some(500), 1500));
}

#[test]
fn tables_keep_their_entries() {
    let mut times = TimeTable::new();
    times.insert(1, 10);
    times.insert(1, 20);
    assert_eq!(times.get(1), Some(20));
    assert_eq!(times.remove(1), Some(20));
    assert_eq!(times.get(1), None);
    let mut counts = CountTable::new();
    counts.insert(2, 3);
    assert_eq!(counts.get(2), Some(3));
    assert_eq!(counts.remove(9), None);
}

#[test]
fn numbers_are_written_in_decimal() {
    assert_eq!(decimal_text(0), "0");
    assert_eq!(decimal_text(7), "7");
    assert_eq!(decimal_text(19097), "19097");
    assert_eq!(decimal_text(u32::MAX), u32::MAX.to_string());
}

#[test]
fn held_cards_show_their_names_or_ids() {
    let mut names = CardNameTable::new();
    names.insert(19097, "도태".to_string());
    let mut hand = CardHand::new(Vec::new());
    hand.cards.push(19097);
    hand.cards.push(19280);
    let details = held_card_details(&hand, &names);
    assert_eq!(details.len(), 2);
    assert_eq!((details[0].card_id, details[0].card_name.as_str()), (19097, "도태"));
    assert_eq!((details[1].card_id, details[1].card_name.as_str()), (19280, "19280"));
}

fn metadata(id: &str, name: &str, icon: &str, source: &str) -> BuffMetadataInput {
    BuffMetadataInput { id: id.to_string(), name: name.to_string(), icon: icon.to_string(), source: source.to_string() }
}

#[test]
fn engraving_buffs_use_their_engraving_display_data() {
    let engravings = vec![EngravingInput {
        name: "원한".to_string(),
        icon: "grudge.png".to_string(),
        grade: String::new(),
        level: 4,
        ability_level: 0,
        feature_data: None,
    }];
    let table = buff_metadata(&[metadata("focus", "집중", "focus.png", "")], &engravings);
    assert_eq!(lookup_metadata(&table, "focus").unwrap().name, "집중");
    let grudge = lookup_metadata(&table, "engraving:원한:0").unwrap();
    assert_eq!((grudge.name.as_str(), grudge.icon.as_str(), grudge.source.as_str()), ("", "grudge.png", "각인 · 원한"));
    assert!(lookup_metadata(&table, "engraving:원한").is_none());
    assert!(lookup_metadata(&table, "engraving:없음:1").is_none());

    let buffs = vec![(spec("focus", 1, 1000), 1), (spec("engraving:원한:0", 1, 1000), 1), (spec("haste", 1, 1000), 2)];
    let fields = vec![Vec::new(), Vec::new(), vec![StatField::AttackSpeed]];
    let details = buff_trace_details(&buffs, &fields, "actor", &table);
    assert_eq!((details[0].name.as_str(), details[0].icon.as_str(), details[0].source.as_str()), ("집중", "focus.png", "actor"));
    assert_eq!((details[1].name.as_str(), details[1].source.as_str()), ("상태 효과", "각인 · 원한"));
    assert_eq!((details[2].name.as_str(), details[2].icon.as_str(), details[2].stacks), ("공격속도 증가", "", 2));
}

#[test]
fn card_gauge_draws_a_card_and_keeps_the_overflow() {
    // Gauge values in thousandths: a maximum of 10 000, gains of 11 000 and 30 000.
    let mut hand = CardHand::new(vec![CardPoolEntry { skill_id: 19097, draw_weight: 1000 }]);
    let mut rng = Rng::new(1);

    let gauge = hand.gain_card_gauge(&mut rng, 0, 11_000_000, 10_000_000);

    assert_eq!(gauge, 1_000_000);
    assert!(hand.use_card(19097));

    let gauge = hand.gain_card_gauge(&mut rng, gauge, 30_000_000, 10_000_000);

    assert_eq!(gauge, 1_000_000);
    assert!(hand.use_card(19097));
    assert!(!hand.use_card(19097));
}

#[test]
fn a_gauge_without_maximum_stays_empty() {
    let mut hand = CardHand::new(vec![CardPoolEntry { skill_id: 1, draw_weight: 1000 }]);
    let mut rng = Rng::new(1);
    assert_eq!(hand.gain_card_gauge(&mut rng, 5, 100, 0), 0);
    assert!(!hand.has_cards());
}

#[test]
fn state_effects_change_buffs_cards_and_the_queue() {
    let mut skills = SkillState::new();
    let mut buffs = BuffManager::new();
    let mut target = BuffManager::new();
    let mut hand = CardHand::new(vec![CardPoolEntry { skill_id: 19097, draw_weight: 1000 }]);
    let mut queue = EventQueue::new();
    let mut rng = Rng::new(3);

    let ruin = spec("arcana_ruin_stack", 4, 10_000);
    assert!(apply_state_effect(&TriggerEffect::ApplyTargetBuffStacks { spec: ruin.clone(), stacks: 3 }, 1,
        &mut skills, &mut buffs, &mut target, &mut hand, &mut queue, &mut rng, 100));
    assert_eq!(target.stacks("arcana_ruin_stack", 200), 3);
    assert!(apply_state_effect(&TriggerEffect::SetTargetBuffStacks { spec: ruin, stacks: 1 }, 1,
        &mut skills, &mut buffs, &mut target, &mut hand, &mut queue, &mut rng, 200));
    assert_eq!(target.stacks("arcana_ruin_stack", 300), 1);
    assert_eq!(buffs.stacks("arcana_ruin_stack", 300), 0);

    assert!(apply_state_effect(&TriggerEffect::DrawCard, 1,
        &mut skills, &mut buffs, &mut target, &mut hand, &mut queue, &mut rng, 200));
    assert_eq!(hand.held_cards(), vec![19097]);

    skills.skill_cooldowns.insert(1, 9000);
    assert!(apply_state_effect(&TriggerEffect::ResetSkillCooldown, 1,
        &mut skills, &mut buffs, &mut target, &mut hand, &mut queue, &mut rng, 200));
    assert_eq!(skills.skill_cooldowns.get(1), None);

    assert!(apply_state_effect(&TriggerEffect::ScheduleDot { dot_id: "burn".to_string(), hit: 0, first_tick_ms: 50,
        tick_interval_ms: 100, tick_count: 3, refresh: true }, 1,
        &mut skills, &mut buffs, &mut target, &mut hand, &mut queue, &mut rng, 200));
    // Two target expiries (at 10 100 and 10 200) and the first tick at 250 are pending.
    assert_eq!(queue.peek_time(), Some(250));

    assert!(!apply_state_effect(&TriggerEffect::GainResource { resource: "Mp".to_string(), amount: 10 }, 1,
        &mut skills, &mut buffs, &mut target, &mut hand, &mut queue, &mut rng, 200));
}

struct Actor {
    skills: SkillState,
    buffs: BuffManager,
    target: BuffManager,
    hand: CardHand,
    queue: EventQueue,
    rng: Rng,
}

fn actor(seed: u64) -> Actor {
    Actor {
        skills: SkillState::new(),
        buffs: BuffManager::new(),
        target: BuffManager::new(),
        hand: CardHand::new(vec![CardPoolEntry { skill_id: 19097, draw_weight: 1000 }]),
        queue: EventQueue::new(),
        rng: Rng::new(seed),
    }
}

fn run(a: &mut Actor, e: TriggerEffect, skill_id: u32, time_ms: u64) {
    apply_effect(e, skill_id, &mut a.skills, &mut a.buffs, &mut a.target, &mut a.hand, &mut a.queue, &mut a.rng, time_ms);
}

#[test]
fn a_sequence_runs_each_of_its_effects_in_order() {
    let mut a = actor(3);
    run(&mut a, TriggerEffect::Sequence(vec![
        TriggerEffect::ApplyBuff(spec("focus", 3, 1000)),
        TriggerEffect::ApplyBuffStacks { spec: spec("focus", 3, 1000), stacks: 1 },
        TriggerEffect::DrawCard,
        TriggerEffect::ConsumeBuffStacks { buff_id: "focus".to_string(), stacks: 1 },
    ]), 1, 100);
    assert_eq!(a.buffs.stacks("focus", 200), 1);
    assert_eq!(a.hand.held_cards(), vec![19097]);
}

#[test]
fn an_empty_sequence_changes_nothing() {
    let mut a = actor(3);
    run(&mut a, TriggerEffect::Sequence(Vec::new()), 1, 100);
    assert_eq!(a.queue.peek_time(), None);
    assert!(!a.hand.has_cards());
    assert_eq!(a.rng.next_u64(), Rng::new(3).next_u64());
}

#[test]
fn a_schedule_queues_its_effect_after_the_delay() {
    let mut a = actor(3);
    run(&mut a, TriggerEffect::Schedule { delay_ms: 500, effect: Box::new(TriggerEffect::DrawCard) }, 7, 100);
    assert!(!a.hand.has_cards());
    let event = a.queue.pop().unwrap();
    assert_eq!(event.time_ms, 600);
    assert_eq!(event.priority, PRIORITY_SCHEDULED_TRIGGER);
    match event.data {
        EventData::ScheduledTrigger { skill_id, effect } => {
            assert_eq!(skill_id, 7);
            assert!(matches!(*effect, TriggerEffect::DrawCard));
        }
        _ => panic!("expected a scheduled trigger"),
    }
    assert!(a.queue.pop().is_none());
}

#[test]
fn a_certain_chance_always_runs_and_takes_one_random_value() {
    let mut a = actor(11);
    run(&mut a, TriggerEffect::Chance { chance: 1_000_000, effect: Box::new(TriggerEffect::ApplyBuff(spec("luck", 1, 1000))) },
        1, 0);
    assert!(a.buffs.is_active("luck", 10));
    let mut fresh = Rng::new(11);
    fresh.next_u64();
    assert_eq!(a.rng.next_u64(), fresh.next_u64());
}

#[test]
fn a_zero_chance_never_runs_but_still_takes_a_random_value() {
    let mut a = actor(11);
    run(&mut a, TriggerEffect::Chance { chance: 0, effect: Box::new(TriggerEffect::ApplyBuff(spec("luck", 1, 1000))) }, 1, 0);
    assert!(!a.buffs.is_active("luck", 10));
    let mut fresh = Rng::new(11);
    fresh.next_u64();
    assert_eq!(a.rng.next_u64(), fresh.next_u64());
}

#[test]
fn a_chance_runs_exactly_when_the_roll_is_below_it() {
    let x = Rng::new(5).next_u64();
    // The largest chance in millionths that the roll does not come under.
    let edge = (((x >> 11) as u128 * 1_000_000) >> 53) as u32;
    assert!(as_fraction(x) * 1_000_000.0 >= edge as f64);

    let mut missed = actor(5);
    run(&mut missed, TriggerEffect::Chance { chance: edge, effect: Box::new(TriggerEffect::DrawCard) }, 1, 0);
    assert!(!missed.hand.has_cards());

    let mut hit = actor(5);
    run(&mut hit, TriggerEffect::Chance { chance: edge + 1, effect: Box::new(TriggerEffect::DrawCard) }, 1, 0);
    assert_eq!(hit.hand.held_cards(), vec![19097]);
}

#[test]
fn nested_effects_run_through_sequences_and_chances() {
    let mut a = actor(9);
    run(&mut a, TriggerEffect::Sequence(vec![
        TriggerEffect::Chance { chance: 1_000_000, effect: Box::new(TriggerEffect::Sequence(vec![
            TriggerEffect::ApplyTargetBuff(spec("mark", 1, 2000)),
            TriggerEffect::Schedule { delay_ms: 300, effect: Box::new(TriggerEffect::DrawCard) },
        ])) },
        TriggerEffect::ResetSkillCooldown,
    ]), 4, 1000);
    assert!(a.target.is_active("mark", 2500));
    // The scheduled draw at 1300 comes before the mark's expiry at 3000.
    let first = a.queue.pop().unwrap();
    assert_eq!(first.time_ms, 1300);
    assert!(matches!(first.data, EventData::ScheduledTrigger { skill_id: 4, .. }));
}

#[test]
fn stacks_are_capped_at_the_maximum_even_near_the_integer_limit() {
    let mut buffs = BuffManager::new();
    let big = spec("big", u32::MAX, 1000);
    buffs.apply(big.clone(), 1000, u32::MAX - 1);
    buffs.apply(big, 1000, 5);
    assert_eq!(buffs.stacks("big", 0), u32::MAX);
}

fn first_roll(seed: u64) -> u128 {
    (Rng::new(seed).next_u64() >> 11) as u128
}

#[test]
fn a_random_choice_runs_the_effect_its_roll_falls_on() {
    for seed in 1..20u64 {
        let mut a = actor(seed);
        let names = ["first", "second", "third"];
        run(&mut a, TriggerEffect::RandomChoice(names.iter().map(|n| TriggerEffect::ApplyBuff(spec(n, 1, 1000))).collect()),
            1, 0);
        let expected = ((first_roll(seed) * 3) >> 53) as usize;
        for (i, n) in names.iter().enumerate() {
            assert_eq!(a.buffs.is_active(n, 10), i == expected);
        }
        let mut fresh = Rng::new(seed);
        fresh.next_u64();
        assert_eq!(a.rng.next_u64(), fresh.next_u64());
    }
}

#[test]
fn an_empty_random_choice_takes_no_random_value() {
    let mut a = actor(4);
    run(&mut a, TriggerEffect::RandomChoice(Vec::new()), 1, 0);
    assert_eq!(a.rng.next_u64(), Rng::new(4).next_u64());
}

#[test]
fn a_weighted_choice_runs_the_effect_whose_weight_takes_the_roll_to_zero() {
    let weights = [1000u64, 0, 3000];
    for seed in 1..20u64 {
        let mut a = actor(seed);
        let names = ["light", "never", "heavy"];
        let choices = weights.iter().zip(names.iter()).map(|(w, n)| (*w, TriggerEffect::ApplyBuff(spec(n, 1, 1000)))).collect();
        run(&mut a, TriggerEffect::WeightedRandomChoice(choices), 1, 0);
        let roll = first_roll(seed) * 4000;
        let expected = if roll <= 1000u128 << 53 { 0 } else { 2 };
        for (i, n) in names.iter().enumerate() {
            assert_eq!(a.buffs.is_active(n, 10), i == expected);
        }
    }
}

#[test]
fn a_weighted_choice_with_no_weight_does_nothing() {
    let mut a = actor(4);
    run(&mut a, TriggerEffect::WeightedRandomChoice(vec![(0, TriggerEffect::DrawCard)]), 1, 0);
    assert!(!a.hand.has_cards());
    assert_eq!(a.rng.next_u64(), Rng::new(4).next_u64());
}

fn consume_ruin(chance: u32, required: u32) -> TriggerEffect {
    TriggerEffect::ConsumeTargetBuff {
        buff_id: "arcana_ruin_stack".to_string(),
        preserve_chance: chance,
        preserve_required_stacks: required,
        preserve_resource_gain: None,
    }
}

fn ruined(seed: u64) -> Actor {
    let mut a = actor(seed);
    a.target.apply(spec("arcana_ruin_stack", 4, 10_000), 10_000, 4);
    a
}

#[test]
fn a_certain_preserve_chance_keeps_the_full_target_stacks() {
    let mut a = ruined(1);
    run(&mut a, consume_ruin(1_000_000, 4), 0, 0);
    assert_eq!(a.target.stacks("arcana_ruin_stack", 0), 4);
    let mut fresh = Rng::new(1);
    fresh.next_u64();
    assert_eq!(a.rng.next_u64(), fresh.next_u64());
}

#[test]
fn target_stacks_below_the_requirement_are_consumed_without_a_roll() {
    let mut a = ruined(1);
    run(&mut a, consume_ruin(1_000_000, 3), 0, 0);
    assert_eq!(a.target.stacks("arcana_ruin_stack", 0), 0);
    assert_eq!(a.rng.next_u64(), Rng::new(1).next_u64());
}

#[test]
fn a_zero_preserve_chance_always_consumes() {
    let mut a = ruined(1);
    run(&mut a, consume_ruin(0, 0), 0, 0);
    assert!(!a.target.is_active("arcana_ruin_stack", 0));
    assert_eq!(a.rng.next_u64(), Rng::new(1).next_u64());
}

#[test]
fn draws_work_with_the_largest_weights() {
    let m = u64::MAX;
    for seed in 1..10u64 {
        let mut hand = CardHand::new(vec![
            CardPoolEntry { skill_id: 1, draw_weight: m },
            CardPoolEntry { skill_id: 2, draw_weight: m },
            CardPoolEntry { skill_id: 3, draw_weight: m },
        ]);
        let mut rng = Rng::new(seed);
        hand.draw_card(&mut rng);
        let roll = first_roll(seed) * 3 * m as u128;
        let step = (m as u128) << 53;
        let expected = if roll < step { 1 } else if roll < 2 * step { 2 } else { 3 };
        assert_eq!(hand.held_cards(), vec![expected]);
    }
}

fn hit(phase: u32, action_delay_ms: u32, fixed_delay_ms: u32) -> HitTiming {
    HitTiming { phase, action_delay_ms, fixed_delay_ms }
}

#[test]
fn a_cast_queues_its_phase_hits_its_next_charge_and_the_next_action() {
    let skill = timing(5, SkillType::Normal, 3);
    let mut state = SkillState::new();
    state.skill_charges.insert(5, 1);
    let mut queue = EventQueue::new();
    let hits = [hit(0, 400, 0), hit(1, 100, 0), hit(0, 800, 50), hit(0, 2000, 0)];
    schedule_cast(&skill, &hits, &[1000, 600], 0, 500, 4000, 7, &mut state, &mut queue, 1000, 1800);

    assert_eq!(state.skill_use_counts.get(5), Some(1));
    assert_eq!(state.charge_recovery_times.get(5), Some(5000));
    let first = queue.pop().unwrap();
    assert_eq!(first.time_ms, 1200);
    assert!(matches!(first.data, EventData::SkillHit { skill_id: 5, hit_index: 0, snap: 7 }));
    let second = queue.pop().unwrap();
    assert_eq!(second.time_ms, 1450);
    assert!(matches!(second.data, EventData::SkillHit { skill_id: 5, hit_index: 2, snap: 7 }));
    let third = queue.pop().unwrap();
    assert_eq!((third.time_ms, third.priority), (1500, PRIORITY_ACTION_CHECK));
    let fourth = queue.pop().unwrap();
    assert_eq!(fourth.time_ms, 5000);
    assert!(matches!(fourth.data, EventData::ChargeRecovery { skill_id: 5 }));
    assert!(queue.pop().is_none());
}

#[test]
fn a_full_or_uncharged_skill_schedules_no_charge_and_an_instant_cast_waits_one_ms() {
    let skill = timing(6, SkillType::Normal, 1);
    let mut state = SkillState::new();
    state.skill_use_counts.insert(6, 2);
    let mut queue = EventQueue::new();
    schedule_cast(&skill, &[hit(1, 300, 0)], &[], 1, 0, 4000, 0, &mut state, &mut queue, 100, 1000);

    assert_eq!(state.skill_use_counts.get(6), Some(3));
    assert_eq!(state.charge_recovery_times.get(6), None);
    let first = queue.pop().unwrap();
    assert_eq!((first.time_ms, first.priority), (101, PRIORITY_ACTION_CHECK));
    let second = queue.pop().unwrap();
    assert_eq!((second.time_ms, second.priority), (400, PRIORITY_SKILL_HIT));
    assert!(queue.pop().is_none());
}

#[test]
fn a_cast_ending_after_the_fight_asks_for_no_next_action() {
    let skill = timing(8, SkillType::Normal, 1);
    let mut state = SkillState::new();
    let mut queue = EventQueue::new();
    schedule_cast(&skill, &[hit(0, 0, 0)], &[800], 0, 800, 0, 0, &mut state, &mut queue, 500, 1000);
    let first = queue.pop().unwrap();
    assert_eq!((first.time_ms, first.priority), (500, PRIORITY_SKILL_HIT));
    assert!(queue.pop().is_none());
}
