use loa_sim::builder::apl::{AplAction, AplCondition, CardAplAction};
use loa_sim::engine::buff::{BuffManager, BuffSpec, StackType};
use loa_sim::engine::cards::CardHand;
use loa_sim::engine::cooldown::{consume, SkillState, SkillTiming, SkillType};
use loa_sim::engine::events::EventQueue;
use loa_sim::engine::scheduler::{choose_apl_action, next_action_check_time, next_card_action, next_condition_satisfied_action_time};
use loa_sim::engine::sim::{apl_condition_matches, next_time_remaining_condition_time};
use loa_sim::profile::CompareOperator;

fn normal(skill_id: u32) -> SkillTiming {
    SkillTiming { skill_id, skill_type: SkillType::Normal, max_uses: 0, max_stacks: 1, charge_recovery_ms: 0 }
}

fn levels(actions: &[AplAction]) -> Vec<Vec<i64>> {
    actions.iter().map(|a| vec![0; a.conditions.len()]).collect()
}

#[test]
fn the_first_action_that_can_be_taken_is_chosen() {
    let skills = [normal(1), normal(2)];
    let mut state = SkillState::new();
    consume(&skills[0], &mut state, 0, 5000);
    let mut buffs = BuffManager::new();
    let target = BuffManager::new();
    let hand = CardHand::new(Vec::new());
    let actions = vec![
        AplAction { skill_id: 1, conditions: Vec::new() },
        AplAction { skill_id: 2, conditions: vec![AplCondition::BuffActive("focus".to_string())] },
        AplAction { skill_id: 2, conditions: Vec::new() },
    ];
    let lv = levels(&actions);
    let affordable = [true, true];

    // Skill 1 is cooling down and "focus" is not up: the third action is taken.
    assert_eq!(
        choose_apl_action(&actions, &lv, &[], &skills, &state, &affordable, &buffs, &target, &hand, 10, 60_000),
        Some((2, 1))
    );
    buffs.apply(BuffSpec { id: "focus".to_string(), effects: 0, max_stacks: 1, stack_type: StackType::Refresh, duration_ms: 100 }, 100, 1);
    assert_eq!(
        choose_apl_action(&actions, &lv, &[], &skills, &state, &affordable, &buffs, &target, &hand, 10, 60_000),
        Some((2, 1))
    );
    // Nothing can be paid for: no action.
    assert_eq!(
        choose_apl_action(&actions, &lv, &[], &skills, &state, &[true, false], &buffs, &target, &hand, 10, 60_000),
        None
    );
}

#[test]
fn without_actions_the_order_decides() {
    let skills = [normal(1), normal(2), normal(3)];
    let mut state = SkillState::new();
    consume(&skills[1], &mut state, 0, 5000);
    let buffs = BuffManager::new();
    let hand = CardHand::new(Vec::new());
    let affordable = [true, true, true];
    assert_eq!(
        choose_apl_action(&[], &[], &[9, 2, 3, 1], &skills, &state, &affordable, &buffs, &buffs, &hand, 10, 60_000),
        Some((3, 2))
    );
    assert_eq!(
        choose_apl_action(&[], &[], &[9, 2], &skills, &state, &affordable, &buffs, &buffs, &hand, 10, 60_000),
        None
    );
}

#[test]
fn a_waiting_action_is_looked_at_when_its_cooldown_ends() {
    let skills = [normal(1), normal(2)];
    let mut state = SkillState::new();
    consume(&skills[0], &mut state, 0, 3000);
    consume(&skills[1], &mut state, 0, 7000);
    let buffs = BuffManager::new();
    let hand = CardHand::new(Vec::new());
    let actions = vec![AplAction { skill_id: 1, conditions: vec![AplCondition::SkillCooldownReady(2)] }];
    let lv = levels(&actions);
    let affordable = [true, true];
    assert_eq!(
        next_condition_satisfied_action_time(&actions, &lv, &skills, &state, &affordable, &buffs, &buffs, &hand, 100, 60_000),
        7000
    );
    let queue = EventQueue::new();
    assert_eq!(
        next_action_check_time(&actions, &lv, &skills, &state, &affordable, &buffs, &buffs, &hand, &queue, 100, 60_000),
        7000
    );
    let mut queue = EventQueue::new();
    queue.schedule_action_check(4000);
    assert_eq!(
        next_action_check_time(&actions, &lv, &skills, &state, &affordable, &buffs, &buffs, &hand, &queue, 100, 60_000),
        4000
    );
}

#[test]
fn an_idle_check_polls_when_everything_is_ready() {
    let skills = [normal(1)];
    let state = SkillState::new();
    let buffs = BuffManager::new();
    let hand = CardHand::new(Vec::new());
    let queue = EventQueue::new();
    // The only action cannot be paid for and no cooldown runs: poll again 50 ms later.
    let actions = vec![AplAction { skill_id: 1, conditions: Vec::new() }];
    let lv = levels(&actions);
    assert_eq!(
        next_action_check_time(&actions, &lv, &skills, &state, &[false], &buffs, &buffs, &hand, &queue, 100, 60_000),
        150
    );
}

#[test]
fn time_remaining_thresholds_wake_the_action_list() {
    let actions = vec![
        AplAction { skill_id: 1, conditions: vec![AplCondition::TimeRemaining { operator: CompareOperator::Lte, value_ms: 10_000 }] },
        AplAction { skill_id: 1, conditions: vec![AplCondition::TimeRemaining { operator: CompareOperator::Gte, value_ms: 5_000 }] },
    ];
    assert_eq!(next_time_remaining_condition_time(&actions, 1000, 60_000), 50_000);
    assert_eq!(next_time_remaining_condition_time(&actions, 55_000, 60_000), u64::MAX);
}

#[test]
fn conditions_read_buffs_cards_and_resources() {
    let skills = [normal(1)];
    let state = SkillState::new();
    let buffs = BuffManager::new();
    let mut target = BuffManager::new();
    target.apply(BuffSpec { id: "arcana_ruin_stack".to_string(), effects: 0, max_stacks: 4, stack_type: StackType::Refresh, duration_ms: 1000 }, 1000, 3);
    let mut hand = CardHand::new(Vec::new());
    hand.cards.push(19097);
    let stacks = AplCondition::TargetDebuffStacks { debuff_id: "arcana_ruin_stack".to_string(), operator: CompareOperator::Gte, value: 3000 };
    assert!(apl_condition_matches(&stacks, 1, &skills, &state, &buffs, &target, &hand, 0, 10, 60_000));
    assert!(!apl_condition_matches(&stacks, 1, &skills, &state, &buffs, &target, &hand, 0, 1000, 60_000));
    assert!(apl_condition_matches(&AplCondition::CardHeld(19097), 0, &skills, &state, &buffs, &target, &hand, 0, 10, 60_000));
    let count = AplCondition::CardCount { card_id: 19097, operator: CompareOperator::Eq, value: 1000 };
    assert!(apl_condition_matches(&count, 0, &skills, &state, &buffs, &target, &hand, 0, 10, 60_000));
    let mana = AplCondition::Resource { resource: "Mp".to_string(), operator: CompareOperator::Lt, value: 500 };
    assert!(apl_condition_matches(&mana, 1, &skills, &state, &buffs, &target, &hand, 499, 10, 60_000));
    assert!(!apl_condition_matches(&mana, 1, &skills, &state, &buffs, &target, &hand, 500, 10, 60_000));
    assert!(apl_condition_matches(&AplCondition::CooldownReady, 1, &skills, &state, &buffs, &target, &hand, 0, 10, 60_000));
    assert!(!apl_condition_matches(&AplCondition::NextSkill(1), 1, &skills, &state, &buffs, &target, &hand, 0, 10, 60_000));
}

fn card_action(card_id: u32, conditions: Vec<AplCondition>) -> CardAplAction {
    CardAplAction { card_id, card_name: String::new(), conditions }
}

#[test]
fn the_first_playable_card_action_is_played() {
    let skills = [normal(1)];
    let state = SkillState::new();
    let mut buffs = BuffManager::new();
    let target = BuffManager::new();
    let mut hand = CardHand::new(Vec::new());
    hand.cards.push(19097);
    hand.cards.push(19098);
    let actions = vec![
        card_action(19280, Vec::new()),
        card_action(19098, vec![AplCondition::NextSkill(1)]),
        card_action(19097, Vec::new()),
    ];
    let lv: Vec<Vec<i64>> = actions.iter().map(|a| vec![0; a.conditions.len()]).collect();
    let blocking = vec![(19097u32, "card_lock".to_string())];

    // 19280 is not held; 19098 waits for skill 1 to come next; 19097 is played.
    let played = next_card_action(&actions, &lv, Some(2), &blocking, &skills, &state, &buffs, &target, &mut hand, 10, 60_000);
    assert_eq!(played, Some(2));
    assert_eq!(hand.cards, vec![19098]);

    let played = next_card_action(&actions, &lv, Some(1), &blocking, &skills, &state, &buffs, &target, &mut hand, 10, 60_000);
    assert_eq!(played, Some(1));
    assert!(hand.cards.is_empty());

    hand.cards.push(19097);
    buffs.apply(BuffSpec { id: "card_lock".to_string(), effects: 0, max_stacks: 1, stack_type: StackType::Refresh, duration_ms: 100 }, 100, 1);
    let played = next_card_action(&actions, &lv, None, &blocking, &skills, &state, &buffs, &target, &mut hand, 10, 60_000);
    assert_eq!(played, None);
    assert_eq!(hand.cards, vec![19097]);
}
