use loa_sim::builder::card_pool::{add_card, arcana_card_pool, initial_card_draws, replace_card, ArcanaCardInput};
use loa_sim::builder::dto::ArkPassiveClassNodeInput;
use loa_sim::builder::engraving::{raw_grade, selected_feature, EngravingInput, FeatureDataRef, FeatureGradeRef, FeatureRowRef};
use loa_sim::builder::sim_effects::{default_sim_effect_kind, str_to_skill_tag, str_to_stat_field, str_to_trigger_filter};
use loa_sim::builder::skill::{skill_type_of, SkillPipeline, SkillPipelineMap, SkillRef};
use loa_sim::engine::cooldown::SkillType;
use loa_sim::builder::stat::StatBuilder;
use loa_sim::constants::{
    SWIFTNESS_ATTACK_SPEED_BONUS_DEN, SWIFTNESS_ATTACK_SPEED_BONUS_NUM, SWIFTNESS_COOLDOWN_REDUCTION_DEN,
    SWIFTNESS_COOLDOWN_REDUCTION_NUM,
};
use loa_sim::engine::cards::CardPoolEntry;
use loa_sim::profile::{CompareOperator, SkillTag, StatField, TriggerFilter};

#[test]
fn swiftness_uses_the_level_70_raw_conversion() {
    let attack_speed = SWIFTNESS_ATTACK_SPEED_BONUS_NUM as f64 / SWIFTNESS_ATTACK_SPEED_BONUS_DEN as f64;
    let cooldown = SWIFTNESS_COOLDOWN_REDUCTION_NUM as f64 / SWIFTNESS_COOLDOWN_REDUCTION_DEN as f64;
    assert!((1800.0 * attack_speed - 0.3092252190345301).abs() < 1e-15);
    assert!((1800.0 * cooldown - 0.3865315237931627).abs() < 1e-15);
}

/// A stat operation of the tests: which stat, and how much it adds (fractions in
/// thousandths). The stats are, in order: base main stat, weapon attack power multiplier,
/// base attack power multiplier, and the sums of weapon attack power, attack power
/// multiplier, damage increase and target damage increase.
#[derive(Clone, Copy)]
struct Op {
    field: usize,
    delta: i64,
}

const MAIN_STAT: usize = 0;
const WEAPON_AP_MUL: usize = 1;
const BASE_AP_MUL: usize = 2;
const WEAPON_ATTACK_POWER: usize = 3;
const ATTACK_POWER_MUL: usize = 4;
const DAMAGE_INCREASE: usize = 5;
const TARGET_DAMAGE_INCREASE: usize = 6;

fn apply_op(op: Op, mut stats: [i64; 7]) -> [i64; 7] {
    stats[op.field] += op.delta;
    stats
}

fn equipment(stat: &mut StatBuilder<Op>) {
    stat.add_flat("equipment".to_string(), Op { field: MAIN_STAT, delta: 1000 });
    stat.add_flat("equipment".to_string(), Op { field: WEAPON_ATTACK_POWER, delta: 500 });
}

fn accessory(stat: &mut StatBuilder<Op>) {
    stat.add_additive("accessory".to_string(), Op { field: WEAPON_AP_MUL, delta: 30 });
    stat.add_flat("accessory".to_string(), Op { field: ATTACK_POWER_MUL, delta: 20 });
}

fn bracelet(stat: &mut StatBuilder<Op>) {
    stat.add_flat("bracelet".to_string(), Op { field: DAMAGE_INCREASE, delta: 40 });
}

fn gem(stat: &mut StatBuilder<Op>) {
    stat.add_additive("gem".to_string(), Op { field: BASE_AP_MUL, delta: 12 });
}

fn engraving(stat: &mut StatBuilder<Op>) {
    stat.add_flat("engraving".to_string(), Op { field: TARGET_DAMAGE_INCREASE, delta: 200 });
}

#[test]
fn static_source_registration_order_does_not_change_stats() {
    let mut forward = StatBuilder::new();
    equipment(&mut forward);
    accessory(&mut forward);
    bracelet(&mut forward);
    gem(&mut forward);
    engraving(&mut forward);

    let mut reverse = StatBuilder::new();
    engraving(&mut reverse);
    gem(&mut reverse);
    bracelet(&mut reverse);
    accessory(&mut reverse);
    equipment(&mut reverse);

    let forward = forward.build([0; 7], apply_op);
    let reverse = reverse.build([0; 7], apply_op);
    assert_eq!(forward[MAIN_STAT], reverse[MAIN_STAT]);
    assert_eq!(forward[WEAPON_AP_MUL], reverse[WEAPON_AP_MUL]);
    assert_eq!(forward[BASE_AP_MUL], reverse[BASE_AP_MUL]);
    for field in [WEAPON_ATTACK_POWER, ATTACK_POWER_MUL, DAMAGE_INCREASE, TARGET_DAMAGE_INCREASE] {
        assert_eq!(forward[field], reverse[field]);
    }
    assert_eq!(forward, [1000, 30, 12, 500, 20, 40, 200]);
}

#[test]
fn flat_operations_apply_before_additive_ones() {
    let mut stat = StatBuilder::new();
    stat.add_additive("doubling".to_string(), 'x');
    stat.add_flat("base".to_string(), 'b');
    let trace = stat.build(String::new(), |op: char, mut s: String| {
        s.push(op);
        s
    });
    assert_eq!(trace, "bx");
}

#[test]
fn pipeline_steps_run_by_phase() {
    let mut pipeline = SkillPipeline::new();
    pipeline.add_meta('m');
    pipeline.add_trigger('t');
    pipeline.add_stats('s');
    pipeline.add_structure('h');
    pipeline.add_stats('u');
    let out = pipeline.run(String::new(), &|step: char, mut s: String| {
        s.push(step);
        (s, Ok(()))
    });
    assert_eq!(out, ("hsutm".to_string(), Ok(())));
}

#[test]
fn a_failing_pipeline_step_stops_the_run() {
    let mut pipeline = SkillPipeline::new();
    pipeline.add_structure(1u32);
    pipeline.add_stats(0u32);
    pipeline.add_meta(2u32);
    let out = pipeline.run(0u32, &|step: u32, total: u32| {
        if step == 0 { (total + 10, Err("step failed".to_string())) } else { (total + step, Ok(())) }
    });
    // The structure step's change and the failing step's own change stay; the meta step never runs.
    assert_eq!(out, (11, Err("step failed".to_string())));
}

fn entry(skill_id: u32, draw_weight: u64) -> CardPoolEntry {
    CardPoolEntry { skill_id, draw_weight }
}

fn ids(pool: &[CardPoolEntry]) -> Vec<u32> {
    pool.iter().map(|e| e.skill_id).collect()
}

fn card(skill_id: u32, draw_weight: u64, auto_learn: bool) -> ArcanaCardInput {
    ArcanaCardInput { skill_id, name: format!("card {skill_id}"), auto_learn, draw_weight }
}

#[test]
fn adding_a_card_takes_its_weight_from_the_known_cards() {
    let cards = [card(1, 1000, true), card(2, 500, false), card(2, 9000, false)];
    let mut pool = vec![entry(1, 1000)];
    add_card(&mut pool, &cards, 2);
    assert_eq!(ids(&pool), vec![1, 2]);
    assert_eq!(pool[1].draw_weight, 500);
    add_card(&mut pool, &cards, 2);
    assert_eq!(ids(&pool), vec![1, 2]);
    add_card(&mut pool, &cards, 3);
    assert_eq!(ids(&pool), vec![1, 2]);
}

#[test]
fn replacing_a_card_drops_every_copy_and_adds_the_new_one() {
    let cards = [card(1, 1000, true), card(2, 1000, true), card(3, 700, false)];
    let mut pool = vec![entry(1, 1000), entry(2, 1000), entry(1, 1000)];
    replace_card(&mut pool, &cards, 1, 3);
    assert_eq!(ids(&pool), vec![2, 3]);
    assert_eq!(pool[1].draw_weight, 700);
}

fn node(name: &str, level: u32) -> ArkPassiveClassNodeInput {
    ArkPassiveClassNodeInput { name: name.to_string(), level }
}

fn engraving_named(name: &str, level: u32) -> EngravingInput {
    EngravingInput { name: name.to_string(), icon: String::new(), grade: String::new(), level, ability_level: 0, feature_data: None }
}

#[test]
fn the_build_pool_starts_from_the_learned_cards() {
    let cards = [card(19097, 1000, true), card(19098, 1000, true), card(19099, 1000, true), card(19282, 500, false)];
    let pool = arcana_card_pool(&cards, &[], &[]);
    assert_eq!(ids(&pool), vec![19097, 19098, 19099]);
}

#[test]
fn the_emperor_engraving_adds_and_replaces_cards() {
    let cards = [
        card(19097, 1000, true),
        card(19098, 1000, true),
        card(19099, 1000, true),
        card(19282, 500, false),
        card(19286, 600, false),
        card(19287, 700, false),
    ];
    let pool = arcana_card_pool(&cards, &[engraving_named("황제의 칙령", 1)], &[]);
    assert_eq!(ids(&pool), vec![19097, 19282, 19286, 19287]);
    let unleveled = arcana_card_pool(&cards, &[engraving_named("황제의 칙령", 0)], &[]);
    assert_eq!(ids(&unleveled), vec![19097, 19098, 19099]);
}

#[test]
fn class_nodes_change_the_pool_in_order() {
    let cards = [
        card(19097, 1000, true),
        card(19098, 1000, true),
        card(19099, 1000, true),
        card(19286, 600, false),
        card(19287, 700, false),
        card(19288, 800, false),
    ];
    let gift_one = arcana_card_pool(&cards, &[], &[node("황제의 하사품", 1)]);
    assert_eq!(ids(&gift_one), vec![19097, 19098, 19286]);
    let gift_two = arcana_card_pool(&cards, &[], &[node("황제의 하사품", 2), node("황후의 기사", 1), node("황후의 기사", 3)]);
    assert_eq!(ids(&gift_two), vec![19097, 19286, 19287, 19288]);
    let ignored = arcana_card_pool(&cards, &[], &[node("황후의 기사", 0), node("다른 노드", 5)]);
    assert_eq!(ids(&ignored), vec![19097, 19098, 19099]);
}

#[test]
fn only_an_arcana_with_the_potion_draws_before_the_fight() {
    assert_eq!(initial_card_draws(true, "아르카나"), 2);
    assert_eq!(initial_card_draws(false, "아르카나"), 0);
    assert_eq!(initial_card_draws(true, "버서커"), 0);
}

fn row(stage: u32, row: usize) -> FeatureRowRef {
    FeatureRowRef { stage, row }
}

#[test]
fn selects_the_current_raw_grade_and_stage() {
    // The full rows, kept beside the references: (feature type, values).
    let rows: Vec<(u32, Vec<f64>)> = vec![(10, vec![400.0]), (10, vec![2325.0, 2000.0])];
    let engraving = EngravingInput {
        name: "원한".to_string(),
        icon: String::new(),
        grade: "유물".to_string(),
        level: 4,
        ability_level: 0,
        feature_data: Some(FeatureDataRef {
            base_levels: vec![row(0, 0)],
            grades: vec![FeatureGradeRef { grade: 5, stages: vec![row(4, 1)] }],
        }),
    };
    let feature = selected_feature(&engraving).expect("relic level 4 should select raw stage 84");

    assert_eq!(rows[feature].0, 10);
    assert_eq!(rows[feature].1, vec![2325.0, 2000.0]);
}

#[test]
fn an_ungraded_engraving_selects_by_level() {
    let engraving = EngravingInput {
        name: "x".to_string(),
        icon: String::new(),
        grade: String::new(),
        level: 2,
        ability_level: 0,
        feature_data: Some(FeatureDataRef { base_levels: vec![row(0, 7), row(0, 8)], grades: Vec::new() }),
    };
    assert_eq!(selected_feature(&engraving), Some(8));
    let missing = EngravingInput { level: 3, ..engraving };
    assert_eq!(selected_feature(&missing), None);
}

#[test]
fn a_stage_the_grade_lacks_selects_nothing() {
    let engraving = EngravingInput {
        name: "x".to_string(),
        icon: String::new(),
        grade: "전설".to_string(),
        level: 3,
        ability_level: 1,
        feature_data: Some(FeatureDataRef {
            base_levels: Vec::new(),
            grades: vec![FeatureGradeRef { grade: 4, stages: vec![row(3, 0), row(4, 1)] }],
        }),
    };
    assert_eq!(selected_feature(&engraving), Some(1));
    let other = EngravingInput { ability_level: 5, ..engraving };
    assert_eq!(selected_feature(&other), None);
}

#[test]
fn grade_names_have_numbers() {
    assert_eq!(raw_grade("희귀"), Some(2));
    assert_eq!(raw_grade("영웅"), Some(3));
    assert_eq!(raw_grade("전설"), Some(4));
    assert_eq!(raw_grade("유물"), Some(5));
    assert_eq!(raw_grade("고대"), None);
}

#[test]
fn effect_names_map_to_stats_tags_and_filters() {
    assert_eq!(str_to_stat_field("crit_rate"), Some(StatField::CritRate));
    assert_eq!(str_to_stat_field("max_mana"), None);
    assert_eq!(str_to_skill_tag("CategoryRuin"), Some(SkillTag::CategoryRuin));
    assert_eq!(str_to_skill_tag("Holding"), None);
    assert_eq!(str_to_trigger_filter(Some("on_crit")), TriggerFilter::AnyCrit);
    assert_eq!(str_to_trigger_filter(Some("on_hit")), TriggerFilter::AnyHit);
    assert_eq!(str_to_trigger_filter(Some("on_cast")), TriggerFilter::SkillCast);
    assert_eq!(str_to_trigger_filter(None), TriggerFilter::SkillCast);
    assert_eq!(default_sim_effect_kind(), "stat");
}

#[test]
fn operators_parse_and_compare() {
    assert_eq!(CompareOperator::parse("<="), Some(CompareOperator::Lte));
    assert_eq!(CompareOperator::parse("~="), None);
    assert!(CompareOperator::Lte.compare(3, 3));
    assert!(!CompareOperator::Lt.compare(3, 3));
    assert!(CompareOperator::Ne.compare(-1, 1));
}

fn skill_ref(name: &str, level: u32) -> SkillRef {
    SkillRef { name: name.to_string(), level }
}

#[test]
fn pipelines_are_kept_by_skill_name() {
    let mut map: SkillPipelineMap<u32> = SkillPipelineMap::new(vec!["A".to_string(), "B".to_string(), "A".to_string()]);
    map.get_mut("A").unwrap().add_stats(5);
    map.get_mut("A").unwrap().add_structure(100);
    assert!(map.get_mut("Z").is_none());

    let data = vec!["B".to_string(), "A".to_string(), "A".to_string()];
    let skills = vec![skill_ref("A", 3), skill_ref("B", 0), skill_ref("A", 1)];
    let out = map.build_all(
        &data,
        &skills,
        |id: u32, k: usize, level: usize| (id, k, level, 0u32),
        |step: u32, p: (u32, usize, usize, u32)| ((p.0, p.1, p.2, p.3 * 2 + step), Ok(())),
    );
    // "A" runs its steps once (structure first, then stats); the second "A" runs none.
    assert_eq!(out, Ok(vec![(0, 2, 2, 205), (1, 0, 0, 0), (2, 2, 0, 0)]));
}

#[test]
fn a_skill_without_data_ends_the_build() {
    let map: SkillPipelineMap<u32> = SkillPipelineMap::new(vec!["A".to_string()]);
    let data = vec!["A".to_string()];
    let skills = vec![skill_ref("A", 1), skill_ref("C", 1)];
    let out = map.build_all(&data, &skills, |id: u32, _k: usize, _l: usize| id, |_s: u32, p: u32| (p, Ok(())));
    assert_eq!(out, Err("스킬 데이터 없음: C".to_string()));
}

#[test]
fn a_failed_step_ends_the_build() {
    let mut map: SkillPipelineMap<u32> = SkillPipelineMap::new(vec!["A".to_string()]);
    map.get_mut("A").unwrap().add_meta(0);
    let data = vec!["A".to_string()];
    let skills = vec![skill_ref("A", 1)];
    let out = map.build_all(&data, &skills, |id: u32, _k: usize, _l: usize| id, |s: u32, p: u32| {
        if s == 0 { (p, Err("bad step".to_string())) } else { (p, Ok(())) }
    });
    assert_eq!(out, Err("bad step".to_string()));
}

#[test]
fn control_types_decide_how_a_skill_is_cast() {
    assert_eq!(skill_type_of("Combo", 3, 0), SkillType::Combo { last_phase: 2, phase_timeout_ms: 2000 });
    assert_eq!(skill_type_of("Chain", 0, 1500), SkillType::Chain { last_phase: 0, phase_timeout_ms: 1500 });
    assert_eq!(skill_type_of("Holding", 1, 0), SkillType::Holding { max_hold_ms: 0 });
    assert_eq!(skill_type_of("Point", 1, 0), SkillType::Point);
    assert_eq!(skill_type_of("Casting", 1, 0), SkillType::Normal);
}
