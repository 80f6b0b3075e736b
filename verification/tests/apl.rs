use loa_sim::builder::apl::{
    build, compile_apl, compile_condition, AplCard, AplCondition, AplSkill, RawAction, RawApl, RawCardAction, RawCondition,
};
use loa_sim::collections::NameTable;
use loa_sim::profile::{same_text, CompareOperator};

fn skill(skill_id: u32, name: &str) -> AplSkill {
    AplSkill { skill_id, name: name.to_string() }
}

fn card(skill_id: u32, name: &str) -> AplCard {
    AplCard { skill_id, name: name.to_string() }
}

fn condition(condition_type: &str) -> RawCondition {
    RawCondition {
        condition_type: condition_type.to_string(),
        name: String::new(),
        skill: String::new(),
        card: String::new(),
        buff: String::new(),
        debuff: String::new(),
        operator: String::new(),
        value: 0,
    }
}

fn document(skills: &[&str], actions: Vec<RawAction>, card_actions: Vec<RawCardAction>) -> RawApl {
    RawApl {
        name: String::new(),
        class: String::new(),
        build: String::new(),
        skills: skills.iter().map(|s| s.to_string()).collect(),
        actions,
        card_actions,
    }
}

fn action(skill: &str, conditions: Vec<RawCondition>) -> RawAction {
    RawAction { skill: skill.to_string(), conditions }
}

#[test]
fn builds_yaml_actions_with_conditions() {
    let skills = vec![skill(10, "스택"), skill(20, "루인")];
    let text = "\nskills:\n  - \"스택\"\n  - \"루인\"\nactions:\n  - skill: \"루인\"\n    conditions:\n      - type: \"target_debuff_stacks\"\n        debuff: \"ruin\"\n        operator: \">=\"\n        value: 4\n";
    let mut stacks = condition("target_debuff_stacks");
    stacks.debuff = "ruin".to_string();
    stacks.operator = ">=".to_string();
    stacks.value = 4000;
    let doc = document(&["스택", "루인"], vec![action("루인", vec![stacks])], Vec::new());
    let apl = build(text, &skills, &[], Ok(doc)).unwrap();

    assert_eq!(apl.order, vec![20]);
    assert!(matches!(
        &apl.actions[0].conditions[0],
        AplCondition::TargetDebuffStacks { debuff_id, value, .. }
            if debuff_id == "arcana_ruin_stack" && *value == 4000
    ));
}

#[test]
fn keeps_json_name_array_compatibility() {
    let skills = vec![skill(10, "A"), skill(20, "B")];
    let apl = build(r#"["B", "A"]"#, &skills, &[], Err("not a document".to_string())).unwrap();

    assert_eq!(apl.order, vec![20, 10]);
    assert!(apl.actions.is_empty());
}

#[test]
fn builds_card_actions_from_raw_card_names() {
    let cards = vec![card(19098, "심판"), card(19097, "도태")];
    let mut held = condition("card_held");
    held.card = "도태".to_string();
    let mut count = condition("card_count");
    count.card = "심판".to_string();
    count.operator = ">=".to_string();
    count.value = 2000;
    let doc = document(&[], Vec::new(), vec![RawCardAction { card: "심판".to_string(), conditions: vec![held, count] }]);
    let apl = build(
        "card_actions:\n  - card: 심판\n    conditions:\n      - type: card_held\n        card: 도태\n      - type: card_count\n        card: 심판\n        operator: '>='\n        value: 2",
        &[],
        &cards,
        Ok(doc),
    )
    .unwrap();

    assert_eq!(apl.card_actions[0].card_id, 19098);
    assert_eq!(apl.card_actions[0].card_name, "심판");
    assert!(matches!(apl.card_actions[0].conditions[0], AplCondition::CardHeld(19097)));
    assert!(matches!(
        apl.card_actions[0].conditions[1],
        AplCondition::CardCount { card_id: 19098, value: 2000, .. }
    ));
}

#[test]
fn rejects_invalid_references_and_conditions() {
    let skills = vec![skill(10, "A")];

    assert_eq!(
        build(
            "actions:\n  - skill: 없는 스킬",
            &skills,
            &[],
            Ok(document(&[], vec![action("없는 스킬", Vec::new())], Vec::new())),
        )
        .unwrap_err(),
        "APL에 존재하지 않는 스킬: 없는 스킬"
    );
    assert_eq!(
        build(
            "actions:\n  - skill: A\n    conditions:\n      - type: invented",
            &skills,
            &[],
            Ok(document(&[], vec![action("A", vec![condition("invented")])], Vec::new())),
        )
        .unwrap_err(),
        "APL에 지원하지 않는 조건: invented"
    );
    let mut bad_operator = condition("time_remaining");
    bad_operator.operator = "~=".to_string();
    bad_operator.value = 1000;
    assert_eq!(
        build(
            "actions:\n  - skill: A\n    conditions:\n      - type: time_remaining\n        operator: ~=\n        value: 1",
            &skills,
            &[],
            Ok(document(&[], vec![action("A", vec![bad_operator])], Vec::new())),
        )
        .unwrap_err(),
        "APL에 지원하지 않는 비교 연산자: ~="
    );
    let mut next = condition("next_skill");
    next.skill = "A".to_string();
    assert_eq!(
        build(
            "actions:\n  - skill: A\n    conditions:\n      - type: next_skill\n        skill: A",
            &skills,
            &[],
            Ok(document(&[], vec![action("A", vec![next])], Vec::new())),
        )
        .unwrap_err(),
        "APL next_skill 조건은 card_actions에서만 사용할 수 있습니다"
    );
    assert!(build(
        "actions:\n  - skill: A\n    conditions:\n      - type: time_remaining\n        operators: '<='\n        value: 1",
        &skills,
        &[],
        Err("actions[0].conditions[0]: unknown field `operators`".to_string()),
    )
    .unwrap_err()
    .starts_with("APL YAML 파싱 실패:"));
}

#[test]
fn empty_text_keeps_the_character_order() {
    let skills = vec![skill(10, "A"), skill(20, "B")];
    let apl = build("   \n  ", &skills, &[], Err("unused".to_string())).unwrap();
    assert_eq!(apl.order, vec![10, 20]);
    assert!(apl.actions.is_empty());
    assert!(apl.card_actions.is_empty());
}

#[test]
fn empty_name_array_falls_back_to_the_character_order() {
    let skills = vec![skill(10, "A"), skill(20, "B")];
    let apl = build("[]", &skills, &[], Err("unused".to_string())).unwrap();
    assert_eq!(apl.order, vec![10, 20]);
}

#[test]
fn unknown_name_in_a_name_array_is_refused() {
    let skills = vec![skill(10, "A")];
    assert_eq!(
        build(r#"["A", "Z"]"#, &skills, &[], Err("unused".to_string())).unwrap_err(),
        "APL에 존재하지 않는 스킬: Z"
    );
}

#[test]
fn an_empty_document_is_refused() {
    let skills = vec![skill(10, "A")];
    assert_eq!(
        build("name: x", &skills, &[], Ok(document(&[], Vec::new(), Vec::new()))).unwrap_err(),
        "APL에 실행할 skills, actions 또는 card_actions가 필요합니다"
    );
}

#[test]
fn a_document_with_only_skills_orders_them() {
    let skills = vec![skill(10, "A"), skill(20, "B")];
    let apl = build("skills: [B, A]", &skills, &[], Ok(document(&["B", "A"], Vec::new(), Vec::new()))).unwrap();
    assert_eq!(apl.order, vec![20, 10]);
    assert!(apl.actions.is_empty());
}

#[test]
fn an_unknown_card_is_refused() {
    let doc = document(&[], Vec::new(), vec![RawCardAction { card: "없는 카드".to_string(), conditions: Vec::new() }]);
    assert_eq!(
        build("card_actions:\n  - card: 없는 카드", &[], &[card(1, "심판")], Ok(doc)).unwrap_err(),
        "APL에 존재하지 않는 카드: 없는 카드"
    );
}

#[test]
fn a_missing_field_is_refused() {
    let doc = document(&[], vec![action("A", vec![condition("buff_active")])], Vec::new());
    let err = build("actions: ...", &[skill(10, "A")], &[], Ok(doc)).unwrap_err();
    assert!(err.contains("buff"), "{err}");
}

#[test]
fn conditions_default_to_at_least_and_seconds_become_milliseconds() {
    let mut names = NameTable::new();
    names.insert("A".to_string(), 10);
    let cards = NameTable::new();
    let mut remaining = condition("time_remaining");
    remaining.value = 1500;
    match compile_condition(&remaining, Some(10), &names, &cards).unwrap() {
        AplCondition::TimeRemaining { operator, value_ms } => {
            assert_eq!(operator, CompareOperator::Gte);
            assert_eq!(value_ms, 1500);
        },
        other => panic!("unexpected {other:?}"),
    }
    let phase = condition("combo_phase");
    assert!(matches!(
        compile_condition(&phase, Some(10), &names, &cards).unwrap(),
        AplCondition::ComboPhase { skill_id: 10, .. }
    ));
}

#[test]
fn next_skill_is_accepted_in_card_actions() {
    let mut names = NameTable::new();
    names.insert("A".to_string(), 10);
    let cards = NameTable::new();
    let mut next = condition("next_skill");
    next.skill = "A".to_string();
    assert!(matches!(compile_condition(&next, None, &names, &cards).unwrap(), AplCondition::NextSkill(10)));
}

#[test]
fn unicode_white_space_around_the_text_is_ignored() {
    let skills = vec![skill(10, "A"), skill(20, "B")];
    let apl = build("\u{3000} [\"B\"]\t\n", &skills, &[], Err("unused".to_string())).unwrap();
    assert_eq!(apl.order, vec![20]);
}

#[test]
fn a_name_list_decides_before_the_document() {
    let skills = vec![skill(10, "A"), skill(20, "B")];
    let doc = document(&["A"], Vec::new(), Vec::new());
    let apl = compile_apl("[\"B\"]", Some(vec!["B".to_string()]), &skills, &[], Ok(doc)).unwrap();
    assert_eq!(apl.order, vec![20]);
    let doc = document(&["A"], Vec::new(), Vec::new());
    let apl = compile_apl("skills: [A]", None, &skills, &[], Ok(doc)).unwrap();
    assert_eq!(apl.order, vec![10]);
    assert_eq!(
        compile_apl("skills: [", None, &skills, &[], Err("bad".to_string())).unwrap_err(),
        "APL YAML 파싱 실패: bad"
    );
}

#[test]
fn next_skill_is_refused_in_an_action_of_skill_zero() {
    let skills = vec![skill(0, "A")];
    let mut next = condition("next_skill");
    next.skill = "A".to_string();
    assert_eq!(
        build(
            "actions:\n  - skill: A\n    conditions:\n      - type: next_skill\n        skill: A",
            &skills,
            &[],
            Ok(document(&[], vec![action("A", vec![next])], Vec::new())),
        )
        .unwrap_err(),
        "APL next_skill 조건은 card_actions에서만 사용할 수 있습니다"
    );
}

#[test]
fn a_card_action_may_name_skill_zero_as_the_next_skill() {
    let skills = vec![skill(0, "A")];
    let mut next = condition("next_skill");
    next.skill = "A".to_string();
    let doc = document(&[], Vec::new(), vec![RawCardAction { card: "심판".to_string(), conditions: vec![next] }]);
    let apl = build("card_actions: ...", &skills, &[card(19098, "심판")], Ok(doc)).unwrap();
    assert!(matches!(apl.card_actions[0].conditions[0], AplCondition::NextSkill(0)));
}

#[test]
fn empress_style_document_compiles_every_action_and_condition() {
    let skill_names = ["스트림 오브 엣지", "스크래치 딜러", "스파이럴 엣지", "운명의 부름", "더 데빌", "셀레스티얼 레인", "시크릿 가든", "포 카드", "세렌디피티"];
    let card_names = ["삼두사", "광기", "부식", "환희", "뒤틀린 운명", "유령", "도태", "균형", "심판", "달", "별", "로열", "운명의 수레바퀴", "황제", "재상", "제후", "황후의 기사", "광대"];
    let skills: Vec<AplSkill> = skill_names.iter().enumerate().map(|(id, n)| skill(id as u32, n)).collect();
    let cards: Vec<AplCard> = card_names.iter().enumerate().map(|(id, n)| card(id as u32, n)).collect();

    let with = |t: &str, f: &dyn Fn(&mut RawCondition)| {
        let mut c = condition(t);
        f(&mut c);
        c
    };
    let actions = vec![
        action("스트림 오브 엣지", vec![condition("cooldown_ready")]),
        action("스크래치 딜러", vec![with("skill_cooldown_ready", &|c| c.skill = "스트림 오브 엣지".to_string())]),
        action("스파이럴 엣지", vec![with("skill_cooldown_remaining", &|c| { c.skill = "더 데빌".to_string(); c.operator = "<".to_string(); c.value = 2000; })]),
        action("운명의 부름", vec![with("resource", &|c| { c.name = "mp".to_string(); c.operator = ">=".to_string(); c.value = 300_000; })]),
        action("더 데빌", vec![with("card_held", &|c| c.card = "황제".to_string()), with("card_count", &|c| { c.card = "광대".to_string(); c.value = 2000; })]),
        action("셀레스티얼 레인", vec![with("buff_active", &|c| c.buff = "focus".to_string()), with("buff_inactive", &|c| c.buff = "calm".to_string())]),
        action("시크릿 가든", vec![with("buff_remaining", &|c| { c.buff = "focus".to_string(); c.operator = "<=".to_string(); c.value = 1500; })]),
        action("포 카드", vec![with("target_debuff_stacks", &|c| { c.debuff = "ruin".to_string(); c.value = 4000; })]),
        action("세렌디피티", vec![condition("combo_phase"), with("chain_phase", &|c| c.skill = "포 카드".to_string()), with("time_remaining", &|c| { c.operator = "<".to_string(); c.value = 30_000; })]),
    ];
    let clown = |conditions: Vec<RawCondition>| RawCardAction { card: "광대".to_string(), conditions };
    let card_actions = vec![
        RawCardAction { card: "뒤틀린 운명".to_string(), conditions: vec![with("next_skill", &|c| c.skill = "더 데빌".to_string())] },
        clown(vec![with("card_held", &|c| c.card = "심판".to_string())]),
        clown(vec![with("combo_phase", &|c| c.skill = "세렌디피티".to_string())]),
        clown(vec![with("time_remaining", &|c| c.value = 10_000)]),
        clown(Vec::new()),
    ];
    let doc = document(&skill_names, actions, card_actions);
    let apl = build("name: empress\nbuild: empress-test", &skills, &cards, Ok(doc)).unwrap();

    assert_eq!(apl.actions.len(), 9);
    assert_eq!(apl.card_actions.len(), 5);
    assert_eq!(apl.order, (0..9).collect::<Vec<u32>>());
    let devil_id = skills.iter().find(|s| s.name == "더 데빌").unwrap().skill_id;
    let twisted = apl.card_actions.iter().find(|a| a.card_name == "뒤틀린 운명").unwrap();
    assert!(matches!(twisted.conditions.as_slice(), [AplCondition::NextSkill(id)] if *id == devil_id));
    let clowns: Vec<_> = apl.card_actions.iter().filter(|a| a.card_name == "광대").collect();
    assert_eq!(clowns.len(), 4);
    assert_eq!(clowns.iter().filter(|a| a.conditions.is_empty()).count(), 1);
    assert!(matches!(apl.actions[0].conditions[0], AplCondition::CooldownReady));
    assert!(matches!(&apl.actions[3].conditions[0], AplCondition::Resource { resource, value: 300_000, .. } if resource == "Mp"));
    assert!(matches!(apl.actions[8].conditions[0], AplCondition::ComboPhase { skill_id: 8, .. }));
    assert!(matches!(apl.card_actions[2].conditions[0], AplCondition::ComboPhase { skill_id: 8, .. }));
}

#[test]
fn unicode_white_space_around_a_name_array_is_trimmed() {
    let skills = vec![skill(10, "A"), skill(20, "B")];
    let apl = build("\u{3000}\t [\"B\", \"A\"]\u{2003}\u{85}\n", &skills, &[], Err("not a document".to_string())).unwrap();
    assert_eq!(apl.order, vec![20, 10]);
}

#[test]
fn text_of_only_unicode_white_space_keeps_the_character_order() {
    let skills = vec![skill(10, "A"), skill(20, "B")];
    let apl = build("\u{a0}\u{2028} \u{3000}", &skills, &[], Err("unused".to_string())).unwrap();
    assert_eq!(apl.order, vec![10, 20]);
}

#[test]
fn same_text_compares_characters() {
    assert!(same_text("도태", "도태"));
    assert!(same_text("", ""));
    assert!(!same_text("도태", "도"));
    assert!(!same_text("ab", "ac"));
    assert!(!same_text("", "a"));
}
