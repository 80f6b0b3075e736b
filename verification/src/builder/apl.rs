//! The action priority list (APL): a list of skill names, or a document of actions
//! with conditions, compiled into skill ids and checked conditions.

use vstd::prelude::*;
use vstd::string::{StrSliceExecFns, StringExecFns};
use vstd::std_specs::iter::IteratorSpec;
use crate::collections::{NameTable, name_entries};
use crate::profile::{CompareOperator, parsed_operator, same_text};

verus! {

/// A condition of an action, compiled. Values that the document writes with a
/// fraction are kept in thousandths.
#[derive(Debug)]
pub enum AplCondition {
    CooldownReady,
    SkillCooldownReady(u32),
    SkillCooldownRemaining { skill_id: u32, operator: CompareOperator, value_ms: u64 },
    Resource { resource: String, operator: CompareOperator, value: i64 },
    CardHeld(u32),
    CardCount { card_id: u32, operator: CompareOperator, value: i64 },
    NextSkill(u32),
    BuffActive(String),
    BuffInactive(String),
    BuffRemaining { buff_id: String, operator: CompareOperator, value_ms: u64 },
    TargetDebuffStacks { debuff_id: String, operator: CompareOperator, value: i64 },
    ComboPhase { skill_id: u32, operator: CompareOperator, value: i64 },
    ChainPhase { skill_id: u32, operator: CompareOperator, value: i64 },
    TimeRemaining { operator: CompareOperator, value_ms: u64 },
}

/// An `AplCondition` with its texts as character sequences.
pub enum CondView {
    CooldownReady,
    SkillCooldownReady(u32),
    SkillCooldownRemaining { skill_id: u32, operator: CompareOperator, value_ms: u64 },
    Resource { resource: Seq<char>, operator: CompareOperator, value: i64 },
    CardHeld(u32),
    CardCount { card_id: u32, operator: CompareOperator, value: i64 },
    NextSkill(u32),
    BuffActive(Seq<char>),
    BuffInactive(Seq<char>),
    BuffRemaining { buff_id: Seq<char>, operator: CompareOperator, value_ms: u64 },
    TargetDebuffStacks { debuff_id: Seq<char>, operator: CompareOperator, value: i64 },
    ComboPhase { skill_id: u32, operator: CompareOperator, value: i64 },
    ChainPhase { skill_id: u32, operator: CompareOperator, value: i64 },
    TimeRemaining { operator: CompareOperator, value_ms: u64 },
}

impl View for AplCondition {
    type V = CondView;

    open spec fn view(&self) -> CondView {
        match *self {
            AplCondition::CooldownReady => CondView::CooldownReady,
            AplCondition::SkillCooldownReady(id) => CondView::SkillCooldownReady(id),
            AplCondition::SkillCooldownRemaining { skill_id, operator, value_ms } =>
                CondView::SkillCooldownRemaining { skill_id, operator, value_ms },
            AplCondition::Resource { resource, operator, value } =>
                CondView::Resource { resource: resource@, operator, value },
            AplCondition::CardHeld(id) => CondView::CardHeld(id),
            AplCondition::CardCount { card_id, operator, value } => CondView::CardCount { card_id, operator, value },
            AplCondition::NextSkill(id) => CondView::NextSkill(id),
            AplCondition::BuffActive(id) => CondView::BuffActive(id@),
            AplCondition::BuffInactive(id) => CondView::BuffInactive(id@),
            AplCondition::BuffRemaining { buff_id, operator, value_ms } =>
                CondView::BuffRemaining { buff_id: buff_id@, operator, value_ms },
            AplCondition::TargetDebuffStacks { debuff_id, operator, value } =>
                CondView::TargetDebuffStacks { debuff_id: debuff_id@, operator, value },
            AplCondition::ComboPhase { skill_id, operator, value } => CondView::ComboPhase { skill_id, operator, value },
            AplCondition::ChainPhase { skill_id, operator, value } => CondView::ChainPhase { skill_id, operator, value },
            AplCondition::TimeRemaining { operator, value_ms } => CondView::TimeRemaining { operator, value_ms },
        }
    }
}

/// A condition as the document writes it; `value` is in thousandths.
pub struct RawCondition {
    pub condition_type: String,
    pub name: String,
    pub skill: String,
    pub card: String,
    pub buff: String,
    pub debuff: String,
    pub operator: String,
    pub value: i64,
}

/// "APL에 존재하지 않는 스킬: " followed by the name.
pub open spec fn missing_skill(name: Seq<char>) -> Seq<char> {
    "APL에 존재하지 않는 스킬: "@ + name
}

/// "APL에 존재하지 않는 카드: " followed by the name.
pub open spec fn missing_card(name: Seq<char>) -> Seq<char> {
    "APL에 존재하지 않는 카드: "@ + name
}

/// The id kept under `name`, if any.
pub open spec fn lookup(ids: Map<Seq<char>, u32>, name: Seq<char>) -> Option<u32> {
    if ids.contains_key(name) { Some(ids[name]) } else { None }
}

/// Milliseconds from thousandths of a second, never below zero.
pub open spec fn ms_of(value: i64) -> u64 {
    if value < 0 { 0 } else { value as u64 }
}

/// "hp" and "mp" become "Hp" and "Mp"; other names are kept.
pub open spec fn resource_name(name: Seq<char>) -> Seq<char> {
    if name == "hp"@ { "Hp"@ } else if name == "mp"@ { "Mp"@ } else { name }
}

/// "ruin" becomes "arcana_ruin_stack"; other ids are kept.
pub open spec fn debuff_name(id: Seq<char>) -> Seq<char> {
    if id == "ruin"@ { "arcana_ruin_stack"@ } else { id }
}

/// The field's value, or the error that it is missing for this condition type.
pub open spec fn required(raw: RawCondition, field: Seq<char>, value: Seq<char>) -> Result<Seq<char>, Seq<char>> {
    if value.len() == 0 {
        Err("APL "@ + raw.condition_type@ + " 조건에 "@ + field + " 값이 필요합니다"@)
    } else {
        Ok(value)
    }
}

/// The condition's operator: `>=` when none is written.
pub open spec fn operator_of(raw: RawCondition) -> Result<CompareOperator, Seq<char>> {
    if raw.operator@.len() == 0 {
        Ok(CompareOperator::Gte)
    } else {
        match parsed_operator(raw.operator@) {
            Some(op) => Ok(op),
            None => Err("APL에 지원하지 않는 비교 연산자: "@ + raw.operator@),
        }
    }
}

/// The skill named by the condition, or `current` when it names none.
pub open spec fn skill_or_current(raw: RawCondition, current: u32, skills: Map<Seq<char>, u32>) -> Result<u32, Seq<char>> {
    if raw.skill@.len() == 0 {
        Ok(current)
    } else {
        match lookup(skills, raw.skill@) {
            Some(id) => Ok(id),
            None => Err(missing_skill(raw.skill@)),
        }
    }
}

/// The skill id that a condition of an action refers to by default: the action's skill,
/// or 0 in a card action.
pub open spec fn current_of(action_skill: Option<u32>) -> u32 {
    match action_skill {
        Some(id) => id,
        None => 0,
    }
}

/// The compiled form of a condition of the action for skill `action_skill` (none for a card
/// action), or the error that the document has.
pub open spec fn compiled(raw: RawCondition, action_skill: Option<u32>, skills: Map<Seq<char>, u32>, cards: Map<Seq<char>, u32>) -> Result<CondView, Seq<char>> {
    let t = raw.condition_type@;
    if t == "cooldown_ready"@ {
        Ok(CondView::CooldownReady)
    } else if t == "skill_cooldown_ready"@ {
        match required(raw, "skill"@, raw.skill@) {
            Err(e) => Err(e),
            Ok(n) => match lookup(skills, n) {
                Some(id) => Ok(CondView::SkillCooldownReady(id)),
                None => Err(missing_skill(raw.skill@)),
            },
        }
    } else if t == "skill_cooldown_remaining"@ {
        match required(raw, "skill"@, raw.skill@) {
            Err(e) => Err(e),
            Ok(n) => match lookup(skills, n) {
                None => Err(missing_skill(raw.skill@)),
                Some(id) => match operator_of(raw) {
                    Err(e) => Err(e),
                    Ok(op) => Ok(CondView::SkillCooldownRemaining { skill_id: id, operator: op, value_ms: ms_of(raw.value) }),
                },
            },
        }
    } else if t == "resource"@ {
        match required(raw, "name"@, raw.name@) {
            Err(e) => Err(e),
            Ok(n) => match operator_of(raw) {
                Err(e) => Err(e),
                Ok(op) => Ok(CondView::Resource { resource: resource_name(n), operator: op, value: raw.value }),
            },
        }
    } else if t == "card_held"@ {
        match required(raw, "card"@, raw.card@) {
            Err(e) => Err(e),
            Ok(n) => match lookup(cards, n) {
                Some(id) => Ok(CondView::CardHeld(id)),
                None => Err(missing_card(raw.card@)),
            },
        }
    } else if t == "card_count"@ {
        match required(raw, "card"@, raw.card@) {
            Err(e) => Err(e),
            Ok(n) => match lookup(cards, n) {
                None => Err(missing_card(raw.card@)),
                Some(id) => match operator_of(raw) {
                    Err(e) => Err(e),
                    Ok(op) => Ok(CondView::CardCount { card_id: id, operator: op, value: raw.value }),
                },
            },
        }
    } else if t == "next_skill"@ && action_skill is None {
        match required(raw, "skill"@, raw.skill@) {
            Err(e) => Err(e),
            Ok(n) => match lookup(skills, n) {
                Some(id) => Ok(CondView::NextSkill(id)),
                None => Err(missing_skill(raw.skill@)),
            },
        }
    } else if t == "next_skill"@ {
        Err("APL next_skill 조건은 card_actions에서만 사용할 수 있습니다"@)
    } else if t == "buff_active"@ {
        match required(raw, "buff"@, raw.buff@) {
            Err(e) => Err(e),
            Ok(n) => Ok(CondView::BuffActive(n)),
        }
    } else if t == "buff_inactive"@ {
        match required(raw, "buff"@, raw.buff@) {
            Err(e) => Err(e),
            Ok(n) => Ok(CondView::BuffInactive(n)),
        }
    } else if t == "buff_remaining"@ {
        match required(raw, "buff"@, raw.buff@) {
            Err(e) => Err(e),
            Ok(n) => match operator_of(raw) {
                Err(e) => Err(e),
                Ok(op) => Ok(CondView::BuffRemaining { buff_id: n, operator: op, value_ms: ms_of(raw.value) }),
            },
        }
    } else if t == "target_debuff_stacks"@ {
        match required(raw, "debuff"@, raw.debuff@) {
            Err(e) => Err(e),
            Ok(n) => match operator_of(raw) {
                Err(e) => Err(e),
                Ok(op) => Ok(CondView::TargetDebuffStacks { debuff_id: debuff_name(n), operator: op, value: raw.value }),
            },
        }
    } else if t == "combo_phase"@ {
        match skill_or_current(raw, current_of(action_skill), skills) {
            Err(e) => Err(e),
            Ok(id) => match operator_of(raw) {
                Err(e) => Err(e),
                Ok(op) => Ok(CondView::ComboPhase { skill_id: id, operator: op, value: raw.value }),
            },
        }
    } else if t == "chain_phase"@ {
        match skill_or_current(raw, current_of(action_skill), skills) {
            Err(e) => Err(e),
            Ok(id) => match operator_of(raw) {
                Err(e) => Err(e),
                Ok(op) => Ok(CondView::ChainPhase { skill_id: id, operator: op, value: raw.value }),
            },
        }
    } else if t == "time_remaining"@ {
        match operator_of(raw) {
            Err(e) => Err(e),
            Ok(op) => Ok(CondView::TimeRemaining { operator: op, value_ms: ms_of(raw.value) }),
        }
    } else {
        Err("APL에 지원하지 않는 조건: "@ + t)
    }
}

/// The text `prefix` followed by `detail`.
fn message(prefix: &str, detail: &str) -> (m: String)
    ensures
        m@ == prefix@ + detail@,
{
    let mut m = String::from_str(prefix);
    m.append(detail);
    m
}

/// Maps "hp" and "mp" to the engine's resource names.
pub fn normalize_resource(name: &str) -> (r: String)
    ensures
        r@ == resource_name(name@),
{
    if same_text(name, "hp") {
        String::from_str("Hp")
    } else if same_text(name, "mp") {
        String::from_str("Mp")
    } else {
        String::from_str(name)
    }
}

/// Buff ids are used as written.
pub fn normalize_buff_id(id: &str) -> (r: String)
    ensures
        r@ == id@,
{
    String::from_str(id)
}

/// Maps "ruin" to the id of the ruin stack debuff.
pub fn normalize_target_debuff_id(id: &str) -> (r: String)
    ensures
        r@ == debuff_name(id@),
{
    if same_text(id, "ruin") {
        String::from_str("arcana_ruin_stack")
    } else {
        String::from_str(id)
    }
}

/// Milliseconds from thousandths of a second; negative values count as zero.
pub fn seconds_to_ms(value: i64) -> (ms: u64)
    ensures
        ms == ms_of(value),
{
    if value < 0 { 0 } else { value as u64 }
}

fn required_field<'a>(raw: &RawCondition, field: &str, value: &'a str) -> (r: Result<&'a str, String>)
    ensures
        r matches Ok(v) ==> required(*raw, field@, value@) == Ok::<Seq<char>, Seq<char>>(v@),
        r matches Err(e) ==> required(*raw, field@, value@) == Err::<Seq<char>, Seq<char>>(e@),
{
    if value.is_empty() {
        let mut m = String::from_str("APL ");
        m.append(raw.condition_type.as_str());
        m.append(" 조건에 ");
        m.append(field);
        m.append(" 값이 필요합니다");
        Err(m)
    } else {
        Ok(value)
    }
}

fn operator(raw: &RawCondition) -> (r: Result<CompareOperator, String>)
    ensures
        r matches Ok(op) ==> operator_of(*raw) == Ok::<CompareOperator, Seq<char>>(op),
        r matches Err(e) ==> operator_of(*raw) == Err::<CompareOperator, Seq<char>>(e@),
{
    if raw.operator.as_str().is_empty() {
        Ok(CompareOperator::Gte)
    } else {
        match CompareOperator::parse(raw.operator.as_str()) {
            Some(op) => Ok(op),
            None => Err(message("APL에 지원하지 않는 비교 연산자: ", raw.operator.as_str())),
        }
    }
}

fn lookup_skill(names: &NameTable, name: &str) -> (r: Result<u32, String>)
    ensures
        r matches Ok(id) ==> lookup(name_entries(*names), name@) == Some(id),
        r matches Err(e) ==> lookup(name_entries(*names), name@) is None && e@ == missing_skill(name@),
{
    match names.get(name) {
        Some(id) => Ok(id),
        None => Err(message("APL에 존재하지 않는 스킬: ", name)),
    }
}

fn lookup_card(cards: &NameTable, name: &str) -> (r: Result<u32, String>)
    ensures
        r matches Ok(id) ==> lookup(name_entries(*cards), name@) == Some(id),
        r matches Err(e) ==> lookup(name_entries(*cards), name@) is None && e@ == missing_card(name@),
{
    match cards.get(name) {
        Some(id) => Ok(id),
        None => Err(message("APL에 존재하지 않는 카드: ", name)),
    }
}

fn named_skill_or_current(raw: &RawCondition, current_skill_id: u32, names: &NameTable) -> (r: Result<u32, String>)
    ensures
        r matches Ok(id) ==> skill_or_current(*raw, current_skill_id, name_entries(*names)) == Ok::<u32, Seq<char>>(id),
        r matches Err(e) ==> skill_or_current(*raw, current_skill_id, name_entries(*names)) == Err::<u32, Seq<char>>(e@),
{
    if raw.skill.as_str().is_empty() {
        Ok(current_skill_id)
    } else {
        lookup_skill(names, raw.skill.as_str())
    }
}

/// Compiles one condition of the action for skill `action_skill` (none for a card action).
pub fn compile_condition(raw: &RawCondition, action_skill: Option<u32>, names: &NameTable, cards: &NameTable) -> (r: Result<AplCondition, String>)
    ensures
        r matches Ok(c) ==> compiled(*raw, action_skill, name_entries(*names), name_entries(*cards)) == Ok::<CondView, Seq<char>>(c@),
        r matches Err(e) ==> compiled(*raw, action_skill, name_entries(*names), name_entries(*cards)) == Err::<CondView, Seq<char>>(e@),
{
    let current_skill_id = match action_skill {
        Some(id) => id,
        None => 0,
    };
    let t = raw.condition_type.as_str();
    if same_text(t, "cooldown_ready") {
        Ok(AplCondition::CooldownReady)
    } else if same_text(t, "skill_cooldown_ready") {
        let n = required_field(raw, "skill", raw.skill.as_str())?;
        let id = lookup_skill(names, n)?;
        Ok(AplCondition::SkillCooldownReady(id))
    } else if same_text(t, "skill_cooldown_remaining") {
        let n = required_field(raw, "skill", raw.skill.as_str())?;
        let id = lookup_skill(names, n)?;
        let op = operator(raw)?;
        Ok(AplCondition::SkillCooldownRemaining { skill_id: id, operator: op, value_ms: seconds_to_ms(raw.value) })
    } else if same_text(t, "resource") {
        let n = required_field(raw, "name", raw.name.as_str())?;
        let resource = normalize_resource(n);
        let op = operator(raw)?;
        Ok(AplCondition::Resource { resource, operator: op, value: raw.value })
    } else if same_text(t, "card_held") {
        let n = required_field(raw, "card", raw.card.as_str())?;
        let id = lookup_card(cards, n)?;
        Ok(AplCondition::CardHeld(id))
    } else if same_text(t, "card_count") {
        let n = required_field(raw, "card", raw.card.as_str())?;
        let id = lookup_card(cards, n)?;
        let op = operator(raw)?;
        Ok(AplCondition::CardCount { card_id: id, operator: op, value: raw.value })
    } else if same_text(t, "next_skill") && action_skill.is_none() {
        let n = required_field(raw, "skill", raw.skill.as_str())?;
        let id = lookup_skill(names, n)?;
        Ok(AplCondition::NextSkill(id))
    } else if same_text(t, "next_skill") {
        Err(String::from_str("APL next_skill 조건은 card_actions에서만 사용할 수 있습니다"))
    } else if same_text(t, "buff_active") {
        let n = required_field(raw, "buff", raw.buff.as_str())?;
        Ok(AplCondition::BuffActive(normalize_buff_id(n)))
    } else if same_text(t, "buff_inactive") {
        let n = required_field(raw, "buff", raw.buff.as_str())?;
        Ok(AplCondition::BuffInactive(normalize_buff_id(n)))
    } else if same_text(t, "buff_remaining") {
        let n = required_field(raw, "buff", raw.buff.as_str())?;
        let buff_id = normalize_buff_id(n);
        let op = operator(raw)?;
        Ok(AplCondition::BuffRemaining { buff_id, operator: op, value_ms: seconds_to_ms(raw.value) })
    } else if same_text(t, "target_debuff_stacks") {
        let n = required_field(raw, "debuff", raw.debuff.as_str())?;
        let debuff_id = normalize_target_debuff_id(n);
        let op = operator(raw)?;
        Ok(AplCondition::TargetDebuffStacks { debuff_id, operator: op, value: raw.value })
    } else if same_text(t, "combo_phase") {
        let id = named_skill_or_current(raw, current_skill_id, names)?;
        let op = operator(raw)?;
        Ok(AplCondition::ComboPhase { skill_id: id, operator: op, value: raw.value })
    } else if same_text(t, "chain_phase") {
        let id = named_skill_or_current(raw, current_skill_id, names)?;
        let op = operator(raw)?;
        Ok(AplCondition::ChainPhase { skill_id: id, operator: op, value: raw.value })
    } else if same_text(t, "time_remaining") {
        let op = operator(raw)?;
        Ok(AplCondition::TimeRemaining { operator: op, value_ms: seconds_to_ms(raw.value) })
    } else {
        Err(message("APL에 지원하지 않는 조건: ", t))
    }
}

/// Applies `f` to each element in order; the first error is the result, else all results.
pub open spec fn collect_all<A, B>(s: Seq<A>, f: spec_fn(A) -> Result<B, Seq<char>>) -> Result<Seq<B>, Seq<char>>
    decreases s.len(),
{
    if s.len() == 0 {
        Ok(Seq::empty())
    } else {
        match collect_all(s.drop_last(), f) {
            Err(e) => Err(e),
            Ok(r) => match f(s.last()) {
                Err(e) => Err(e),
                Ok(b) => Ok(r.push(b)),
            },
        }
    }
}

/// Once a prefix fails, the whole sequence fails with the same error.
pub proof fn lemma_collect_err<A, B>(s: Seq<A>, f: spec_fn(A) -> Result<B, Seq<char>>, k: int)
    requires
        0 <= k <= s.len(),
        collect_all(s.take(k), f) is Err,
    ensures
        collect_all(s, f) == collect_all(s.take(k), f),
    decreases s.len() - k,
{
    if k == s.len() {
        assert(s.take(k) =~= s);
    } else {
        assert(s.take(k + 1).drop_last() =~= s.take(k));
        lemma_collect_err(s, f, k + 1);
    }
}

/// One step of `collect_all` over a prefix.
pub proof fn lemma_collect_step<A, B>(s: Seq<A>, f: spec_fn(A) -> Result<B, Seq<char>>, k: int)
    requires
        0 <= k < s.len(),
    ensures
        collect_all(s.take(k + 1), f) == (match collect_all(s.take(k), f) {
            Err(e) => Err(e),
            Ok(r) => match f(s[k]) {
                Err(e) => Err(e),
                Ok(b) => Ok(r.push(b)),
            },
        }),
{
    assert(s.take(k + 1).drop_last() =~= s.take(k));
    assert(s.take(k + 1).last() == s[k]);
}

/// A skill of the character, by name.
pub struct AplSkill {
    pub skill_id: u32,
    pub name: String,
}

/// A card that card actions may name.
pub struct AplCard {
    pub skill_id: u32,
    pub name: String,
}

/// A skill action: cast the skill when every condition holds.
#[derive(Debug)]
pub struct AplAction {
    pub skill_id: u32,
    pub conditions: Vec<AplCondition>,
}

/// A card action: use the card when every condition holds.
#[derive(Debug)]
pub struct CardAplAction {
    pub card_id: u32,
    pub card_name: String,
    pub conditions: Vec<AplCondition>,
}

/// The compiled list: the order of skills, the skill actions and the card actions.
#[derive(Debug)]
pub struct BuiltApl {
    pub order: Vec<u32>,
    pub actions: Vec<AplAction>,
    pub card_actions: Vec<CardAplAction>,
}

/// A skill action as written in the document.
pub struct RawAction {
    pub skill: String,
    pub conditions: Vec<RawCondition>,
}

/// A card action as written in the document.
pub struct RawCardAction {
    pub card: String,
    pub conditions: Vec<RawCondition>,
}

/// The document form of the list.
pub struct RawApl {
    pub name: String,
    pub class: String,
    pub build: String,
    pub skills: Vec<String>,
    pub actions: Vec<RawAction>,
    pub card_actions: Vec<RawCardAction>,
}

/// An `AplAction` by its views.
pub struct ActionView {
    pub skill_id: u32,
    pub conditions: Seq<CondView>,
}

/// A `CardAplAction` by its views.
pub struct CardActionView {
    pub card_id: u32,
    pub card_name: Seq<char>,
    pub conditions: Seq<CondView>,
}

/// A `BuiltApl` by its views.
pub struct BuiltView {
    pub order: Seq<u32>,
    pub actions: Seq<ActionView>,
    pub card_actions: Seq<CardActionView>,
}

/// The views of the conditions.
pub open spec fn cond_views(conds: Seq<AplCondition>) -> Seq<CondView> {
    conds.map_values(|c: AplCondition| c@)
}

impl View for AplAction {
    type V = ActionView;

    open spec fn view(&self) -> ActionView {
        ActionView { skill_id: self.skill_id, conditions: cond_views(self.conditions@) }
    }
}

impl View for CardAplAction {
    type V = CardActionView;

    open spec fn view(&self) -> CardActionView {
        CardActionView { card_id: self.card_id, card_name: self.card_name@, conditions: cond_views(self.conditions@) }
    }
}

impl View for BuiltApl {
    type V = BuiltView;

    open spec fn view(&self) -> BuiltView {
        BuiltView {
            order: self.order@,
            actions: self.actions@.map_values(|a: AplAction| a@),
            card_actions: self.card_actions@.map_values(|a: CardAplAction| a@),
        }
    }
}

/// Skill name to id; a later skill with the same name wins.
pub open spec fn skill_ids(skills: Seq<AplSkill>) -> Map<Seq<char>, u32>
    decreases skills.len(),
{
    if skills.len() == 0 {
        Map::empty()
    } else {
        skill_ids(skills.drop_last()).insert(skills.last().name@, skills.last().skill_id)
    }
}

/// Card name to id; a later card with the same name wins.
pub open spec fn card_ids(cards: Seq<AplCard>) -> Map<Seq<char>, u32>
    decreases cards.len(),
{
    if cards.len() == 0 {
        Map::empty()
    } else {
        card_ids(cards.drop_last()).insert(cards.last().name@, cards.last().skill_id)
    }
}

/// The compiled conditions of an action for skill `action_skill` (none for a card action).
pub open spec fn compiled_conditions(raws: Seq<RawCondition>, action_skill: Option<u32>, skills: Map<Seq<char>, u32>, cards: Map<Seq<char>, u32>) -> Result<Seq<CondView>, Seq<char>> {
    collect_all(raws, |raw: RawCondition| compiled(raw, action_skill, skills, cards))
}

/// The skill ids of the names, in order.
pub open spec fn names_order(names: Seq<Seq<char>>, skills: Map<Seq<char>, u32>) -> Result<Seq<u32>, Seq<char>> {
    collect_all(names, |name: Seq<char>| match lookup(skills, name) {
        Some(id) => Ok(id),
        None => Err(missing_skill(name)),
    })
}

/// A compiled skill action.
pub open spec fn compiled_action(raw: RawAction, skills: Map<Seq<char>, u32>, cards: Map<Seq<char>, u32>) -> Result<ActionView, Seq<char>> {
    match lookup(skills, raw.skill@) {
        None => Err(missing_skill(raw.skill@)),
        Some(id) => match compiled_conditions(raw.conditions@, Some(id), skills, cards) {
            Err(e) => Err(e),
            Ok(c) => Ok(ActionView { skill_id: id, conditions: c }),
        },
    }
}

/// A compiled card action; its conditions belong to no skill.
pub open spec fn compiled_card_action(raw: RawCardAction, skills: Map<Seq<char>, u32>, cards: Map<Seq<char>, u32>) -> Result<CardActionView, Seq<char>> {
    match lookup(cards, raw.card@) {
        None => Err(missing_card(raw.card@)),
        Some(id) => match compiled_conditions(raw.conditions@, None, skills, cards) {
            Err(e) => Err(e),
            Ok(c) => Ok(CardActionView { card_id: id, card_name: raw.card@, conditions: c }),
        },
    }
}

/// The list from a document: actions first, then card actions; the order is that of the
/// actions, else that of the named skills, else the character's own order.
pub open spec fn from_document(raw: RawApl, default_order: Seq<u32>, skills: Map<Seq<char>, u32>, cards: Map<Seq<char>, u32>) -> Result<BuiltView, Seq<char>> {
    if raw.skills@.len() == 0 && raw.actions@.len() == 0 && raw.card_actions@.len() == 0 {
        Err("APL에 실행할 skills, actions 또는 card_actions가 필요합니다"@)
    } else {
        match collect_all(raw.actions@, |a: RawAction| compiled_action(a, skills, cards)) {
            Err(e) => Err(e),
            Ok(actions) => match collect_all(raw.card_actions@, |a: RawCardAction| compiled_card_action(a, skills, cards)) {
                Err(e) => Err(e),
                Ok(card_actions) => if actions.len() > 0 {
                    Ok(BuiltView { order: actions.map_values(|a: ActionView| a.skill_id), actions, card_actions })
                } else {
                    match names_order(raw.skills@.map_values(|n: String| n@), skills) {
                        Err(e) => Err(e),
                        Ok(order) => Ok(BuiltView {
                            order: if order.len() == 0 { default_order } else { order },
                            actions,
                            card_actions,
                        }),
                    }
                },
            },
        }
    }
}

/// `c` has the Unicode White_Space property.
pub open spec fn is_white_space(c: char) -> bool {
    let n = c as u32;
    (0x09 <= n <= 0x0D) || n == 0x20 || n == 0x85 || n == 0xA0 || n == 0x1680 || (0x2000 <= n <= 0x200A)
        || n == 0x2028 || n == 0x2029 || n == 0x202F || n == 0x205F || n == 0x3000
}

/// `text` without its leading white space.
pub open spec fn trim_start(text: Seq<char>) -> Seq<char>
    decreases text.len(),
{
    if text.len() > 0 && is_white_space(text[0]) { trim_start(text.skip(1)) } else { text }
}

/// `text` without its trailing white space.
pub open spec fn trim_end(text: Seq<char>) -> Seq<char>
    decreases text.len(),
{
    if text.len() > 0 && is_white_space(text.last()) { trim_end(text.drop_last()) } else { text }
}

/// The text with leading and trailing white space removed.
pub open spec fn trimmed(text: Seq<char>) -> Seq<char> {
    trim_end(trim_start(text))
}

/// The list of texts that `serde_json` reads from `text` as a JSON array of strings, if it is one.
pub uninterp spec fn json_string_list(text: Seq<char>) -> Option<Seq<Seq<char>>>;

/// The list compiled from the trimmed configuration text `text`: empty text keeps the
/// character's order; `names`, the names that the text lists when it is a JSON array of
/// strings, give an order; any other text is the document `document`.
pub open spec fn compiled_apl(text: Seq<char>, names: Option<Seq<Seq<char>>>, skills: Seq<AplSkill>, cards: Seq<AplCard>,
    document: Result<RawApl, String>) -> Result<BuiltView, Seq<char>>
{
    let default_order = skills.map_values(|s: AplSkill| s.skill_id);
    if text.len() == 0 {
        Ok(BuiltView { order: default_order, actions: Seq::empty(), card_actions: Seq::empty() })
    } else {
        match names {
            Some(names) => match names_order(names, skill_ids(skills)) {
                Err(e) => Err(e),
                Ok(order) => Ok(BuiltView {
                    order: if order.len() == 0 { default_order } else { order },
                    actions: Seq::empty(),
                    card_actions: Seq::empty(),
                }),
            },
            None => match document {
                Err(e) => Err("APL YAML 파싱 실패: "@ + e@),
                Ok(raw) => from_document(raw, default_order, skill_ids(skills), card_ids(cards)),
            },
        }
    }
}

/// The list that `build` compiles from the configuration text; `document` is the text
/// read as a document, or the reader's error.
pub open spec fn built(config: Seq<char>, skills: Seq<AplSkill>, cards: Seq<AplCard>, document: Result<RawApl, String>) -> Result<BuiltView, Seq<char>> {
    compiled_apl(trimmed(config), json_string_list(trimmed(config)), skills, cards, document)
}

/// Whether `c` is white space (has the Unicode White_Space property).
fn white_space(c: char) -> (r: bool)
    ensures
        r == is_white_space(c),
{
    let n = c as u32;
    (0x09 <= n && n <= 0x0D) || n == 0x20 || n == 0x85 || n == 0xA0 || n == 0x1680 || (0x2000 <= n && n <= 0x200A)
        || n == 0x2028 || n == 0x2029 || n == 0x202F || n == 0x205F || n == 0x3000
}

/// Leading white space runs up to `s`.
proof fn lemma_trim_start(t: Seq<char>, s: int)
    requires
        0 <= s <= t.len(),
        forall|j: int| 0 <= j < s ==> is_white_space(#[trigger] t[j]),
        s == t.len() || !is_white_space(t[s]),
    ensures
        trim_start(t) == t.skip(s),
    decreases s,
{
    if s == 0 {
        assert(t.skip(0) =~= t);
    } else {
        assert(is_white_space(t[0]));
        let rest = t.skip(1);
        assert forall|j: int| 0 <= j < s - 1 implies is_white_space(#[trigger] rest[j]) by {
            assert(rest[j] == t[j + 1]);
        }
        lemma_trim_start(rest, s - 1);
        assert(rest.skip(s - 1) =~= t.skip(s));
    }
}

/// Trailing white space starts at `e`.
proof fn lemma_trim_end(u: Seq<char>, e: int)
    requires
        0 <= e <= u.len(),
        forall|j: int| e <= j < u.len() ==> is_white_space(#[trigger] u[j]),
        e == 0 || !is_white_space(u[e - 1]),
    ensures
        trim_end(u) == u.take(e),
    decreases u.len(),
{
    if e == u.len() {
        assert(u.take(e) =~= u);
    } else {
        assert(is_white_space(u[u.len() - 1]));
        let rest = u.drop_last();
        assert forall|j: int| e <= j < rest.len() implies is_white_space(#[trigger] rest[j]) by {
            assert(rest[j] == u[j]);
        }
        lemma_trim_end(rest, e);
        assert(rest.take(e) =~= u.take(e));
    }
}

/// `text` with leading and trailing white space removed, as `str::trim` does.
fn trim_text(text: &str) -> (t: &str)
    ensures
        t@ == trimmed(text@),
{
    let mut it = text.chars();
    let mut v: Vec<char> = Vec::new();
    loop
        invariant_except_break
            v@ + it.remaining() == text@,
        ensures
            v@ == text@,
        decreases text@.len() - v@.len(),
    {
        let ghost before = it.remaining();
        match it.next() {
            Some(c) => {
                proof {
                    assert(v@.push(c) + before.drop_first() =~= v@ + before);
                }
                v.push(c);
            },
            None => {
                assert(v@ + Seq::<char>::empty() =~= v@);
                break;
            },
        }
    }
    let n = v.len();
    let mut s: usize = 0;
    loop
        invariant_except_break
            s <= n,
            n == v@.len(),
            forall|j: int| 0 <= j < s ==> is_white_space(#[trigger] v@[j]),
        ensures
            s <= n,
            forall|j: int| 0 <= j < s ==> is_white_space(#[trigger] v@[j]),
            s == n || !is_white_space(v@[s as int]),
        decreases n - s,
    {
        if s == n || !white_space(v[s]) {
            break;
        }
        s += 1;
    }
    let mut e: usize = n;
    loop
        invariant_except_break
            s <= e <= n,
            n == v@.len(),
            forall|j: int| e <= j < n ==> is_white_space(#[trigger] v@[j]),
        ensures
            s <= e <= n,
            forall|j: int| e <= j < n ==> is_white_space(#[trigger] v@[j]),
            e == s || !is_white_space(v@[e - 1]),
        decreases e,
    {
        if e == s || !white_space(v[e - 1]) {
            break;
        }
        e -= 1;
    }
    proof {
        let t = text@;
        lemma_trim_start(t, s as int);
        let u = t.skip(s as int);
        assert forall|j: int| e - s <= j < u.len() implies is_white_space(#[trigger] u[j]) by {
            assert(u[j] == t[j + s]);
        }
        if e > s {
            assert(u[e - s - 1] == t[e - 1]);
        }
        lemma_trim_end(u, e - s);
        assert(u.take(e - s) =~= t.subrange(s as int, e as int));
    }
    text.substring_char(s, e)
}

/// Calls `serde_json::from_str::<Vec<String>>`, keeping the list when the text is one.
#[verifier::external_body]
fn parse_name_list(text: &str) -> (names: Option<Vec<String>>)
    ensures
        names is Some == json_string_list(text@) is Some,
        names matches Some(v) ==> json_string_list(text@) == Some(v@.map_values(|n: String| n@)),
{
    serde_json::from_str::<Vec<String>>(text).ok()
}

fn skill_table(skills: &[AplSkill]) -> (t: NameTable)
    ensures
        name_entries(t) == skill_ids(skills@),
{
    let mut t = NameTable::new();
    let mut k: usize = 0;
    while k < skills.len()
        invariant
            0 <= k <= skills@.len(),
            name_entries(t) == skill_ids(skills@.take(k as int)),
        decreases skills@.len() - k,
    {
        proof {
            assert(skills@.take(k as int + 1).drop_last() =~= skills@.take(k as int));
            assert(skills@.take(0) =~= Seq::<AplSkill>::empty());
        }
        t.insert(skills[k].name.clone(), skills[k].skill_id);
        k += 1;
    }
    assert(skills@.take(skills@.len() as int) =~= skills@);
    assert(name_entries(t) =~= skill_ids(skills@));
    t
}

fn card_table(cards: &[AplCard]) -> (t: NameTable)
    ensures
        name_entries(t) == card_ids(cards@),
{
    let mut t = NameTable::new();
    let mut k: usize = 0;
    while k < cards.len()
        invariant
            0 <= k <= cards@.len(),
            name_entries(t) == card_ids(cards@.take(k as int)),
        decreases cards@.len() - k,
    {
        proof {
            assert(cards@.take(k as int + 1).drop_last() =~= cards@.take(k as int));
        }
        t.insert(cards[k].name.clone(), cards[k].skill_id);
        k += 1;
    }
    assert(cards@.take(cards@.len() as int) =~= cards@);
    t
}

fn compile_conditions(raws: &Vec<RawCondition>, action_skill: Option<u32>, names: &NameTable, cards: &NameTable) -> (r: Result<Vec<AplCondition>, String>)
    ensures
        r matches Ok(v) ==> compiled_conditions(raws@, action_skill, name_entries(*names), name_entries(*cards)) == Ok::<Seq<CondView>, Seq<char>>(cond_views(v@)),
        r matches Err(e) ==> compiled_conditions(raws@, action_skill, name_entries(*names), name_entries(*cards)) == Err::<Seq<CondView>, Seq<char>>(e@),
{
    let ghost f = |raw: RawCondition| compiled(raw, action_skill, name_entries(*names), name_entries(*cards));
    let mut out: Vec<AplCondition> = Vec::new();
    let mut k: usize = 0;
    assert(raws@.take(0) =~= Seq::<RawCondition>::empty());
    assert(cond_views(out@) =~= Seq::<CondView>::empty());
    while k < raws.len()
        invariant
            0 <= k <= raws@.len(),
            f == (|raw: RawCondition| compiled(raw, action_skill, name_entries(*names), name_entries(*cards))),
            collect_all(raws@.take(k as int), f) == Ok::<Seq<CondView>, Seq<char>>(cond_views(out@)),
        decreases raws@.len() - k,
    {
        proof { lemma_collect_step(raws@, f, k as int); }
        match compile_condition(&raws[k], action_skill, names, cards) {
            Ok(c) => {
                let ghost prev = out@;
                out.push(c);
                assert(cond_views(out@) =~= cond_views(prev).push(c@));
            },
            Err(e) => {
                proof { lemma_collect_err(raws@, f, k as int + 1); }
                return Err(e);
            },
        }
        k += 1;
    }
    assert(raws@.take(raws@.len() as int) =~= raws@);
    Ok(out)
}

/// The skill ids of the names, in order; the first unknown name is an error.
pub fn names_to_order(names: &Vec<String>, table: &NameTable) -> (r: Result<Vec<u32>, String>)
    ensures
        r matches Ok(v) ==> names_order(names@.map_values(|n: String| n@), name_entries(*table)) == Ok::<Seq<u32>, Seq<char>>(v@),
        r matches Err(e) ==> names_order(names@.map_values(|n: String| n@), name_entries(*table)) == Err::<Seq<u32>, Seq<char>>(e@),
{
    let ghost texts = names@.map_values(|n: String| n@);
    let ghost f = |name: Seq<char>| match lookup(name_entries(*table), name) {
        Some(id) => Ok(id),
        None => Err(missing_skill(name)),
    };
    let mut out: Vec<u32> = Vec::new();
    let mut k: usize = 0;
    assert(texts.take(0) =~= Seq::<Seq<char>>::empty());
    while k < names.len()
        invariant
            0 <= k <= names@.len(),
            texts == names@.map_values(|n: String| n@),
            f == (|name: Seq<char>| match lookup(name_entries(*table), name) {
                Some(id) => Ok(id),
                None => Err(missing_skill(name)),
            }),
            collect_all(texts.take(k as int), f) == Ok::<Seq<u32>, Seq<char>>(out@),
        decreases names@.len() - k,
    {
        proof { lemma_collect_step(texts, f, k as int); }
        match lookup_skill(table, names[k].as_str()) {
            Ok(id) => out.push(id),
            Err(e) => {
                proof { lemma_collect_err(texts, f, k as int + 1); }
                return Err(e);
            },
        }
        k += 1;
    }
    assert(texts.take(texts.len() as int) =~= texts);
    Ok(out)
}

fn compile_actions(raws: &Vec<RawAction>, names: &NameTable, cards: &NameTable) -> (r: Result<Vec<AplAction>, String>)
    ensures
        r matches Ok(v) ==> collect_all(raws@, |a: RawAction| compiled_action(a, name_entries(*names), name_entries(*cards)))
            == Ok::<Seq<ActionView>, Seq<char>>(v@.map_values(|a: AplAction| a@)),
        r matches Err(e) ==> collect_all(raws@, |a: RawAction| compiled_action(a, name_entries(*names), name_entries(*cards)))
            == Err::<Seq<ActionView>, Seq<char>>(e@),
{
    let ghost f = |a: RawAction| compiled_action(a, name_entries(*names), name_entries(*cards));
    let mut out: Vec<AplAction> = Vec::new();
    let mut k: usize = 0;
    assert(raws@.take(0) =~= Seq::<RawAction>::empty());
    assert(out@.map_values(|a: AplAction| a@) =~= Seq::<ActionView>::empty());
    while k < raws.len()
        invariant
            0 <= k <= raws@.len(),
            f == (|a: RawAction| compiled_action(a, name_entries(*names), name_entries(*cards))),
            collect_all(raws@.take(k as int), f) == Ok::<Seq<ActionView>, Seq<char>>(out@.map_values(|a: AplAction| a@)),
        decreases raws@.len() - k,
    {
        proof { lemma_collect_step(raws@, f, k as int); }
        let raw = &raws[k];
        let id = match lookup_skill(names, raw.skill.as_str()) {
            Ok(id) => id,
            Err(e) => {
                proof { lemma_collect_err(raws@, f, k as int + 1); }
                return Err(e);
            },
        };
        let conditions = match compile_conditions(&raw.conditions, Some(id), names, cards) {
            Ok(c) => c,
            Err(e) => {
                proof { lemma_collect_err(raws@, f, k as int + 1); }
                return Err(e);
            },
        };
        let action = AplAction { skill_id: id, conditions };
        let ghost prev = out@;
        out.push(action);
        assert(out@.map_values(|a: AplAction| a@) =~= prev.map_values(|a: AplAction| a@).push(out@.last()@));
        k += 1;
    }
    assert(raws@.take(raws@.len() as int) =~= raws@);
    Ok(out)
}

fn compile_card_actions(raws: &Vec<RawCardAction>, names: &NameTable, cards: &NameTable) -> (r: Result<Vec<CardAplAction>, String>)
    ensures
        r matches Ok(v) ==> collect_all(raws@, |a: RawCardAction| compiled_card_action(a, name_entries(*names), name_entries(*cards)))
            == Ok::<Seq<CardActionView>, Seq<char>>(v@.map_values(|a: CardAplAction| a@)),
        r matches Err(e) ==> collect_all(raws@, |a: RawCardAction| compiled_card_action(a, name_entries(*names), name_entries(*cards)))
            == Err::<Seq<CardActionView>, Seq<char>>(e@),
{
    let ghost f = |a: RawCardAction| compiled_card_action(a, name_entries(*names), name_entries(*cards));
    let mut out: Vec<CardAplAction> = Vec::new();
    let mut k: usize = 0;
    assert(raws@.take(0) =~= Seq::<RawCardAction>::empty());
    assert(out@.map_values(|a: CardAplAction| a@) =~= Seq::<CardActionView>::empty());
    while k < raws.len()
        invariant
            0 <= k <= raws@.len(),
            f == (|a: RawCardAction| compiled_card_action(a, name_entries(*names), name_entries(*cards))),
            collect_all(raws@.take(k as int), f) == Ok::<Seq<CardActionView>, Seq<char>>(out@.map_values(|a: CardAplAction| a@)),
        decreases raws@.len() - k,
    {
        proof { lemma_collect_step(raws@, f, k as int); }
        let raw = &raws[k];
        let id = match lookup_card(cards, raw.card.as_str()) {
            Ok(id) => id,
            Err(e) => {
                proof { lemma_collect_err(raws@, f, k as int + 1); }
                return Err(e);
            },
        };
        let conditions = match compile_conditions(&raw.conditions, None, names, cards) {
            Ok(c) => c,
            Err(e) => {
                proof { lemma_collect_err(raws@, f, k as int + 1); }
                return Err(e);
            },
        };
        let action = CardAplAction { card_id: id, card_name: raw.card.clone(), conditions };
        let ghost prev = out@;
        out.push(action);
        assert(out@.map_values(|a: CardAplAction| a@) =~= prev.map_values(|a: CardAplAction| a@).push(out@.last()@));
        k += 1;
    }
    assert(raws@.take(raws@.len() as int) =~= raws@);
    Ok(out)
}

fn default_order(skills: &[AplSkill]) -> (order: Vec<u32>)
    ensures
        order@ == skills@.map_values(|s: AplSkill| s.skill_id),
{
    let mut order: Vec<u32> = Vec::new();
    let mut k: usize = 0;
    while k < skills.len()
        invariant
            0 <= k <= skills@.len(),
            order@ == skills@.take(k as int).map_values(|s: AplSkill| s.skill_id),
        decreases skills@.len() - k,
    {
        order.push(skills[k].skill_id);
        assert(skills@.take(k as int + 1).map_values(|s: AplSkill| s.skill_id)
            =~= skills@.take(k as int).map_values(|s: AplSkill| s.skill_id).push(skills@[k as int].skill_id));
        k += 1;
    }
    assert(skills@.take(skills@.len() as int) =~= skills@);
    order
}

fn action_order(actions: &Vec<AplAction>) -> (order: Vec<u32>)
    ensures
        order@ == actions@.map_values(|a: AplAction| a@).map_values(|a: ActionView| a.skill_id),
{
    let mut order: Vec<u32> = Vec::new();
    let mut k: usize = 0;
    while k < actions.len()
        invariant
            0 <= k <= actions@.len(),
            order@ == actions@.take(k as int).map_values(|a: AplAction| a@).map_values(|a: ActionView| a.skill_id),
        decreases actions@.len() - k,
    {
        order.push(actions[k].skill_id);
        assert(actions@.take(k as int + 1).map_values(|a: AplAction| a@).map_values(|a: ActionView| a.skill_id)
            =~= actions@.take(k as int).map_values(|a: AplAction| a@).map_values(|a: ActionView| a.skill_id).push(actions@[k as int].skill_id));
        k += 1;
    }
    assert(actions@.take(actions@.len() as int) =~= actions@);
    order
}

/// Compiles the trimmed configuration text `text`: empty text keeps the character's skill
/// order; `names`, the names that the text lists when it is a JSON array of strings, give
/// an order; any other text is the document `document` (read by the caller), whose
/// references and conditions are checked.
pub fn compile_apl(text: &str, names: Option<Vec<String>>, skills: &[AplSkill], cards: &[AplCard], document: Result<RawApl, String>)
    -> (r: Result<BuiltApl, String>)
    ensures
        r matches Ok(b) ==> compiled_apl(text@, names_view(names), skills@, cards@, document) == Ok::<BuiltView, Seq<char>>(b@),
        r matches Err(e) ==> compiled_apl(text@, names_view(names), skills@, cards@, document) == Err::<BuiltView, Seq<char>>(e@),
{
    let default = default_order(skills);
    if text.is_empty() {
        let b = BuiltApl { order: default, actions: Vec::new(), card_actions: Vec::new() };
        assert(b@.actions =~= Seq::<ActionView>::empty());
        assert(b@.card_actions =~= Seq::<CardActionView>::empty());
        return Ok(b);
    }
    let names_table = skill_table(skills);
    let card_names = card_table(cards);
    match names {
        Some(list) => {
            let order = names_to_order(&list, &names_table)?;
            let b = BuiltApl {
                order: if order.len() == 0 { default } else { order },
                actions: Vec::new(),
                card_actions: Vec::new(),
            };
            assert(b@.actions =~= Seq::<ActionView>::empty());
            assert(b@.card_actions =~= Seq::<CardActionView>::empty());
            return Ok(b);
        },
        None => {},
    }
    let raw = match document {
        Ok(raw) => raw,
        Err(e) => return Err(message("APL YAML 파싱 실패: ", e.as_str())),
    };
    if raw.skills.len() == 0 && raw.actions.len() == 0 && raw.card_actions.len() == 0 {
        return Err(String::from_str("APL에 실행할 skills, actions 또는 card_actions가 필요합니다"));
    }
    let actions = compile_actions(&raw.actions, &names_table, &card_names)?;
    let card_actions = compile_card_actions(&raw.card_actions, &names_table, &card_names)?;
    let order = if actions.len() > 0 {
        action_order(&actions)
    } else {
        let o = names_to_order(&raw.skills, &names_table)?;
        if o.len() == 0 { default } else { o }
    };
    Ok(BuiltApl { order, actions, card_actions })
}

/// The texts of a list of names, if there is one.
pub open spec fn names_view(names: Option<Vec<String>>) -> Option<Seq<Seq<char>>> {
    match names {
        Some(v) => Some(v@.map_values(|n: String| n@)),
        None => None,
    }
}

/// Compiles the configuration text: empty text keeps the character's skill order, a JSON
/// array of skill names gives an order, and any other text is the document `document`
/// (read by the caller), whose references and conditions are checked.
pub fn build(apl_config: &str, skills: &[AplSkill], cards: &[AplCard], document: Result<RawApl, String>) -> (r: Result<BuiltApl, String>)
    ensures
        r matches Ok(b) ==> built(apl_config@, skills@, cards@, document) == Ok::<BuiltView, Seq<char>>(b@),
        r matches Err(e) ==> built(apl_config@, skills@, cards@, document) == Err::<BuiltView, Seq<char>>(e@),
{
    let text = trim_text(apl_config);
    let names = if text.is_empty() { None } else { parse_name_list(text) };
    compile_apl(text, names, skills, cards, document)
}

/// When `collect_all` succeeds, each result is what `f` gives for the element at the same place.
pub proof fn lemma_collect_ok<A, B>(s: Seq<A>, f: spec_fn(A) -> Result<B, Seq<char>>)
    requires
        collect_all(s, f) is Ok,
    ensures
        collect_all(s, f)->Ok_0.len() == s.len(),
        forall|i: int| 0 <= i < s.len() ==> #[trigger] f(s[i]) == Ok::<B, Seq<char>>(collect_all(s, f)->Ok_0[i]),
    decreases s.len(),
{
    if s.len() > 0 {
        lemma_collect_ok(s.drop_last(), f);
        assert forall|i: int| 0 <= i < s.len() implies #[trigger] f(s[i]) == Ok::<B, Seq<char>>(collect_all(s, f)->Ok_0[i]) by {
            if i < s.len() - 1 {
                assert(s[i] == s.drop_last()[i]);
            }
        }
    }
}

/// Every action of `b` names a skill of `skills`, every card action a card of `cards`, and
/// when there are actions the skill order is exactly theirs.
pub open spec fn references_known(b: BuiltView, skills: Map<Seq<char>, u32>, cards: Map<Seq<char>, u32>) -> bool {
    &&& forall|i: int| #![trigger b.actions[i]] 0 <= i < b.actions.len()
        ==> exists|n: Seq<char>| #![trigger skills[n]] skills.contains_key(n) && skills[n] == b.actions[i].skill_id
    &&& forall|i: int| #![trigger b.card_actions[i]] 0 <= i < b.card_actions.len()
        ==> cards.contains_key(b.card_actions[i].card_name) && cards[b.card_actions[i].card_name] == b.card_actions[i].card_id
    &&& b.actions.len() > 0 ==> b.order == b.actions.map_values(|a: ActionView| a.skill_id)
}

/// Law: the actions of a compiled document only name skills of the character, card actions
/// only name known cards, and when there are actions the skill order is exactly theirs.
pub proof fn law_document_references_are_known(raw: RawApl, default_order: Seq<u32>, skills: Map<Seq<char>, u32>, cards: Map<Seq<char>, u32>)
    requires
        from_document(raw, default_order, skills, cards) is Ok,
    ensures
        references_known(from_document(raw, default_order, skills, cards)->Ok_0, skills, cards),
{
    let fa = |a: RawAction| compiled_action(a, skills, cards);
    let fc = |a: RawCardAction| compiled_card_action(a, skills, cards);
    lemma_collect_ok(raw.actions@, fa);
    lemma_collect_ok(raw.card_actions@, fc);
    let acts = collect_all(raw.actions@, fa)->Ok_0;
    let cacts = collect_all(raw.card_actions@, fc)->Ok_0;
    let b = from_document(raw, default_order, skills, cards)->Ok_0;
    assert(b.actions == acts);
    assert(b.card_actions == cacts);
    assert forall|i: int| #![trigger b.actions[i]] 0 <= i < b.actions.len() implies exists|n: Seq<char>| #![trigger skills[n]] skills.contains_key(n) && skills[n] == b.actions[i].skill_id by {
        let r = raw.actions@[i];
        assert(fa(r) == Ok::<ActionView, Seq<char>>(acts[i]));
        assert(skills.contains_key(r.skill@));
        assert(skills[r.skill@] == b.actions[i].skill_id);
    }
    assert forall|i: int| #![trigger b.card_actions[i]] 0 <= i < b.card_actions.len() implies cards.contains_key(b.card_actions[i].card_name)
        && cards[b.card_actions[i].card_name] == b.card_actions[i].card_id by {
        let r = raw.card_actions@[i];
        assert(fc(r) == Ok::<CardActionView, Seq<char>>(cacts[i]));
    }
    assert(b.actions.len() > 0 ==> b.order == b.actions.map_values(|a: ActionView| a.skill_id));
    assert(references_known(b, skills, cards));
}


/// Law: a compiled condition refers to what the raw condition names. A plain cooldown
/// condition is about the action's own skill; a skill cooldown condition (ready or
/// remaining) waits on the named skill, and compiles exactly when that skill is named and
/// known; a card condition (held or count) is about the named card; a combo-phase
/// condition is about the named skill, or the action's own one when it names none; a
/// next-skill condition, allowed only in card actions, names the skill that must come next.
pub proof fn law_conditions_name_their_references(raw: RawCondition, action_skill: Option<u32>,
    skills: Map<Seq<char>, u32>, cards: Map<Seq<char>, u32>)
    ensures
        raw.condition_type@ == "cooldown_ready"@
            ==> compiled(raw, action_skill, skills, cards) == Ok::<CondView, Seq<char>>(CondView::CooldownReady),
        raw.condition_type@ == "skill_cooldown_ready"@ ==> {
            &&& (compiled(raw, action_skill, skills, cards) is Ok <==> (raw.skill@.len() > 0 && skills.contains_key(raw.skill@)))
            &&& compiled(raw, action_skill, skills, cards) is Ok ==> compiled(raw, action_skill, skills, cards)
                == Ok::<CondView, Seq<char>>(CondView::SkillCooldownReady(skills[raw.skill@]))
        },
        raw.condition_type@ == "skill_cooldown_remaining"@ && compiled(raw, action_skill, skills, cards) is Ok ==> {
            &&& skills.contains_key(raw.skill@)
            &&& compiled(raw, action_skill, skills, cards)->Ok_0 is SkillCooldownRemaining
            &&& compiled(raw, action_skill, skills, cards)->Ok_0->SkillCooldownRemaining_skill_id == skills[raw.skill@]
        },
        raw.condition_type@ == "card_held"@ ==> {
            &&& (compiled(raw, action_skill, skills, cards) is Ok <==> (raw.card@.len() > 0 && cards.contains_key(raw.card@)))
            &&& compiled(raw, action_skill, skills, cards) is Ok ==> compiled(raw, action_skill, skills, cards)
                == Ok::<CondView, Seq<char>>(CondView::CardHeld(cards[raw.card@]))
        },
        raw.condition_type@ == "card_count"@ && compiled(raw, action_skill, skills, cards) is Ok ==> {
            &&& cards.contains_key(raw.card@)
            &&& compiled(raw, action_skill, skills, cards)->Ok_0 is CardCount
            &&& compiled(raw, action_skill, skills, cards)->Ok_0->CardCount_card_id == cards[raw.card@]
        },
        raw.condition_type@ == "next_skill"@ && action_skill is Some ==> compiled(raw, action_skill, skills, cards) is Err,
        raw.condition_type@ == "next_skill"@ && action_skill is None ==> {
            &&& (compiled(raw, action_skill, skills, cards) is Ok <==> (raw.skill@.len() > 0 && skills.contains_key(raw.skill@)))
            &&& compiled(raw, action_skill, skills, cards) is Ok ==> compiled(raw, action_skill, skills, cards)
                == Ok::<CondView, Seq<char>>(CondView::NextSkill(skills[raw.skill@]))
        },
        raw.condition_type@ == "combo_phase"@ && compiled(raw, action_skill, skills, cards) is Ok ==> {
            &&& compiled(raw, action_skill, skills, cards)->Ok_0 is ComboPhase
            &&& compiled(raw, action_skill, skills, cards)->Ok_0->ComboPhase_skill_id
                == (if raw.skill@.len() == 0 { current_of(action_skill) } else { skills[raw.skill@] })
        },
{
    reveal_strlit("cooldown_ready");
    reveal_strlit("skill_cooldown_ready");
    reveal_strlit("skill_cooldown_remaining");
    reveal_strlit("resource");
    reveal_strlit("card_held");
    reveal_strlit("card_count");
    reveal_strlit("next_skill");
    reveal_strlit("buff_active");
    reveal_strlit("buff_inactive");
    reveal_strlit("buff_remaining");
    reveal_strlit("target_debuff_stacks");
    reveal_strlit("combo_phase");
    assert("next_skill"@[0] != "card_count"@[0]);
    assert("combo_phase"@[0] != "buff_active"@[0]);
}


/// Law: a compiled time-remaining condition keeps the raw value as milliseconds, with a
/// negative value read as none, and compares with `>=` when no operator is written; a
/// resource condition keeps its value and names the engine's resource, "mp" and "hp" as
/// "Mp" and "Hp".
pub proof fn law_condition_values(raw: RawCondition, action_skill: Option<u32>, skills: Map<Seq<char>, u32>,
    cards: Map<Seq<char>, u32>)
    ensures
        raw.condition_type@ == "time_remaining"@ && raw.operator@.len() == 0 ==> compiled(raw, action_skill, skills, cards)
            == Ok::<CondView, Seq<char>>(CondView::TimeRemaining {
                operator: CompareOperator::Gte,
                value_ms: if raw.value < 0 { 0 } else { raw.value as u64 },
            }),
        raw.condition_type@ == "time_remaining"@ && compiled(raw, action_skill, skills, cards) is Ok ==> {
            &&& compiled(raw, action_skill, skills, cards)->Ok_0 is TimeRemaining
            &&& compiled(raw, action_skill, skills, cards)->Ok_0->TimeRemaining_value_ms == (if raw.value < 0 { 0 } else { raw.value as u64 })
        },
        raw.condition_type@ == "resource"@ && compiled(raw, action_skill, skills, cards) is Ok ==> {
            &&& compiled(raw, action_skill, skills, cards)->Ok_0 is Resource
            &&& compiled(raw, action_skill, skills, cards)->Ok_0->Resource_value == raw.value
            &&& raw.name@ == "mp"@ ==> compiled(raw, action_skill, skills, cards)->Ok_0->Resource_resource == "Mp"@
            &&& raw.name@ == "hp"@ ==> compiled(raw, action_skill, skills, cards)->Ok_0->Resource_resource == "Hp"@
            &&& raw.name@ != "mp"@ && raw.name@ != "hp"@ ==> compiled(raw, action_skill, skills, cards)->Ok_0->Resource_resource == raw.name@
        },
{
    reveal_strlit("cooldown_ready");
    reveal_strlit("skill_cooldown_ready");
    reveal_strlit("skill_cooldown_remaining");
    reveal_strlit("resource");
    reveal_strlit("card_held");
    reveal_strlit("card_count");
    reveal_strlit("next_skill");
    reveal_strlit("buff_active");
    reveal_strlit("buff_inactive");
    reveal_strlit("buff_remaining");
    reveal_strlit("target_debuff_stacks");
    reveal_strlit("combo_phase");
    reveal_strlit("chain_phase");
    reveal_strlit("time_remaining");
    assert("time_remaining"@[0] != "cooldown_ready"@[0]);
    assert("time_remaining"@[0] != "buff_remaining"@[0]);
    reveal_strlit("mp");
    reveal_strlit("hp");
    assert("mp"@[0] != "hp"@[0]);
}

} // verus!
