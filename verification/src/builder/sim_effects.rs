//! The names that effect data uses for stats, skill tags and trigger events.

use vstd::prelude::*;
use vstd::string::StringExecFns;
use crate::profile::{StatField, SkillTag, TriggerFilter, same_text};

verus! {

/// The stat that an effect's field name stands for.
pub open spec fn stat_field_named(s: Seq<char>) -> Option<StatField> {
    if s == "damage_increase"@ { Some(StatField::DamageIncrease) }
    else if s == "target_damage_increase"@ { Some(StatField::TargetDamageIncrease) }
    else if s == "crit_rate"@ { Some(StatField::CritRate) }
    else if s == "crit_dmg"@ { Some(StatField::CritDmg) }
    else if s == "attack_power_mul"@ { Some(StatField::AttackPowerMul) }
    else if s == "additional_damage"@ { Some(StatField::AdditionalDamage) }
    else if s == "type_damage"@ { Some(StatField::TypeDamage) }
    else if s == "elemental_damage"@ { Some(StatField::ElementalDamage) }
    else if s == "weapon_attack_power"@ { Some(StatField::WeaponAttackPower) }
    else if s == "evolution_damage"@ { Some(StatField::EvolutionDamage) }
    else if s == "attack_speed"@ { Some(StatField::AttackSpeed) }
    else if s == "movement_speed"@ { Some(StatField::MovementSpeed) }
    else if s == "target_defense_reduction"@ { Some(StatField::TargetDefenseReduction) }
    else { None }
}

/// The skill tag that an effect's tag name stands for; holding and charging tags are
/// not supported and, like unknown names, give none.
pub open spec fn skill_tag_named(s: Seq<char>) -> Option<SkillTag> {
    if s == "AttackHead"@ { Some(SkillTag::AttackHead) }
    else if s == "AttackBack"@ { Some(SkillTag::AttackBack) }
    else if s == "NonDirectional"@ { Some(SkillTag::NonDirectional) }
    else if s == "All"@ { Some(SkillTag::All) }
    else if s == "CategoryRuin"@ { Some(SkillTag::CategoryRuin) }
    else if s == "CategoryNormal"@ { Some(SkillTag::CategoryNormal) }
    else if s == "CategoryStacked"@ { Some(SkillTag::CategoryStacked) }
    else if s == "CategoryHyper"@ { Some(SkillTag::CategoryHyper) }
    else { None }
}

/// The filter of a trigger event name: hits and critical hits; anything else, or no
/// name, is a skill cast.
pub open spec fn trigger_filter_named(s: Option<Seq<char>>) -> TriggerFilter {
    match s {
        Some(t) => if t == "on_hit"@ { TriggerFilter::AnyHit } else if t == "on_crit"@ { TriggerFilter::AnyCrit } else { TriggerFilter::SkillCast },
        None => TriggerFilter::SkillCast,
    }
}

/// Maps an effect's field name to a stat.
pub fn str_to_stat_field(s: &str) -> (f: Option<StatField>)
    ensures
        f == stat_field_named(s@),
{
    if same_text(s, "damage_increase") { Some(StatField::DamageIncrease) }
    else if same_text(s, "target_damage_increase") { Some(StatField::TargetDamageIncrease) }
    else if same_text(s, "crit_rate") { Some(StatField::CritRate) }
    else if same_text(s, "crit_dmg") { Some(StatField::CritDmg) }
    else if same_text(s, "attack_power_mul") { Some(StatField::AttackPowerMul) }
    else if same_text(s, "additional_damage") { Some(StatField::AdditionalDamage) }
    else if same_text(s, "type_damage") { Some(StatField::TypeDamage) }
    else if same_text(s, "elemental_damage") { Some(StatField::ElementalDamage) }
    else if same_text(s, "weapon_attack_power") { Some(StatField::WeaponAttackPower) }
    else if same_text(s, "evolution_damage") { Some(StatField::EvolutionDamage) }
    else if same_text(s, "attack_speed") { Some(StatField::AttackSpeed) }
    else if same_text(s, "movement_speed") { Some(StatField::MovementSpeed) }
    else if same_text(s, "target_defense_reduction") { Some(StatField::TargetDefenseReduction) }
    else { None }
}

/// Maps an effect's tag name to a skill tag.
pub fn str_to_skill_tag(s: &str) -> (t: Option<SkillTag>)
    ensures
        t == skill_tag_named(s@),
{
    if same_text(s, "AttackHead") { Some(SkillTag::AttackHead) }
    else if same_text(s, "AttackBack") { Some(SkillTag::AttackBack) }
    else if same_text(s, "NonDirectional") { Some(SkillTag::NonDirectional) }
    else if same_text(s, "All") { Some(SkillTag::All) }
    else if same_text(s, "CategoryRuin") { Some(SkillTag::CategoryRuin) }
    else if same_text(s, "CategoryNormal") { Some(SkillTag::CategoryNormal) }
    else if same_text(s, "CategoryStacked") { Some(SkillTag::CategoryStacked) }
    else if same_text(s, "CategoryHyper") { Some(SkillTag::CategoryHyper) }
    else { None }
}

/// Maps a trigger event name to a trigger filter.
pub fn str_to_trigger_filter(s: Option<&str>) -> (f: TriggerFilter)
    ensures
        f == trigger_filter_named(match s { Some(t) => Some(t@), None => None }),
{
    match s {
        Some(t) => {
            if same_text(t, "on_hit") {
                TriggerFilter::AnyHit
            } else if same_text(t, "on_crit") {
                TriggerFilter::AnyCrit
            } else {
                TriggerFilter::SkillCast
            }
        },
        None => TriggerFilter::SkillCast,
    }
}

/// The kind of an effect that names none: a plain stat.
pub fn default_sim_effect_kind() -> (kind: String)
    ensures
        kind@ == "stat"@,
{
    String::from_str("stat")
}

} // verus!
