//! Input records of a build request that carry no fractional numbers.

use vstd::prelude::*;

verus! {

/// Display data of a buff: its name, icon and source.
pub struct BuffMetadataInput {
    pub id: String,
    pub name: String,
    pub icon: String,
    pub source: String,
}

/// An equipment piece.
pub struct EquipmentInput {
    pub item_slot: String,
    pub set_name: String,
    pub quality: i32,
    pub item_level: u32,
    pub refinement_level: u32,
    pub advanced_refinement_level: u32,
}

/// An engraving granted by an item, with its level.
pub struct EngravingItemInput {
    pub name: String,
    pub level: u32,
    pub is_negative: bool,
}

/// A gem: its level, type and the skill it improves.
pub struct GemInput {
    pub level: u32,
    pub gem_type: String,
    pub skill_name: String,
    pub skill_effect: String,
}

/// Rank and level of one ark passive karma line.
pub struct ArkPassiveKarmaNodeInput {
    pub rank: u32,
    pub level: u32,
}

/// The three ark passive karma lines.
pub struct ArkPassiveKarmaInput {
    pub evolution: ArkPassiveKarmaNodeInput,
    pub enlightenment: ArkPassiveKarmaNodeInput,
    pub leap: ArkPassiveKarmaNodeInput,
}

/// Stacks of a target buff that a hit adds or sets.
pub struct TargetBuffStackInput {
    pub buff_id: String,
    pub stacks: u32,
    pub max_stacks: u32,
    pub duration_ms: u32,
}

/// Element, attack direction and skill groups of a skill.
pub struct SkillPropertiesInput {
    pub element: String,
    pub attack_type: String,
    pub skill_group_ids: Vec<u32>,
}

/// A class node of the ark passive, by name and level.
pub struct ArkPassiveClassNodeInput {
    pub name: String,
    pub level: u32,
}

} // verus!
