pub mod apl;
pub mod skill;
pub mod stat;
pub mod sim_effects;
pub mod engraving;
pub mod card_pool;
pub mod dto;
