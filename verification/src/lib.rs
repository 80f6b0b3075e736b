//! Verified core of a combat simulator: event scheduling, cooldowns, buffs,
//! card hands, action-priority lists and the builder pipelines that feed them.

pub mod collections;
pub mod constants;
pub mod engine;
pub mod profile;
pub mod builder;
