pub mod buff;
pub mod cards;
pub mod cooldown;
pub mod events;
pub mod rng;
pub mod triggers;
pub mod sim;
pub mod scheduler;
pub mod trace;
pub mod effects;
