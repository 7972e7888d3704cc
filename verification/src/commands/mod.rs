//! Slash commands and buttons: their routing tables and game rules.

pub mod money;
pub mod poker;
pub mod roulette;
