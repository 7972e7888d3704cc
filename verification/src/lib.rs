//! Game logic of a Discord casino bot: cards and decks, a Texas Hold'em
//! hand evaluator and table state machine, American roulette, and the
//! command and button routing tables.

pub mod commands;
pub mod redis;
pub mod secrets;
pub mod sql;
pub mod text;
pub mod utils;
