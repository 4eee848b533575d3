//! Points ledger for in-game rewards: event extraction from feed messages,
//! scoring, a per-player ledger with compensating removal, and rank
//! threshold crossings.

pub mod analysis;
pub mod collection_log;
pub mod command_handler;
pub mod config;
pub mod ledger;
pub mod pattern;
pub mod prices;
pub mod rank_manager;
pub mod runescape_tracker;
pub mod scoring;
pub mod text;
