//! Money ledger logic of a Discord economy bot: per-guild balances, work and
//! gamble payouts, transfers, leaderboards, reply texts and command cooldowns.
pub mod bot_check;
pub mod bot_gamble;
pub mod bot_top10;
pub mod bot_work;
pub mod commands;
pub mod library;
