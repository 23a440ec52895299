//! Social credit bookkeeping for a Discord community bot: role based limits,
//! the decisions of the `/social_credit` commands, the leaderboard text, the
//! game server scoreboard command and the parser of the member seed file.

pub mod discord;
pub mod text;
pub mod config;
pub mod entity;
pub mod commands;
pub mod members;
