//! The decisions behind the bot's slash commands.

pub mod social_credit;
