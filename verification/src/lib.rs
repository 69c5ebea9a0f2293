//! Text rendering and data rules of the Minebox Discord bot.

pub mod api;
pub mod commands;
pub mod config;
pub mod embed;
pub mod jobs;
pub mod json;
pub mod sort;
pub mod stats;
pub mod text;
pub mod util;
