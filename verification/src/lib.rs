//! A small command-line leaderboard library: timed command-execution results
//! ("scores") are parsed from flag/value argument lists, validated, and turned
//! into statements and row operations for a relational score table.

pub mod config;
pub mod debug_config;
pub mod score;
pub mod store;
pub mod text;
