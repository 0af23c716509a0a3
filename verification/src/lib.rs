//! Verified core of the Typhon terminal assistant.
pub mod text;
pub mod usage;
pub mod reasoning;
pub mod brain;
pub mod commands;
pub mod input;
pub mod render;
pub mod markdown;
pub mod agent;
pub mod tools;
pub mod tui;
pub mod config;
