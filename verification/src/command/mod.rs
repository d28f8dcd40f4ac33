//! Slash commands: what a line of input asks for, and what a command does.

pub mod app_command;
pub mod builtins;
pub mod input;
pub mod slash;
