//! The core of `coox`, a coding agent in the terminal: what the program decides, computes and lays
//! out, as functions on plain values with contracts.
//!
//! - `input`, `scroll_view`, `selection`, `text`, `fold`, `images` and `markdown` are the parts that a
//!   screen is made of.
//! - `state`, `blocks`, `conversation`, `pending_inputs`, `notifications`, `status` and `command_menu`
//!   are what the screen shows.
//! - `command` reads what the user enters.
//! - `history`, `message`, `events`, `runtime` and `turn_driver` run the turns of an agent.
//! - `app` brings these together: events come in, and frames and effects come out.
//! - `harness` and `workspace` are the tools that an agent can call.
//! - `startup` and `config` are what the program starts from.
//! - `chars`, `geometry` and `style` are shared by the others.

pub mod app;
pub mod blocks;
pub mod chars;
pub mod command;
pub mod command_menu;
pub mod config;
pub mod conversation;
pub mod events;
pub mod fold;
pub mod geometry;
pub mod harness;
pub mod history;
pub mod images;
pub mod input;
pub mod markdown;
pub mod message;
pub mod notifications;
pub mod pending_inputs;
pub mod runtime;
pub mod scroll_view;
pub mod selection;
pub mod startup;
pub mod state;
pub mod status;
pub mod style;
pub mod text;
pub mod turn_driver;
pub mod workspace;
