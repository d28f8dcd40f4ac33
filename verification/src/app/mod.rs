//! The application: what it holds, and what keys, the mouse, commands and running turns do to it.

pub mod commands;
pub mod cycle;
pub mod frame;
pub mod keys;
pub mod laws;
pub mod mouse;
pub mod surface;
pub mod turns;
pub mod view;
