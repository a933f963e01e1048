//! A tiling window manager's state and decisions, verified.
//!
//! The library keeps the window manager's model of screens, workspaces and
//! clients, and turns each X event into the next state plus the list of
//! requests the X server has to carry out. Talking to the X server is left to
//! the caller.

pub mod config;
pub mod structs;
pub mod request;
pub mod utils;
pub mod helper;
pub mod logic;
pub mod screens;
pub mod manage;
pub mod mouse;
pub mod events;
pub mod setup;
pub mod laws;
pub mod rtde;
pub mod rust_wm;
