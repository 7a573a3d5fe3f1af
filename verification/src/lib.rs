//! Core of a desktop-automation daemon: a registry of peers, windows and
//! browser tabs, the message protocol shared by all peers, the hub logic that
//! classifies peers and routes focus commands, and the window-manager bridge
//! that resolves tab activations to window focus commands.
pub mod bridge;
pub mod browser;
pub mod channel;
pub mod error;
pub mod hub;
pub mod laws;
pub mod message;
pub mod state;
pub mod sway;
pub mod text;
