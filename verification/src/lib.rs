//! The decisions of a Wayland dashboard: where its panels stand, what an
//! input event means, which surfaces exist, and what one redraw consists of.
//!
//! Nothing here talks to the compositor. Each function takes plain values and
//! gives back plain values or a list of operations for its caller to perform.

pub mod app;
pub mod cmd;
pub mod geometry;
pub mod input;
pub mod keyboard;
pub mod layout;
pub mod ledger;
pub mod module;
pub mod outputs;
pub mod pointer;
pub mod redraw;
pub mod wake;
