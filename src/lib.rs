//! Watches branches of a set of repositories, compares each local branch tip
//! with its remotes, and fans the resulting divergence events out to every
//! connected listener.
//!
//! The library holds the decisions: the per-branch monitor as a state
//! machine, the broadcast hub that owns the listener registry, the event
//! model with its wire framing, and the human-readable transfer progress.
//! Network, disk and terminal work is left to the caller.
mod text;
pub mod units;
pub mod hub;
pub mod event;
pub mod wire;
pub mod config;
pub mod monitor;
pub mod callbacks;
pub mod status;
