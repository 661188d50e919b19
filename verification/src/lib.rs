//! Real-time connection and event-routing core of the Banter chat backend.
//!
//! The library models the per-connection session state machine, the shared
//! topic / presence registries, and the fan-out and delivery rules, together
//! with the frame codec and the small decision functions of the REST layer.
//! I/O (sockets, database, HTTP) lives outside the library; callers hand in
//! the results of those calls and the library decides what happens next.

pub mod auth;
pub mod codec;
pub mod config;
pub mod error;
pub mod events;
pub mod ids;
pub mod models;
pub mod registry;
pub mod rest;
pub mod session;
pub mod strutil;
pub mod voice;
