//! A two-tier cache of remote chat-platform state.
//!
//! The in-process tier ([`cache`]) keeps a queryable snapshot of live
//! entities — guilds, channels, members, roles, emojis, presences, voice
//! states, messages — consistent with the secondary indices that tie them
//! to their guilds; inbound events apply themselves through the dispatch
//! contract in [`updates`]. The persistent tier ([`db`]) durably mirrors
//! selected records in an external key-value store, with the fixed-width
//! key encoding of [`keys`] and the compressed value encoding of [`codec`].
//! The laws the update protocol obeys are stated and proved in [`laws`].

pub mod cache;
pub mod codec;
pub mod commands;
pub mod config;
pub mod db;
pub mod error;
pub mod keys;
pub mod laws;
pub mod model;
pub mod redis_cmd;
pub mod store;
pub mod track;
pub mod updates;
