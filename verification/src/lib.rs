//! Approval-gated chat sessions with a rolling transcript, kept as a pure
//! state machine: every operation updates the in-memory table and hands back
//! the file operations that make the change durable.
//!
//! The store is `kinda_db::KindaDb`; `table` says what its operations make of
//! the session table, `laws` and `durability` what follows from that.
//! `bot_flow` holds the decisions of the bot around the store. The formats on
//! disk are in `snapshot` and `transcript`, over `text`, `decimal` and `role`.

pub mod bot_flow;
pub mod clock;
pub mod decimal;
pub mod durability;
pub mod error;
pub mod files;
pub mod kinda_db;
pub mod laws;
pub mod role;
pub mod snapshot;
pub mod table;
pub mod text;
pub mod transcript;
