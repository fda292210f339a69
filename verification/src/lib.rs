//! A verified core for a menu-driven knowledge-base chat bot.
//!
//! Users browse categories and questions through a keyboard-driven chat
//! interface.  The crate holds the update-routing and conversation-state
//! engine: classification of inbound events, the authorization gate, the
//! dispatch tree, the per-chat dialogue state machine, the catalog that the
//! answers come from, and the text utilities (answer chunking and
//! truncation) that the transports need.  All I/O — the chat transport, the
//! database, the admin panel — stays outside; callers hand the engine plain
//! values and apply the effects it returns.

pub mod admin;
pub mod auth;
pub mod bot;
pub mod catalog;
pub mod dialogue;
pub mod dispatch;
pub mod keyboard;
pub mod laws;
pub mod models;
pub mod private_chat;
pub mod text;
pub mod update;
