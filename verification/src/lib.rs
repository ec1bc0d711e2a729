//! Verified core of a chat-moderation bot: a filter-clause parser, the
//! message-selection and deletion-batching rules of the purge command, and
//! the starboard review gate.

pub mod activity;
pub mod ansi;
pub mod filter;
pub mod patterns;
pub mod purge;
pub mod starboard;
pub mod text;
