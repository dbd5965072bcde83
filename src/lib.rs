//! A rule-driven file organizer: classification of files against an ordered
//! rule list, destination templates, content deduplication, conflict
//! handling and an undoable journal of performed moves.

pub mod text;
pub mod config;
pub mod facts;
pub mod engine;
pub mod classify;
pub mod journal;
pub mod dedup;
pub mod template;
pub mod conflict;
pub mod oracle;
