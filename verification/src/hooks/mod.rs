//! Hooks: commands that run at certain events of a session.

pub mod after_compaction;
pub mod discovery;
pub mod dispatcher;
pub mod legacy_notify;
pub mod matcher;
pub mod model;
