//! The core of the Cascade storage engine.
//!
//! Cascade presents files of several storage backends in one tree, keeps some of
//! them locally, shares blocks with peers, and lets trusted devices manage a node.
//! This crate holds the rules it goes by: which paths are pinned, ignored and
//! evicted, how changes are handed to readers, how grants and tokens confer
//! authority, and how a management command is authorised, audited and run. What a
//! rule decides is stated in its contract; storage, transport and timers are left
//! to the caller, who is told what to do next and hands back what came of it.

pub mod backend;
pub mod bytes;
pub mod cache;
pub mod changefeed;
pub mod config;
pub mod db;
pub mod engine;
pub mod glob;
pub mod manage;
pub mod p2p_bridge;
pub mod path;
mod table;
pub mod text;
pub mod time;
pub mod types;

pub use engine::EngineStatus;
