//! A small, file-backed record manager: collections of records (users and
//! videos) held fully in memory, queried by optional per-field predicates,
//! and mutated through a confirm-before-destructive-action protocol.
//!
//! The crate verifies the core engine: collision-free id generation,
//! ambiguity-aware lookup, the safe-mutation protocol, the byte codec that
//! persists a collection losslessly, and the yes/no response classifier of
//! the confirmation gate. File and terminal I/O live outside the library.

pub mod codec;
pub mod commands;
pub mod confirm;
pub mod counting;
mod rng;
pub mod users;
pub mod videos;
pub mod views;
