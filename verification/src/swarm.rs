//! The swarm registry: which peers share which torrent.
//!
//! `model` says what a swarm is and what an announce does to it, as
//! mathematics; `store` holds one swarm in memory; `registry` holds all of
//! them, by info hash.
pub mod model;
pub mod registry;
pub mod store;
