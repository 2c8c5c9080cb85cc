//! A room service for anonymous peer-to-peer desktop sharing: configuration,
//! room state and signalling decisions, each with a contract that Verus proves.
pub mod clock;
pub mod text;
pub mod env;
pub mod config;
pub mod crypto;
pub mod sorted;
pub mod room;
pub mod rooms;
pub mod signaling;
pub mod turn;
pub mod laws;
