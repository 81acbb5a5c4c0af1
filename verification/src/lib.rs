//! A peer-to-peer lobby and room matchmaking library for a three-seat card
//! game. Peers exchange events over an unreliable, unordered data channel;
//! each peer keeps its own lobby directory and room state and converges with
//! the others through full-state gossip.

pub mod cards;
pub mod codec;
pub mod events;
pub mod ids;
pub mod lobby;
pub mod player;
pub mod room;
pub mod state;
