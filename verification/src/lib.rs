//! Authoritative-host simulation core for a small real-time multiplayer game.
//!
//! The crate keeps tick-indexed histories of entity state, finds grid paths
//! for enemies, decides whom an enemy pursues and where it moves, and turns
//! the packets of host and clients into bytes and back. Positions are whole
//! numbers of world units, so that every participant computes the same.
//!
//! - `tick`: the wrapping clock.
//! - `buffers`: fixed-capacity histories indexed by tick.
//! - `entity`: a networked entity with one history for each attribute.
//! - `net`: the step of the clock with its carry-forward, and acknowledgments.
//! - `packets`, `player`: the packets, their bytes, and what they write.
//! - `session`: one participant's side of a match.
//! - `grid`, `cellmap`, `frontier`, `astar`, `pivots`: path finding.
//! - `world`, `math`: the map in world coordinates, and integer geometry.
//! - `enemy`, `combat`: the rules an enemy follows each tick.
//! - `timers`: the timers of the game engine.
//!
//! Every function carries a contract and is proved to meet it, but for the
//! few in `timers`, which call into the engine and whose contracts are taken
//! on trust.

pub mod astar;
pub mod buffers;
pub mod cellmap;
pub mod combat;
pub mod enemy;
pub mod entity;
pub mod frontier;
pub mod grid;
pub mod math;
pub mod net;
pub mod packets;
pub mod pivots;
pub mod player;
pub mod session;
pub mod tick;
pub mod timers;
pub mod world;
