//! A tick-based territory game on a grid, with its proofs.
//!
//! Players move one cell per tick, leave a trail outside their own
//! territory, and claim the trail and whatever it encloses when they come
//! home. A tick runs timers, respawns, movement, claims, collisions and
//! scoring, in this order. Every function states what it computes over a
//! mathematical view of the state, and the laws of the game are proved from
//! those statements.
//!
//! - [`grid`], [`territory`]: positions, directions, the ownership grid.
//! - [`player`], [`state`], [`roster`]: players and the game state.
//! - [`movement`], [`flood`], [`claim`], [`collision`], [`spawn`],
//!   [`timers`], [`scoring`]: the systems of a tick.
//! - [`engine`], [`game`], [`config`], [`wire`]: the game behind its
//!   interface, its settings, and the input it reads.
//! - [`laws`], [`collision_laws`], [`ring_laws`], [`order_laws`]: what holds
//!   of every game.
//! - [`room`], [`rooms`], [`session`], [`text_map`]: rooms and sessions,
//!   and the map by text that both are kept in.

pub mod claim;
pub mod collision;
pub mod collision_laws;
pub mod config;
pub mod engine;
pub mod flood;
pub mod game;
pub mod grid;
pub mod laws;
pub mod movement;
pub mod order_laws;
pub mod player;
pub mod ring_laws;
pub mod room;
pub mod rooms;
pub mod roster;
pub mod scoring;
pub mod session;
pub mod spawn;
pub mod state;
pub mod territory;
pub mod text_map;
pub mod timers;
pub mod wire;
