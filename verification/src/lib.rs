//! Deterministic core of a top-down tank arena: a tile maze, movers that
//! slide along its walls, bullets, and enemies that spawn, seek and shoot.
//!
//! All coordinates are integers in sub-units (`config::UNIT` of them make one
//! world unit), speeds are sub-units per second and time steps are
//! nanoseconds, so a frame is a pure function of the world and its input.

pub mod ai;
pub mod arena;
pub mod combat;
pub mod config;
pub mod entity;
pub mod geometry;
pub mod math;
pub mod maze;
pub mod movement;
pub mod player;
pub mod spawner;
pub mod timer;
pub mod world;
