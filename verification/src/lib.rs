//! Simulation core of a falling-block puzzle game: piece shapes and rotation,
//! collision against the settled stack, input debouncing and auto-repeat,
//! gravity and locking, full-row clearing with cascade, and piece spawning.

pub mod constants;
pub mod board;
pub mod piece;
pub mod stack;
pub mod collision;
pub mod world;
pub mod gravity;
pub mod clear;
pub mod input;
pub mod spawn;
pub mod session;
