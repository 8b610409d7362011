//! Tick-driven physics and movement core of a tile-based 2D platformer.
//!
//! All quantities are fixed-point integers: lengths in sub-units (a thousandth
//! of a world unit), durations in microseconds, and fractions in per-mille.
//! Each tick runs the force stage, the input stage and the collision stage,
//! in that order, and then points the camera at the player.
pub mod components;
pub mod fixed;
pub mod level;
pub mod physics;
pub mod player;
pub mod simulation;
