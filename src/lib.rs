//! Beatmap generation: turns a time-ordered series of detected audio peaks
//! into timed notes and obstacles on a four-lane, three-row grid.
pub mod direction;
pub mod engine;
pub mod pattern;
pub mod peaks;
pub mod placement;
mod random;
pub mod synth;
pub mod walls;
