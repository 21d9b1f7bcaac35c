//! A verified core for a polar falling-block game.
//!
//! A rotating platter is divided into pie-slice x onion-layer segments.
//! Tetromino-like pieces are dropped onto the platter: a placement resolver
//! picks the target window of segments, validates it against occupied cells,
//! and commits the piece atomically; a descent step moves falling pieces one
//! layer inward per tick; a separate n-body integrator drives the orbital toy.
//! All geometry is held in fixed-point integer coordinates; the rendering and
//! floating-point mesh generation live outside this crate.

pub mod grid;
pub mod pieces;
pub mod board;
pub mod descent;
pub mod placement;
pub mod nbody;
pub mod viz;
pub mod enable_disable;
pub mod strings;
