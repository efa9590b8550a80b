//! A two-dimensional particle engine binned on a uniform grid, with
//! double-buffered ticks.
//!
//! All quantities are fixed-point integers: `atom::UNIT` stands for one unit
//! of length, time, velocity, force or mass.
use vstd::prelude::*;

pub mod atom;
pub mod grid;
pub mod force;
pub mod kernel;
pub mod tick;
pub mod simulation;
pub mod layout;
pub mod mesh;
