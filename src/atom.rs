//! Atom records and fixed-point quantities.
use vstd::prelude::*;

verus! {

/// The fixed-point representation of one unit (of length, time, velocity,
/// force or mass): quantities are stored in units of 10^-12.
pub const UNIT: i64 = 1_000_000_000_000;

/// The fixed time step of one tick, 10^-6 time units.
pub const DELTA_T: i64 = 1_000_000;

/// `a / b` rounded toward zero, for positive `b`, as Rust's integer
/// division does.
pub open spec fn trunc_div(a: int, b: int) -> int {
    if a >= 0 {
        a / b
    } else {
        -((-a) / b)
    }
}

/// `v` clamped to the range of `i64`.
pub open spec fn saturate(v: int) -> int {
    if v > i64::MAX {
        i64::MAX as int
    } else if v < i64::MIN {
        i64::MIN as int
    } else {
        v
    }
}

pub fn trunc_div_i128(a: i128, b: i128) -> (r: i128)
    requires
        b > 0,
        a > i128::MIN,
    ensures
        r == trunc_div(a as int, b as int),
{
    if a >= 0 {
        a / b
    } else {
        -((-a) / b)
    }
}

pub fn saturate_i128(v: i128) -> (r: i64)
    ensures
        r == saturate(v as int),
{
    if v > i64::MAX as i128 {
        i64::MAX
    } else if v < i64::MIN as i128 {
        i64::MIN
    } else {
        v as i64
    }
}

/// A two-dimensional vector of fixed-point components.
#[derive(Clone, Copy, Debug, PartialEq, Eq, Structural)]
pub struct Vec2 {
    pub x: i64,
    pub y: i64,
}

impl Vec2 {
    pub fn new(x: i64, y: i64) -> (r: Vec2)
        ensures
            r.x == x,
            r.y == y,
    {
        Vec2 { x, y }
    }

    pub fn zeros() -> (r: Vec2)
        ensures
            r.x == 0,
            r.y == 0,
    {
        Vec2 { x: 0, y: 0 }
    }
}

/// One simulated particle.
#[derive(Clone, Copy, Debug, PartialEq, Eq, Structural)]
pub struct Atom {
    pub position: Vec2,
    pub velocity: Vec2,
    pub force: Vec2,
    /// A scalar that the renderer maps to a colour.
    pub visual: i64,
}

impl Atom {
    pub fn new(position: Vec2, velocity: Vec2, force: Vec2) -> (r: Atom)
        ensures
            r.position == position,
            r.velocity == velocity,
            r.force == force,
            r.visual == 0,
    {
        Atom { position, velocity, force, visual: 0 }
    }
}

} // verus!
