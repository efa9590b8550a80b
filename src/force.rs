//! Pairwise force laws.
use vstd::prelude::*;
use vstd::arithmetic::div_mod::{lemma_div_is_ordered, lemma_div_multiples_vanish};
use crate::atom::{Vec2, trunc_div, trunc_div_i128};

verus! {

/// The squared distance between two positions.
pub open spec fn dist2(a: Vec2, b: Vec2) -> int {
    (b.x - a.x) * (b.x - a.x) + (b.y - a.y) * (b.y - a.y)
}

/// A symmetric pair interaction with a finite range.
pub trait ForceLaw {
    /// The force that an atom at `b` exerts on an atom at `a`.
    spec fn pair_force(&self, a: Vec2, b: Vec2) -> (int, int);

    /// The interaction range: atoms farther apart exert no force.
    spec fn cutoff(&self) -> int;

    fn force(&self, a: Vec2, b: Vec2) -> (r: Vec2)
        ensures
            r.x == self.pair_force(a, b).0,
            r.y == self.pair_force(a, b).1,
    ;

    /// Action and reaction are opposite.
    proof fn lemma_reaction(&self, a: Vec2, b: Vec2)
        ensures
            self.pair_force(a, b).0 == -self.pair_force(b, a).0,
            self.pair_force(a, b).1 == -self.pair_force(b, a).1,
    ;

    /// No force acts beyond the cutoff.
    proof fn lemma_range(&self, a: Vec2, b: Vec2)
        requires
            self.cutoff() >= 0,
            dist2(a, b) > self.cutoff() * self.cutoff(),
        ensures
            self.pair_force(a, b) == (0int, 0int),
    ;
}

pub open spec fn is_floor_sqrt(n: int, r: int) -> bool {
    0 <= r && r * r <= n < (r + 1) * (r + 1)
}

/// The largest `r` with `r * r <= n`, for `n >= 0`.
pub open spec fn floor_sqrt(n: int) -> int {
    choose|r: int| #[trigger] is_floor_sqrt(n, r)
}

proof fn lemma_floor_sqrt_unique(n: int, r: int, s: int)
    requires
        is_floor_sqrt(n, r),
        is_floor_sqrt(n, s),
    ensures
        r == s,
{
    if r < s {
        assert((r + 1) * (r + 1) <= s * s) by (nonlinear_arith)
            requires
                0 <= r < s,
        ;
    } else if s < r {
        assert((s + 1) * (s + 1) <= r * r) by (nonlinear_arith)
            requires
                0 <= s < r,
        ;
    }
}

/// The floor of the square root of `n`, by bisection.
fn isqrt(n: u128) -> (r: u128)
    requires
        n < 0x8000_0000_0000_0000_0000_0000_0000_0000u128,
    ensures
        is_floor_sqrt(n as int, r as int),
        r == floor_sqrt(n as int),
        r < 0x1_0000_0000_0000_0000u128,
{
    let mut lo: u128 = 0;
    let mut hi: u128 = 0x1_0000_0000_0000_0000u128;
    assert(n < hi * hi) by (nonlinear_arith)
        requires
            n < 0x8000_0000_0000_0000_0000_0000_0000_0000u128,
            hi == 0x1_0000_0000_0000_0000u128,
    ;
    while hi - lo > 1
        invariant
            lo < hi <= 0x1_0000_0000_0000_0000u128,
            lo * lo <= n,
            n < hi * hi,
        decreases hi - lo,
    {
        let mid: u128 = lo + (hi - lo) / 2;
        assert(mid * mid < 0x1_0000_0000_0000_0000_0000_0000_0000_0000int) by (nonlinear_arith)
            requires
                mid < 0x1_0000_0000_0000_0000u128,
        ;
        if mid * mid <= n {
            lo = mid;
        } else {
            hi = mid;
        }
    }
    proof {
        assert(is_floor_sqrt(n as int, lo as int));
        assert(exists|q: int| #[trigger] is_floor_sqrt(n as int, q));
        lemma_floor_sqrt_unique(n as int, lo as int, floor_sqrt(n as int));
    }
    lo
}

/// A pull of constant `magnitude` toward every other atom within `cutoff`,
/// along the line between them; a negative magnitude pushes away.
pub struct ConstantAttraction {
    magnitude: i64,
    cutoff: i64,
}

impl ConstantAttraction {
    #[verifier::type_invariant]
    spec fn inv(self) -> bool {
        self.magnitude > i64::MIN && self.cutoff >= 0
    }

    pub closed spec fn spec_magnitude(self) -> int {
        self.magnitude as int
    }

    pub fn new(magnitude: i64, cutoff: i64) -> (r: ConstantAttraction)
        requires
            magnitude > i64::MIN,
            cutoff >= 0,
        ensures
            r.spec_magnitude() == magnitude,
            r.cutoff() == cutoff,
    {
        ConstantAttraction { magnitude, cutoff }
    }
}

proof fn lemma_trunc_div_neg(a: int, b: int)
    requires
        b > 0,
    ensures
        trunc_div(-a, b) == -trunc_div(a, b),
{
    if a == 0 {
        assert(0int / b == 0);
    }
}

/// `|m * d / r| <= |m|` when `|d| <= r`.
proof fn lemma_scaled_bound(m: int, d: int, r: int)
    requires
        r > 0,
        -r <= d <= r,
    ensures
        -(if m >= 0 { m } else { -m }) <= trunc_div(m * d, r) <= (if m >= 0 { m } else { -m }),
{
    let am = if m >= 0 { m } else { -m };
    let ad = if d >= 0 { d } else { -d };
    assert(if m * d >= 0 { m * d == am * ad } else { -(m * d) == am * ad }) by (nonlinear_arith)
        requires
            am == (if m >= 0 { m } else { -m }),
            ad == (if d >= 0 { d } else { -d }),
    ;
    assert(0 <= am * ad <= am * r) by (nonlinear_arith)
        requires
            0 <= ad <= r,
            am >= 0,
    ;
    lemma_div_is_ordered(am * ad, am * r, r);
    assert((am * r) / r == am) by {
        lemma_div_multiples_vanish(am, r);
        assert(am * r == r * am) by (nonlinear_arith);
    }
    assert(0 <= (am * ad) / r) by {
        vstd::arithmetic::div_mod::lemma_div_pos_is_pos(am * ad, r);
    }
}

impl ForceLaw for ConstantAttraction {
    open spec fn pair_force(&self, a: Vec2, b: Vec2) -> (int, int) {
        let dx = b.x - a.x;
        let dy = b.y - a.y;
        let d2 = dist2(a, b);
        let m = self.spec_magnitude();
        if d2 == 0 || d2 > self.cutoff() * self.cutoff() {
            (0, 0)
        } else {
            let r = floor_sqrt(d2);
            (trunc_div(m * dx, r), trunc_div(m * dy, r))
        }
    }

    closed spec fn cutoff(&self) -> int {
        self.cutoff as int
    }

    fn force(&self, a: Vec2, b: Vec2) -> (r: Vec2) {
        proof {
            use_type_invariant(self);
        }
        let dx: i128 = b.x as i128 - a.x as i128;
        let dy: i128 = b.y as i128 - a.y as i128;
        let c: i128 = self.cutoff as i128;
        if dx > c || -dx > c || dy > c || -dy > c {
            proof {
                assert(dist2(a, b) > c * c) by (nonlinear_arith)
                    requires
                        dx > c || -dx > c || dy > c || -dy > c,
                        c >= 0,
                        dist2(a, b) == dx * dx + dy * dy,
                ;
            }
            return Vec2 { x: 0, y: 0 };
        }
        assert(0 <= dx * dx <= c * c && 0 <= dy * dy <= c * c && c * c <= 0x3fff_ffff_ffff_ffff_0000_0000_0000_0001int)
            by (nonlinear_arith)
            requires
                -c <= dx <= c,
                -c <= dy <= c,
                0 <= c <= i64::MAX,
        ;
        let d2: i128 = dx * dx + dy * dy;
        if d2 == 0 || d2 > c * c {
            return Vec2 { x: 0, y: 0 };
        }
        let r: u128 = isqrt(d2 as u128);
        let ghost gr = r as int;
        proof {
            assert(gr > 0 && -gr <= dx <= gr && -gr <= dy <= gr) by (nonlinear_arith)
                requires
                    is_floor_sqrt(d2 as int, gr),
                    d2 == dx * dx + dy * dy,
                    d2 > 0,
            ;
            lemma_scaled_bound(self.magnitude as int, dx as int, gr);
            lemma_scaled_bound(self.magnitude as int, dy as int, gr);
        }
        let m: i128 = self.magnitude as i128;
        assert(-0x4000_0000_0000_0000_0000_0000_0000_0000int < m * dx < 0x4000_0000_0000_0000_0000_0000_0000_0000int
            && -0x4000_0000_0000_0000_0000_0000_0000_0000int < m * dy < 0x4000_0000_0000_0000_0000_0000_0000_0000int)
            by (nonlinear_arith)
            requires
                -c <= dx <= c,
                -c <= dy <= c,
                0 <= c <= i64::MAX,
                i64::MIN < m <= i64::MAX,
        ;
        let fx = trunc_div_i128(m * dx, r as i128);
        let fy = trunc_div_i128(m * dy, r as i128);
        Vec2 { x: fx as i64, y: fy as i64 }
    }

    proof fn lemma_reaction(&self, a: Vec2, b: Vec2) {
        let m = self.magnitude as int;
        let dx = b.x - a.x;
        let dy = b.y - a.y;
        assert(dist2(a, b) == dist2(b, a)) by (nonlinear_arith);
        assert(m * (a.x - b.x) == -(m * dx) && m * (a.y - b.y) == -(m * dy)) by (nonlinear_arith)
            requires
                dx == b.x - a.x,
                dy == b.y - a.y,
        ;
        let d = dist2(a, b);
        let r = floor_sqrt(d);
        assert(d >= 0) by (nonlinear_arith)
            requires
                d == dx * dx + dy * dy,
        ;
        if d != 0 && d <= self.cutoff() * self.cutoff() {
            lemma_floor_sqrt_exists(d);
            assert(is_floor_sqrt(d, r));
            assert(r > 0) by (nonlinear_arith)
                requires
                    is_floor_sqrt(d, r),
                    d > 0,
            ;
            lemma_trunc_div_neg(m * dx, r);
            lemma_trunc_div_neg(m * dy, r);
        }
    }

    proof fn lemma_range(&self, a: Vec2, b: Vec2) {
    }
}

/// Every non-negative integer has an integer square root.
proof fn lemma_floor_sqrt_exists(n: int)
    requires
        n >= 0,
    ensures
        exists|r: int| #[trigger] is_floor_sqrt(n, r),
    decreases n,
{
    if n == 0 {
        assert(is_floor_sqrt(0, 0));
    } else {
        lemma_floor_sqrt_exists(n - 1);
        let r = choose|r: int| #[trigger] is_floor_sqrt(n - 1, r);
        if (r + 1) * (r + 1) <= n {
            assert(n < (r + 2) * (r + 2)) by (nonlinear_arith)
                requires
                    n - 1 < (r + 1) * (r + 1),
                    r >= 0,
            ;
            assert(is_floor_sqrt(n, r + 1));
        } else {
            assert(is_floor_sqrt(n, r));
        }
    }
}

} // verus!
