//! A software renderer for a small procedurally generated solar system.
//!
//! Every quantity is a fixed-point number: an `i64` holding the value times
//! [`fp::SCALE`]. The renderer is deterministic: the same draw calls on the
//! same surface always produce the same pixels.

pub mod fp;
pub mod noise;
pub mod textura;
pub mod framebuffer;
pub mod estrellas;

use vstd::prelude::*;

verus! {

/// A two-dimensional point or vector in fixed-point screen coordinates.
#[derive(Clone, Copy, PartialEq, Eq, Structural, Debug)]
pub struct Vec2 {
    pub x: i64,
    pub y: i64,
}

/// The squared length of the vector `(x, y)`.
pub open spec fn spec_len2(x: int, y: int) -> int {
    x * x + y * y
}

/// The Euclidean length of the vector `(x, y)`, rounded down.
pub open spec fn spec_vec_len(x: int, y: int) -> int {
    fp::spec_isqrt(spec_len2(x, y))
}

impl Vec2 {
    /// Build a point from its two coordinates.
    pub fn new(x: i64, y: i64) -> (v: Vec2)
        ensures
            v.x == x,
            v.y == y,
    {
        Vec2 { x, y }
    }

    /// Componentwise difference.
    pub fn sub(self, o: Vec2) -> (v: Vec2)
        requires
            -0x4000_0000_0000 <= self.x <= 0x4000_0000_0000,
            -0x4000_0000_0000 <= self.y <= 0x4000_0000_0000,
            -0x4000_0000_0000 <= o.x <= 0x4000_0000_0000,
            -0x4000_0000_0000 <= o.y <= 0x4000_0000_0000,
        ensures
            v.x == self.x - o.x,
            v.y == self.y - o.y,
    {
        Vec2 { x: self.x - o.x, y: self.y - o.y }
    }

    /// The Euclidean length, rounded down to the fixed-point grid.
    pub fn len(self) -> (r: i64)
        requires
            -0x4000_0000 <= self.x <= 0x4000_0000,
            -0x4000_0000 <= self.y <= 0x4000_0000,
        ensures
            r == spec_vec_len(self.x as int, self.y as int),
            0 <= r < 0x8000_0000,
            r * r <= spec_len2(self.x as int, self.y as int),
            (r + 1) * (r + 1) > spec_len2(self.x as int, self.y as int),
    {
        proof {
            assert(0 <= self.x * self.x <= 0x4000_0000 * 0x4000_0000 && 0 <= self.y * self.y
                <= 0x4000_0000 * 0x4000_0000) by (nonlinear_arith)
                requires
                    -0x4000_0000 <= self.x <= 0x4000_0000,
                    -0x4000_0000 <= self.y <= 0x4000_0000,
            ;
        }
        let xx: i64 = self.x * self.x;
        let yy: i64 = self.y * self.y;
        let d2: u64 = (xx as u64) + (yy as u64);
        let r: u64 = fp::isqrt(d2);
        r as i64
    }
}

} // verus!
