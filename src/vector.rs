use crate::fixed::{
    ceil_sqrt, ceil_sqrt_u128, lemma_sq_bound, lemma_trunc_div_scaled, lemma_unit_component,
    lemma_unit_component_unscaled, lemma_unit_length, trunc_div, unit_component, BILLION,
    trunc_div_i128,
};
use vstd::prelude::*;

verus! {

/// A three-component integer vector. Positions are in micro-units,
/// rotations in millidegrees (x yaw, y pitch, z roll) and directions in
/// thousandths of a unit.
#[derive(PartialEq, Eq, Structural, Clone, Copy, Debug)]
pub struct Vector3 {
    pub x: i64,
    pub y: i64,
    pub z: i64,
}

/// Squared Euclidean length of an integer triple.
pub open spec fn sqr_len(x: int, y: int, z: int) -> int {
    x * x + y * y + z * z
}

/// `a / d` rounded toward zero, and zero when `d` is zero.
pub open spec fn quot(a: int, d: int) -> int {
    if d == 0 {
        0
    } else if d > 0 {
        trunc_div(a, d)
    } else {
        -trunc_div(a, -d)
    }
}

fn quot_i64(a: i64, d: i64) -> (r: i64)
    requires
        quot(a as int, d as int) <= i64::MAX,
    ensures
        r == quot(a as int, d as int),
{
    if d == 0 {
        0
    } else if d > 0 {
        proof {
            lemma_trunc_div_scaled(a as int, 1, d as int);
        }
        trunc_div_i128(a as i128, d as i128) as i64
    } else {
        proof {
            lemma_trunc_div_scaled(a as int, 1, -d as int);
        }
        let q = trunc_div_i128(a as i128, -(d as i128));
        (-q) as i64
    }
}

/// `a` moved `t` thousandths of the way to `b`, rounded toward `a`.
pub open spec fn lerp_component(a: int, b: int, t: int) -> int {
    a + trunc_div((b - a) * t, 1000)
}

fn lerp_i64(a: i64, b: i64, t: u32) -> (r: i64)
    requires
        t <= 1000,
    ensures
        r == lerp_component(a as int, b as int, t as int),
{
    let d = b as i128 - a as i128;
    let f = t as i128;
    proof {
        lemma_trunc_div_scaled(d as int, f as int, 1000);
    }
    assert(-0x1_0000_0000_0000_0000 * 1000 <= d * f <= 0x1_0000_0000_0000_0000 * 1000) by (nonlinear_arith)
        requires -0x1_0000_0000_0000_0000 <= d <= 0x1_0000_0000_0000_0000, 0 <= f <= 1000;
    (a as i128 + trunc_div_i128(d * f, 1000)) as i64
}

impl Vector3 {
    pub fn new(x: i64, y: i64, z: i64) -> (r: Vector3)
        ensures
            r.x == x && r.y == y && r.z == z,
    {
        Vector3 { x, y, z }
    }

    /// Swaps the first two components.
    pub fn invert_xy(&self) -> (r: Vector3)
        ensures
            r.x == self.y && r.y == self.x && r.z == self.z,
    {
        Vector3 { x: self.y, y: self.x, z: self.z }
    }

    /// Component-wise sum.
    pub fn add(&self, o: Vector3) -> (r: Vector3)
        requires
            i64::MIN <= self.x + o.x <= i64::MAX,
            i64::MIN <= self.y + o.y <= i64::MAX,
            i64::MIN <= self.z + o.z <= i64::MAX,
        ensures
            r.x == self.x + o.x && r.y == self.y + o.y && r.z == self.z + o.z,
    {
        Vector3 { x: self.x + o.x, y: self.y + o.y, z: self.z + o.z }
    }

    /// Component-wise difference.
    pub fn sub(&self, o: Vector3) -> (r: Vector3)
        requires
            i64::MIN <= self.x - o.x <= i64::MAX,
            i64::MIN <= self.y - o.y <= i64::MAX,
            i64::MIN <= self.z - o.z <= i64::MAX,
        ensures
            r.x == self.x - o.x && r.y == self.y - o.y && r.z == self.z - o.z,
    {
        Vector3 { x: self.x - o.x, y: self.y - o.y, z: self.z - o.z }
    }

    /// Component-wise negation.
    pub fn neg(&self) -> (r: Vector3)
        requires
            self.x > i64::MIN && self.y > i64::MIN && self.z > i64::MIN,
        ensures
            r.x == -self.x && r.y == -self.y && r.z == -self.z,
    {
        Vector3 { x: -self.x, y: -self.y, z: -self.z }
    }

    /// Component-wise product.
    pub fn mul(&self, o: Vector3) -> (r: Vector3)
        requires
            i64::MIN <= self.x * o.x <= i64::MAX,
            i64::MIN <= self.y * o.y <= i64::MAX,
            i64::MIN <= self.z * o.z <= i64::MAX,
        ensures
            r.x == self.x * o.x && r.y == self.y * o.y && r.z == self.z * o.z,
    {
        Vector3 { x: self.x * o.x, y: self.y * o.y, z: self.z * o.z }
    }

    /// Every component times `k`.
    pub fn scale(&self, k: i64) -> (r: Vector3)
        requires
            i64::MIN <= self.x * k <= i64::MAX,
            i64::MIN <= self.y * k <= i64::MAX,
            i64::MIN <= self.z * k <= i64::MAX,
        ensures
            r.x == self.x * k && r.y == self.y * k && r.z == self.z * k,
    {
        Vector3 { x: self.x * k, y: self.y * k, z: self.z * k }
    }

    /// Every component divided by `k`, rounded toward zero; a zero `k`
    /// gives the zero vector rather than a fault.
    pub fn div(&self, k: i64) -> (r: Vector3)
        requires
            quot(self.x as int, k as int) <= i64::MAX,
            quot(self.y as int, k as int) <= i64::MAX,
            quot(self.z as int, k as int) <= i64::MAX,
        ensures
            r.x == quot(self.x as int, k as int),
            r.y == quot(self.y as int, k as int),
            r.z == quot(self.z as int, k as int),
    {
        Vector3 { x: quot_i64(self.x, k), y: quot_i64(self.y, k), z: quot_i64(self.z, k) }
    }

    /// Component-wise quotient, rounded toward zero; a zero component of
    /// `o` gives a zero component.
    pub fn div_vec(&self, o: Vector3) -> (r: Vector3)
        requires
            quot(self.x as int, o.x as int) <= i64::MAX,
            quot(self.y as int, o.y as int) <= i64::MAX,
            quot(self.z as int, o.z as int) <= i64::MAX,
        ensures
            r.x == quot(self.x as int, o.x as int),
            r.y == quot(self.y as int, o.y as int),
            r.z == quot(self.z as int, o.z as int),
    {
        Vector3 { x: quot_i64(self.x, o.x), y: quot_i64(self.y, o.y), z: quot_i64(self.z, o.z) }
    }

    /// `k` added to every component.
    pub fn add_scalar(&self, k: i64) -> (r: Vector3)
        requires
            i64::MIN <= self.x + k <= i64::MAX,
            i64::MIN <= self.y + k <= i64::MAX,
            i64::MIN <= self.z + k <= i64::MAX,
        ensures
            r.x == self.x + k && r.y == self.y + k && r.z == self.z + k,
    {
        Vector3 { x: self.x + k, y: self.y + k, z: self.z + k }
    }

    /// `k` taken from every component.
    pub fn sub_scalar(&self, k: i64) -> (r: Vector3)
        requires
            i64::MIN <= self.x - k <= i64::MAX,
            i64::MIN <= self.y - k <= i64::MAX,
            i64::MIN <= self.z - k <= i64::MAX,
        ensures
            r.x == self.x - k && r.y == self.y - k && r.z == self.z - k,
    {
        Vector3 { x: self.x - k, y: self.y - k, z: self.z - k }
    }

    /// The point `t` thousandths of the way from `self` to `other`, each
    /// component rounded toward `self`.
    pub fn lerp_vec(&self, other: Vector3, t: u32) -> (r: Vector3)
        requires
            t <= 1000,
        ensures
            r.x == lerp_component(self.x as int, other.x as int, t as int),
            r.y == lerp_component(self.y as int, other.y as int, t as int),
            r.z == lerp_component(self.z as int, other.z as int, t as int),
    {
        Vector3 {
            x: lerp_i64(self.x, other.x, t),
            y: lerp_i64(self.y, other.y, t),
            z: lerp_i64(self.z, other.z, t),
        }
    }

    /// Squared length, exact in 128 bits.
    pub fn sqr_magnitude(&self) -> (r: u128)
        ensures
            r == sqr_len(self.x as int, self.y as int, self.z as int),
            r <= 3 * 0x4000_0000_0000_0000_0000_0000_0000_0000,
    {
        let x = self.x as i128;
        let y = self.y as i128;
        let z = self.z as i128;
        assert(0 <= x * x <= 0x4000_0000_0000_0000_0000_0000_0000_0000) by (nonlinear_arith)
            requires i64::MIN <= x <= i64::MAX;
        assert(0 <= y * y <= 0x4000_0000_0000_0000_0000_0000_0000_0000) by (nonlinear_arith)
            requires i64::MIN <= y <= i64::MAX;
        assert(0 <= z * z <= 0x4000_0000_0000_0000_0000_0000_0000_0000) by (nonlinear_arith)
            requires i64::MIN <= z <= i64::MAX;
        (x * x) as u128 + (y * y) as u128 + (z * z) as u128
    }
}

/// The length of `v`, rounded up to a whole unit of its components.
pub fn magnitude(v: Vector3) -> (r: u64)
    ensures
        r as int == ceil_sqrt(sqr_len(v.x as int, v.y as int, v.z as int)),
{
    let sq = v.sqr_magnitude();
    assert(3 * 0x4000_0000_0000_0000_0000_0000_0000_0000 <= crate::fixed::SQRT_HI * crate::fixed::SQRT_HI);
    ceil_sqrt_u128(sq) as u64
}

/// Squared lengths up to this bound are scaled by `10^16` before their
/// root is taken in `normalize`, so that the root is exact to `10^-8`.
pub const NORMALIZE_FINE: u128 = 10_000_000_000_000_000_000_000;

pub open spec fn is_zero(v: Vector3) -> bool {
    v.x == 0 && v.y == 0 && v.z == 0
}

/// `r` is `v / |v|` in billionths, each component rounded toward zero to
/// within 101 billionths.
pub open spec fn is_unit_of(v: Vector3, r: Vector3) -> bool {
    let s = sqr_len(v.x as int, v.y as int, v.z as int);
    &&& unit_component(v.x as int, s, r.x as int)
    &&& unit_component(v.y as int, s, r.y as int)
    &&& unit_component(v.z as int, s, r.z as int)
}

/// The direction of `v` in billionths of a unit: `v / |v|`, each component
/// rounded toward zero to within 101 billionths, so that the length is one
/// unit to within a millionth. The zero vector, which has no direction, is
/// returned unchanged.
pub fn normalize(v: Vector3) -> (r: Vector3)
    ensures
        is_zero(v) ==> r == v,
        !is_zero(v) ==> is_unit_of(v, r),
        !is_zero(v) ==> (BILLION - 1000) * (BILLION - 1000) <= sqr_len(r.x as int, r.y as int, r.z as int)
            <= BILLION * BILLION,
{
    if v.x == 0 && v.y == 0 && v.z == 0 {
        return v;
    }
    let sq = v.sqr_magnitude();
    let (x, y, z) = (v.x as i128, v.y as i128, v.z as i128);
    let ghost s = sq as int;
    assert(s >= 1) by (nonlinear_arith)
        requires s == x * x + y * y + z * z, x != 0 || y != 0 || z != 0;
    assert(x * x <= s && y * y <= s && z * z <= s) by (nonlinear_arith)
        requires s == x * x + y * y + z * z;
    let (qx, qy, qz): (i128, i128, i128) = if sq <= NORMALIZE_FINE {
        proof {
            lemma_sq_bound(x as int, 100_000_000_000);
            lemma_sq_bound(y as int, 100_000_000_000);
            lemma_sq_bound(z as int, 100_000_000_000);
        }
        let r = ceil_sqrt_u128(sq * 10_000_000_000_000_000) as i128;
        let c: i128 = 100_000_000;
        let (mx, my, mz) = (x * c, y * c, z * c);
        let ghost sm = 10_000_000_000_000_000 * s;
        assert(mx * mx + my * my + mz * mz == sm) by (nonlinear_arith)
            requires mx == x * c, my == y * c, mz == z * c, s == x * x + y * y + z * z, c == 100_000_000,
                sm == 10_000_000_000_000_000 * s;
        assert(mx * mx <= sm && my * my <= sm && mz * mz <= sm) by (nonlinear_arith)
            requires mx * mx + my * my + mz * mz == sm;
        assert(r >= 100_000_000) by (nonlinear_arith)
            requires r * r >= sm, r >= 0, s >= 1, sm == 10_000_000_000_000_000 * s;
        let qx = trunc_div_i128(mx * 1_000_000_000, r);
        let qy = trunc_div_i128(my * 1_000_000_000, r);
        let qz = trunc_div_i128(mz * 1_000_000_000, r);
        proof {
            lemma_unit_length(mx as int, my as int, mz as int, r as int);
            lemma_unit_component(mx as int, sm, r as int);
            lemma_unit_component(my as int, sm, r as int);
            lemma_unit_component(mz as int, sm, r as int);
            assert(sm == c * c * s);
            lemma_unit_component_unscaled(x as int, s, qx as int, c as int);
            lemma_unit_component_unscaled(y as int, s, qy as int, c as int);
            lemma_unit_component_unscaled(z as int, s, qz as int, c as int);
        }
        (qx, qy, qz)
    } else {
        assert(3 * 0x4000_0000_0000_0000_0000_0000_0000_0000 <= crate::fixed::SQRT_HI * crate::fixed::SQRT_HI);
        let r = ceil_sqrt_u128(sq) as i128;
        assert(r >= 100_000_000) by (nonlinear_arith)
            requires r * r >= s, r >= 0, s > NORMALIZE_FINE;
        let qx = trunc_div_i128(x * 1_000_000_000, r);
        let qy = trunc_div_i128(y * 1_000_000_000, r);
        let qz = trunc_div_i128(z * 1_000_000_000, r);
        proof {
            lemma_unit_length(x as int, y as int, z as int, r as int);
            lemma_unit_component(x as int, s, r as int);
            lemma_unit_component(y as int, s, r as int);
            lemma_unit_component(z as int, s, r as int);
        }
        (qx, qy, qz)
    };
    proof {
        let (a, b, c) = (qx as int, qy as int, qz as int);
        assert(a * a <= BILLION * BILLION && b * b <= BILLION * BILLION && c * c <= BILLION * BILLION) by (nonlinear_arith)
            requires a * a + b * b + c * c <= BILLION * BILLION;
        lemma_sq_bound(a, BILLION as int);
        lemma_sq_bound(b, BILLION as int);
        lemma_sq_bound(c, BILLION as int);
    }
    Vector3 { x: qx as i64, y: qy as i64, z: qz as i64 }
}

} // verus!
