//! Exact fixed-point vector arithmetic.
//!
//! Every coordinate is an `i64` holding a world length scaled by [`SCALE`]:
//! the raw value `1000` is one world unit. All geometry below works on such
//! raw values with exact integer arithmetic, so the sign of every geometric
//! test is proved, not approximated.

use vstd::prelude::*;

verus! {

/// Raw fixed-point values per world unit: `SCALE` raw units are `1.0`.
pub const SCALE: i64 = 1000;

/// Largest raw coordinate magnitude accepted for stored vertices and camera
/// points. Keeping inputs inside this bound lets every intermediate value of
/// the intersection test fit in `i128`.
pub const COORD_BOUND: i64 = 32768;

/// Largest raw component magnitude of a per-pixel ray direction. The renderer
/// derives directions bounded by `2 * COORD_BOUND + 4 * SCALE`, which stays
/// below this.
pub const DIR_BOUND: i64 = 131072;

/// Largest component magnitude accepted by [`Vec3::normalize`].
pub const NORMALIZE_BOUND: i64 = 16000000;

/// Largest component magnitude accepted by the small dot/cross helpers.
pub const SMALL_BOUND: i64 = 3000000;

/// A 3-component fixed-point vector; also used for positions.
#[derive(Clone, Copy, Debug, PartialEq, Eq, Structural)]
pub struct Vec3 {
    pub x: i64,
    pub y: i64,
    pub z: i64,
}

impl View for Vec3 {
    type V = (int, int, int);

    open spec fn view(&self) -> (int, int, int) {
        (self.x as int, self.y as int, self.z as int)
    }
}

pub open spec fn add3(a: (int, int, int), b: (int, int, int)) -> (int, int, int) {
    (a.0 + b.0, a.1 + b.1, a.2 + b.2)
}

pub open spec fn sub3(a: (int, int, int), b: (int, int, int)) -> (int, int, int) {
    (a.0 - b.0, a.1 - b.1, a.2 - b.2)
}

pub open spec fn neg3(a: (int, int, int)) -> (int, int, int) {
    (-a.0, -a.1, -a.2)
}

pub open spec fn scale3(k: int, a: (int, int, int)) -> (int, int, int) {
    (k * a.0, k * a.1, k * a.2)
}

pub open spec fn cross3(a: (int, int, int), b: (int, int, int)) -> (int, int, int) {
    (a.1 * b.2 - a.2 * b.1, a.2 * b.0 - a.0 * b.2, a.0 * b.1 - a.1 * b.0)
}

pub open spec fn dot3(a: (int, int, int), b: (int, int, int)) -> int {
    a.0 * b.0 + a.1 * b.1 + a.2 * b.2
}

/// All three components lie within `[-bound, bound]`.
pub open spec fn bounded3(a: (int, int, int), bound: int) -> bool {
    &&& -bound <= a.0 <= bound
    &&& -bound <= a.1 <= bound
    &&& -bound <= a.2 <= bound
}

/// Division truncating toward zero, the rounding of machine signed division.
pub open spec fn sdiv(a: int, b: int) -> int
    recommends
        b > 0,
{
    if a >= 0 {
        a / b
    } else {
        -((-a) / b)
    }
}

pub open spec fn sdiv3(a: (int, int, int), d: int) -> (int, int, int) {
    (sdiv(a.0, d), sdiv(a.1, d), sdiv(a.2, d))
}

/// The integer square root: the largest `r` with `r * r <= n`.
pub open spec fn sqrt_floor(n: nat) -> nat
    decreases n,
{
    if n == 0 {
        0
    } else {
        let s = sqrt_floor((n - 1) as nat);
        if (s + 1) * (s + 1) <= n {
            s + 1
        } else {
            s
        }
    }
}

/// `sqrt_floor` is characterized by bracketing `n` between adjacent squares.
pub proof fn lemma_sqrt_floor(n: nat)
    ensures
        sqrt_floor(n) * sqrt_floor(n) <= n,
        n < (sqrt_floor(n) + 1) * (sqrt_floor(n) + 1),
    decreases n,
{
    if n == 0 {
        assert(sqrt_floor(0nat) == 0);
        assert((sqrt_floor(n) + 1) * (sqrt_floor(n) + 1) == 1) by (nonlinear_arith)
            requires
                sqrt_floor(n) == 0,
        {
        }
    } else {
        let m = (n - 1) as nat;
        lemma_sqrt_floor(m);
        let s = sqrt_floor(m);
        assert(sqrt_floor(n) == if (s + 1) * (s + 1) <= n {
            s + 1
        } else {
            s
        });
        if (s + 1) * (s + 1) <= n {
            assert(m < (s + 1) * (s + 1));
            assert(n <= (s + 1) * (s + 1));
            assert(n < (s + 1 + 1) * (s + 1 + 1)) by (nonlinear_arith)
                requires
                    n <= (s + 1) * (s + 1),
                    s >= 0,
            {
            }
        } else {
            assert(s * s <= m);
            assert(n < (s + 1) * (s + 1));
        }
    }
}

/// Only one value brackets `n` between adjacent squares.
pub proof fn lemma_sqrt_unique(n: nat, a: nat, b: nat)
    requires
        a * a <= n,
        n < (a + 1) * (a + 1),
        b * b <= n,
        n < (b + 1) * (b + 1),
    ensures
        a == b,
{
    assert(a == b) by (nonlinear_arith)
        requires
            a * a <= n,
            n < (a + 1) * (a + 1),
            b * b <= n,
            n < (b + 1) * (b + 1),
    {
    }
}

/// A product of bounded factors is bounded by the product of the bounds.
pub proof fn lemma_mul_bound(x: int, y: int, p: int, q: int)
    requires
        -p <= x <= p,
        -q <= y <= q,
    ensures
        -(p * q) <= x * y <= p * q,
{
    assert(-(p * q) <= x * y <= p * q) by (nonlinear_arith)
        requires
            -p <= x <= p,
            -q <= y <= q,
    {
    }
}

/// Component bound for the cross product of bounded vectors.
pub proof fn lemma_cross_bound(a: (int, int, int), b: (int, int, int), p: int, q: int)
    requires
        bounded3(a, p),
        bounded3(b, q),
    ensures
        bounded3(cross3(a, b), 2 * (p * q)),
{
    lemma_mul_bound(a.1, b.2, p, q);
    lemma_mul_bound(a.2, b.1, p, q);
    lemma_mul_bound(a.2, b.0, p, q);
    lemma_mul_bound(a.0, b.2, p, q);
    lemma_mul_bound(a.0, b.1, p, q);
    lemma_mul_bound(a.1, b.0, p, q);
}

/// Magnitude bound for the dot product of bounded vectors.
pub proof fn lemma_dot_bound(a: (int, int, int), b: (int, int, int), p: int, q: int)
    requires
        bounded3(a, p),
        bounded3(b, q),
    ensures
        -(3 * (p * q)) <= dot3(a, b) <= 3 * (p * q),
{
    lemma_mul_bound(a.0, b.0, p, q);
    lemma_mul_bound(a.1, b.1, p, q);
    lemma_mul_bound(a.2, b.2, p, q);
}

/// Truncating division shrinks magnitude: `|a| <= k * b` gives `|a / b| <= k`.
pub proof fn lemma_sdiv_bound(a: int, b: int, k: int)
    requires
        b >= 1,
        k >= 0,
        -(k * b) <= a <= k * b,
    ensures
        -k <= sdiv(a, b) <= k,
{
    if a >= 0 {
        assert(a / b <= k) by (nonlinear_arith)
            requires
                b >= 1,
                0 <= a <= k * b,
        {
        }
        assert(a / b >= 0) by (nonlinear_arith)
            requires
                b >= 1,
                a >= 0,
        {
        }
    } else {
        let m = -a;
        assert(m / b <= k) by (nonlinear_arith)
            requires
                b >= 1,
                0 <= m <= k * b,
        {
        }
        assert(m / b >= 0) by (nonlinear_arith)
            requires
                b >= 1,
                m >= 0,
        {
        }
    }
}


/// Distributing a cross product over an added scaled vector.
pub proof fn lemma_cross_add_scale_right(e: (int, int, int), u: (int, int, int), v: (int, int, int), c: int)
    ensures
        cross3(e, add3(u, scale3(c, v))) == add3(cross3(e, u), scale3(c, cross3(e, v))),
{
    let x0 = e.0;
    let x1 = e.1;
    let x2 = e.2;
    let u0 = u.0;
    let u1 = u.1;
    let u2 = u.2;
    let v0 = v.0;
    let v1 = v.1;
    let v2 = v.2;
    assert(x1 * (u2 + c * v2) - x2 * (u1 + c * v1) == (x1 * u2 - x2 * u1) + c * (x1 * v2 - x2
        * v1)) by (nonlinear_arith) {}
    assert(x2 * (u0 + c * v0) - x0 * (u2 + c * v2) == (x2 * u0 - x0 * u2) + c * (x2 * v0 - x0
        * v2)) by (nonlinear_arith) {}
    assert(x0 * (u1 + c * v1) - x1 * (u0 + c * v0) == (x0 * u1 - x1 * u0) + c * (x0 * v1 - x1
        * v0)) by (nonlinear_arith) {}
}

/// Pulling a scalar out of the second argument of a cross product.
pub proof fn lemma_cross_scale_right(e: (int, int, int), c: int, u: (int, int, int))
    ensures
        cross3(e, scale3(c, u)) == scale3(c, cross3(e, u)),
{
    let x0 = e.0;
    let x1 = e.1;
    let x2 = e.2;
    let u0 = u.0;
    let u1 = u.1;
    let u2 = u.2;
    assert(x1 * (c * u2) - x2 * (c * u1) == c * (x1 * u2 - x2 * u1)) by (nonlinear_arith) {}
    assert(x2 * (c * u0) - x0 * (c * u2) == c * (x2 * u0 - x0 * u2)) by (nonlinear_arith) {}
    assert(x0 * (c * u1) - x1 * (c * u0) == c * (x0 * u1 - x1 * u0)) by (nonlinear_arith) {}
}

/// Distributing a dot product over an added scaled vector.
#[verifier::rlimit(50)]
pub proof fn lemma_dot_add_scale_right(n: (int, int, int), u: (int, int, int), v: (int, int, int), c: int)
    ensures
        dot3(n, add3(u, scale3(c, v))) == dot3(n, u) + c * dot3(n, v),
{
    let n0 = n.0;
    let n1 = n.1;
    let n2 = n.2;
    let u0 = u.0;
    let u1 = u.1;
    let u2 = u.2;
    let v0 = v.0;
    let v1 = v.1;
    let v2 = v.2;
    assert(n0 * (u0 + c * v0) == n0 * u0 + c * (n0 * v0)) by (nonlinear_arith) {}
    assert(n1 * (u1 + c * v1) == n1 * u1 + c * (n1 * v1)) by (nonlinear_arith) {}
    assert(n2 * (u2 + c * v2) == n2 * u2 + c * (n2 * v2)) by (nonlinear_arith) {}
    assert(c * (n0 * v0) + c * (n1 * v1) + c * (n2 * v2) == c * ((n0 * v0) + (n1 * v1) + (n2
        * v2))) by (nonlinear_arith) {}
}

/// Pulling a scalar out of the second argument of a dot product.
#[verifier::rlimit(50)]
pub proof fn lemma_dot_scale_right(n: (int, int, int), c: int, u: (int, int, int))
    ensures
        dot3(n, scale3(c, u)) == c * dot3(n, u),
{
    let n0 = n.0;
    let n1 = n.1;
    let n2 = n.2;
    let u0 = u.0;
    let u1 = u.1;
    let u2 = u.2;
    assert(n0 * (c * u0) == c * (n0 * u0)) by (nonlinear_arith) {}
    assert(n1 * (c * u1) == c * (n1 * u1)) by (nonlinear_arith) {}
    assert(n2 * (c * u2) == c * (n2 * u2)) by (nonlinear_arith) {}
    assert(c * (n0 * u0) + c * (n1 * u1) + c * (n2 * u2) == c * ((n0 * u0) + (n1 * u1) + (n2
        * u2))) by (nonlinear_arith) {}
}

/// A cross product is orthogonal to its second argument.
pub proof fn lemma_dot_cross_cancel(n: (int, int, int), e: (int, int, int))
    ensures
        dot3(n, cross3(e, n)) == 0,
{
    let n0 = n.0;
    let n1 = n.1;
    let n2 = n.2;
    let x0 = e.0;
    let x1 = e.1;
    let x2 = e.2;
    assert(n0 * (x1 * n2 - x2 * n1) + n1 * (x2 * n0 - x0 * n2) + n2 * (x0 * n1 - x1 * n0) == 0)
        by (nonlinear_arith) {}
}

/// A vector crossed with itself vanishes.
pub proof fn lemma_cross_self(e: (int, int, int))
    ensures
        cross3(e, e) == ((0int, 0int, 0int)),
{
    let x0 = e.0;
    let x1 = e.1;
    let x2 = e.2;
    assert(x1 * x2 - x2 * x1 == 0) by (nonlinear_arith) {}
    assert(x2 * x0 - x0 * x2 == 0) by (nonlinear_arith) {}
    assert(x0 * x1 - x1 * x0 == 0) by (nonlinear_arith) {}
}

/// Componentwise form of [`lemma_sdiv_bound`].
pub proof fn lemma_sdiv3_bound(a: (int, int, int), d: int, k: int)
    requires
        d >= 1,
        k >= 0,
        bounded3(a, k * d),
    ensures
        bounded3(sdiv3(a, d), k),
{
    lemma_sdiv_bound(a.0, d, k);
    lemma_sdiv_bound(a.1, d, k);
    lemma_sdiv_bound(a.2, d, k);
}

impl Vec3 {
    pub fn new(x: i64, y: i64, z: i64) -> (v: Vec3)
        ensures
            v == (Vec3 { x, y, z }),
    {
        Vec3 { x, y, z }
    }

    /// Componentwise difference.
    pub fn sub(self, o: Vec3) -> (r: Vec3)
        requires
            bounded3(self@, 0x3fff_ffff_ffff_ffff),
            bounded3(o@, 0x3fff_ffff_ffff_ffff),
        ensures
            r@ == sub3(self@, o@),
    {
        Vec3 { x: self.x - o.x, y: self.y - o.y, z: self.z - o.z }
    }

    /// Componentwise negation.
    pub fn neg(self) -> (r: Vec3)
        requires
            bounded3(self@, 0x3fff_ffff_ffff_ffff),
        ensures
            r@ == neg3(self@),
    {
        Vec3 { x: -self.x, y: -self.y, z: -self.z }
    }

    /// Dot product of small vectors (components within [`SMALL_BOUND`]).
    pub fn dot_small(self, o: Vec3) -> (r: i64)
        requires
            bounded3(self@, SMALL_BOUND as int),
            bounded3(o@, SMALL_BOUND as int),
        ensures
            r as int == dot3(self@, o@),
    {
        proof {
            lemma_mul_bound(self@.0, o@.0, SMALL_BOUND as int, SMALL_BOUND as int);
            lemma_mul_bound(self@.1, o@.1, SMALL_BOUND as int, SMALL_BOUND as int);
            lemma_mul_bound(self@.2, o@.2, SMALL_BOUND as int, SMALL_BOUND as int);
        }
        self.x * o.x + self.y * o.y + self.z * o.z
    }

    /// Cross product of small vectors, rescaled back to raw units: the exact
    /// componentwise quotient `cross(self, o) / SCALE`, truncated toward zero.
    pub fn cross_scaled(self, o: Vec3) -> (r: Vec3)
        requires
            bounded3(self@, SMALL_BOUND as int),
            bounded3(o@, SMALL_BOUND as int),
        ensures
            r@ == sdiv3(cross3(self@, o@), SCALE as int),
    {
        proof {
            let b = SMALL_BOUND as int;
            lemma_mul_bound(self@.1, o@.2, b, b);
            lemma_mul_bound(self@.2, o@.1, b, b);
            lemma_mul_bound(self@.2, o@.0, b, b);
            lemma_mul_bound(self@.0, o@.2, b, b);
            lemma_mul_bound(self@.0, o@.1, b, b);
            lemma_mul_bound(self@.1, o@.0, b, b);
        }
        let cx: i64 = self.y * o.z - self.z * o.y;
        let cy: i64 = self.z * o.x - self.x * o.z;
        let cz: i64 = self.x * o.y - self.y * o.x;
        Vec3 { x: div_trunc(cx, SCALE), y: div_trunc(cy, SCALE), z: div_trunc(cz, SCALE) }
    }

    /// Rescales the vector to length [`SCALE`] (one world unit), rounding each
    /// component toward zero; the zero vector stays zero.
    pub fn normalize(self) -> (r: Vec3)
        requires
            bounded3(self@, NORMALIZE_BOUND as int),
        ensures
            r@ == spec_normalize(self@),
            bounded3(r@, SCALE as int),
    {
        proof {
            lemma_mul_bound(self@.0, self@.0, NORMALIZE_BOUND as int, NORMALIZE_BOUND as int);
            lemma_mul_bound(self@.1, self@.1, NORMALIZE_BOUND as int, NORMALIZE_BOUND as int);
            lemma_mul_bound(self@.2, self@.2, NORMALIZE_BOUND as int, NORMALIZE_BOUND as int);
            assert(self@.0 * self@.0 >= 0) by (nonlinear_arith) {}
            assert(self@.1 * self@.1 >= 0) by (nonlinear_arith) {}
            assert(self@.2 * self@.2 >= 0) by (nonlinear_arith) {}
        }
        let n2: u64 = (self.x * self.x) as u64 + (self.y * self.y) as u64 + (self.z * self.z)
            as u64;
        if n2 == 0 {
            proof {
                assert(self@.0 == 0 && self@.1 == 0 && self@.2 == 0) by (nonlinear_arith)
                    requires
                        self@.0 * self@.0 + self@.1 * self@.1 + self@.2 * self@.2 == 0,
                {
                }
            }
            Vec3 { x: 0, y: 0, z: 0 }
        } else {
            let m: u64 = isqrt(n2);
            proof {
                lemma_sqrt_floor(n2 as nat);
                assert(m >= 1) by (nonlinear_arith)
                    requires
                        n2 >= 1,
                        (n2 as nat) < (m as nat + 1) * (m as nat + 1),
                {
                }
                assert(m as nat <= 0xffff_ffff) by (nonlinear_arith)
                    requires
                        (m as nat) * (m as nat) <= n2 as nat,
                        n2 <= 0xffff_ffff_ffff_ffff,
                {
                }
                lemma_component_le_sqrt(self@, n2 as nat);
                lemma_mul_bound(self@.0, SCALE as int, NORMALIZE_BOUND as int, SCALE as int);
                lemma_mul_bound(self@.1, SCALE as int, NORMALIZE_BOUND as int, SCALE as int);
                lemma_mul_bound(self@.2, SCALE as int, NORMALIZE_BOUND as int, SCALE as int);
                lemma_mul_bound(self@.0, SCALE as int, m as int, SCALE as int);
                lemma_mul_bound(self@.1, SCALE as int, m as int, SCALE as int);
                lemma_mul_bound(self@.2, SCALE as int, m as int, SCALE as int);
                lemma_sdiv_bound(self@.0 * SCALE, m as int, SCALE as int);
                lemma_sdiv_bound(self@.1 * SCALE, m as int, SCALE as int);
                lemma_sdiv_bound(self@.2 * SCALE, m as int, SCALE as int);
            }
            Vec3 {
                x: div_trunc(self.x * SCALE, m as i64),
                y: div_trunc(self.y * SCALE, m as i64),
                z: div_trunc(self.z * SCALE, m as i64),
            }
        }
    }

    /// Cross product of small vectors, in raw product units (not rescaled).
    pub fn cross_small(self, o: Vec3) -> (r: Vec3)
        requires
            bounded3(self@, SMALL_BOUND as int),
            bounded3(o@, SMALL_BOUND as int),
        ensures
            r@ == cross3(self@, o@),
    {
        proof {
            let b = SMALL_BOUND as int;
            lemma_mul_bound(self@.1, o@.2, b, b);
            lemma_mul_bound(self@.2, o@.1, b, b);
            lemma_mul_bound(self@.2, o@.0, b, b);
            lemma_mul_bound(self@.0, o@.2, b, b);
            lemma_mul_bound(self@.0, o@.1, b, b);
            lemma_mul_bound(self@.1, o@.0, b, b);
        }
        Vec3 {
            x: self.y * o.z - self.z * o.y,
            y: self.z * o.x - self.x * o.z,
            z: self.x * o.y - self.y * o.x,
        }
    }
}

/// What [`Vec3::normalize`] computes, stated over mathematical integers.
pub open spec fn spec_normalize(a: (int, int, int)) -> (int, int, int) {
    let n2 = dot3(a, a);
    if n2 == 0 {
        (0, 0, 0)
    } else {
        sdiv3(scale3(SCALE as int, a), sqrt_floor(n2 as nat) as int)
    }
}

/// Each component of a vector is bounded by the integer square root of the
/// vector's squared length.
proof fn lemma_component_le_sqrt(a: (int, int, int), n2: nat)
    requires
        n2 == dot3(a, a),
    ensures
        -(sqrt_floor(n2) as int) <= a.0 <= sqrt_floor(n2) as int,
        -(sqrt_floor(n2) as int) <= a.1 <= sqrt_floor(n2) as int,
        -(sqrt_floor(n2) as int) <= a.2 <= sqrt_floor(n2) as int,
{
    lemma_sqrt_floor(n2);
    let s = sqrt_floor(n2) as int;
    assert(-s <= a.0 <= s && -s <= a.1 <= s && -s <= a.2 <= s) by (nonlinear_arith)
        requires
            a.0 * a.0 + a.1 * a.1 + a.2 * a.2 == n2,
            n2 < (s + 1) * (s + 1),
            s >= 0,
    {
    }
}


/// A vector pushed through the rotation rows of the view transform: each
/// component is the dot product with one row, rescaled back to raw units.
pub open spec fn spec_transform(
    rx: (int, int, int),
    ry: (int, int, int),
    rz: (int, int, int),
    v: (int, int, int),
) -> (int, int, int) {
    (
        sdiv(dot3(rx, v), SCALE as int),
        sdiv(dot3(ry, v), SCALE as int),
        sdiv(dot3(rz, v), SCALE as int),
    )
}

/// Applies the rotation rows `rx, ry, rz` of a view transform to `v`.
pub fn transform_vector(rx: Vec3, ry: Vec3, rz: Vec3, v: Vec3) -> (r: Vec3)
    requires
        bounded3(rx@, SMALL_BOUND as int),
        bounded3(ry@, SMALL_BOUND as int),
        bounded3(rz@, SMALL_BOUND as int),
        bounded3(v@, SMALL_BOUND as int),
    ensures
        r@ == spec_transform(rx@, ry@, rz@, v@),
{
    proof {
        lemma_dot_bound(rx@, v@, SMALL_BOUND as int, SMALL_BOUND as int);
        lemma_dot_bound(ry@, v@, SMALL_BOUND as int, SMALL_BOUND as int);
        lemma_dot_bound(rz@, v@, SMALL_BOUND as int, SMALL_BOUND as int);
    }
    Vec3 {
        x: div_trunc(rx.dot_small(v), SCALE),
        y: div_trunc(ry.dot_small(v), SCALE),
        z: div_trunc(rz.dot_small(v), SCALE),
    }
}

/// Machine division truncating toward zero, for a positive divisor.
pub fn div_trunc(a: i64, b: i64) -> (r: i64)
    requires
        b > 0,
        a > i64::MIN,
    ensures
        r as int == sdiv(a as int, b as int),
{
    if a >= 0 {
        let q: u64 = (a as u64) / (b as u64);
        q as i64
    } else {
        let m: u64 = (-a) as u64;
        let q: u64 = m / (b as u64);
        proof {
            assert(m / (b as u64) <= m) by (nonlinear_arith)
                requires
                    b as u64 >= 1,
            {
            }
        }
        -(q as i64)
    }
}

/// Machine division truncating toward zero on wide intermediates.
pub fn div_trunc_wide(a: i128, b: i128) -> (r: i128)
    requires
        b > 0,
        a > i128::MIN,
    ensures
        r as int == sdiv(a as int, b as int),
{
    if a >= 0 {
        let q: u128 = (a as u128) / (b as u128);
        q as i128
    } else {
        let m: u128 = (-a) as u128;
        let q: u128 = m / (b as u128);
        proof {
            assert(m / (b as u128) <= m) by (nonlinear_arith)
                requires
                    b as u128 >= 1,
            {
            }
        }
        -(q as i128)
    }
}

/// The integer square root of `n`.
pub fn isqrt(n: u64) -> (r: u64)
    ensures
        r as nat == sqrt_floor(n as nat),
{
    let mut r: u64 = 0;
    loop
        invariant
            r as nat * r as nat <= n as nat,
            r <= 0xffff_ffff,
        decreases 0x1_0000_0000 - r,
    {
        proof {
            lemma_mul_bound(r as int + 1, r as int + 1, 0x1_0000_0000, 0x1_0000_0000);
        }
        let next: u128 = (r as u128 + 1) * (r as u128 + 1);
        if next <= n as u128 {
            proof {
                assert((r as nat + 1) * (r as nat + 1) <= n as nat ==> r as nat + 1
                    <= 0xffff_ffff) by (nonlinear_arith)
                    requires
                        n <= u64::MAX,
                {
                }
            }
            r = r + 1;
        } else {
            proof {
                lemma_sqrt_floor(n as nat);
                lemma_sqrt_unique(n as nat, r as nat, sqrt_floor(n as nat));
            }
            return r;
        }
    }
}

} // verus!
