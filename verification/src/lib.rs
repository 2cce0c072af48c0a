//! A minimal software ray-caster over fixed-point coordinates.
//!
//! Scene points live in an append-only vertex pool ([`storage::VecStorage`]),
//! triangles reference the pool through stable handles, and a renderer walks a
//! raster casting one ray per pixel against every model, painting a binary
//! hit/miss image. All geometry uses exact fixed-point integer arithmetic
//! (see [`fixed`]), so every hit/miss decision is proved against a
//! mathematical specification of the intersection rule.

use vstd::prelude::*;

pub mod fixed;
pub mod model;
pub mod renderer;
pub mod storage;

pub use model::{RawModel, Ray, Triangle};
pub use renderer::{Camera, Renderer};

verus! {

/// A canvas pixel: blue, green, red byte channels in that order, no alpha.
#[derive(Clone, Copy, Debug, PartialEq, Eq, Structural)]
pub struct Pixel {
    pub blue: u8,
    pub green: u8,
    pub red: u8,
}

impl Pixel {
    /// The color painted for a pixel whose ray hits some model.
    pub open spec fn spec_white() -> Pixel {
        Pixel { blue: 255, green: 255, red: 255 }
    }

    /// The color painted for a pixel whose ray misses every model.
    pub open spec fn spec_black() -> Pixel {
        Pixel { blue: 0, green: 0, red: 0 }
    }

    pub fn new(blue: u8, green: u8, red: u8) -> (p: Pixel)
        ensures
            p == (Pixel { blue, green, red }),
    {
        Pixel { blue, green, red }
    }

    pub fn white() -> (p: Pixel)
        ensures
            p == Pixel::spec_white(),
    {
        Pixel { blue: 255, green: 255, red: 255 }
    }

    pub fn black() -> (p: Pixel)
        ensures
            p == Pixel::spec_black(),
    {
        Pixel { blue: 0, green: 0, red: 0 }
    }
}

/// What [`trilinear_interpolation`] computes on each axis: the fixed-point
/// blend `(a * (SCALE - t) + b * t) / SCALE`, truncated toward zero.
pub open spec fn spec_lerp(t: int, a: int, b: int) -> int {
    crate::fixed::sdiv(a * (fixed::SCALE as int - t) + b * t, fixed::SCALE as int)
}

/// Blends two corner points axis by axis: the x axis by `tx`, the y axis by
/// `ty`, the z axis by `tz`, each parameter a fixed-point fraction of
/// [`fixed::SCALE`] (0 picks the first corner, `SCALE` the second).
pub fn trilinear_interpolation(
    tx: i64,
    ty: i64,
    tz: i64,
    c0: &fixed::Vec3,
    c1: &fixed::Vec3,
) -> (r: fixed::Vec3)
    requires
        0 <= tx <= fixed::SCALE,
        0 <= ty <= fixed::SCALE,
        0 <= tz <= fixed::SCALE,
        fixed::bounded3(c0@, fixed::COORD_BOUND as int),
        fixed::bounded3(c1@, fixed::COORD_BOUND as int),
    ensures
        r@ == (spec_lerp(tx as int, c0@.0, c1@.0), spec_lerp(ty as int, c0@.1, c1@.1), spec_lerp(
            tz as int,
            c0@.2,
            c1@.2,
        )),
{
    proof {
        let cb = fixed::COORD_BOUND as int;
        let sc = fixed::SCALE as int;
        fixed::lemma_mul_bound(c0@.0, sc - tx, cb, sc);
        fixed::lemma_mul_bound(c1@.0, tx as int, cb, sc);
        fixed::lemma_mul_bound(c0@.1, sc - ty, cb, sc);
        fixed::lemma_mul_bound(c1@.1, ty as int, cb, sc);
        fixed::lemma_mul_bound(c0@.2, sc - tz, cb, sc);
        fixed::lemma_mul_bound(c1@.2, tz as int, cb, sc);
    }
    let x: i64 = fixed::div_trunc(c0.x * (fixed::SCALE - tx) + c1.x * tx, fixed::SCALE);
    let y: i64 = fixed::div_trunc(c0.y * (fixed::SCALE - ty) + c1.y * ty, fixed::SCALE);
    let z: i64 = fixed::div_trunc(c0.z * (fixed::SCALE - tz) + c1.z * tz, fixed::SCALE);
    fixed::Vec3 { x, y, z }
}

} // verus!
