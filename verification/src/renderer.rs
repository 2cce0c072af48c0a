//! The camera and the per-frame renderer.
//!
//! Each frame the renderer derives a view basis from the camera, then walks
//! the raster row-major, recomputing the exact ray direction per pixel (no
//! incremental accumulation, so no drift across a row), tests the ray against
//! every model in list order, and paints the pixel by the any-hit union rule:
//! a pixel is white exactly when some model reports a hit.

use vstd::prelude::*;

use crate::fixed::{
    add3, bounded3, cross3, div_trunc, dot3, lemma_cross_bound, lemma_dot_bound,
    lemma_sdiv3_bound, lemma_sdiv_bound,
    lemma_mul_bound, neg3, sdiv, sdiv3, spec_normalize, spec_transform, sub3, transform_vector,
    Vec3, COORD_BOUND, DIR_BOUND, SCALE,
};
use crate::model::{spec_model_hit, RawModel, Ray};
use crate::Pixel;

verus! {

/// Largest raster extent (width or height) the renderer accepts; keeps the
/// per-pixel screen-offset arithmetic inside `i64`.
pub const RASTER_MAX: usize = 1000000;

/// Eye position and look-at target; the view basis is derived per frame from
/// these and the fixed world-up axis `(0, 1, 0)`.
#[derive(Clone, Copy, Debug)]
pub struct Camera {
    position: Vec3,
    to: Vec3,
}

impl Camera {
    pub fn new(position: Vec3, to: Vec3) -> (c: Camera)
        ensures
            c.spec_position() == position,
            c.spec_to() == to,
    {
        Camera { position, to }
    }

    /// The eye position.
    pub closed spec fn spec_position(self) -> Vec3 {
        self.position
    }

    /// The look-at target.
    pub closed spec fn spec_to(self) -> Vec3 {
        self.to
    }

    /// Both camera points lie within the coordinate bound of the ray tests.
    pub open spec fn bounded(self) -> bool {
        &&& bounded3(self.spec_position()@, COORD_BOUND as int)
        &&& bounded3(self.spec_to()@, COORD_BOUND as int)
    }

    pub fn position(&self) -> (p: Vec3)
        ensures
            p == self.spec_position(),
    {
        self.position
    }

    pub fn to(&self) -> (p: Vec3)
        ensures
            p == self.spec_to(),
    {
        self.to
    }

    /// Runtime check of [`Self::bounded`] for unverified callers.
    pub fn is_bounded(&self) -> (ok: bool)
        ensures
            ok == self.bounded(),
    {
        -COORD_BOUND <= self.position.x && self.position.x <= COORD_BOUND && -COORD_BOUND
            <= self.position.y && self.position.y <= COORD_BOUND && -COORD_BOUND <= self.position.z
            && self.position.z <= COORD_BOUND && -COORD_BOUND <= self.to.x && self.to.x
            <= COORD_BOUND && -COORD_BOUND <= self.to.y && self.to.y <= COORD_BOUND && -COORD_BOUND
            <= self.to.z && self.to.z <= COORD_BOUND
    }
}

/// The unnormalized view direction, target minus eye.
pub open spec fn spec_camera_direction(c: Camera) -> (int, int, int) {
    sub3(c.spec_to()@, c.spec_position()@)
}

/// The view-space z row: the normalized vector from target toward the eye
/// (the reversed view direction).
pub open spec fn spec_zaxis(c: Camera) -> (int, int, int) {
    spec_normalize(neg3(spec_camera_direction(c)))
}

/// World up crossed with the z row, rescaled: the unnormalized right vector.
pub open spec fn spec_right(c: Camera) -> (int, int, int) {
    sdiv3(cross3((0, SCALE as int, 0), spec_zaxis(c)), SCALE as int)
}

/// The z row crossed with the right vector, rescaled: the up vector handed to
/// the look-at transform.
pub open spec fn spec_up(c: Camera) -> (int, int, int) {
    sdiv3(cross3(spec_zaxis(c), spec_right(c)), SCALE as int)
}

/// The view-space x row: the up vector crossed with the z row, normalized.
pub open spec fn spec_xaxis(c: Camera) -> (int, int, int) {
    spec_normalize(cross3(spec_up(c), spec_zaxis(c)))
}

/// The view-space y row: the z row crossed with the x row, rescaled.
pub open spec fn spec_yaxis(c: Camera) -> (int, int, int) {
    sdiv3(cross3(spec_zaxis(c), spec_xaxis(c)), SCALE as int)
}

/// The screen-space offset interpolated for raster coordinate `x` of `extent`
/// pixels: `1.0` at the left/top edge, stepping by `-2 / extent` per pixel.
pub open spec fn spec_screen(x: int, extent: int) -> int
    recommends
        extent >= 1,
{
    SCALE as int - sdiv(2 * x * (SCALE as int), extent)
}

/// The ray direction for pixel `(x, y)` of a `w` by `h` raster: the camera
/// direction plus the screen-space offset pushed through the view transform.
pub open spec fn spec_ray_dir(c: Camera, x: int, y: int, w: int, h: int) -> (int, int, int) {
    add3(
        spec_camera_direction(c),
        spec_transform(
            spec_xaxis(c),
            spec_yaxis(c),
            spec_zaxis(c),
            (spec_screen(x, w), spec_screen(y, h), 0),
        ),
    )
}

/// The any-hit union: pixel `(x, y)` is hit exactly when some model in the
/// list is hit by its ray.
pub open spec fn spec_pixel_hit(
    c: Camera,
    models: Seq<RawModel>,
    x: int,
    y: int,
    w: int,
    h: int,
) -> bool {
    exists|k: int|
        0 <= k < models.len() && spec_model_hit(
            #[trigger] models[k],
            c.spec_position()@,
            spec_ray_dir(c, x, y, w, h),
        )
}

/// The color painted at pixel `(x, y)`.
pub open spec fn spec_pixel_color(
    c: Camera,
    models: Seq<RawModel>,
    x: int,
    y: int,
    w: int,
    h: int,
) -> Pixel {
    if spec_pixel_hit(c, models, x, y, w, h) {
        Pixel::spec_white()
    } else {
        Pixel::spec_black()
    }
}

/// Derives the camera direction and the three view-basis rows, with the
/// component bounds the per-pixel arithmetic needs.
fn view_basis(camera: &Camera) -> (b: (Vec3, Vec3, Vec3, Vec3))
    requires
        camera.bounded(),
    ensures
        b.0@ == spec_camera_direction(*camera),
        b.1@ == spec_xaxis(*camera),
        b.2@ == spec_yaxis(*camera),
        b.3@ == spec_zaxis(*camera),
        bounded3(b.0@, 2 * COORD_BOUND as int),
        bounded3(b.1@, SCALE as int),
        bounded3(b.2@, 2 * SCALE as int),
        bounded3(b.3@, SCALE as int),
{
    let cd: Vec3 = camera.to.sub(camera.position);
    let z: Vec3 = cd.neg().normalize();
    let world_up = Vec3 { x: 0, y: SCALE, z: 0 };
    let r: Vec3 = world_up.cross_scaled(z);
    proof {
        lemma_cross_bound(world_up@, z@, SCALE as int, SCALE as int);
        lemma_sdiv3_bound(cross3(world_up@, z@), SCALE as int, 2 * SCALE as int);
    }
    let up: Vec3 = z.cross_scaled(r);
    proof {
        lemma_cross_bound(z@, r@, SCALE as int, 2 * SCALE as int);
        lemma_sdiv3_bound(cross3(z@, r@), SCALE as int, 4 * SCALE as int);
    }
    proof {
        lemma_cross_bound(up@, z@, 4 * SCALE as int, SCALE as int);
    }
    let xa: Vec3 = up.cross_small(z).normalize();
    let ya: Vec3 = z.cross_scaled(xa);
    proof {
        lemma_cross_bound(z@, xa@, SCALE as int, SCALE as int);
        lemma_sdiv3_bound(cross3(z@, xa@), SCALE as int, 2 * SCALE as int);
    }
    (cd, xa, ya, z)
}

/// Computes the exact fixed-point ray direction for pixel `(x, y)` from the
/// precomputed basis.
fn ray_direction(cd: Vec3, xa: Vec3, ya: Vec3, za: Vec3, x: usize, y: usize, w: usize, h: usize) -> (
    dir: Vec3)
    requires
        bounded3(cd@, 2 * COORD_BOUND as int),
        bounded3(xa@, SCALE as int),
        bounded3(ya@, 2 * SCALE as int),
        bounded3(za@, SCALE as int),
        x < w <= RASTER_MAX,
        y < h <= RASTER_MAX,
    ensures
        dir@ == add3(
            cd@,
            spec_transform(xa@, ya@, za@, (spec_screen(x as int, w as int), spec_screen(
                y as int,
                h as int,
            ), 0)),
        ),
        bounded3(dir@, DIR_BOUND as int),
{
    let sx: i64 = screen_offset(x, w);
    let sy: i64 = screen_offset(y, h);
    let sv = Vec3 { x: sx, y: sy, z: 0 };
    let tv: Vec3 = transform_vector(xa, ya, za, sv);
    proof {
        lemma_dot_bound(xa@, sv@, SCALE as int, SCALE as int);
        lemma_dot_bound(ya@, sv@, 2 * SCALE as int, SCALE as int);
        lemma_dot_bound(za@, sv@, SCALE as int, SCALE as int);
        lemma_sdiv_bound(dot3(xa@, sv@), SCALE as int, 3 * SCALE as int);
        lemma_sdiv_bound(dot3(ya@, sv@), SCALE as int, 6 * SCALE as int);
        lemma_sdiv_bound(dot3(za@, sv@), SCALE as int, 3 * SCALE as int);
    }
    Vec3 { x: cd.x + tv.x, y: cd.y + tv.y, z: cd.z + tv.z }
}

/// Computes [`spec_screen`] for one raster coordinate.
fn screen_offset(x: usize, extent: usize) -> (s: i64)
    requires
        x < extent <= RASTER_MAX,
    ensures
        s as int == spec_screen(x as int, extent as int),
        -SCALE <= s <= SCALE,
{
    let num: i64 = 2 * (x as i64) * SCALE;
    let q: i64 = div_trunc(num, extent as i64);
    proof {
        lemma_mul_bound(2 * (x as int), SCALE as int, 2 * (extent as int), SCALE as int);
        assert(2 * (x as int) * (SCALE as int) <= 2 * (SCALE as int) * (extent as int))
            by (nonlinear_arith)
            requires
                0 <= (x as int) < (extent as int),
        {
        }
        lemma_sdiv_bound(2 * (x as int) * (SCALE as int), extent as int, 2 * SCALE as int);
    }
    SCALE - q
}

/// The pixel of a row-major canvas of width `w` at raster cell `(x, y)`.
pub open spec fn pixel_at(canvas: Seq<Pixel>, w: int, x: int, y: int) -> Pixel
    recommends
        0 <= x < w,
        0 <= y,
        (y + 1) * w <= canvas.len(),
{
    canvas[y * w + x]
}

/// Owns the output raster: a dense row-major canvas of `width * height`
/// pixels, allocated once and overwritten in place by every render call.
pub struct Renderer {
    canvas: Vec<Pixel>,
    width: usize,
    height: usize,
}

impl Renderer {
    /// The canvas contents, row-major, top to bottom.
    pub closed spec fn spec_canvas(self) -> Seq<Pixel> {
        self.canvas@
    }

    pub closed spec fn spec_width(self) -> int {
        self.width as int
    }

    pub closed spec fn spec_height(self) -> int {
        self.height as int
    }

    /// The canvas always holds exactly one pixel per raster cell, and the
    /// raster extents stay within [`RASTER_MAX`].
    pub open spec fn wf(self) -> bool {
        &&& self.spec_canvas().len() == self.spec_width() * self.spec_height()
        &&& 0 <= self.spec_width() <= RASTER_MAX as int
        &&& 0 <= self.spec_height() <= RASTER_MAX as int
    }

    /// Allocates the canvas once, all black.
    pub fn new(width: usize, height: usize) -> (r: Renderer)
        requires
            width <= RASTER_MAX,
            height <= RASTER_MAX,
            width * height <= usize::MAX,
        ensures
            r.wf(),
            r.spec_width() == width as int,
            r.spec_height() == height as int,
            r.spec_canvas().len() == width * height,
            forall|i: int|
                0 <= i < r.spec_canvas().len() ==> r.spec_canvas()[i] == Pixel::spec_black(),
    {
        let n: usize = width * height;
        let mut canvas: Vec<Pixel> = Vec::new();
        let mut i: usize = 0;
        while i < n
            invariant
                i <= n,
                canvas@.len() == i,
                forall|j: int| 0 <= j < i ==> canvas@[j] == Pixel::spec_black(),
            decreases n - i,
        {
            canvas.push(Pixel::black());
            i = i + 1;
        }
        Renderer { canvas, width, height }
    }

    /// The current canvas, row-major, top to bottom.
    pub fn canvas(&self) -> (c: &[Pixel])
        ensures
            c@ == self.spec_canvas(),
    {
        self.canvas.as_slice()
    }

    pub fn width(&self) -> (w: usize)
        ensures
            w as int == self.spec_width(),
    {
        self.width
    }

    pub fn height(&self) -> (h: usize)
        ensures
            h as int == self.spec_height(),
    {
        self.height
    }

    /// Renders one frame: for every pixel of the raster, casts the pixel's
    /// ray against every model in list order and paints white exactly when
    /// some model reports a hit (the any-hit union), black otherwise. Every
    /// pixel is unconditionally overwritten; the canvas is reused, never
    /// reallocated.
    pub fn render(&mut self, camera: &Camera, models: &[RawModel])
        requires
            old(self).wf(),
            camera.bounded(),
            forall|m: int|
                0 <= m < models@.len() ==> (#[trigger] models@[m]).valid() && models@[m].bounded(),
        ensures
            final(self).wf(),
            final(self).spec_width() == old(self).spec_width(),
            final(self).spec_height() == old(self).spec_height(),
            final(self).spec_canvas().len() == old(self).spec_canvas().len(),
            forall|x: int, y: int|
                0 <= x < final(self).spec_width() && 0 <= y < final(self).spec_height()
                    ==> #[trigger] pixel_at(final(self).spec_canvas(), final(self).spec_width(), x, y)
                    == spec_pixel_color(
                    *camera,
                    models@,
                    x,
                    y,
                    final(self).spec_width(),
                    final(self).spec_height(),
                ),
    {
        let w: usize = self.width;
        let h: usize = self.height;
        let total: usize = self.canvas.len();
        proof {
            assert(total == w * h);
        }
        let basis: (Vec3, Vec3, Vec3, Vec3) = view_basis(camera);
        let cd: Vec3 = basis.0;
        let xa: Vec3 = basis.1;
        let ya: Vec3 = basis.2;
        let za: Vec3 = basis.3;
        let nm: usize = models.len();
        let mut y: usize = 0;
        while y < h
            invariant
                y <= h,
                w == self.width,
                h == self.height,
                self.canvas@.len() == w * h,
                w * h <= usize::MAX,
                w <= RASTER_MAX,
                h <= RASTER_MAX,
                camera.bounded(),
                nm == models@.len(),
                forall|m: int|
                    0 <= m < models@.len() ==> (#[trigger] models@[m]).valid()
                        && models@[m].bounded(),
                cd@ == spec_camera_direction(*camera),
                xa@ == spec_xaxis(*camera),
                ya@ == spec_yaxis(*camera),
                za@ == spec_zaxis(*camera),
                bounded3(cd@, 2 * COORD_BOUND as int),
                bounded3(xa@, SCALE as int),
                bounded3(ya@, 2 * SCALE as int),
                bounded3(za@, SCALE as int),
                forall|xx: int, yy: int|
                    0 <= xx < w as int && 0 <= yy < y as int ==> #[trigger] pixel_at(
                        self.canvas@,
                        w as int,
                        xx,
                        yy,
                    ) == spec_pixel_color(*camera, models@, xx, yy, w as int, h as int),
            decreases h - y,
        {
            let mut x: usize = 0;
            while x < w
                invariant
                    x <= w,
                    y < h,
                    w == self.width,
                    h == self.height,
                    self.canvas@.len() == w * h,
                    w * h <= usize::MAX,
                    w <= RASTER_MAX,
                    h <= RASTER_MAX,
                    camera.bounded(),
                    nm == models@.len(),
                    forall|m: int|
                        0 <= m < models@.len() ==> (#[trigger] models@[m]).valid()
                            && models@[m].bounded(),
                    cd@ == spec_camera_direction(*camera),
                    xa@ == spec_xaxis(*camera),
                    ya@ == spec_yaxis(*camera),
                    za@ == spec_zaxis(*camera),
                    bounded3(cd@, 2 * COORD_BOUND as int),
                    bounded3(xa@, SCALE as int),
                    bounded3(ya@, 2 * SCALE as int),
                    bounded3(za@, SCALE as int),
                    forall|xx: int, yy: int|
                        0 <= xx < w as int && 0 <= yy < y as int ==> #[trigger] pixel_at(
                            self.canvas@,
                            w as int,
                            xx,
                            yy,
                        ) == spec_pixel_color(*camera, models@, xx, yy, w as int, h as int),
                    forall|xx: int|
                        0 <= xx < x as int ==> #[trigger] pixel_at(
                            self.canvas@,
                            w as int,
                            xx,
                            y as int,
                        ) == spec_pixel_color(*camera, models@, xx, y as int, w as int, h as int),
                decreases w - x,
            {
                let dir: Vec3 = ray_direction(cd, xa, ya, za, x, y, w, h);
                proof {
                    assert(dir@ == spec_ray_dir(*camera, x as int, y as int, w as int, h as int));
                }
                let ray = Ray { start_position: camera.position, vector: dir };
                let mut hit: bool = false;
                let mut m: usize = 0;
                while m < nm
                    invariant
                        m <= nm,
                        nm == models@.len(),
                        forall|k: int|
                            0 <= k < models@.len() ==> (#[trigger] models@[k]).valid()
                                && models@[k].bounded(),
                        camera.bounded(),
                        bounded3(dir@, DIR_BOUND as int),
                        ray == (Ray { start_position: camera.spec_position(), vector: dir }),
                        hit == exists|k: int|
                            0 <= k < m as int && spec_model_hit(
                                #[trigger] models@[k],
                                camera.spec_position()@,
                                dir@,
                            ),
                    decreases nm - m,
                {
                    if models[m].intersect(&ray) {
                        hit = true;
                        proof {
                            assert(spec_model_hit(
                                models@[m as int],
                                camera.spec_position()@,
                                dir@,
                            ));
                        }
                    }
                    m = m + 1;
                }
                let px: Pixel = if hit {
                    Pixel::white()
                } else {
                    Pixel::black()
                };
                proof {
                    assert((y as int) * (w as int) + (x as int) < ((w as int) * (h as int)))
                        by (nonlinear_arith)
                        requires
                            0 <= (x as int) < (w as int),
                            0 <= (y as int) < (h as int),
                    {
                    }
                    assert(px == spec_pixel_color(
                        *camera,
                        models@,
                        x as int,
                        y as int,
                        w as int,
                        h as int,
                    ));
                }
                let idx: usize = y * w + x;
                let ghost prior = self.canvas@;
                self.canvas[idx] = px;
                proof {
                    assert forall|xx: int, yy: int|
                        0 <= xx < w as int && 0 <= yy < y as int implies #[trigger] pixel_at(
                        self.canvas@,
                        w as int,
                        xx,
                        yy,
                    ) == spec_pixel_color(*camera, models@, xx, yy, w as int, h as int) by {
                        assert(yy * (w as int) + xx < (y as int) * (w as int)) by (nonlinear_arith)
                            requires
                                0 <= xx < w as int,
                                0 <= yy,
                                yy + 1 <= y as int,
                        {
                        }
                        assert(pixel_at(self.canvas@, w as int, xx, yy) == pixel_at(
                            prior,
                            w as int,
                            xx,
                            yy,
                        ));
                    }
                    assert forall|xx: int| 0 <= xx < x as int + 1 implies #[trigger] pixel_at(
                        self.canvas@,
                        w as int,
                        xx,
                        y as int,
                    ) == spec_pixel_color(*camera, models@, xx, y as int, w as int, h as int) by {
                        if xx < x as int {
                            assert(pixel_at(self.canvas@, w as int, xx, y as int) == pixel_at(
                                prior,
                                w as int,
                                xx,
                                y as int,
                            ));
                        } else {
                            assert(pixel_at(self.canvas@, w as int, xx, y as int) == px);
                        }
                    }
                }
                x = x + 1;
            }
            y = y + 1;
        }
    }
}

/// Fills the canvas with a diagnostic gradient: blue rises with the column,
/// green with the row, red saturated.
pub fn make_cool(pixels: &mut Vec<Pixel>, width: usize, height: usize)
    requires
        old(pixels)@.len() == width * height,
        width <= RASTER_MAX,
        height <= RASTER_MAX,
    ensures
        final(pixels)@.len() == old(pixels)@.len(),
        forall|x: int, y: int|
            0 <= x < width as int && 0 <= y < height as int ==> #[trigger] pixel_at(
                final(pixels)@,
                width as int,
                x,
                y,
            ) == (Pixel {
                blue: (x * 255 / (width as int)) as u8,
                green: (y * 255 / (height as int)) as u8,
                red: 255,
            }),
{
    let total: usize = pixels.len();
    proof {
        assert(total == width * height);
    }
    let mut y: usize = 0;
    while y < height
        invariant
            y <= height,
            pixels@.len() == width * height,
            width * height <= usize::MAX,
            width <= RASTER_MAX,
            height <= RASTER_MAX,
            forall|xx: int, yy: int|
                0 <= xx < width as int && 0 <= yy < y as int ==> #[trigger] pixel_at(
                    pixels@,
                    width as int,
                    xx,
                    yy,
                ) == (Pixel {
                    blue: (xx * 255 / (width as int)) as u8,
                    green: (yy * 255 / (height as int)) as u8,
                    red: 255,
                }),
        decreases height - y,
    {
        let mut x: usize = 0;
        while x < width
            invariant
                x <= width,
                y < height,
                pixels@.len() == width * height,
                width * height <= usize::MAX,
                width <= RASTER_MAX,
                height <= RASTER_MAX,
                forall|xx: int, yy: int|
                    0 <= xx < width as int && 0 <= yy < y as int ==> #[trigger] pixel_at(
                        pixels@,
                        width as int,
                        xx,
                        yy,
                    ) == (Pixel {
                        blue: (xx * 255 / (width as int)) as u8,
                        green: (yy * 255 / (height as int)) as u8,
                        red: 255,
                    }),
                forall|xx: int|
                    0 <= xx < x as int ==> #[trigger] pixel_at(pixels@, width as int, xx, y as int)
                        == (Pixel {
                        blue: (xx * 255 / (width as int)) as u8,
                        green: ((y as int) * 255 / (height as int)) as u8,
                        red: 255,
                    }),
            decreases width - x,
        {
            proof {
                assert((y as int) * (width as int) + (x as int) < ((width as int) * (height
                    as int))) by (nonlinear_arith)
                    requires
                        0 <= (x as int) < (width as int),
                        0 <= (y as int) < (height as int),
                {
                }
                assert((x as int) * 255 / (width as int) <= 255) by (nonlinear_arith)
                    requires
                        0 <= (x as int) < (width as int),
                {
                }
                assert((y as int) * 255 / (height as int) <= 255) by (nonlinear_arith)
                    requires
                        0 <= (y as int) < (height as int),
                {
                }
            }
            let blue: u8 = ((x * 255) / width) as u8;
            let green: u8 = ((y * 255) / height) as u8;
            let px = Pixel { blue, green, red: 255 };
            let idx: usize = y * width + x;
            let ghost prior = pixels@;
            pixels[idx] = px;
            proof {
                assert forall|xx: int, yy: int|
                    0 <= xx < width as int && 0 <= yy < y as int implies #[trigger] pixel_at(
                    pixels@,
                    width as int,
                    xx,
                    yy,
                ) == (Pixel {
                    blue: (xx * 255 / (width as int)) as u8,
                    green: (yy * 255 / (height as int)) as u8,
                    red: 255,
                }) by {
                    assert(yy * (width as int) + xx < (y as int) * (width as int))
                        by (nonlinear_arith)
                        requires
                            0 <= xx < width as int,
                            0 <= yy,
                            yy + 1 <= y as int,
                    {
                    }
                    assert(pixel_at(pixels@, width as int, xx, yy) == pixel_at(
                        prior,
                        width as int,
                        xx,
                        yy,
                    ));
                }
                assert forall|xx: int| 0 <= xx < x as int + 1 implies #[trigger] pixel_at(
                    pixels@,
                    width as int,
                    xx,
                    y as int,
                ) == (Pixel {
                    blue: (xx * 255 / (width as int)) as u8,
                    green: ((y as int) * 255 / (height as int)) as u8,
                    red: 255,
                }) by {
                    if xx < x as int {
                        assert(pixel_at(pixels@, width as int, xx, y as int) == pixel_at(
                            prior,
                            width as int,
                            xx,
                            y as int,
                        ));
                    } else {
                        assert(pixel_at(pixels@, width as int, xx, y as int) == px);
                    }
                }
            }
            x = x + 1;
        }
        y = y + 1;
    }
}

/// Order symmetry of the any-hit union: with two models, swapping the list
/// order never changes a pixel's hit/miss result.
pub proof fn lemma_any_hit_order_symmetric(
    c: Camera,
    a: RawModel,
    b: RawModel,
    x: int,
    y: int,
    w: int,
    h: int,
)
    ensures
        spec_pixel_hit(c, seq![a, b], x, y, w, h) == spec_pixel_hit(c, seq![b, a], x, y, w, h),
{
    let dir = spec_ray_dir(c, x, y, w, h);
    let s1 = seq![a, b];
    let s2 = seq![b, a];
    if spec_pixel_hit(c, s1, x, y, w, h) {
        let k = choose|k: int|
            0 <= k < s1.len() && spec_model_hit(#[trigger] s1[k], c.spec_position()@, dir);
        if k == 0 {
            assert(s2[1] == a);
            assert(spec_model_hit(s2[1], c.spec_position()@, dir));
        } else {
            assert(s2[0] == b);
            assert(spec_model_hit(s2[0], c.spec_position()@, dir));
        }
    }
    if spec_pixel_hit(c, s2, x, y, w, h) {
        let k = choose|k: int|
            0 <= k < s2.len() && spec_model_hit(#[trigger] s2[k], c.spec_position()@, dir);
        if k == 0 {
            assert(s1[1] == b);
            assert(spec_model_hit(s1[1], c.spec_position()@, dir));
        } else {
            assert(s1[0] == a);
            assert(spec_model_hit(s1[0], c.spec_position()@, dir));
        }
    }
}

} // verus!
