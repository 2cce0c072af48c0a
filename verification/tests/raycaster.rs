use some_graphics::fixed::{Vec3, SCALE};
use some_graphics::model::intersect_triangle;
use some_graphics::renderer::make_cool;
use some_graphics::storage::{Point3ID, VecStorage};
use some_graphics::{Camera, Pixel, RawModel, Ray, Renderer, Triangle};

fn demo_vertices() -> Vec<Vec3> {
    // The triangle (1, -0.3, -0.3), (1, 0.3, 0), (1, -0.3, 0.3) in raw units.
    vec![
        Vec3::new(1000, -300, -300),
        Vec3::new(1000, 300, 0),
        Vec3::new(1000, -300, 300),
    ]
}

fn demo_model() -> RawModel {
    RawModel::new(
        demo_vertices(),
        vec![Triangle::new([Point3ID(0), Point3ID(1), Point3ID(2)])],
    )
}

fn is_white(p: &Pixel) -> bool {
    p.blue == 255 && p.green == 255 && p.red == 255
}

fn is_black(p: &Pixel) -> bool {
    p.blue == 0 && p.green == 0 && p.red == 0
}

#[test]
fn store_get_round_trip() {
    let mut s = VecStorage::new();
    let p0 = Vec3::new(1, -2, 3);
    let p1 = Vec3::new(-32768, 32768, 0);
    let id0 = s.store(p0);
    let id1 = s.store(p1);
    assert_eq!(id0, Point3ID(0));
    assert_eq!(id1, Point3ID(1));
    assert_eq!(s.get(id0), Some(p0));
    assert_eq!(s.get(id1), Some(p1));
    assert_eq!(s.get_unchecked(id0), p0);
    assert_eq!(s.len(), 2);
}

#[test]
fn get_out_of_bounds_returns_none() {
    let mut s = VecStorage::from_vec(vec![Vec3::new(5, 6, 7)]);
    assert_eq!(s.get(Point3ID(1)), None);
    assert_eq!(s.get(Point3ID(usize::MAX)), None);
    assert!(!s.set(Point3ID(1), Vec3::new(0, 0, 0)));
    assert_eq!(s.get(Point3ID(0)), Some(Vec3::new(5, 6, 7)));
}

#[test]
fn set_replaces_points() {
    let mut s = VecStorage::with_capacity(4);
    assert_eq!(s.len(), 0);
    let id = s.store(Vec3::new(1, 1, 1));
    assert!(s.set(id, Vec3::new(9, 8, 7)));
    assert_eq!(s.get(id), Some(Vec3::new(9, 8, 7)));
    s.set_unchecked(id, Vec3::new(-1, -2, -3));
    assert_eq!(s.get_unchecked(id), Vec3::new(-1, -2, -3));
}

#[test]
fn front_face_hit_and_reversed_miss() {
    let model = demo_model();
    // Along the inward normal (+x here), through the triangle's interior.
    let hit_ray = Ray::new(Vec3::new(0, 0, 0), Vec3::new(1000, 0, 0));
    assert!(model.intersect(&hit_ray));
    // The same ray reversed points away from the front face: no hit.
    let away_ray = Ray::new(Vec3::new(0, 0, 0), Vec3::new(-1000, 0, 0));
    assert!(!model.intersect(&away_ray));
}

#[test]
fn parallel_direction_misses() {
    let model = demo_model();
    // The triangle's normal is along x; a direction orthogonal to it
    // (denominator exactly zero) never intersects.
    let ray = Ray::new(Vec3::new(0, 0, 0), Vec3::new(0, 1000, 0));
    assert!(!model.intersect(&ray));
    let ray2 = Ray::new(Vec3::new(0, 0, 0), Vec3::new(0, 0, 1000));
    assert!(!model.intersect(&ray2));
}

#[test]
fn outside_edge_misses() {
    let model = demo_model();
    // Front-facing but passing outside the triangle's edges.
    let ray = Ray::new(Vec3::new(0, 0, 0), Vec3::new(1000, 500, 0));
    assert!(!model.intersect(&ray));
}

#[test]
fn intersect_triangle_direct() {
    let storage = VecStorage::from_vec(demo_vertices());
    let tri = Triangle::new([Point3ID(0), Point3ID(1), Point3ID(2)]);
    let hit = Ray::new(Vec3::new(0, 0, 0), Vec3::new(1000, 0, 0));
    assert!(intersect_triangle(&tri, &storage, &hit));
    // Reversed winding flips the normal: the same ray now sees a back face.
    let flipped = Triangle::new([Point3ID(0), Point3ID(2), Point3ID(1)]);
    assert!(!intersect_triangle(&flipped, &storage, &hit));
}

#[test]
fn update_all_round_trip() {
    let mut model = demo_model();
    let before: Vec<Vec3> = demo_vertices();
    model.update_all(|p: Vec3| Vec3::new(p.x + 10, p.y, p.z));
    let moved_ray = Ray::new(Vec3::new(0, 0, 0), Vec3::new(1000, 0, 0));
    assert!(model.intersect(&moved_ray));
    model.update_all(|p: Vec3| Vec3::new(p.x - 10, p.y, p.z));
    // The original point set is restored exactly.
    let mut s = VecStorage::from_vec(before.clone());
    s.update_all(|p: Vec3| Vec3::new(p.x + 10, p.y - 7, p.z));
    s.update_all(|p: Vec3| Vec3::new(p.x - 10, p.y + 7, p.z));
    for (i, p) in before.iter().enumerate() {
        assert_eq!(s.get(Point3ID(i)), Some(*p));
    }
}

#[test]
fn model_construction_derives_center_and_forward() {
    let model = demo_model();
    // Centroid of the three vertices, truncated toward zero.
    assert_eq!(model.center(), Vec3::new(1000, -100, 0));
    // The fixed forward vector is one world unit along z.
    assert_eq!(model.forward(), Vec3::new(0, 0, SCALE));
    assert!(model.is_render_ready());
}

#[test]
fn render_ready_rejects_out_of_bound_points() {
    let mut model = demo_model();
    assert!(model.is_render_ready());
    // Push a coordinate past the bound the ray tests need.
    model.update_all(|p: Vec3| Vec3::new(p.x + 50000, p.y, p.z));
    assert!(!model.is_render_ready());
    model.update_all(|p: Vec3| Vec3::new(p.x - 50000, p.y, p.z));
    assert!(model.is_render_ready());
}

#[test]
fn renderer_allocates_black_canvas() {
    let r = Renderer::new(16, 8);
    assert_eq!(r.width(), 16);
    assert_eq!(r.height(), 8);
    assert_eq!(r.canvas().len(), 128);
    assert!(r.canvas().iter().all(is_black));
}

#[test]
fn end_to_end_center_region() {
    let mut renderer = Renderer::new(512, 512);
    let camera = Camera::new(Vec3::new(0, 0, 0), Vec3::new(1000, 0, 0));
    let models = vec![demo_model()];
    renderer.render(&camera, &models);
    let canvas = renderer.canvas();
    let w = 512usize;
    let h = 512usize;
    // The canvas center is hit.
    assert!(is_white(&canvas[256 * w + 256]));
    // The whole border is miss.
    for x in 0..w {
        assert!(is_black(&canvas[x]));
        assert!(is_black(&canvas[(h - 1) * w + x]));
    }
    for y in 0..h {
        assert!(is_black(&canvas[y * w]));
        assert!(is_black(&canvas[y * w + (w - 1)]));
    }
    // Every pixel is exactly white or black.
    assert!(canvas.iter().all(|p| is_white(p) || is_black(p)));
    // Per row, the hit pixels form one contiguous run; rows with hits form
    // one contiguous band, and everything stays in the central half.
    let mut rows_with_hits: Vec<usize> = Vec::new();
    for y in 0..h {
        let hits: Vec<usize> =
            (0..w).filter(|&x| is_white(&canvas[y * w + x])).collect();
        if !hits.is_empty() {
            let lo = hits[0];
            let hi = hits[hits.len() - 1];
            assert_eq!(hits.len(), hi - lo + 1, "row {} not contiguous", y);
            assert!(lo >= 128 && hi < 384, "row {} outside central region", y);
            rows_with_hits.push(y);
        }
    }
    assert!(!rows_with_hits.is_empty());
    let first = rows_with_hits[0];
    let last = rows_with_hits[rows_with_hits.len() - 1];
    assert_eq!(rows_with_hits.len(), last - first + 1);
    assert!(first >= 128 && last < 384);
    // The analytic projection: the plane hit for pixel (x, y) is
    // (1, sy, -sx) with sx, sy the screen offsets, so the hit band in y is
    // where |sy| <= 0.3 roughly, i.e. rows 180..=332.
    assert!((170..=190).contains(&first));
    assert!((325..=340).contains(&last));
}

#[test]
fn camera_looking_away_gives_all_miss() {
    let mut renderer = Renderer::new(64, 64);
    // Target placed behind the camera relative to the triangle at +x.
    let camera = Camera::new(Vec3::new(0, 0, 0), Vec3::new(-1000, 0, 0));
    let models = vec![demo_model()];
    renderer.render(&camera, &models);
    assert!(renderer.canvas().iter().all(is_black));
}

#[test]
fn multi_model_any_hit_union_is_order_independent() {
    let camera = Camera::new(Vec3::new(0, 0, 0), Vec3::new(1000, 0, 0));
    let shifted = || {
        RawModel::new(
            vec![
                Vec3::new(1000, -100, -300),
                Vec3::new(1000, 500, 0),
                Vec3::new(1000, -100, 300),
            ],
            vec![Triangle::new([Point3ID(0), Point3ID(1), Point3ID(2)])],
        )
    };
    let w = 64usize;
    let h = 64usize;

    let mut ra = Renderer::new(w, h);
    ra.render(&camera, &vec![demo_model()]);
    let only_a: Vec<Pixel> = ra.canvas().to_vec();

    let mut rb = Renderer::new(w, h);
    rb.render(&camera, &vec![shifted()]);
    let only_b: Vec<Pixel> = rb.canvas().to_vec();

    let mut rab = Renderer::new(w, h);
    rab.render(&camera, &vec![demo_model(), shifted()]);
    let ab: Vec<Pixel> = rab.canvas().to_vec();

    let mut rba = Renderer::new(w, h);
    rba.render(&camera, &vec![shifted(), demo_model()]);
    let ba: Vec<Pixel> = rba.canvas().to_vec();

    // Order symmetry: both orders paint the same image.
    for i in 0..w * h {
        assert_eq!(ab[i], ba[i], "pixel {} differs between orders", i);
    }
    // Any-hit union: a pixel is hit exactly when either model alone hits it,
    // so a later miss never reverts an earlier hit.
    let mut overlap = false;
    let mut a_only = false;
    for i in 0..w * h {
        let union = is_white(&only_a[i]) || is_white(&only_b[i]);
        assert_eq!(is_white(&ab[i]), union, "pixel {} breaks the union rule", i);
        if is_white(&only_a[i]) && is_white(&only_b[i]) {
            overlap = true;
        }
        if is_white(&only_a[i]) && !is_white(&only_b[i]) {
            a_only = true;
        }
    }
    // The scene really exercises both cases.
    assert!(overlap);
    assert!(a_only);
}

#[test]
fn make_cool_gradient_values() {
    let w = 4usize;
    let h = 2usize;
    let mut v: Vec<Pixel> = vec![Pixel::black(); w * h];
    make_cool(&mut v, w, h);
    assert_eq!(v[0], Pixel::new(0, 0, 255));
    assert_eq!(v[1], Pixel::new(63, 0, 255));
    assert_eq!(v[3], Pixel::new(191, 0, 255));
    assert_eq!(v[w + 2], Pixel::new(127, 127, 255));
}

#[test]
fn pixel_constructors() {
    let p = Pixel::new(1, 2, 3);
    assert_eq!(p.blue, 1);
    assert_eq!(p.green, 2);
    assert_eq!(p.red, 3);
    assert!(is_white(&Pixel::white()));
    assert!(is_black(&Pixel::black()));
}

#[test]
fn camera_and_ray_accessors() {
    let c = Camera::new(Vec3::new(1, 2, 3), Vec3::new(4, 5, 6));
    assert_eq!(c.position(), Vec3::new(1, 2, 3));
    assert_eq!(c.to(), Vec3::new(4, 5, 6));
    assert!(c.is_bounded());
    let far = Camera::new(Vec3::new(0, 0, 0), Vec3::new(40000, 0, 0));
    assert!(!far.is_bounded());
    let r = Ray::new(Vec3::new(7, 8, 9), Vec3::new(-1, -2, -3));
    assert_eq!(r.start_position, Vec3::new(7, 8, 9));
    assert_eq!(r.vector, Vec3::new(-1, -2, -3));
}

#[test]
fn point3id_from_usize() {
    let id: Point3ID = 5usize.into();
    assert_eq!(id, Point3ID(5));
    assert_eq!(Point3ID::from(0usize), Point3ID(0));
}

#[test]
fn test_trilinear_interpolation() {
    let point1 = Vec3::new(0, 0, 0);
    let point2 = Vec3::new(2000, 2000, 0);
    // Blend fractions 0.3, 0.5, 0.0 of SCALE; expected (0.6, 1.0, 0.0).
    let res = some_graphics::trilinear_interpolation(300, 500, 0, &point1, &point2);
    assert_eq!(res.x, 600);
    assert_eq!(res.y, 1000);
    assert_eq!(res.z, 0);
}
