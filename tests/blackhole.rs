use blackhole::grid::{generate_grid, grid_line_indices, grid_vertices, warp_height, GRID_SIZE, SPACING};
use blackhole::isqrt::isqrt;
use blackhole::mass::{schwarzschild_radius, BH_MASS};
use blackhole::scene::{flamm_height, scene_objects, BlackHole, GridObject, Point3, Rgb, SceneObject};
use blackhole::trace::{
    classify_step, disk_color, initial_check, object_color, resolve_color, step_size, RayState,
    RayTracker, Rgba, ESCAPE_R, MAX_STEPS,
};

const BH_RS: u64 = 12683881740;

fn p(x: i64, y: i64, z: i64) -> Point3 {
    Point3 { x, y, z }
}

fn star(position: Point3, radius: u64) -> SceneObject {
    SceneObject::new(position, radius, 2_000_000_000_000_000_000_000_000_000_000, Rgb { r: 200, g: 100, b: 50 })
}

#[test]
fn black_hole_radius_matches_sagittarius() {
    let r = schwarzschild_radius(BH_MASS);
    assert_eq!(r, BH_RS);
    let ratio = r as f64 / 1.269e10;
    assert!((ratio - 1.0).abs() < 1e-3);
}

#[test]
fn radius_of_solar_mass_and_zero() {
    assert_eq!(schwarzschild_radius(2_000_000_000_000_000_000_000_000_000_000), 2971);
    assert_eq!(schwarzschild_radius(0), 0);
    assert_eq!(schwarzschild_radius(1), 1);
    assert!(schwarzschild_radius(u128::MAX) < 0x100_0000_0000);
}

#[test]
fn isqrt_edges() {
    assert_eq!(isqrt(0), 0);
    assert_eq!(isqrt(1), 1);
    assert_eq!(isqrt(3), 1);
    assert_eq!(isqrt(4), 2);
    assert_eq!(isqrt(99), 9);
    assert_eq!(isqrt(100), 10);
    assert_eq!(isqrt(u128::MAX), u64::MAX);
}

#[test]
fn warp_is_flat_inside_horizon() {
    // distance 3e10 from the body, horizon 1e11
    assert_eq!(flamm_height(100_000_000_000, 0, 0), 0);
    assert_eq!(flamm_height(100_000_000_000, 10_000_000_000, -20_000_000_000), 0);
}

#[test]
fn warp_outside_horizon() {
    // dist = sqrt(16e20 + 9e20) = 5e10; 2 sqrt(1e10 * 4e10) = 4e10
    assert_eq!(flamm_height(10_000_000_000, 40_000_000_000, 0), 40_000_000_000);
    assert_eq!(flamm_height(10_000_000_000, 0, -40_000_000_000), 40_000_000_000);
}

#[test]
fn black_hole_warp_at_origin() {
    let bh = BlackHole::new();
    assert_eq!(bh.x, 0);
    assert_eq!(bh.z, 0);
    assert_eq!(bh.r_s, BH_RS);
    assert_eq!(bh.warp_y(0, 0), -359_784_334);
}

#[test]
fn grid_object_and_scene_object_agree() {
    let g = GridObject { x: 5_000_000_000, z: 0, mass: 2_000_000_000_000_000_000_000_000_000_000 };
    let s = star(p(5_000_000_000, 0, 0), 1000);
    assert_eq!(s.r_s(), 2971);
    assert!(s.is_wf());
    assert_eq!(g.warp_contribution(1_000_000_000, 7), s.warp_contribution(1_000_000_000, 7));
    assert!(g.warp_contribution(0, 0) > 0);
}

#[test]
fn default_scene_has_two_stars() {
    let v = scene_objects();
    assert_eq!(v.len(), 2);
    assert_eq!(v[0].color, Rgb { r: 255, g: 255, b: 0 });
    assert_eq!(v[1].position, p(-300_000_000_000, 0, -100_000_000_000));
    assert_eq!(v[0].radius, 40_000_000_000);
}

#[test]
fn warp_height_sums_bodies() {
    let bh = BlackHole::new();
    let none: Vec<SceneObject> = Vec::new();
    assert_eq!(warp_height(&bh, &none, 0, 0), -359_784_334);
    let stars = scene_objects();
    let with = warp_height(&bh, &stars, 0, 0);
    let sum = bh.warp_y(0, 0) + stars[0].warp_contribution(0, 0) as i128 + stars[1].warp_contribution(0, 0) as i128;
    assert_eq!(with, sum);
}

#[test]
fn grid_line_indices_small() {
    assert!(grid_line_indices(0).is_empty());
    assert_eq!(grid_line_indices(1), vec![0, 1, 2, 3, 0, 2, 1, 3]);
    assert_eq!(
        grid_line_indices(2),
        vec![0, 1, 1, 2, 3, 4, 4, 5, 6, 7, 7, 8, 0, 3, 1, 4, 2, 5, 3, 6, 4, 7, 5, 8]
    );
}

#[test]
fn default_grid_shape() {
    let bh = BlackHole::new();
    let (v, idx) = generate_grid(&bh, &Vec::new());
    let side = GRID_SIZE as usize + 1;
    assert_eq!(v.len(), side * side);
    assert_eq!(idx.len(), 4 * 25 * 26);
    assert!(idx.iter().all(|&i| (i as usize) < v.len()));
    assert_eq!(&idx[0..4], &[0, 1, 1, 2]);
    // every lattice point joined to its +x and +z neighbours, each segment once
    let mut segments: Vec<(u32, u32)> = idx.chunks(2).map(|c| (c[0], c[1])).collect();
    segments.sort();
    segments.dedup();
    assert_eq!(segments.len(), 2 * 25 * 26);
    let n = 25u32;
    for z in 0..=n {
        for x in 0..=n {
            let k = z * (n + 1) + x;
            assert_eq!(x < n, segments.binary_search(&(k, k + 1)).is_ok());
            assert_eq!(z < n, segments.binary_search(&(k, k + n + 1)).is_ok());
        }
    }
    assert_eq!(v[0].x, -12 * SPACING as i64);
    assert_eq!(v[0].z, -12 * SPACING as i64);
    assert_eq!(v[0].y, -30_999_561_298);
    assert_eq!(v[side * side - 1].x, 13 * SPACING as i64);
    assert_eq!(v[side].z, -11 * SPACING as i64);
}

#[test]
fn default_grid_with_stars() {
    let bh = BlackHole::new();
    let (v, _) = generate_grid(&bh, &scene_objects());
    assert_eq!(v[0].y, -30_886_688_878);
}

#[test]
fn grid_vertices_single_point() {
    let bh = BlackHole::new();
    let v = grid_vertices(&bh, &Vec::new(), 0, 7);
    assert_eq!(v.len(), 1);
    assert_eq!(v[0].x, 0);
    assert_eq!(v[0].y, -359_784_334 - 91_000_000_000);
}

#[test]
fn ray_inside_horizon_is_captured_first() {
    assert_eq!(initial_check(BH_RS, p(1000, 0, 0)), RayState::Captured);
    assert_eq!(initial_check(BH_RS, p(BH_RS as i64, 0, 0)), RayState::Captured);
    assert_eq!(initial_check(BH_RS, p(BH_RS as i64 + 1, 0, 0)), RayState::Advancing);
    let objs = vec![star(p(0, 0, 0), 40_000_000_000)];
    assert_eq!(classify_step(BH_RS, &objs, -5, p(0, 3, 0), 0), RayState::Captured);
}

#[test]
fn disk_hit_within_band_on_crossing() {
    let r = 3 * BH_RS as i64;
    let s = classify_step(BH_RS, &Vec::new(), 100, p(r, -100, 0), 5);
    assert_eq!(s, RayState::DiskHit { radius: r as u64 });
    // same point without a crossing
    let s = classify_step(BH_RS, &Vec::new(), 100, p(r, 50, 0), 5);
    assert_eq!(s, RayState::Advancing);
}

#[test]
fn no_disk_hit_outside_band() {
    let inside = 2 * BH_RS as i64;
    let outside = 6 * BH_RS as i64;
    assert_eq!(classify_step(BH_RS, &Vec::new(), 1, p(inside, -1, 0), 0), RayState::Advancing);
    assert_eq!(classify_step(BH_RS, &Vec::new(), 1, p(0, -1, outside), 0), RayState::Advancing);
}

#[test]
fn disk_checked_before_objects() {
    let r = 4 * BH_RS as i64;
    let objs = vec![star(p(r, 0, 0), 1_000_000)];
    assert_eq!(classify_step(BH_RS, &objs, 10, p(r, -10, 0), 0), RayState::DiskHit { radius: r as u64 });
    assert_eq!(classify_step(BH_RS, &objs, 10, p(r, 10, 0), 0), RayState::ObjectHit { index: 0 });
}

#[test]
fn first_body_hit_wins() {
    let c = p(300_000_000_000, 0, 0);
    let objs = vec![star(p(0, 0, 900_000_000_000), 10), star(c, 1000), star(c, 5000)];
    assert_eq!(classify_step(BH_RS, &objs, 1, p(300_000_000_500, 1, 0), 0), RayState::ObjectHit { index: 1 });
    assert_eq!(classify_step(BH_RS, &objs, 1, p(300_000_002_000, 1, 0), 0), RayState::ObjectHit { index: 2 });
}

#[test]
fn escape_and_exhaustion() {
    let far = ESCAPE_R as i64 + 1;
    assert_eq!(classify_step(BH_RS, &Vec::new(), 1, p(far, 1, 0), 0), RayState::Escaped);
    assert_eq!(classify_step(BH_RS, &Vec::new(), 1, p(ESCAPE_R as i64, 0, 0), MAX_STEPS - 1), RayState::Exhausted);
    assert_eq!(classify_step(BH_RS, &Vec::new(), 1, p(ESCAPE_R as i64, 0, 0), MAX_STEPS - 2), RayState::Advancing);
}

#[test]
fn disk_ramp_edges() {
    // r_s = 10: inner edge 22, outer edge 52
    assert_eq!(disk_color(10, 22), Rgba { r: 255, g: 140, b: 25, a: 255 });
    assert_eq!(disk_color(10, 52), Rgba { r: 255, g: 255, b: 0, a: 255 });
    assert_eq!(disk_color(10, 37), Rgba { r: 255, g: 197, b: 12, a: 255 });
}

#[test]
fn shading_headlamp() {
    let o = star(p(0, 0, 0), 100);
    // surface point facing the camera: full colour
    assert_eq!(object_color(&o, p(100, 0, 0), p(1000, 0, 0)), Rgba { r: 200, g: 100, b: 50, a: 255 });
    // facing away: ambient tenth
    assert_eq!(object_color(&o, p(-100, 0, 0), p(1000, 0, 0)), Rgba { r: 20, g: 10, b: 5, a: 255 });
    // at right angles: ambient tenth
    assert_eq!(object_color(&o, p(0, 100, 0), p(1000, 100, 0)), Rgba { r: 20, g: 10, b: 5, a: 255 });
}

#[test]
fn outcome_colors() {
    let objs = vec![star(p(0, 0, 900_000_000_000), 10)];
    let o = p(0, 0, 0);
    assert_eq!(resolve_color(BH_RS, &objs, RayState::Captured, o, o), Rgba { r: 0, g: 0, b: 0, a: 255 });
    assert_eq!(resolve_color(BH_RS, &objs, RayState::Escaped, o, o), Rgba { r: 0, g: 0, b: 0, a: 0 });
    assert_eq!(resolve_color(BH_RS, &objs, RayState::Exhausted, o, o), Rgba { r: 0, g: 0, b: 0, a: 0 });
    let inner = RayState::DiskHit { radius: 27_904_539_830 };
    assert_eq!(resolve_color(BH_RS, &objs, inner, o, o), disk_color(BH_RS, 27_904_539_830));
}

#[test]
fn step_shrinks_near_horizon() {
    let base = 5_000_000_000;
    assert_eq!(step_size(base, BH_RS, BH_RS), 100_000_000);
    assert_eq!(step_size(base, 0, BH_RS), 100_000_000);
    assert_eq!(step_size(base, 1_000_000_000_000, BH_RS), base);
    assert_eq!(step_size(base, 3 * BH_RS, BH_RS), 2_060_000_000);
    assert!(step_size(base, 2 * BH_RS, BH_RS) <= step_size(base, 4 * BH_RS, BH_RS));
}

#[test]
fn radial_ray_from_five_radii_is_captured() {
    // A ray aimed straight at the origin moves radially at a constant rate
    // in the affine parameter, so each step moves it inward by the step size.
    let mut r: u64 = 5 * BH_RS;
    let objs: Vec<SceneObject> = Vec::new();
    let mut state = initial_check(BH_RS, p(r as i64, 0, 0));
    let mut step: u32 = 0;
    while state == RayState::Advancing {
        let h = step_size(5_000_000_000, r, BH_RS);
        r = r.saturating_sub(h);
        state = classify_step(BH_RS, &objs, 0, p(r as i64, 0, 0), step);
        step += 1;
    }
    assert_eq!(state, RayState::Captured);
    assert!(step < MAX_STEPS);
    assert_eq!(step, 46);
}

#[test]
fn tracker_counts_and_stops() {
    let objs: Vec<SceneObject> = Vec::new();
    let mut t = RayTracker::start(BH_RS, p(0, 500_000_000_000, 0));
    assert!(!t.is_done());
    assert_eq!(t.steps, 0);
    t.observe(BH_RS, &objs, p(0, 400_000_000_000, 0));
    assert_eq!(t.prev_y, 400_000_000_000);
    assert_eq!(t.steps, 1);
    assert!(!t.is_done());
    // a ray that stays put ends at the step cap
    let mut n = 1;
    while !t.is_done() {
        t.observe(BH_RS, &objs, p(0, 400_000_000_000, 0));
        n += 1;
    }
    assert_eq!(n, MAX_STEPS);
    assert_eq!(t.state, RayState::Exhausted);
}

#[test]
fn tracker_starting_inside_horizon() {
    let t = RayTracker::start(BH_RS, p(0, 0, 1));
    assert!(t.is_done());
    assert_eq!(t.state, RayState::Captured);
}

#[test]
fn disk_ramp_is_monotone() {
    let mut last = disk_color(BH_RS, 27_904_539_828);
    let mut radius = 27_904_539_828u64;
    while radius <= 65_956_185_048 {
        let c = disk_color(BH_RS, radius);
        assert!(c.g >= last.g && c.b <= last.b);
        last = c;
        radius += 1_000_000_000;
    }
    assert_eq!(disk_color(BH_RS, 65_956_185_048), Rgba { r: 255, g: 255, b: 0, a: 255 });
}

#[test]
fn scene_object_validity() {
    let good = star(p(0, 0, 0), 10);
    assert!(good.is_wf());
    let mut far = star(p(0, 0, 0), 10);
    far.position.x = 0x4_0000_0000_0001;
    assert!(!far.is_wf());
    let mut flat = star(p(0, 0, 0), 10);
    flat.radius = 0;
    assert!(!flat.is_wf());
    let mut light = star(p(0, 0, 0), 10);
    light.mass = 0;
    assert!(!light.is_wf());
}

#[test]
fn disk_band_uses_true_axis_distance() {
    let objs: Vec<SceneObject> = Vec::new();
    // sqrt(2705) is just beyond 5.2 r_s = 52, though it rounds down to 52
    assert_eq!(classify_step(10, &objs, 1, p(52, -1, 1), 0), RayState::Advancing);
    // exactly on the outer edge
    assert_eq!(classify_step(10, &objs, 1, p(52, -1, 0), 0), RayState::DiskHit { radius: 52 });
    // exactly on the inner edge: 22^2 = 484
    assert_eq!(classify_step(10, &objs, 1, p(22, -1, 0), 0), RayState::DiskHit { radius: 22 });
    assert_eq!(classify_step(10, &objs, 1, p(21, -1, 6), 0), RayState::Advancing);
}

#[test]
fn disk_before_body_just_past_inner_edge() {
    // sqrt(5) lies in [2.2, 5.2] although it rounds down to 2; the point is
    // also inside a body, and the disk wins
    let objs = vec![star(p(2, 0, 1), 5)];
    let s = classify_step(1, &objs, 1, p(2, -1, 1), 0);
    assert_eq!(s, RayState::DiskHit { radius: 2 });
    let c = resolve_color(1, &objs, s, p(2, -1, 1), p(0, 1000, 0));
    assert_eq!(c, Rgba { r: 255, g: 140, b: 25, a: 255 });
}
