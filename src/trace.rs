//! Termination rules of a traced light ray and the colour of each outcome.
//!
//! The integrator that advances a photon is outside this module: after each
//! advance it reports the photon's Cartesian position, and the rules here
//! decide, in a fixed order of precedence, whether the ray ends and how.

use vstd::prelude::*;
use vstd::arithmetic::div_mod::lemma_fundamental_div_mod_converse;
use crate::grid::objects_wf;
use crate::isqrt::{floor_sqrt, isqrt};
use crate::mass::WORLD_LIMIT;
use crate::scene::{Point3, Rgb, SceneObject, RS_LIMIT};

verus! {

/// Radius beyond which a ray has escaped, metres.
pub const ESCAPE_R: u64 = 1000000000000;

/// Most advances of one ray.
pub const MAX_STEPS: u32 = 3000;

/// State of a ray. All but `Advancing` are final.
#[derive(Clone, Copy, Debug, PartialEq, Eq, Structural)]
pub enum RayState {
    Advancing,
    /// Fell through the horizon.
    Captured,
    /// Crossed the disk plane `radius` metres from the axis.
    DiskHit { radius: u64 },
    /// Entered the scene body of that index.
    ObjectHit { index: usize },
    Escaped,
    /// Ran out of steps.
    Exhausted,
}

/// An 8-bit colour with alpha.
#[derive(Clone, Copy, Debug, PartialEq, Eq, Structural)]
pub struct Rgba {
    pub r: u8,
    pub g: u8,
    pub b: u8,
    pub a: u8,
}

pub open spec fn norm_sq(x: int, y: int, z: int) -> int {
    x * x + y * y + z * z
}

pub open spec fn point_norm_sq(p: Point3) -> int {
    norm_sq(p.x as int, p.y as int, p.z as int)
}

/// Square of the distance of `p` from the vertical axis.
pub open spec fn axis_sq(p: Point3) -> int {
    p.x * p.x + p.z * p.z
}

/// Distance of `p` from the vertical axis, in whole metres (rounded down).
pub open spec fn axis_distance(p: Point3) -> nat {
    floor_sqrt(axis_sq(p) as nat)
}

/// A point at squared axis distance `sq` lies within the accretion disk, the
/// band `[2.2 r_s, 5.2 r_s]`, tested exactly on squares.
pub open spec fn in_disk(r_s: nat, sq: int) -> bool {
    484 * (r_s * r_s) <= 100 * sq <= 2704 * (r_s * r_s)
}

/// What holds of the rounded-down axis distance of a point in the disk: at
/// most `5.2 r_s`, and less than a metre short of `2.2 r_s`.
pub open spec fn disk_radius_ok(r_s: nat, radius: nat) -> bool {
    22 * r_s < 10 * radius + 10 && 10 * radius <= 52 * r_s
}

/// The ray passed through the plane `y = 0` between two positions.
pub open spec fn crosses_plane(prev_y: int, y: int) -> bool {
    prev_y * y < 0
}

/// `p` lies within the visual sphere of `o`.
pub open spec fn hits(o: SceneObject, p: Point3) -> bool {
    norm_sq(p.x - o.position.x, p.y - o.position.y, p.z - o.position.z) <= o.radius * o.radius
}

/// Index of the first body from `i` on whose sphere holds `p`.
pub open spec fn first_hit_from(objects: Seq<SceneObject>, p: Point3, i: nat) -> Option<nat>
    decreases objects.len() - i,
{
    if i >= objects.len() {
        None
    } else if hits(objects[i as int], p) {
        Some(i)
    } else {
        first_hit_from(objects, p, i + 1)
    }
}

/// The state that a ray is in once it has been advanced to `p` by its
/// step number `step` (from zero), the previous height having been `prev_y`.
pub open spec fn step_outcome(
    r_s: nat,
    objects: Seq<SceneObject>,
    prev_y: int,
    p: Point3,
    step: nat,
) -> RayState {
    if point_norm_sq(p) <= r_s * r_s {
        RayState::Captured
    } else if crosses_plane(prev_y, p.y as int) && in_disk(r_s, axis_sq(p)) {
        RayState::DiskHit { radius: axis_distance(p) as u64 }
    } else if first_hit_from(objects, p, 0) is Some {
        RayState::ObjectHit { index: first_hit_from(objects, p, 0)->0 as usize }
    } else if point_norm_sq(p) > ESCAPE_R * ESCAPE_R {
        RayState::Escaped
    } else if step + 1 >= MAX_STEPS {
        RayState::Exhausted
    } else {
        RayState::Advancing
    }
}

/// The scene as the tracer sees it: the black hole's horizon radius and the
/// visible bodies.
pub open spec fn scene_wf(r_s: nat, objects: Seq<SceneObject>) -> bool {
    0 < r_s < RS_LIMIT && objects_wf(objects)
}

proof fn lemma_product_bound(a: int, b: int, bound: int)
    requires
        -bound <= a <= bound,
        -bound <= b <= bound,
    ensures
        -(bound * bound) <= a * b <= bound * bound,
        a == b ==> 0 <= a * b,
{
    assert(-(bound * bound) <= a * b <= bound * bound) by (nonlinear_arith)
        requires
            -bound <= a <= bound,
            -bound <= b <= bound,
    ;
    assert(a == b ==> 0 <= a * b) by (nonlinear_arith);
}

proof fn lemma_sum3_bound(a: int, b: int, c: int, bound: int)
    requires
        -bound <= a <= bound,
        -bound <= b <= bound,
        -bound <= c <= bound,
    ensures
        0 <= norm_sq(a, b, c) <= 3 * (bound * bound),
{
    lemma_product_bound(a, a, bound);
    lemma_product_bound(b, b, bound);
    lemma_product_bound(c, c, bound);
}

/// The rounded-down axis distance of a point in the disk meets
/// `disk_radius_ok`.
pub proof fn lemma_disk_radius_ok(r_s: nat, p: Point3)
    requires
        in_disk(r_s, axis_sq(p)),
    ensures
        disk_radius_ok(r_s, axis_distance(p)),
{
    let sq = axis_sq(p);
    assert(0 <= p.x * p.x && 0 <= p.z * p.z) by (nonlinear_arith);
    crate::isqrt::lemma_floor_sqrt_spec(sq as nat);
    let r = axis_distance(p);
    if 10 * r > 52 * r_s {
        crate::isqrt::lemma_square_monotone(52 * r_s + 1, 10 * r);
        assert(false) by (nonlinear_arith)
            requires
                (52 * r_s + 1) * (52 * r_s + 1) <= (10 * r) * (10 * r),
                r * r <= sq,
                100 * sq <= 2704 * (r_s * r_s),
        ;
    }
    if 22 * r_s >= 10 * r + 10 {
        crate::isqrt::lemma_square_monotone(10 * r + 10, 22 * r_s);
        assert(false) by (nonlinear_arith)
            requires
                (10 * r + 10) * (10 * r + 10) <= (22 * r_s) * (22 * r_s),
                sq < (r + 1) * (r + 1),
                484 * (r_s * r_s) <= 100 * sq,
        ;
    }
}

/// `x * x + y * y + z * z` for coordinates within twice the world bound.
fn sum_of_squares(x: i64, y: i64, z: i64) -> (s: u128)
    requires
        -2 * WORLD_LIMIT <= x <= 2 * WORLD_LIMIT,
        -2 * WORLD_LIMIT <= y <= 2 * WORLD_LIMIT,
        -2 * WORLD_LIMIT <= z <= 2 * WORLD_LIMIT,
    ensures
        s == norm_sq(x as int, y as int, z as int),
        s <= 3 * (0x8_0000_0000_0000 * 0x8_0000_0000_0000),
{
    proof {
        lemma_sum3_bound(x as int, y as int, z as int, 0x8_0000_0000_0000);
        assert(0 <= x * x && 0 <= y * y && 0 <= z * z) by (nonlinear_arith);
    }
    (x as i128 * x as i128) as u128 + (y as i128 * y as i128) as u128 + (z as i128 * z as i128) as u128
}

/// The check made before the first advance: a ray that starts inside the
/// horizon is captured at once.
pub fn initial_check(r_s: u64, p: Point3) -> (s: RayState)
    requires
        p.in_world(),
    ensures
        point_norm_sq(p) <= r_s * r_s ==> s == RayState::Captured,
        point_norm_sq(p) > r_s * r_s ==> s == RayState::Advancing,
{
    let n = sum_of_squares(p.x, p.y, p.z);
    assert(r_s as u128 * r_s as u128 <= u128::MAX) by (nonlinear_arith)
        requires
            r_s <= u64::MAX,
    ;
    if n <= r_s as u128 * r_s as u128 {
        RayState::Captured
    } else {
        RayState::Advancing
    }
}

/// Index of the first body whose sphere holds `p`, if any.
fn first_hit(objects: &Vec<SceneObject>, p: Point3) -> (h: Option<usize>)
    requires
        objects_wf(objects@),
        p.in_world(),
    ensures
        h == (match first_hit_from(objects@, p, 0) {
            Some(i) => Some(i as usize),
            None => None,
        }),
{
    let mut i: usize = 0;
    while i < objects.len()
        invariant
            objects_wf(objects@),
            p.in_world(),
            0 <= i <= objects@.len(),
            first_hit_from(objects@, p, 0) == first_hit_from(objects@, p, i as nat),
        decreases objects@.len() - i,
    {
        let o = &objects[i];
        proof {
            assert(objects@[i as int].wf());
        }
        let d = sum_of_squares(p.x - o.position.x, p.y - o.position.y, p.z - o.position.z);
        assert(o.radius * o.radius <= WORLD_LIMIT * WORLD_LIMIT) by (nonlinear_arith)
            requires
                o.radius <= WORLD_LIMIT,
        ;
        if d <= o.radius as u128 * o.radius as u128 {
            return Some(i);
        }
        i = i + 1;
    }
    None
}

/// Decides the state of a ray just advanced to `p` by step number `step`:
/// captured, then disk, then scene body, then escape, then the step cap.
pub fn classify_step(
    r_s: u64,
    objects: &Vec<SceneObject>,
    prev_y: i64,
    p: Point3,
    step: u32,
) -> (s: RayState)
    requires
        scene_wf(r_s as nat, objects@),
        p.in_world(),
    ensures
        s == step_outcome(r_s as nat, objects@, prev_y as int, p, step as nat),
        s is DiskHit ==> disk_radius_ok(r_s as nat, s->radius as nat),
{
    proof {
        if in_disk(r_s as nat, axis_sq(p)) {
            lemma_disk_radius_ok(r_s as nat, p);
        }
    }
    let n = sum_of_squares(p.x, p.y, p.z);
    assert(r_s as u128 * r_s as u128 <= u128::MAX) by (nonlinear_arith)
        requires
            r_s <= u64::MAX,
    ;
    if n <= r_s as u128 * r_s as u128 {
        return RayState::Captured;
    }
    let crossed = (prev_y < 0 && p.y > 0) || (prev_y > 0 && p.y < 0);
    let py = p.y;
    assert((prev_y * py < 0) == ((prev_y < 0 && py > 0) || (prev_y > 0 && py < 0)))
        by (nonlinear_arith);
    if crossed {
        proof {
            lemma_sum3_bound(p.x as int, 0, p.z as int, WORLD_LIMIT as int);
            assert(0 <= p.x * p.x && 0 <= p.z * p.z) by (nonlinear_arith);
        }
        let sq: u128 = (p.x as i128 * p.x as i128) as u128 + (p.z as i128 * p.z as i128) as u128;
        let rs2: u128 = r_s as u128 * r_s as u128;
        assert(rs2 < 0x1_0000_0000_0000_0000_0000) by (nonlinear_arith)
            requires
                rs2 == r_s * r_s,
                r_s < 0x100_0000_0000u64,
        ;
        if 484 * rs2 <= 100 * sq && 100 * sq <= 2704 * rs2 {
            return RayState::DiskHit { radius: isqrt(sq) };
        }
    }
    match first_hit(objects, p) {
        Some(index) => {
            return RayState::ObjectHit { index };
        },
        None => {},
    }
    if n > ESCAPE_R as u128 * ESCAPE_R as u128 {
        RayState::Escaped
    } else if step >= MAX_STEPS - 1 {
        RayState::Exhausted
    } else {
        RayState::Advancing
    }
}

/// Distance `r - r_s` clamped to the near-horizon band `[0, 5 r_s]`, over
/// which the step shrinks.
pub open spec fn proximity(r: nat, r_s: nat) -> nat {
    if r <= r_s {
        0
    } else if r - r_s >= 5 * r_s {
        (5 * r_s) as nat
    } else {
        (r - r_s) as nat
    }
}

/// `base * (0.02 + 0.98 * proximity / (5 r_s))`, rounded down: at least a
/// fiftieth of the base step.
pub open spec fn step_size_spec(base: nat, r: nat, r_s: nat) -> nat {
    ((base * (10 * r_s + 98 * proximity(r, r_s)))
        / (500 * r_s)) as nat
}

/// Integration step for a ray at radius `r`: the base step far from the
/// horizon, shrinking smoothly to a fiftieth of it at the horizon.
pub fn step_size(base: u64, r: u64, r_s: u64) -> (h: u64)
    requires
        0 < r_s < RS_LIMIT,
    ensures
        h == step_size_spec(base as nat, r as nat, r_s as nat),
        h <= base,
{
    assert(RS_LIMIT == 0x100_0000_0000);
    let band: u128 = 5 * r_s as u128;
    let prox: u128 = if r <= r_s {
        0
    } else if (r - r_s) as u128 >= band {
        band
    } else {
        (r - r_s) as u128
    };
    let weight: u128 = 2 * band + 98 * prox;
    let den: u128 = 100 * band;
    assert(weight <= den);
    assert(base * weight <= base * den) by (nonlinear_arith)
        requires
            weight <= den,
    ;
    assert(base * den <= u64::MAX * 0x10_0000_0000_0000) by (nonlinear_arith)
        requires
            den <= 0x10_0000_0000_0000,
            base <= u64::MAX,
    ;
    let h: u128 = base as u128 * weight / den;
    assert(h <= base) by (nonlinear_arith)
        requires
            h as int == base as int * weight as int / den as int,
            weight <= den,
            den > 0,
    ;
    h as u64
}

/// The step never shrinks as a ray moves away from the horizon.
pub proof fn lemma_step_size_monotone(base: nat, r1: nat, r2: nat, r_s: nat)
    requires
        0 < r_s,
        r1 <= r2,
    ensures
        step_size_spec(base, r1, r_s) <= step_size_spec(base, r2, r_s),
{
    let den = 500 * r_s;
    let w1 = 10 * r_s + 98 * proximity(r1, r_s);
    let w2 = 10 * r_s + 98 * proximity(r2, r_s);
    assert(proximity(r1, r_s) <= proximity(r2, r_s));
    assert(w1 <= w2);
    assert(base * w1 <= base * w2) by (nonlinear_arith)
        requires
            w1 <= w2,
    ;
    vstd::arithmetic::div_mod::lemma_div_is_ordered((base * w1) as int, (base * w2) as int, den as int);
}

/// `10 radius - 22 r_s`, clamped at zero: `30 r_s` times the ramp
/// parameter `t` of the disk colour.
pub open spec fn ramp_num(r_s: nat, radius: nat) -> int {
    if 10 * radius <= 22 * r_s {
        0
    } else {
        10 * radius - 22 * r_s
    }
}

/// Green of the disk colour: `0.55 + 0.45 t` of full scale, `t` running from
/// 0 at the inner edge to 1 at the outer edge.
pub open spec fn disk_green(r_s: nat, radius: nat) -> nat {
    let num: int = ramp_num(r_s, radius);
    let den: int = 30 * r_s as int;
    ((255 * (55 * den + 45 * num)) / (100 * den)) as nat
}

/// Blue of the disk colour: `0.1 (1 - t)` of full scale.
pub open spec fn disk_blue(r_s: nat, radius: nat) -> nat {
    let num: int = ramp_num(r_s, radius);
    let den: int = 30 * r_s as int;
    ((255 * (den - num)) / (10 * den)) as nat
}

pub open spec fn disk_color_spec(r_s: nat, radius: nat) -> Rgba {
    Rgba { r: 255, g: disk_green(r_s, radius) as u8, b: disk_blue(r_s, radius) as u8, a: 255 }
}

/// Colour of the disk where a ray crossed it `radius` metres from the axis:
/// orange at the inner edge, ramping to warm white at the outer edge.
pub fn disk_color(r_s: u64, radius: u64) -> (c: Rgba)
    requires
        0 < r_s < RS_LIMIT,
        disk_radius_ok(r_s as nat, radius as nat),
    ensures
        c == disk_color_spec(r_s as nat, radius as nat),
        disk_green(r_s as nat, radius as nat) <= 255,
        disk_blue(r_s as nat, radius as nat) <= 25,
{
    assert(RS_LIMIT == 0x100_0000_0000);
    let tenths: u128 = 10 * radius as u128;
    let inner: u128 = 22 * r_s as u128;
    let num: u128 = if tenths <= inner {
        0
    } else {
        tenths - inner
    };
    let den: u128 = 30 * r_s as u128;
    assert(num <= den);
    let g: u128 = 255 * (55 * den + 45 * num) / (100 * den);
    let b: u128 = 255 * (den - num) / (10 * den);
    assert(g <= 255) by (nonlinear_arith)
        requires
            g as int == 255 * (55 * den as int + 45 * num as int) / (100 * den as int),
            num <= den,
            den > 0,
    ;
    assert(b <= 25) by (nonlinear_arith)
        requires
            b as int == 255 * (den as int - num as int) / (10 * den as int),
            num <= den,
            den > 0,
    ;
    Rgba { r: 255, g: g as u8, b: b as u8, a: 255 }
}

/// Channel `c` lit by `0.1 + 0.9 max(cos, 0)`, where `cos = d / m`, rounded
/// down; with `m == 0` (no direction to speak of) the ambient term alone.
pub open spec fn shade_channel(c: nat, d: int, m: nat) -> nat {
    if m == 0 {
        c / 10
    } else {
        let dd: nat = if d <= 0 {
            0
        } else if d >= m {
            m
        } else {
            d as nat
        };
        (c * (m + 9 * dd)) / (10 * m)
    }
}

/// Colour of scene body `o` seen at surface point `p`, lit by a lamp at the
/// camera `cam`: the headlamp Lambertian term on the body's colour.
pub open spec fn object_color_spec(o: SceneObject, p: Point3, cam: Point3) -> Rgba {
    let ax = p.x - o.position.x;
    let ay = p.y - o.position.y;
    let az = p.z - o.position.z;
    let bx = cam.x - p.x;
    let by = cam.y - p.y;
    let bz = cam.z - p.z;
    let d = ax * bx + ay * by + az * bz;
    let m = floor_sqrt(norm_sq(ax, ay, az) as nat) * floor_sqrt(norm_sq(bx, by, bz) as nat);
    Rgba {
        r: shade_channel(o.color.r as nat, d, m) as u8,
        g: shade_channel(o.color.g as nat, d, m) as u8,
        b: shade_channel(o.color.b as nat, d, m) as u8,
        a: 255,
    }
}

fn shade(c: u8, d: i128, m: u128) -> (r: u8)
    requires
        m <= 0x1_0000_0000_0000_0000_0000_0000_0000,
    ensures
        r == shade_channel(c as nat, d as int, m as nat),
{
    if m == 0 {
        c / 10
    } else {
        let dd: u128 = if d <= 0 {
            0
        } else if d as u128 >= m {
            m
        } else {
            d as u128
        };
        assert(c * (m + 9 * dd) <= 255 * (10 * m)) by (nonlinear_arith)
            requires
                dd <= m,
                c <= 255,
        ;
        let v: u128 = c as u128 * (m + 9 * dd) / (10 * m);
        assert(v <= c) by (nonlinear_arith)
            requires
                v as int == c as int * (m as int + 9 * dd as int) / (10 * m as int),
                dd <= m,
                m > 0,
        ;
        v as u8
    }
}

/// Colour of scene body `o` seen at `p` from a camera at `cam`.
pub fn object_color(o: &SceneObject, p: Point3, cam: Point3) -> (c: Rgba)
    requires
        o.wf(),
        p.in_world(),
        cam.in_world(),
    ensures
        c == object_color_spec(*o, p, cam),
{
    let ax = p.x - o.position.x;
    let ay = p.y - o.position.y;
    let az = p.z - o.position.z;
    let bx = cam.x - p.x;
    let by = cam.y - p.y;
    let bz = cam.z - p.z;
    proof {
        lemma_sum3_bound(ax as int, ay as int, az as int, 0x8_0000_0000_0000);
        lemma_sum3_bound(bx as int, by as int, bz as int, 0x8_0000_0000_0000);
        lemma_product_bound(ax as int, bx as int, 0x8_0000_0000_0000);
        lemma_product_bound(ay as int, by as int, 0x8_0000_0000_0000);
        lemma_product_bound(az as int, bz as int, 0x8_0000_0000_0000);
    }
    let d: i128 = ax as i128 * bx as i128 + ay as i128 * by as i128 + az as i128 * bz as i128;
    let na = isqrt(sum_of_squares(ax, ay, az));
    let nb = isqrt(sum_of_squares(bx, by, bz));
    proof {
        let sa = norm_sq(ax as int, ay as int, az as int) as nat;
        let sb = norm_sq(bx as int, by as int, bz as int) as nat;
        assert(sa < 0x10_0000_0000_0000 * 0x10_0000_0000_0000);
        assert(sb < 0x10_0000_0000_0000 * 0x10_0000_0000_0000);
        crate::isqrt::lemma_floor_sqrt_below(sa, na as nat, 0x10_0000_0000_0000);
        crate::isqrt::lemma_floor_sqrt_below(sb, nb as nat, 0x10_0000_0000_0000);
        assert(na * nb <= 0x10_0000_0000_0000 * 0x10_0000_0000_0000) by (nonlinear_arith)
            requires
                na < 0x10_0000_0000_0000,
                nb < 0x10_0000_0000_0000,
        ;
    }
    let m: u128 = na as u128 * nb as u128;
    Rgba {
        r: shade(o.color.r, d, m),
        g: shade(o.color.g, d, m),
        b: shade(o.color.b, d, m),
        a: 255,
    }
}

/// Colour that a ray in state `s` contributes, given its last position `p`.
pub open spec fn outcome_color(
    r_s: nat,
    objects: Seq<SceneObject>,
    s: RayState,
    p: Point3,
    cam: Point3,
) -> Rgba {
    match s {
        RayState::Captured => Rgba { r: 0, g: 0, b: 0, a: 255 },
        RayState::DiskHit { radius } => disk_color_spec(r_s, radius as nat),
        RayState::ObjectHit { index } => object_color_spec(objects[index as int], p, cam),
        _ => Rgba { r: 0, g: 0, b: 0, a: 0 },
    }
}

/// Colour of a ray that ended in state `s` at `p`: opaque black when
/// captured, the disk ramp, the shaded body, else fully transparent.
pub fn resolve_color(
    r_s: u64,
    objects: &Vec<SceneObject>,
    s: RayState,
    p: Point3,
    cam: Point3,
) -> (c: Rgba)
    requires
        scene_wf(r_s as nat, objects@),
        p.in_world(),
        cam.in_world(),
        s is DiskHit ==> disk_radius_ok(r_s as nat, s->radius as nat),
        s is ObjectHit ==> s->index < objects@.len(),
    ensures
        c == outcome_color(r_s as nat, objects@, s, p, cam),
{
    match s {
        RayState::Captured => Rgba { r: 0, g: 0, b: 0, a: 255 },
        RayState::DiskHit { radius } => disk_color(r_s, radius),
        RayState::ObjectHit { index } => {
            proof {
                assert(objects@[index as int].wf());
            }
            object_color(&objects[index], p, cam)
        },
        _ => Rgba { r: 0, g: 0, b: 0, a: 0 },
    }
}

/// A ray whose position lies within the horizon is captured, whatever else
/// holds of that position, the scene or the step count.
pub proof fn lemma_inside_horizon_captured(
    r_s: nat,
    objects: Seq<SceneObject>,
    prev_y: int,
    p: Point3,
    step: nat,
)
    requires
        point_norm_sq(p) <= r_s * r_s,
    ensures
        step_outcome(r_s, objects, prev_y, p, step) == RayState::Captured,
{
}

/// A plane crossing outside the disk band is never a disk hit.
pub proof fn lemma_no_disk_hit_outside_band(
    r_s: nat,
    objects: Seq<SceneObject>,
    prev_y: int,
    p: Point3,
    step: nat,
)
    requires
        !in_disk(r_s, axis_sq(p)),
    ensures
        !(step_outcome(r_s, objects, prev_y, p, step) is DiskHit),
{
}

/// Where a step both crosses the disk and enters a scene body, the disk
/// wins: the disk is checked before the bodies.
pub proof fn lemma_disk_before_object(
    r_s: nat,
    objects: Seq<SceneObject>,
    prev_y: int,
    p: Point3,
    step: nat,
)
    requires
        point_norm_sq(p) > r_s * r_s,
        crosses_plane(prev_y, p.y as int),
        in_disk(r_s, axis_sq(p)),
        first_hit_from(objects, p, 0) is Some,
    ensures
        step_outcome(r_s, objects, prev_y, p, step) == (RayState::DiskHit {
            radius: axis_distance(p) as u64,
        }),
{
}

/// At the inner edge of the disk (and for a rounded-down radius short of
/// it) the ramp parameter is zero: pure orange.
pub proof fn lemma_disk_inner_edge_color(r_s: nat, radius: nat)
    requires
        r_s > 0,
        10 * radius <= 22 * r_s,
    ensures
        disk_color_spec(r_s, radius) == (Rgba { r: 255, g: 140, b: 25, a: 255 }),
{
    let den: int = 30 * r_s as int;
    assert(ramp_num(r_s, radius) == 0);
    lemma_fundamental_div_mod_converse(255 * (55 * den), 100 * den, 140, 25 * den);
    lemma_fundamental_div_mod_converse(255 * den, 10 * den, 25, 5 * den);
}

/// At the outer edge of the disk the ramp parameter is one: warm white.
pub proof fn lemma_disk_outer_edge_color(r_s: nat, radius: nat)
    requires
        r_s > 0,
        10 * radius == 52 * r_s,
    ensures
        disk_color_spec(r_s, radius) == (Rgba { r: 255, g: 255, b: 0, a: 255 }),
{
    let den: int = 30 * r_s as int;
    assert(ramp_num(r_s, radius) == den);
    lemma_fundamental_div_mod_converse(255 * (55 * den + 45 * den), 100 * den, 255, 0);
    lemma_fundamental_div_mod_converse(255 * (den - den), 10 * den, 0, 0);
}

/// Bookkeeping of one ray between advances: its state, the height of its
/// last position (for plane crossings) and how many advances it has made.
pub struct RayTracker {
    pub state: RayState,
    pub prev_y: i64,
    pub steps: u32,
}

impl RayTracker {
    /// A ray still advancing has steps left: every ray ends within
    /// `MAX_STEPS` advances.
    pub open spec fn wf(&self) -> bool {
        &&& self.steps <= MAX_STEPS
        &&& self.state is Advancing ==> self.steps < MAX_STEPS
    }

    /// A ray leaving the camera at `cam`, checked against the horizon
    /// before any advance.
    pub fn start(r_s: u64, cam: Point3) -> (t: Self)
        requires
            cam.in_world(),
        ensures
            t.wf(),
            t.steps == 0,
            t.prev_y == cam.y,
            point_norm_sq(cam) <= r_s * r_s ==> t.state == RayState::Captured,
            point_norm_sq(cam) > r_s * r_s ==> t.state == RayState::Advancing,
    {
        RayTracker { state: initial_check(r_s, cam), prev_y: cam.y, steps: 0 }
    }

    pub fn is_done(&self) -> (d: bool)
        ensures
            d == !(self.state is Advancing),
    {
        !matches!(self.state, RayState::Advancing)
    }

    /// Records the advance of the ray to `p`.
    pub fn observe(&mut self, r_s: u64, objects: &Vec<SceneObject>, p: Point3)
        requires
            old(self).wf(),
            old(self).state is Advancing,
            scene_wf(r_s as nat, objects@),
            p.in_world(),
        ensures
            final(self).wf(),
            final(self).state == step_outcome(
                r_s as nat,
                objects@,
                old(self).prev_y as int,
                p,
                old(self).steps as nat,
            ),
            final(self).state is DiskHit ==> disk_radius_ok(r_s as nat, final(self).state->radius as nat),
            final(self).prev_y == p.y,
            final(self).steps == old(self).steps + 1,
    {
        self.state = classify_step(r_s, objects, self.prev_y, p, self.steps);
        self.prev_y = p.y;
        self.steps = self.steps + 1;
    }
}

/// A ray that has made its last allowed advance is no longer advancing.
pub proof fn lemma_step_cap_ends_ray(
    r_s: nat,
    objects: Seq<SceneObject>,
    prev_y: int,
    p: Point3,
    step: nat,
)
    requires
        step + 1 >= MAX_STEPS,
    ensures
        !(step_outcome(r_s, objects, prev_y, p, step) is Advancing),
{
}

/// The step is a fiftieth of the base step at or inside the horizon, and
/// the whole base step beyond the near-horizon band.
pub proof fn lemma_step_size_range(base: nat, r: nat, r_s: nat)
    requires
        0 < r_s,
    ensures
        r <= r_s ==> step_size_spec(base, r, r_s) == base / 50,
        r >= 6 * r_s ==> step_size_spec(base, r, r_s) == base,
{
    let den: int = 500 * r_s as int;
    if r <= r_s {
        assert(base * (10 * r_s + 98 * 0) == (base / 50) * den + (base % 50) * (10 * r_s))
            by (nonlinear_arith)
            requires
                den == 500 * r_s,
        ;
        assert((base % 50) * (10 * r_s) < den) by (nonlinear_arith)
            requires
                den == 500 * r_s,
                r_s > 0,
                base % 50 < 50,
        ;
        assert(0 <= (base % 50) * (10 * r_s)) by (nonlinear_arith);
        lemma_fundamental_div_mod_converse(
            (base * (10 * r_s + 98 * 0)) as int,
            den,
            (base / 50) as int,
            ((base % 50) * (10 * r_s)) as int,
        );
    }
    if r >= 6 * r_s {
        assert(proximity(r, r_s) == 5 * r_s);
        assert(base * (10 * r_s + 98 * (5 * r_s)) == base * den) by (nonlinear_arith)
            requires
                den == 500 * r_s,
        ;
        lemma_fundamental_div_mod_converse((base * den) as int, den, base as int, 0);
    }
}

/// Across the disk the colour ramps monotonically towards the outer edge:
/// green never falls and blue never rises as the radius grows.
pub proof fn lemma_disk_ramp_monotone(r_s: nat, radius1: nat, radius2: nat)
    requires
        r_s > 0,
        disk_radius_ok(r_s, radius1),
        disk_radius_ok(r_s, radius2),
        radius1 <= radius2,
    ensures
        disk_green(r_s, radius1) <= disk_green(r_s, radius2),
        disk_blue(r_s, radius1) >= disk_blue(r_s, radius2),
{
    let den: int = 30 * r_s as int;
    let n1: int = ramp_num(r_s, radius1);
    let n2: int = ramp_num(r_s, radius2);
    assert(255 * (55 * den + 45 * n1) <= 255 * (55 * den + 45 * n2));
    assert(255 * (den - n2) <= 255 * (den - n1));
    assert(0 <= 255 * (den - n2));
    vstd::arithmetic::div_mod::lemma_div_is_ordered(
        255 * (55 * den + 45 * n1),
        255 * (55 * den + 45 * n2),
        100 * den,
    );
    vstd::arithmetic::div_mod::lemma_div_is_ordered(255 * (den - n2), 255 * (den - n1), 10 * den);
}

} // verus!
