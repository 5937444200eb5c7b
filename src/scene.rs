//! Bodies of the scene and the Flamm-paraboloid warp that each adds to the
//! reference grid.

use vstd::prelude::*;
use crate::isqrt::{floor_sqrt, isqrt, lemma_floor_sqrt_below, lemma_floor_sqrt_is};
use crate::mass::{rs_of, schwarzschild_radius, BH_MASS, WORLD_LIMIT};

verus! {

/// Fixed vertical reference offset, in metres, between a body and the grid
/// plane when measuring the distance that enters the warp.
pub const GRID_Y_SHIFT: i64 = -30000000000;

/// Bound on any Schwarzschild radius in metres that a `u128` mass gives.
pub const RS_LIMIT: u64 = 0x100_0000_0000;

/// Bound on the warp that one body adds, in metres.
pub const WARP_LIMIT: u128 = 0x8000_0000_0000;

/// A point of the world, in whole metres.
#[derive(Clone, Copy, Debug, PartialEq, Eq, Structural)]
pub struct Point3 {
    pub x: i64,
    pub y: i64,
    pub z: i64,
}

/// An 8-bit colour without alpha.
#[derive(Clone, Copy, Debug, PartialEq, Eq, Structural)]
pub struct Rgb {
    pub r: u8,
    pub g: u8,
    pub b: u8,
}

pub open spec fn in_world(v: int) -> bool {
    -WORLD_LIMIT <= v <= WORLD_LIMIT
}

impl Point3 {
    pub open spec fn in_world(&self) -> bool {
        in_world(self.x as int) && in_world(self.y as int) && in_world(self.z as int)
    }
}

/// Height that a body of horizon radius `r_s` adds to the grid at horizontal
/// offset `(dx, dz)` from it: `2 sqrt(r_s (dist - r_s))`, where `dist` is
/// clamped up to `r_s` so that the region under the horizon stays flat.
pub open spec fn flamm_spec(r_s: nat, dx: int, dz: int) -> nat {
    let dist = floor_sqrt((dx * dx + GRID_Y_SHIFT * GRID_Y_SHIFT + dz * dz) as nat);
    let d = if dist < r_s { r_s } else { dist };
    2 * floor_sqrt((r_s * (d - r_s)) as nat)
}

proof fn lemma_square_bound(v: int)
    requires
        -0x8_0000_0000_0000 <= v <= 0x8_0000_0000_0000,
    ensures
        0 <= v * v <= 0x8_0000_0000_0000 * 0x8_0000_0000_0000,
{
    assert(0 <= v * v <= 0x8_0000_0000_0000 * 0x8_0000_0000_0000) by (nonlinear_arith)
        requires
            -0x8_0000_0000_0000 <= v <= 0x8_0000_0000_0000,
    ;
}

/// Warp height of one body at offset `(dx, dz)` from it, in metres.
pub fn flamm_height(r_s: u64, dx: i64, dz: i64) -> (h: u128)
    requires
        -2 * WORLD_LIMIT <= dx <= 2 * WORLD_LIMIT,
        -2 * WORLD_LIMIT <= dz <= 2 * WORLD_LIMIT,
    ensures
        h == flamm_spec(r_s as nat, dx as int, dz as int),
        h <= 2 * u64::MAX,
        r_s < RS_LIMIT ==> h < WARP_LIMIT,
{
    proof {
        lemma_square_bound(dx as int);
        lemma_square_bound(dz as int);
        lemma_square_bound(GRID_Y_SHIFT as int);
    }
    let dx2: i128 = dx as i128 * dx as i128;
    let dz2: i128 = dz as i128 * dz as i128;
    let dy2: i128 = GRID_Y_SHIFT as i128 * GRID_Y_SHIFT as i128;
    let dist: u64 = isqrt((dx2 + dy2 + dz2) as u128);
    let d: u64 = if dist < r_s { r_s } else { dist };
    let gap: u128 = (d - r_s) as u128;
    assert(r_s as u128 * gap <= u128::MAX) by (nonlinear_arith)
        requires
            r_s <= u64::MAX,
            gap <= u64::MAX,
    ;
    let s: u64 = isqrt(r_s as u128 * gap);
    proof {
        let n = (dx2 + dy2 + dz2) as nat;
        assert(n < 0x10_0000 * 0x10_0000_0000_0000 * 0x10_0000_0000_0000);
        lemma_floor_sqrt_below(n, dist as nat, 0x10_0000_0000_0000);
        if r_s < RS_LIMIT {
            assert(r_s as u128 * gap < 0x1000_0000_0000_0000_0000_0000) by (nonlinear_arith)
                requires
                    r_s < 0x100_0000_0000u64,
                    gap < 0x10_0000_0000_0000u128,
            ;
            lemma_floor_sqrt_below(
                (r_s as u128 * gap) as nat,
                s as nat,
                0x4000_0000_0000,
            );
        }
    }
    2 * s as u128
}

/// Inside a horizon the warp is flat: it equals its value at the horizon
/// itself, zero, and is never undefined.
pub proof fn lemma_warp_flat_inside_horizon(r_s: nat, dx: int, dz: int)
    requires
        floor_sqrt((dx * dx + GRID_Y_SHIFT * GRID_Y_SHIFT + dz * dz) as nat) < r_s,
    ensures
        flamm_spec(r_s, dx, dz) == 2 * floor_sqrt((r_s * (r_s - r_s)) as nat),
        flamm_spec(r_s, dx, dz) == 0,
{
    assert(r_s * (r_s - r_s) == 0) by (nonlinear_arith);
    assert(crate::isqrt::is_floor_sqrt(0, 0)) by (nonlinear_arith);
    lemma_floor_sqrt_is(0, 0);
}

/// The central black hole, on the grid plane at `(x, z)`.
pub struct BlackHole {
    pub x: i64,
    pub z: i64,
    pub mass: u128,
    pub r_s: u64,
}

impl BlackHole {
    pub open spec fn wf(&self) -> bool {
        &&& in_world(self.x as int)
        &&& in_world(self.z as int)
        &&& self.mass > 0
        &&& self.r_s as nat == rs_of(self.mass as nat)
        &&& self.r_s < RS_LIMIT
    }

    /// The black hole of the scene, at the origin.
    pub fn new() -> (bh: Self)
        ensures
            bh.wf(),
            bh.x == 0,
            bh.z == 0,
            bh.mass == BH_MASS,
            bh.r_s as nat == rs_of(BH_MASS as nat),
    {
        let r_s = schwarzschild_radius(BH_MASS);
        BlackHole { x: 0, z: 0, mass: BH_MASS, r_s }
    }

    /// Grid height at `(x, z)` due to this black hole: the reference shift
    /// plus its warp.
    pub fn warp_y(&self, x: i64, z: i64) -> (y: i128)
        requires
            self.wf(),
            in_world(x as int),
            in_world(z as int),
        ensures
            y == GRID_Y_SHIFT + flamm_spec(self.r_s as nat, x - self.x, z - self.z),
            GRID_Y_SHIFT <= y < GRID_Y_SHIFT + WARP_LIMIT,
    {
        let h = flamm_height(self.r_s, x - self.x, z - self.z);
        GRID_Y_SHIFT as i128 + h as i128
    }
}

/// A further mass that only warps the grid, on the grid plane at `(x, z)`.
pub struct GridObject {
    pub x: i64,
    pub z: i64,
    pub mass: u128,
}

impl GridObject {
    pub open spec fn wf(&self) -> bool {
        in_world(self.x as int) && in_world(self.z as int) && self.mass > 0
    }

    fn r_s(&self) -> (r: u64)
        ensures
            r as nat == rs_of(self.mass as nat),
    {
        schwarzschild_radius(self.mass)
    }

    /// Warp that this body adds to the grid height at `(world_x, world_z)`.
    pub fn warp_contribution(&self, world_x: i64, world_z: i64) -> (h: u128)
        requires
            self.wf(),
            in_world(world_x as int),
            in_world(world_z as int),
        ensures
            h == flamm_spec(rs_of(self.mass as nat), world_x - self.x, world_z - self.z),
            h < WARP_LIMIT,
    {
        let r_s = self.r_s();
        flamm_height(r_s, world_x - self.x, world_z - self.z)
    }
}

/// A visible sphere of the scene, which also warps the grid by its mass.
/// `radius` is its visual size, not its Schwarzschild radius.
pub struct SceneObject {
    pub position: Point3,
    pub radius: u64,
    pub mass: u128,
    pub color: Rgb,
}

impl SceneObject {
    pub open spec fn wf(&self) -> bool {
        &&& self.position.in_world()
        &&& 0 < self.radius <= WORLD_LIMIT
        &&& self.mass > 0
    }

    /// Whether this body may enter the scene: in the world, with a positive
    /// mass and a positive visual radius within the world bound.
    pub fn is_wf(&self) -> (b: bool)
        ensures
            b == self.wf(),
    {
        let p = self.position;
        -WORLD_LIMIT <= p.x && p.x <= WORLD_LIMIT && -WORLD_LIMIT <= p.y && p.y <= WORLD_LIMIT
            && -WORLD_LIMIT <= p.z && p.z <= WORLD_LIMIT && 0 < self.radius && self.radius
            <= WORLD_LIMIT as u64 && self.mass > 0
    }

    /// Schwarzschild radius of this body, in metres.
    pub fn r_s(&self) -> (r: u64)
        ensures
            r as nat == rs_of(self.mass as nat),
    {
        schwarzschild_radius(self.mass)
    }

    pub fn new(position: Point3, visual_radius: u64, mass: u128, color: Rgb) -> (o: Self)
        requires
            position.in_world(),
            0 < visual_radius <= WORLD_LIMIT,
            mass > 0,
        ensures
            o.wf(),
            o.position == position,
            o.radius == visual_radius,
            o.mass == mass,
            o.color == color,
    {
        SceneObject { position, radius: visual_radius, mass, color }
    }

    /// Warp that this body adds to the grid height at `(world_x, world_z)`.
    pub fn warp_contribution(&self, world_x: i64, world_z: i64) -> (h: u128)
        requires
            self.wf(),
            in_world(world_x as int),
            in_world(world_z as int),
        ensures
            h == flamm_spec(
                rs_of(self.mass as nat),
                world_x - self.position.x,
                world_z - self.position.z,
            ),
            h < WARP_LIMIT,
    {
        let r_s = self.r_s();
        flamm_height(r_s, world_x - self.position.x, world_z - self.position.z)
    }
}

/// The two stars of the default scene.
pub fn scene_objects() -> (v: Vec<SceneObject>)
    ensures
        v@.len() == 2,
        forall|i: int| 0 <= i < 2 ==> (#[trigger] v@[i]).wf(),
        v@[0].position.x == -300000000000,
        v@[0].position.y == 100000000000,
        v@[0].position.z == 200000000000,
        v@[0].color == (Rgb { r: 255, g: 255, b: 0 }),
        v@[1].position.x == -300000000000,
        v@[1].position.y == 0,
        v@[1].position.z == -100000000000,
        v@[1].color == (Rgb { r: 0, g: 128, b: 255 }),
        forall|i: int| 0 <= i < 2 ==> (#[trigger] v@[i]).radius == 40000000000,
        forall|i: int| 0 <= i < 2 ==> (#[trigger] v@[i]).mass == 2000000000000000000000000000000,
{
    let yellow = SceneObject::new(
        Point3 { x: -300000000000, y: 100000000000, z: 200000000000 },
        40000000000,
        2000000000000000000000000000000,
        Rgb { r: 255, g: 255, b: 0 },
    );
    let blue = SceneObject::new(
        Point3 { x: -300000000000, y: 0, z: -100000000000 },
        40000000000,
        2000000000000000000000000000000,
        Rgb { r: 0, g: 128, b: 255 },
    );
    vec![yellow, blue]
}

} // verus!
