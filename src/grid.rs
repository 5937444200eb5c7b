//! The warped reference grid: a square lattice of vertices whose heights
//! are the summed warp of every mass, and the line list of its wireframe.

use vstd::prelude::*;
use crate::mass::{rs_of, WORLD_LIMIT};
use crate::scene::{
    flamm_spec, in_world, BlackHole, SceneObject, GRID_Y_SHIFT, WARP_LIMIT,
};

verus! {

/// Number of lattice cells along each side of the default grid.
pub const GRID_SIZE: u32 = 25;

/// Distance between neighbouring lattice points of the default grid, metres.
pub const SPACING: u64 = 10000000000;

/// Vertical offset that keeps the paraboloid vertex near a chosen height.
pub const WARP_OFFSET: i64 = -91000000000;

/// A vertex of the grid mesh, in metres.
#[derive(Clone, Copy, Debug, PartialEq, Eq, Structural)]
pub struct GridVertex {
    pub x: i64,
    pub y: i128,
    pub z: i64,
}

/// Summed warp of `objects` at `(wx, wz)`.
pub open spec fn objects_warp(objects: Seq<SceneObject>, wx: int, wz: int) -> int
    decreases objects.len(),
{
    if objects.len() == 0 {
        0
    } else {
        let o = objects.last();
        objects_warp(objects.drop_last(), wx, wz) + flamm_spec(
            rs_of(o.mass as nat),
            wx - o.position.x,
            wz - o.position.z,
        )
    }
}

/// Height of the warp field at `(wx, wz)`: the black hole's shifted warp plus
/// the warp of every scene body.
pub open spec fn warp_height_spec(bh: BlackHole, objects: Seq<SceneObject>, wx: int, wz: int) -> int {
    GRID_Y_SHIFT + flamm_spec(bh.r_s as nat, wx - bh.x, wz - bh.z) + objects_warp(objects, wx, wz)
}

pub open spec fn objects_wf(objects: Seq<SceneObject>) -> bool {
    forall|i: int| 0 <= i < objects.len() ==> (#[trigger] objects[i]).wf()
}

/// Height of the warp field at `(x, z)`.
pub fn warp_height(bh: &BlackHole, objects: &Vec<SceneObject>, x: i64, z: i64) -> (y: i128)
    requires
        bh.wf(),
        objects_wf(objects@),
        in_world(x as int),
        in_world(z as int),
    ensures
        y == warp_height_spec(*bh, objects@, x as int, z as int),
        -WARP_LIMIT <= y - GRID_Y_SHIFT <= (objects@.len() + 1) * WARP_LIMIT,
{
    let mut y: i128 = bh.warp_y(x, z);
    let mut i: usize = 0;
    while i < objects.len()
        invariant
            bh.wf(),
            objects_wf(objects@),
            in_world(x as int),
            in_world(z as int),
            0 <= i <= objects@.len(),
            y == GRID_Y_SHIFT + flamm_spec(bh.r_s as nat, x - bh.x, z - bh.z) + objects_warp(
                objects@.take(i as int),
                x as int,
                z as int,
            ),
            0 <= y - GRID_Y_SHIFT <= (i + 1) * WARP_LIMIT,
        decreases objects@.len() - i,
    {
        proof {
            assert(objects@[i as int].wf());
        }
        let h = objects[i].warp_contribution(x, z);
        proof {
            let next = objects@.take(i + 1);
            assert(next.drop_last() =~= objects@.take(i as int));
            assert(next.last() == objects@[i as int]);
            assert(objects_warp(next, x as int, z as int) == objects_warp(
                objects@.take(i as int),
                x as int,
                z as int,
            ) + h);
        }
        y = y + h as i128;
        i = i + 1;
    }
    proof {
        assert(objects@.take(objects@.len() as int) =~= objects@);
    }
    y
}

/// World coordinate of lattice column (or row) `c` of a grid of `n` cells
/// with spacing `spacing`, centred on the origin.
pub open spec fn lattice_coord(n: nat, spacing: nat, c: nat) -> int {
    (c - n / 2) * spacing
}

/// Vertex `j` of the grid, in row-major order with `n + 1` vertices per row.
pub open spec fn grid_vertex_spec(
    bh: BlackHole,
    objects: Seq<SceneObject>,
    n: nat,
    spacing: nat,
    j: nat,
) -> GridVertex {
    let wx = lattice_coord(n, spacing, j % (n + 1));
    let wz = lattice_coord(n, spacing, j / (n + 1));
    GridVertex {
        x: wx as i64,
        y: (warp_height_spec(bh, objects, wx, wz) + WARP_OFFSET) as i128,
        z: wz as i64,
    }
}

/// Number of edges of each direction in the wireframe of an `n`-cell grid.
pub open spec fn edges_per_direction(n: nat) -> nat {
    n * (n + 1)
}

/// Entry `j` of the line list, two entries to a segment. First every
/// segment from a lattice point to its `+x` neighbour, row by row; then every
/// segment from a lattice point to its `+z` neighbour, in vertex order.
pub open spec fn grid_index_spec(n: nat, j: nat) -> nat {
    let h = edges_per_direction(n);
    let e = j / 2;
    if e < h {
        let k = (e / n) * (n + 1) + e % n;
        if j % 2 == 0 {
            k
        } else {
            k + 1
        }
    } else {
        let k = (e - h) as nat;
        if j % 2 == 0 {
            k
        } else {
            k + n + 1
        }
    }
}

proof fn lemma_lattice_bound(n: nat, spacing: nat, c: nat)
    requires
        c <= n,
        n * spacing <= WORLD_LIMIT,
    ensures
        in_world(lattice_coord(n, spacing, c)),
        -(n as int) <= c - n / 2 <= n,
{
    let k = c - n / 2;
    assert(-(n as int) <= k <= n);
    assert(-(n * spacing) <= k * spacing <= n * spacing) by (nonlinear_arith)
        requires
            -(n as int) <= k <= n,
    ;
}

/// The vertices of an `(n + 1) x (n + 1)` lattice, heights from the warp field.
pub fn grid_vertices(bh: &BlackHole, objects: &Vec<SceneObject>, n: u32, spacing: u64) -> (v: Vec<GridVertex>)
    requires
        bh.wf(),
        objects_wf(objects@),
        n * spacing <= WORLD_LIMIT,
        spacing <= WORLD_LIMIT,
        (n + 1) * (n + 1) <= u32::MAX,
    ensures
        v@.len() == (n + 1) * (n + 1),
        forall|j: int|
            0 <= j < v@.len() ==> #[trigger] v@[j] == grid_vertex_spec(
                *bh,
                objects@,
                n as nat,
                spacing as nat,
                j as nat,
            ),
{
    assert(n + 1 <= (n + 1) * (n + 1)) by (nonlinear_arith);
    let total: u32 = (n + 1) * (n + 1);
    let half: i64 = (n / 2) as i64;
    let n_objects: usize = objects.len();
    let mut v: Vec<GridVertex> = Vec::new();
    let mut k: u32 = 0;
    while k < total
        invariant
            bh.wf(),
            objects_wf(objects@),
            n * spacing <= WORLD_LIMIT,
            spacing <= WORLD_LIMIT,
            n + 1 <= total,
            total == (n + 1) * (n + 1),
            half == n / 2,
            n_objects == objects@.len(),
            k <= total,
            v@.len() == k,
            forall|j: int|
                0 <= j < k ==> #[trigger] v@[j] == grid_vertex_spec(
                    *bh,
                    objects@,
                    n as nat,
                    spacing as nat,
                    j as nat,
                ),
        decreases total - k,
    {
        let col: u32 = k % (n + 1);
        let row: u32 = k / (n + 1);
        proof {
            assert(row <= n) by (nonlinear_arith)
                requires
                    row as int == k as int / (n as int + 1),
                    k < (n as int + 1) * (n as int + 1),
            ;
            lemma_lattice_bound(n as nat, spacing as nat, col as nat);
            lemma_lattice_bound(n as nat, spacing as nat, row as nat);
        }
        proof {
            let kx = col as int - half as int;
            let kz = row as int - half as int;
            assert(-(n * spacing) <= kx * spacing <= n * spacing) by (nonlinear_arith)
                requires
                    -(n as int) <= kx <= n,
            ;
            assert(-(n * spacing) <= kz * spacing <= n * spacing) by (nonlinear_arith)
                requires
                    -(n as int) <= kz <= n,
            ;
        }
        let wx: i64 = (col as i64 - half) * spacing as i64;
        let wz: i64 = (row as i64 - half) * spacing as i64;
        let h: i128 = warp_height(bh, objects, wx, wz);
        proof {
            assert(objects@.len() + 1 <= usize::MAX + 1);
            assert((objects@.len() + 1) * WARP_LIMIT <= (usize::MAX + 1) * WARP_LIMIT)
                by (nonlinear_arith)
                requires
                    objects@.len() + 1 <= usize::MAX + 1,
            ;
        }
        let vert = GridVertex { x: wx, y: h + WARP_OFFSET as i128, z: wz };
        v.push(vert);
        k = k + 1;
    }
    v
}

/// The line list of the wireframe of an `(n + 1) x (n + 1)` lattice: each
/// lattice point joined to its `+x` and to its `+z` neighbour, where it has one.
pub fn grid_line_indices(n: u32) -> (idx: Vec<u32>)
    requires
        (n + 1) * (n + 1) <= u32::MAX,
    ensures
        idx@.len() == 4 * edges_per_direction(n as nat),
        forall|j: int| 0 <= j < idx@.len() ==> #[trigger] idx@[j] == grid_index_spec(n as nat, j as nat),
{
    assert(n * (n + 1) + n + 1 == (n + 1) * (n + 1)) by (nonlinear_arith);
    let h: u32 = n * (n + 1);
    let mut idx: Vec<u32> = Vec::new();
    let mut e: u32 = 0;
    while e < h
        invariant
            h == edges_per_direction(n as nat),
            h + n + 1 == (n + 1) * (n + 1),
            (n + 1) * (n + 1) <= u32::MAX,
            e <= h,
            idx@.len() == 2 * e,
            forall|j: int| 0 <= j < idx@.len() ==> #[trigger] idx@[j] == grid_index_spec(n as nat, j as nat),
        decreases h - e,
    {
        assert(n > 0) by (nonlinear_arith)
            requires
                e < h,
                h == n * (n + 1),
        ;
        let row: u32 = e / n;
        let col: u32 = e % n;
        proof {
            assert(row < n + 1 && col < n) by (nonlinear_arith)
                requires
                    row as int == e as int / n as int,
                    col as int == e as int % n as int,
                    e < n * (n + 1),
                    n > 0,
            ;
            assert(row * (n + 1) + col + 1 < (n + 1) * (n + 1)) by (nonlinear_arith)
                requires
                    row < n + 1,
                    col < n,
            ;
        }
        let k: u32 = row * (n + 1) + col;
        let len0 = idx.len();
        idx.push(k);
        idx.push(k + 1);
        proof {
            assert forall|j: int| 0 <= j < idx@.len() implies #[trigger] idx@[j] == grid_index_spec(
                n as nat,
                j as nat,
            ) by {
                if j >= len0 {
                    assert(j / 2 == e);
                }
            }
        }
        e = e + 1;
    }
    let mut k: u32 = 0;
    while k < h
        invariant
            h == edges_per_direction(n as nat),
            h + n + 1 == (n + 1) * (n + 1),
            (n + 1) * (n + 1) <= u32::MAX,
            k <= h,
            idx@.len() == 2 * h + 2 * k,
            forall|j: int| 0 <= j < idx@.len() ==> #[trigger] idx@[j] == grid_index_spec(n as nat, j as nat),
        decreases h - k,
    {
        let len0 = idx.len();
        idx.push(k);
        idx.push(k + n + 1);
        proof {
            assert forall|j: int| 0 <= j < idx@.len() implies #[trigger] idx@[j] == grid_index_spec(
                n as nat,
                j as nat,
            ) by {
                if j >= len0 {
                    assert(j / 2 == h + k);
                }
            }
        }
        k = k + 1;
    }
    idx
}

/// Every entry of the line list names a vertex of the lattice.
pub proof fn lemma_grid_indices_in_range(n: nat, j: nat)
    requires
        j < 4 * edges_per_direction(n),
    ensures
        grid_index_spec(n, j) < (n + 1) * (n + 1),
{
    let h = edges_per_direction(n);
    assert(h + n + 1 == (n + 1) * (n + 1)) by (nonlinear_arith)
        requires
            h == n * (n + 1),
    ;
    let e = j / 2;
    if e < h {
        assert(n > 0) by (nonlinear_arith)
            requires
                e < h,
                h == n * (n + 1),
        ;
        let row = e / n;
        let col = e % n;
        assert(row < n + 1 && col < n) by (nonlinear_arith)
            requires
                row == e / n,
                col == e % n,
                e < n * (n + 1),
                n > 0,
        ;
        assert(row * (n + 1) + col + 1 < (n + 1) * (n + 1)) by (nonlinear_arith)
            requires
                row < n + 1,
                col < n,
        ;
    }
}

/// The wireframe is complete: for every lattice point `(x, z)`, numbered
/// `k = z (n + 1) + x`, the segment to its `+x` neighbour stands in the line
/// list where `x < n`, and the segment to its `+z` neighbour where `z < n`.
pub proof fn lemma_grid_edges_complete(n: nat, x: nat, z: nat)
    requires
        x <= n,
        z <= n,
    ensures
        x < n ==> grid_index_spec(n, 2 * (z * n + x)) == z * (n + 1) + x
            && grid_index_spec(n, 2 * (z * n + x) + 1) == z * (n + 1) + x + 1
            && 2 * (z * n + x) + 1 < 4 * edges_per_direction(n),
        z < n ==> grid_index_spec(n, 2 * (edges_per_direction(n) + z * (n + 1) + x)) == z * (n
            + 1) + x && grid_index_spec(n, 2 * (edges_per_direction(n) + z * (n + 1) + x) + 1)
            == z * (n + 1) + x + n + 1 && 2 * (edges_per_direction(n) + z * (n + 1) + x) + 1 < 4
            * edges_per_direction(n),
{
    let h = edges_per_direction(n);
    if x < n {
        let e = z * n + x;
        assert(e < h) by (nonlinear_arith)
            requires
                e == z * n + x,
                x < n,
                z <= n,
                h == n * (n + 1),
        ;
        vstd::arithmetic::div_mod::lemma_fundamental_div_mod_converse(e as int, n as int, z as int, x as int);
        assert((2 * e) / 2 == e && (2 * e + 1) / 2 == e);
        assert((2 * e) % 2 == 0 && (2 * e + 1) % 2 == 1);
    }
    if z < n {
        let k = z * (n + 1) + x;
        assert(k < h) by (nonlinear_arith)
            requires
                k == z * (n + 1) + x,
                x <= n,
                z < n,
                h == n * (n + 1),
        ;
        let e = h + k;
        assert((2 * e) / 2 == e && (2 * e + 1) / 2 == e);
        assert((2 * e) % 2 == 0 && (2 * e + 1) % 2 == 1);
    }
}

/// The default grid: `GRID_SIZE` cells a side at `SPACING`, its vertices
/// and its line list.
pub fn generate_grid(bh: &BlackHole, objects: &Vec<SceneObject>) -> (r: (Vec<GridVertex>, Vec<u32>))
    requires
        bh.wf(),
        objects_wf(objects@),
    ensures
        r.0@.len() == (GRID_SIZE + 1) * (GRID_SIZE + 1),
        forall|j: int|
            0 <= j < r.0@.len() ==> #[trigger] r.0@[j] == grid_vertex_spec(
                *bh,
                objects@,
                GRID_SIZE as nat,
                SPACING as nat,
                j as nat,
            ),
        r.1@.len() == 4 * edges_per_direction(GRID_SIZE as nat),
        forall|j: int| 0 <= j < r.1@.len() ==> #[trigger] r.1@[j] == grid_index_spec(GRID_SIZE as nat, j as nat),
{
    let vertices = grid_vertices(bh, objects, GRID_SIZE, SPACING);
    let indices = grid_line_indices(GRID_SIZE);
    (vertices, indices)
}

} // verus!
