//! Triangle index lists of the scene meshes. The vertex positions are
//! floating point and computed by the renderer; these lists say which
//! vertices form each triangle, in the order the renderer emits them.
use vstd::prelude::*;

verus! {

/// The number of vertices of a UV sphere: `rings + 1` latitude rows of
/// `sectors + 1` vertices each.
pub open spec fn sphere_vertex_count(rings: int, sectors: int) -> int {
    (rings + 1) * (sectors + 1)
}

/// Where corner `j` of the quad at latitude band `r`, longitude slice `s`
/// stands in the index list.
pub open spec fn quad_slot(sectors: int, r: int, s: int, j: int) -> int {
    6 * (r * sectors + s) + j
}

/// Corner `j` of the quad at band `r`, slice `s`: two triangles
/// `(a, b, a + 1)` and `(b, b + 1, a + 1)`, where `a` is the vertex at
/// row `r`, column `s` and `b` the one below it.
pub open spec fn sphere_corner(sectors: int, r: int, s: int, j: int) -> int {
    let a = r * (sectors + 1) + s;
    let b = a + sectors + 1;
    if j == 0 {
        a
    } else if j == 1 {
        b
    } else if j == 2 {
        a + 1
    } else if j == 3 {
        b
    } else if j == 4 {
        b + 1
    } else {
        a + 1
    }
}

proof fn lemma_sphere_corner_bounds(rings: int, sectors: int, r: int, s: int, j: int)
    requires
        0 <= r < rings,
        0 <= s < sectors,
        0 <= j < 6,
    ensures
        0 <= sphere_corner(sectors, r, s, j) < sphere_vertex_count(rings, sectors),
        sphere_corner(sectors, r, s, j) <= (r + 1) * (sectors + 1) + s + 1,
{
    assert((r + 1) * (sectors + 1) + s + 1 < (rings + 1) * (sectors + 1)) by (nonlinear_arith)
        requires
            0 <= r < rings,
            0 <= s < sectors,
    ;
    assert(0 <= r * (sectors + 1)) by (nonlinear_arith)
        requires
            0 <= r,
            0 <= s < sectors,
    ;
    assert((r + 1) * (sectors + 1) == r * (sectors + 1) + sectors + 1) by (nonlinear_arith);
}

proof fn lemma_slot_step(sectors: int, r: int, s: int)
    requires
        0 <= r,
        0 <= s < sectors,
    ensures
        quad_slot(sectors, r, s, 0) == 6 * (r * sectors + s),
        s + 1 == sectors ==> 6 * (r * sectors + s + 1) == 6 * ((r + 1) * sectors),
        0 <= r * sectors + s,
{
    assert((r + 1) * sectors == r * sectors + sectors) by (nonlinear_arith);
    assert(0 <= r * sectors) by (nonlinear_arith)
        requires
            0 <= r,
            0 <= sectors,
    ;
}

proof fn lemma_slot_order(sectors: int, r1: int, s1: int, r2: int, s2: int)
    requires
        0 <= r1,
        0 <= s1 < sectors,
        0 <= r2,
        0 <= s2 < sectors,
        r1 < r2 || (r1 == r2 && s1 < s2),
    ensures
        r1 * sectors + s1 < r2 * sectors + s2,
{
    if r1 < r2 {
        assert(r1 * sectors + s1 < r2 * sectors + s2) by (nonlinear_arith)
            requires
                0 <= r1 < r2,
                0 <= s1 < sectors,
                0 <= s2,
        ;
    }
}

/// The index list of a UV sphere with `rings` latitude bands and `sectors`
/// longitude slices: six indices per quad, quads in row order.
pub fn sphere_indices(rings: u32, sectors: u32) -> (idx: Vec<u32>)
    requires
        sphere_vertex_count(rings as int, sectors as int) <= u32::MAX + 1,
    ensures
        idx@.len() == 6 * (rings * sectors),
        forall|r: int, s: int, j: int|
            0 <= r < rings && 0 <= s < sectors && 0 <= j < 6 ==> idx@[quad_slot(
                sectors as int,
                r,
                s,
                j,
            )] == sphere_corner(sectors as int, r, s, j),
        forall|k: int|
            0 <= k < idx@.len() ==> idx@[k] < sphere_vertex_count(rings as int, sectors as int),
{
    let ghost n = sectors as int;
    let ghost vc = sphere_vertex_count(rings as int, sectors as int);
    let mut idx: Vec<u32> = Vec::new();
    let mut r: u32 = 0;
    while r < rings
        invariant
            r <= rings,
            n == sectors,
            vc == sphere_vertex_count(rings as int, sectors as int),
            vc <= u32::MAX + 1,
            idx@.len() == 6 * (r * n),
            forall|r2: int, s2: int, j: int|
                0 <= r2 < r && 0 <= s2 < n && 0 <= j < 6 ==> idx@[quad_slot(n, r2, s2, j)]
                    == sphere_corner(n, r2, s2, j),
            forall|k: int| 0 <= k < idx@.len() ==> idx@[k] < vc,
        decreases rings - r,
    {
        let mut s: u32 = 0;
        proof {
            assert(6 * (r * n + 0) == 6 * (r * n));
        }
        while s < sectors
            invariant
                r < rings,
                s <= sectors,
                n == sectors,
                vc == sphere_vertex_count(rings as int, sectors as int),
                vc <= u32::MAX + 1,
                idx@.len() == 6 * (r * n + s),
                forall|r2: int, s2: int, j: int|
                    0 <= r2 && 0 <= s2 < n && 0 <= j < 6 && (r2 < r || (r2 == r && s2 < s))
                        ==> idx@[quad_slot(n, r2, s2, j)] == sphere_corner(n, r2, s2, j),
                forall|k: int| 0 <= k < idx@.len() ==> idx@[k] < vc,
            decreases sectors - s,
        {
            proof {
                lemma_sphere_corner_bounds(rings as int, n, r as int, s as int, 0);
                lemma_sphere_corner_bounds(rings as int, n, r as int, s as int, 4);
                lemma_slot_step(n, r as int, s as int);
            }
            let a: u32 = r * (sectors + 1) + s;
            let b: u32 = a + sectors + 1;
            let ghost base = idx@.len() as int;
            let ghost before = idx@;
            idx.push(a);
            idx.push(b);
            idx.push(a + 1);
            idx.push(b);
            idx.push(b + 1);
            idx.push(a + 1);
            proof {
                assert forall|j: int| 0 <= j < 6 implies idx@[quad_slot(n, r as int, s as int, j)]
                    == sphere_corner(n, r as int, s as int, j) by {
                    lemma_sphere_corner_bounds(rings as int, n, r as int, s as int, j);
                }
                assert forall|r2: int, s2: int, j: int|
                    0 <= r2 && 0 <= s2 < n && 0 <= j < 6 && (r2 < r || (r2 == r && s2 < s + 1))
                        implies idx@[quad_slot(n, r2, s2, j)] == sphere_corner(n, r2, s2, j) by {
                    if r2 < r || (r2 == r && s2 < s) {
                        lemma_slot_order(n, r2, s2, r as int, s as int);
                        assert(idx@[quad_slot(n, r2, s2, j)] == before[quad_slot(n, r2, s2, j)]);
                    }
                }
                assert forall|k: int| 0 <= k < idx@.len() implies idx@[k] < vc by {
                    if k >= base {
                        lemma_sphere_corner_bounds(rings as int, n, r as int, s as int, k - base);
                    }
                }
            }
            s += 1;
        }
        proof {
            assert((r + 1) * n == r * n + n) by (nonlinear_arith);
        }
        r += 1;
    }
    idx
}

/// The number of vertices of a cylinder with `segments` sides: two side
/// rings of `segments + 1`, and for each cap a centre and `segments`
/// rim vertices.
pub open spec fn cylinder_vertex_count(segments: int) -> int {
    4 * segments + 4
}

/// Corner `j` of side quad `i`: triangles `(b, b + 2, b + 1)` and
/// `(b + 1, b + 2, b + 3)` with `b = 2 i` (bottom and top vertex of side
/// column `i`, then those of column `i + 1`).
pub open spec fn cylinder_side_corner(i: int, j: int) -> int {
    let b = 2 * i;
    if j == 0 {
        b
    } else if j == 1 {
        b + 2
    } else if j == 2 {
        b + 1
    } else if j == 3 {
        b + 1
    } else if j == 4 {
        b + 2
    } else {
        b + 3
    }
}

/// Corner `j` of top-cap triangle `i`: the centre, rim vertex `i`, rim
/// vertex `i + 1` (wrapping).
pub open spec fn cylinder_top_corner(segments: int, i: int, j: int) -> int {
    let center = 2 * (segments + 1);
    let start = center + 1;
    if j == 0 {
        center
    } else if j == 1 {
        start + i
    } else {
        start + (i + 1) % segments
    }
}

/// Corner `j` of bottom-cap triangle `i`: the centre, rim vertex `i + 1`
/// (wrapping), rim vertex `i`; the reverse winding of the top cap.
pub open spec fn cylinder_bottom_corner(segments: int, i: int, j: int) -> int {
    let center = 2 * (segments + 1) + 1 + segments;
    let start = center + 1;
    if j == 0 {
        center
    } else if j == 1 {
        start + (i + 1) % segments
    } else {
        start + i
    }
}

/// A vertex of a capped cylinder, by what it is: a side vertex at the
/// bottom or top of side column `c` (columns `0..=segments`, the last one
/// closing the ring), a cap's centre, or rim vertex `k` of a cap.
pub enum CylinderVertex {
    Side { column: int, top: bool },
    TopCenter,
    TopRim(int),
    BottomCenter,
    BottomRim(int),
}

/// Where the renderer stores each cylinder vertex: the side ring first, each
/// column as its bottom vertex then its top vertex; then the top cap's
/// centre and rim; then the bottom cap's centre and rim.
pub open spec fn cylinder_vertex(segments: int, v: CylinderVertex) -> int {
    match v {
        CylinderVertex::Side { column, top } => 2 * column + if top {
            1int
        } else {
            0int
        },
        CylinderVertex::TopCenter => 2 * (segments + 1),
        CylinderVertex::TopRim(k) => 2 * (segments + 1) + 1 + k,
        CylinderVertex::BottomCenter => 2 * (segments + 1) + 1 + segments,
        CylinderVertex::BottomRim(k) => 2 * (segments + 1) + 2 + segments + k,
    }
}

/// The triangles of a capped cylinder, in terms of its vertices. Side quad
/// `i` joins columns `i` and `i + 1`: its first triangle is the bottom of
/// column `i`, the bottom of column `i + 1` and the top of column `i`; its
/// second the top of column `i`, the bottom of column `i + 1` and the top of
/// column `i + 1`. Top-cap triangle `i` is the centre, rim vertex `i` and the
/// next rim vertex around; bottom-cap triangle `i` the centre, the next rim
/// vertex and rim vertex `i`, wound the other way.
pub proof fn lemma_cylinder_triangles(segments: int, i: int)
    requires
        0 <= i < segments,
    ensures
        cylinder_side_corner(i, 0) == cylinder_vertex(
            segments,
            CylinderVertex::Side { column: i, top: false },
        ),
        cylinder_side_corner(i, 1) == cylinder_vertex(
            segments,
            CylinderVertex::Side { column: i + 1, top: false },
        ),
        cylinder_side_corner(i, 2) == cylinder_vertex(
            segments,
            CylinderVertex::Side { column: i, top: true },
        ),
        cylinder_side_corner(i, 3) == cylinder_vertex(
            segments,
            CylinderVertex::Side { column: i, top: true },
        ),
        cylinder_side_corner(i, 4) == cylinder_vertex(
            segments,
            CylinderVertex::Side { column: i + 1, top: false },
        ),
        cylinder_side_corner(i, 5) == cylinder_vertex(
            segments,
            CylinderVertex::Side { column: i + 1, top: true },
        ),
        cylinder_top_corner(segments, i, 0) == cylinder_vertex(segments, CylinderVertex::TopCenter),
        cylinder_top_corner(segments, i, 1) == cylinder_vertex(segments, CylinderVertex::TopRim(i)),
        cylinder_top_corner(segments, i, 2) == cylinder_vertex(
            segments,
            CylinderVertex::TopRim(if i + 1 == segments {
                0
            } else {
                i + 1
            }),
        ),
        cylinder_bottom_corner(segments, i, 0) == cylinder_vertex(
            segments,
            CylinderVertex::BottomCenter,
        ),
        cylinder_bottom_corner(segments, i, 1) == cylinder_vertex(
            segments,
            CylinderVertex::BottomRim(if i + 1 == segments {
                0
            } else {
                i + 1
            }),
        ),
        cylinder_bottom_corner(segments, i, 2) == cylinder_vertex(
            segments,
            CylinderVertex::BottomRim(i),
        ),
{
    if i + 1 == segments {
        assert((i + 1) % segments == 0) by {
            vstd::arithmetic::div_mod::lemma_mod_self_0(segments);
        }
    } else {
        assert((i + 1) % segments == i + 1) by {
            vstd::arithmetic::div_mod::lemma_small_mod((i + 1) as nat, segments as nat);
        }
    }
}

/// The vertices of a UV sphere stored row by row: vertex `(row, col)`,
/// with rows `0..=rings` from pole to pole and columns `0..=sectors`.
pub open spec fn sphere_vertex(sectors: int, row: int, col: int) -> int {
    row * (sectors + 1) + col
}

/// The triangles of a UV sphere, in terms of its vertices: quad `(r, s)`
/// joins rows `r` and `r + 1` and columns `s` and `s + 1`; its first
/// triangle is `(r, s)`, `(r + 1, s)`, `(r, s + 1)`, its second
/// `(r + 1, s)`, `(r + 1, s + 1)`, `(r, s + 1)`.
pub proof fn lemma_sphere_triangles(sectors: int, r: int, s: int)
    requires
        0 <= r,
        0 <= s < sectors,
    ensures
        sphere_corner(sectors, r, s, 0) == sphere_vertex(sectors, r, s),
        sphere_corner(sectors, r, s, 1) == sphere_vertex(sectors, r + 1, s),
        sphere_corner(sectors, r, s, 2) == sphere_vertex(sectors, r, s + 1),
        sphere_corner(sectors, r, s, 3) == sphere_vertex(sectors, r + 1, s),
        sphere_corner(sectors, r, s, 4) == sphere_vertex(sectors, r + 1, s + 1),
        sphere_corner(sectors, r, s, 5) == sphere_vertex(sectors, r, s + 1),
{
    assert((r + 1) * (sectors + 1) == r * (sectors + 1) + sectors + 1) by (nonlinear_arith);
}

/// The index list of a capped cylinder with `segments` sides: six indices
/// per side quad, then three per top-cap triangle, then three per
/// bottom-cap triangle.
pub fn cylinder_indices(segments: u32) -> (idx: Vec<u32>)
    requires
        cylinder_vertex_count(segments as int) <= u32::MAX + 1,
    ensures
        idx@.len() == 12 * segments,
        forall|i: int, j: int|
            0 <= i < segments && 0 <= j < 6 ==> idx@[6 * i + j] == cylinder_side_corner(i, j),
        forall|i: int, j: int|
            0 <= i < segments && 0 <= j < 3 ==> idx@[6 * segments + 3 * i + j]
                == cylinder_top_corner(segments as int, i, j),
        forall|i: int, j: int|
            0 <= i < segments && 0 <= j < 3 ==> idx@[9 * segments + 3 * i + j]
                == cylinder_bottom_corner(segments as int, i, j),
        forall|k: int|
            0 <= k < idx@.len() ==> idx@[k] < cylinder_vertex_count(segments as int),
{
    let ghost n = segments as int;
    let ghost vc = cylinder_vertex_count(n);
    let mut idx: Vec<u32> = Vec::new();
    let mut i: u32 = 0;
    while i < segments
        invariant
            i <= segments,
            n == segments,
            vc == cylinder_vertex_count(n),
            vc <= u32::MAX + 1,
            idx@.len() == 6 * i,
            forall|i2: int, j: int|
                0 <= i2 < i && 0 <= j < 6 ==> idx@[6 * i2 + j] == cylinder_side_corner(i2, j),
            forall|k: int| 0 <= k < idx@.len() ==> idx@[k] < vc,
        decreases segments - i,
    {
        let b: u32 = i * 2;
        idx.push(b);
        idx.push(b + 2);
        idx.push(b + 1);
        idx.push(b + 1);
        idx.push(b + 2);
        idx.push(b + 3);
        i += 1;
    }
    let top_center: u32 = 2 * (segments + 1);
    let top_start: u32 = top_center + 1;
    let mut i: u32 = 0;
    while i < segments
        invariant
            i <= segments,
            n == segments,
            vc == cylinder_vertex_count(n),
            vc <= u32::MAX + 1,
            top_center == 2 * (n + 1),
            top_start == top_center + 1,
            idx@.len() == 6 * n + 3 * i,
            forall|i2: int, j: int|
                0 <= i2 < n && 0 <= j < 6 ==> idx@[6 * i2 + j] == cylinder_side_corner(i2, j),
            forall|i2: int, j: int|
                0 <= i2 < i && 0 <= j < 3 ==> idx@[6 * n + 3 * i2 + j] == cylinder_top_corner(
                    n,
                    i2,
                    j,
                ),
            forall|k: int| 0 <= k < idx@.len() ==> idx@[k] < vc,
        decreases segments - i,
    {
        idx.push(top_center);
        idx.push(top_start + i);
        idx.push(top_start + (i + 1) % segments);
        i += 1;
    }
    let bot_center: u32 = top_start + segments;
    let bot_start: u32 = bot_center + 1;
    let mut i: u32 = 0;
    while i < segments
        invariant
            i <= segments,
            n == segments,
            vc == cylinder_vertex_count(n),
            vc <= u32::MAX + 1,
            bot_center == 2 * (n + 1) + 1 + n,
            bot_start == bot_center + 1,
            idx@.len() == 9 * n + 3 * i,
            forall|i2: int, j: int|
                0 <= i2 < n && 0 <= j < 6 ==> idx@[6 * i2 + j] == cylinder_side_corner(i2, j),
            forall|i2: int, j: int|
                0 <= i2 < n && 0 <= j < 3 ==> idx@[6 * n + 3 * i2 + j] == cylinder_top_corner(
                    n,
                    i2,
                    j,
                ),
            forall|i2: int, j: int|
                0 <= i2 < i && 0 <= j < 3 ==> idx@[9 * n + 3 * i2 + j]
                    == cylinder_bottom_corner(n, i2, j),
            forall|k: int| 0 <= k < idx@.len() ==> idx@[k] < vc,
        decreases segments - i,
    {
        idx.push(bot_center);
        idx.push(bot_start + (i + 1) % segments);
        idx.push(bot_start + i);
        i += 1;
    }
    idx
}

/// The index list of the ground quad: triangles `(0, 1, 2)` and `(0, 2, 3)`
/// over its four corners.
pub fn quad_indices() -> (idx: Vec<u32>)
    ensures
        idx@ == seq![0u32, 1, 2, 0, 2, 3],
{
    let v: Vec<u32> = vec![0, 1, 2, 0, 2, 3];
    v
}

} // verus!
