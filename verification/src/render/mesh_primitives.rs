//! Primitive meshes: which vertices they have, in which order, and how
//! triangles join them.
//!
//! Meshes are Z-up and centred at the origin; triangles wind counter-clockwise
//! seen from outside. The coordinates of curved primitives come from a function
//! that the caller passes in: it gets a place on the primitive and returns the
//! vertex there. The cube, whose coordinates need no arithmetic, is complete.

use super::float_bits::{neg_bits, negate, Bits3};
use super::mesh::PosNormalUv;
use vstd::prelude::*;

verus! {

/// A mesh in memory: vertices, and indices that join them to triangles.
#[derive(Debug, Clone)]
pub struct PrimitiveMesh {
    pub vertices: Vec<PosNormalUv>,
    pub indices: Vec<u32>,
}

/// A place on a grid of vertices.
#[derive(Debug, Clone, Copy, PartialEq, Eq, Structural)]
pub struct GridPoint {
    pub column: u32,
    pub row: u32,
}

/// A place on a cylinder. Ring places run from 0 to the number of segments;
/// the first and the last one coincide in space.
#[derive(Debug, Clone, Copy, PartialEq, Eq, Structural)]
pub enum CylinderPoint {
    /// On the lower edge of the side.
    SideBottom(u32),
    /// On the upper edge of the side.
    SideTop(u32),
    TopCentre,
    TopRing(u32),
    BottomCentre,
    BottomRing(u32),
}

/// A place on a cone.
#[derive(Debug, Clone, Copy, PartialEq, Eq, Structural)]
pub enum ConePoint {
    /// On the lower edge of the slant.
    SlantRing(u32),
    /// The apex, as a corner of one slant triangle.
    Apex(u32),
    BaseCentre,
    BaseRing(u32),
}

/// Which way the two triangles of a quad are cut.
#[derive(Debug, Clone, Copy, PartialEq, Eq, Structural)]
pub enum Cut {
    /// Rows run upwards: planes and cylinder sides.
    Upward,
    /// Rows run from the upper pole down: spheres and capsules.
    Downward,
}

/// The two triangles of the quad whose first corner is `at`, in a grid with
/// `ring` vertices per row.
pub open spec fn quad(at: int, ring: int, cut: Cut) -> Seq<int> {
    match cut {
        Cut::Upward => seq![at, at + 1, at + ring + 1, at, at + ring + 1, at + ring],
        Cut::Downward => seq![at, at + ring + 1, at + 1, at, at + ring, at + ring + 1],
    }
}

/// The first `count` quads of the row of quads that starts at vertex `start`.
pub open spec fn quad_row(start: int, ring: int, count: nat, cut: Cut) -> Seq<int>
    decreases count,
{
    if count == 0 {
        Seq::empty()
    } else {
        quad_row(start, ring, (count - 1) as nat, cut) + quad(start + count - 1, ring, cut)
    }
}

/// `rows` rows of `columns` quads over a grid with one more vertex per row.
pub open spec fn quad_grid(columns: nat, rows: nat, cut: Cut) -> Seq<int>
    decreases rows,
{
    if rows == 0 {
        Seq::empty()
    } else {
        quad_grid(columns, (rows - 1) as nat, cut) + quad_row(
            (rows - 1) * (columns + 1),
            columns as int + 1,
            columns,
            cut,
        )
    }
}

/// `count` triangles from `centre` to the vertices behind `ring`.
pub open spec fn fan(centre: int, ring: int, count: nat, reversed: bool) -> Seq<int>
    decreases count,
{
    if count == 0 {
        Seq::empty()
    } else {
        let a = ring + count - 1;
        fan(centre, ring, (count - 1) as nat, reversed) + (if reversed {
            seq![centre, a + 1, a]
        } else {
            seq![centre, a, a + 1]
        })
    }
}

/// `count` triangles from the first vertices to those behind `apex`.
pub open spec fn slant(apex: int, count: nat) -> Seq<int>
    decreases count,
{
    if count == 0 {
        Seq::empty()
    } else {
        slant(apex, (count - 1) as nat) + seq![count - 1, count as int, apex + count - 1]
    }
}

/// Indices as integers.
pub open spec fn as_ints(indices: Seq<u32>) -> Seq<int> {
    indices.map_values(|i: u32| i as int)
}

/// The vertices of a grid, row by row.
pub open spec fn grid_plan(columns: nat, rows: nat) -> Seq<GridPoint>
    decreases rows,
{
    if rows == 0 {
        Seq::empty()
    } else {
        grid_plan(columns, (rows - 1) as nat) + Seq::new(
            columns,
            |i: int| GridPoint { column: i as u32, row: (rows - 1) as u32 },
        )
    }
}

/// The vertices of a cylinder side: the lower ring, then the upper one.
pub open spec fn side_plan(segments: nat) -> Seq<CylinderPoint> {
    Seq::new(segments + 1, |i: int| CylinderPoint::SideBottom(i as u32)) + Seq::new(
        segments + 1,
        |i: int| CylinderPoint::SideTop(i as u32),
    )
}

/// The vertices of a cylinder.
pub open spec fn cylinder_plan(segments: nat, caps: bool) -> Seq<CylinderPoint> {
    if caps {
        side_plan(segments).push(CylinderPoint::TopCentre) + Seq::new(
            segments + 1,
            |i: int| CylinderPoint::TopRing(i as u32),
        ).push(CylinderPoint::BottomCentre) + Seq::new(
            segments + 1,
            |i: int| CylinderPoint::BottomRing(i as u32),
        )
    } else {
        side_plan(segments)
    }
}

/// The triangles of a cylinder.
pub open spec fn cylinder_triangles(segments: nat, caps: bool) -> Seq<int> {
    let sides = quad_row(0, segments as int + 1, segments, Cut::Upward);
    if caps {
        let top = 2 * (segments as int + 1);
        let bottom = 3 * (segments as int + 1) + 1;
        sides + fan(top, top + 1, segments, false) + fan(bottom, bottom + 1, segments, true)
    } else {
        sides
    }
}

/// The vertices of a cone.
pub open spec fn cone_plan(segments: nat, base: bool) -> Seq<ConePoint> {
    let slanted = Seq::new(segments + 1, |i: int| ConePoint::SlantRing(i as u32)) + Seq::new(
        segments,
        |i: int| ConePoint::Apex(i as u32),
    );
    if base {
        slanted.push(ConePoint::BaseCentre) + Seq::new(
            segments + 1,
            |i: int| ConePoint::BaseRing(i as u32),
        )
    } else {
        slanted
    }
}

/// The triangles of a cone.
pub open spec fn cone_triangles(segments: nat, base: bool) -> Seq<int> {
    let slanted = slant(segments as int + 1, segments);
    if base {
        let centre = 2 * segments as int + 1;
        slanted + fan(centre, centre + 1, segments, true)
    } else {
        slanted
    }
}

/// At least `least`.
pub open spec fn at_least(n: u32, least: u32) -> nat {
    if n < least {
        least as nat
    } else {
        n as nat
    }
}

/// `at_least`, computed.
fn clamp_low(n: u32, least: u32) -> (r: u32)
    ensures
        r as nat == at_least(n, least),
{
    if n < least {
        least
    } else {
        n
    }
}

/// `vertices` are what `vertex` can return for the places of `plan`, in order.
pub open spec fn placed<P, F: Fn(P) -> PosNormalUv>(
    plan: Seq<P>,
    vertex: F,
    vertices: Seq<PosNormalUv>,
) -> bool {
    &&& vertices.len() == plan.len()
    &&& forall|k: int|
        0 <= k < plan.len() ==> call_ensures(vertex, (plan[k],), #[trigger] vertices[k])
}

/// Asks `vertex` for the vertex at each place.
fn place<P: Copy, F: Fn(P) -> PosNormalUv>(plan: &Vec<P>, vertex: &F) -> (r: Vec<PosNormalUv>)
    requires
        forall|p: P| #[trigger] call_requires(*vertex, (p,)),
    ensures
        placed(plan@, *vertex, r@),
{
    let mut out: Vec<PosNormalUv> = Vec::new();
    let mut i: usize = 0;
    while i < plan.len()
        invariant
            i <= plan@.len(),
            out@.len() == i,
            forall|p: P| #[trigger] call_requires(*vertex, (p,)),
            forall|k: int|
                0 <= k < i ==> call_ensures(*vertex, (plan@[k],), #[trigger] out@[k]),
        decreases plan@.len() - i,
    {
        let p = plan[i];
        out.push((*vertex)(p));
        i += 1;
    }
    out
}

/// Appends the two triangles of a quad.
fn push_quad(indices: &mut Vec<u32>, at: u32, ring: u32, cut: Cut)
    requires
        at + ring + 1 <= u32::MAX,
    ensures
        as_ints(final(indices)@) == as_ints(old(indices)@) + quad(at as int, ring as int, cut),
{
    match cut {
        Cut::Upward => {
            indices.push(at);
            indices.push(at + 1);
            indices.push(at + ring + 1);
            indices.push(at);
            indices.push(at + ring + 1);
            indices.push(at + ring);
        },
        Cut::Downward => {
            indices.push(at);
            indices.push(at + ring + 1);
            indices.push(at + 1);
            indices.push(at);
            indices.push(at + ring);
            indices.push(at + ring + 1);
        },
    }
    assert(as_ints(indices@) =~= as_ints(old(indices)@) + quad(at as int, ring as int, cut));
}

/// Appends one row of quads.
fn push_quad_row(indices: &mut Vec<u32>, start: u32, columns: u32, cut: Cut)
    requires
        start + 2 * (columns + 1) <= u32::MAX + 1,
    ensures
        as_ints(final(indices)@) == as_ints(old(indices)@) + quad_row(
            start as int,
            columns + 1,
            columns as nat,
            cut,
        ),
{
    let ghost before = as_ints(indices@);
    let mut i: u32 = 0;
    assert(before + quad_row(start as int, columns + 1, 0, cut) =~= before);
    while i < columns
        invariant
            i <= columns,
            start + 2 * (columns + 1) <= u32::MAX + 1,
            as_ints(indices@) == before + quad_row(start as int, columns + 1, i as nat, cut),
        decreases columns - i,
    {
        push_quad(indices, start + i, columns + 1, cut);
        i += 1;
        assert(as_ints(indices@) =~= before + quad_row(start as int, columns + 1, i as nat, cut));
    }
}

/// The triangles of a grid of quads.
fn grid_indices(columns: u32, rows: u32, cut: Cut) -> (r: Vec<u32>)
    requires
        (columns + 1) * (rows + 1) <= u32::MAX,
    ensures
        as_ints(r@) == quad_grid(columns as nat, rows as nat, cut),
{
    let mut indices: Vec<u32> = Vec::new();
    let mut j: u32 = 0;
    let mut start: u32 = 0;
    assert(as_ints(indices@) =~= Seq::<int>::empty());
    while j < rows
        invariant
            j <= rows,
            (columns + 1) * (rows + 1) <= u32::MAX,
            start == j * (columns + 1),
            as_ints(indices@) == quad_grid(columns as nat, j as nat, cut),
        decreases rows - j,
    {
        assert(start + 2 * (columns + 1) <= (columns + 1) * (rows + 1)) by (nonlinear_arith)
            requires
                start == j * (columns + 1),
                j + 1 <= rows,
                columns >= 0,
        ;
        push_quad_row(&mut indices, start, columns, cut);
        assert((j + 1) * (columns + 1) == start + (columns + 1)) by (nonlinear_arith)
            requires
                start == j * (columns + 1),
        ;
        start = start + (columns + 1);
        j += 1;
    }
    indices
}

/// The places of a grid of vertices.
fn grid_points(columns: u32, rows: u32) -> (r: Vec<GridPoint>)
    ensures
        r@ == grid_plan(columns as nat, rows as nat),
{
    let mut out: Vec<GridPoint> = Vec::new();
    let mut j: u32 = 0;
    while j < rows
        invariant
            j <= rows,
            out@ == grid_plan(columns as nat, j as nat),
        decreases rows - j,
    {
        let ghost before = out@;
        let mut i: u32 = 0;
        while i < columns
            invariant
                i <= columns,
                out@ == before + Seq::new(
                    i as nat,
                    |k: int| GridPoint { column: k as u32, row: j },
                ),
            decreases columns - i,
        {
            out.push(GridPoint { column: i, row: j });
            i += 1;
            assert(out@ =~= before + Seq::new(
                i as nat,
                |k: int| GridPoint { column: k as u32, row: j },
            ));
        }
        j += 1;
        assert(out@ =~= grid_plan(columns as nat, j as nat));
    }
    out
}

/// Appends a fan of triangles.
fn push_fan(indices: &mut Vec<u32>, centre: u32, ring: u32, count: u32, reversed: bool)
    requires
        ring + count <= u32::MAX,
    ensures
        as_ints(final(indices)@) == as_ints(old(indices)@) + fan(
            centre as int,
            ring as int,
            count as nat,
            reversed,
        ),
{
    let ghost before = as_ints(indices@);
    let mut i: u32 = 0;
    assert(before + fan(centre as int, ring as int, 0, reversed) =~= before);
    while i < count
        invariant
            i <= count,
            ring + count <= u32::MAX,
            as_ints(indices@) == before + fan(centre as int, ring as int, i as nat, reversed),
        decreases count - i,
    {
        let a = ring + i;
        let b = a + 1;
        let ghost now = as_ints(indices@);
        indices.push(centre);
        if reversed {
            indices.push(b);
            indices.push(a);
            assert(as_ints(indices@) =~= now + seq![centre as int, b as int, a as int]);
        } else {
            indices.push(a);
            indices.push(b);
            assert(as_ints(indices@) =~= now + seq![centre as int, a as int, b as int]);
        }
        i += 1;
        assert(as_ints(indices@) =~= before + fan(centre as int, ring as int, i as nat, reversed));
    }
}

impl Default for PrimitiveMesh {
    fn default() -> (r: Self)
        ensures
            r.vertices@.len() == 0,
            r.indices@.len() == 0,
    {
        PrimitiveMesh { vertices: Vec::new(), indices: Vec::new() }
    }
}

impl PrimitiveMesh {
    /// How many indices there are, for the range of a draw call.
    pub fn index_count(&self) -> (r: u32)
        ensures
            r == self.indices@.len() as u32,
    {
        #[verifier::truncate]
        (self.indices.len() as u32)
    }

    /// A flat grid of `segments_x` by `segments_y` quads, at least one each
    /// way, facing up. Places on the grid count vertices, one more than quads.
    pub fn plane<F: Fn(GridPoint) -> PosNormalUv>(
        segments_x: u32,
        segments_y: u32,
        vertex: F,
    ) -> (r: PrimitiveMesh)
        requires
            (at_least(segments_x, 1) + 1) * (at_least(segments_y, 1) + 1) <= u32::MAX,
            forall|p: GridPoint| #[trigger] call_requires(vertex, (p,)),
        ensures
            placed(
                grid_plan(at_least(segments_x, 1) + 1, at_least(segments_y, 1) + 1),
                vertex,
                r.vertices@,
            ),
            as_ints(r.indices@) == quad_grid(
                at_least(segments_x, 1),
                at_least(segments_y, 1),
                Cut::Upward,
            ),
    {
        let sx = clamp_low(segments_x, 1);
        let sy = clamp_low(segments_y, 1);
        proof {
            lemma_factors_fit(sx as int, sy as int);
        }
        let plan = grid_points(sx + 1, sy + 1);
        let vertices = place(&plan, &vertex);
        let indices = grid_indices(sx, sy, Cut::Upward);
        PrimitiveMesh { vertices, indices }
    }

    /// A sphere of `longitudes` (at least 3) by `latitudes` (at least 2)
    /// quads. Row 0 is the upper pole; the first and the last column of a row
    /// coincide in space.
    pub fn sphere<F: Fn(GridPoint) -> PosNormalUv>(
        longitudes: u32,
        latitudes: u32,
        vertex: F,
    ) -> (r: PrimitiveMesh)
        requires
            (at_least(longitudes, 3) + 1) * (at_least(latitudes, 2) + 1) <= u32::MAX,
            forall|p: GridPoint| #[trigger] call_requires(vertex, (p,)),
        ensures
            placed(
                grid_plan(at_least(longitudes, 3) + 1, at_least(latitudes, 2) + 1),
                vertex,
                r.vertices@,
            ),
            as_ints(r.indices@) == quad_grid(
                at_least(longitudes, 3),
                at_least(latitudes, 2),
                Cut::Downward,
            ),
    {
        let lon = clamp_low(longitudes, 3);
        let lat = clamp_low(latitudes, 2);
        proof {
            lemma_factors_fit(lon as int, lat as int);
        }
        let plan = grid_points(lon + 1, lat + 1);
        let vertices = place(&plan, &vertex);
        let indices = grid_indices(lon, lat, Cut::Downward);
        PrimitiveMesh { vertices, indices }
    }

    /// A capsule of `longitudes` (at least 3) columns and, per hemisphere,
    /// `cap_latitudes` (at least 1) rows of quads. The rows run from the upper
    /// pole to the upper equator, then from the lower equator to the lower
    /// pole.
    pub fn capsule<F: Fn(GridPoint) -> PosNormalUv>(
        longitudes: u32,
        cap_latitudes: u32,
        vertex: F,
    ) -> (r: PrimitiveMesh)
        requires
            (at_least(longitudes, 3) + 1) * (2 * at_least(cap_latitudes, 1) + 2) <= u32::MAX,
            forall|p: GridPoint| #[trigger] call_requires(vertex, (p,)),
        ensures
            placed(
                grid_plan(at_least(longitudes, 3) + 1, 2 * at_least(cap_latitudes, 1) + 2),
                vertex,
                r.vertices@,
            ),
            as_ints(r.indices@) == quad_grid(
                at_least(longitudes, 3),
                2 * at_least(cap_latitudes, 1) + 1,
                Cut::Downward,
            ),
    {
        let lon = clamp_low(longitudes, 3);
        let lat = clamp_low(cap_latitudes, 1);
        proof {
            lemma_factors_fit(lon as int, 2 * lat + 1);
        }
        let rows = 2 * lat + 1;
        let plan = grid_points(lon + 1, rows + 1);
        let vertices = place(&plan, &vertex);
        let indices = grid_indices(lon, rows, Cut::Downward);
        PrimitiveMesh { vertices, indices }
    }

    /// A cylinder of at least 3 `segments`, with or without its two caps.
    pub fn cylinder<F: Fn(CylinderPoint) -> PosNormalUv>(
        segments: u32,
        caps: bool,
        vertex: F,
    ) -> (r: PrimitiveMesh)
        requires
            (if caps {
                4 * (at_least(segments, 3) + 1) + 2
            } else {
                2 * (at_least(segments, 3) + 1)
            }) <= u32::MAX + 1,
            forall|p: CylinderPoint| #[trigger] call_requires(vertex, (p,)),
        ensures
            placed(cylinder_plan(at_least(segments, 3), caps), vertex, r.vertices@),
            as_ints(r.indices@) == cylinder_triangles(at_least(segments, 3), caps),
    {
        let seg = clamp_low(segments, 3);
        let ring = seg + 1;
        let mut plan: Vec<CylinderPoint> = Vec::new();
        let mut i: u32 = 0;
        while i < ring
            invariant
                i <= ring == seg + 1,
                plan@ == Seq::new(i as nat, |k: int| CylinderPoint::SideBottom(k as u32)),
            decreases ring - i,
        {
            plan.push(CylinderPoint::SideBottom(i));
            i += 1;
            assert(plan@ =~= Seq::new(i as nat, |k: int| CylinderPoint::SideBottom(k as u32)));
        }
        let ghost lower = plan@;
        i = 0;
        while i < ring
            invariant
                i <= ring == seg + 1,
                plan@ == lower + Seq::new(i as nat, |k: int| CylinderPoint::SideTop(k as u32)),
            decreases ring - i,
        {
            plan.push(CylinderPoint::SideTop(i));
            i += 1;
            assert(plan@ =~= lower + Seq::new(i as nat, |k: int| CylinderPoint::SideTop(k as u32)));
        }
        assert(plan@ == side_plan(seg as nat));
        let mut indices: Vec<u32> = Vec::new();
        assert(as_ints(indices@) =~= Seq::<int>::empty());
        push_quad_row(&mut indices, 0, seg, Cut::Upward);
        let ghost sides = quad_row(0, seg + 1, seg as nat, Cut::Upward);
        assert(as_ints(indices@) =~= sides);
        if caps {
            plan.push(CylinderPoint::TopCentre);
            let ghost topped = plan@;
            i = 0;
            while i < ring
                invariant
                    i <= ring == seg + 1,
                    plan@ == topped + Seq::new(i as nat, |k: int| CylinderPoint::TopRing(k as u32)),
                decreases ring - i,
            {
                plan.push(CylinderPoint::TopRing(i));
                i += 1;
                assert(plan@ =~= topped + Seq::new(
                    i as nat,
                    |k: int| CylinderPoint::TopRing(k as u32),
                ));
            }
            plan.push(CylinderPoint::BottomCentre);
            let ghost closed_up = plan@;
            i = 0;
            while i < ring
                invariant
                    i <= ring == seg + 1,
                    plan@ == closed_up + Seq::new(
                        i as nat,
                        |k: int| CylinderPoint::BottomRing(k as u32),
                    ),
                decreases ring - i,
            {
                plan.push(CylinderPoint::BottomRing(i));
                i += 1;
                assert(plan@ =~= closed_up + Seq::new(
                    i as nat,
                    |k: int| CylinderPoint::BottomRing(k as u32),
                ));
            }
            assert(plan@ =~= cylinder_plan(seg as nat, true));
            let top = 2 * ring;
            let bottom = 3 * ring + 1;
            push_fan(&mut indices, top, top + 1, seg, false);
            push_fan(&mut indices, bottom, bottom + 1, seg, true);
        }
        let vertices = place(&plan, &vertex);
        PrimitiveMesh { vertices, indices }
    }

    /// A cone of at least 3 `segments`, with or without its base. Each slant
    /// triangle has an apex vertex of its own.
    pub fn cone<F: Fn(ConePoint) -> PosNormalUv>(segments: u32, base: bool, vertex: F) -> (r:
        PrimitiveMesh)
        requires
            (if base {
                3 * at_least(segments, 3) + 3
            } else {
                2 * at_least(segments, 3) + 1
            }) <= u32::MAX + 1,
            forall|p: ConePoint| #[trigger] call_requires(vertex, (p,)),
        ensures
            placed(cone_plan(at_least(segments, 3), base), vertex, r.vertices@),
            as_ints(r.indices@) == cone_triangles(at_least(segments, 3), base),
    {
        let seg = clamp_low(segments, 3);
        let ring = seg + 1;
        let mut plan: Vec<ConePoint> = Vec::new();
        let mut i: u32 = 0;
        while i < ring
            invariant
                i <= ring == seg + 1,
                plan@ == Seq::new(i as nat, |k: int| ConePoint::SlantRing(k as u32)),
            decreases ring - i,
        {
            plan.push(ConePoint::SlantRing(i));
            i += 1;
            assert(plan@ =~= Seq::new(i as nat, |k: int| ConePoint::SlantRing(k as u32)));
        }
        let ghost lower = plan@;
        let mut indices: Vec<u32> = Vec::new();
        assert(as_ints(indices@) =~= Seq::<int>::empty());
        i = 0;
        while i < seg
            invariant
                i <= seg,
                ring == seg + 1,
                2 * seg <= u32::MAX,
                plan@ == lower + Seq::new(i as nat, |k: int| ConePoint::Apex(k as u32)),
                as_ints(indices@) == slant(seg + 1, i as nat),
            decreases seg - i,
        {
            plan.push(ConePoint::Apex(i));
            indices.push(i);
            indices.push(i + 1);
            indices.push(ring + i);
            i += 1;
            assert(plan@ =~= lower + Seq::new(i as nat, |k: int| ConePoint::Apex(k as u32)));
            assert(as_ints(indices@) =~= slant(seg + 1, i as nat));
        }
        if base {
            plan.push(ConePoint::BaseCentre);
            let ghost centred = plan@;
            i = 0;
            while i < ring
                invariant
                    i <= ring == seg + 1,
                    plan@ == centred + Seq::new(i as nat, |k: int| ConePoint::BaseRing(k as u32)),
                decreases ring - i,
            {
                plan.push(ConePoint::BaseRing(i));
                i += 1;
                assert(plan@ =~= centred + Seq::new(
                    i as nat,
                    |k: int| ConePoint::BaseRing(k as u32),
                ));
            }
            let centre = 2 * seg + 1;
            push_fan(&mut indices, centre, centre + 1, seg, true);
        }
        let vertices = place(&plan, &vertex);
        PrimitiveMesh { vertices, indices }
    }
}

proof fn lemma_factors_fit(a: int, b: int)
    requires
        a >= 1,
        b >= 1,
        (a + 1) * (b + 1) <= u32::MAX,
    ensures
        a + 1 <= u32::MAX,
        b + 1 <= u32::MAX,
{
    assert(a + 1 <= (a + 1) * (b + 1)) by (nonlinear_arith)
        requires
            a >= 1,
            b >= 1,
    ;
    assert(b + 1 <= (a + 1) * (b + 1)) by (nonlinear_arith)
        requires
            a >= 1,
            b >= 1,
    ;
}

/// The bits of 1.
pub const ONE: u32 = 0x3f80_0000;

/// The unit vector along an axis.
pub open spec fn axis(k: int) -> Bits3 {
    if k == 0 {
        [ONE, 0, 0]
    } else if k == 1 {
        [0, ONE, 0]
    } else {
        [0, 0, ONE]
    }
}

/// The vector pointing the other way.
pub open spec fn opposite(v: Bits3) -> Bits3 {
    [neg_bits(v[0]), neg_bits(v[1]), neg_bits(v[2])]
}

/// The normal of face `f`: along X, against X, along Y, and so on.
pub open spec fn face_normal(f: int) -> Bits3 {
    if f % 2 == 0 {
        axis(f / 2)
    } else {
        opposite(axis(f / 2))
    }
}

/// The corner of the box with half extents `h` on the given sides.
pub open spec fn corner(h: Bits3, x: bool, y: bool, z: bool) -> Bits3 {
    [
        if x {
            h[0]
        } else {
            neg_bits(h[0])
        },
        if y {
            h[1]
        } else {
            neg_bits(h[1])
        },
        if z {
            h[2]
        } else {
            neg_bits(h[2])
        },
    ]
}

/// The corners of face `f`, counter-clockwise seen from outside.
pub open spec fn face_corners(f: int, h: Bits3) -> [Bits3; 4] {
    if f == 0 {
        [
            corner(h, true, false, false),
            corner(h, true, true, false),
            corner(h, true, true, true),
            corner(h, true, false, true),
        ]
    } else if f == 1 {
        [
            corner(h, false, true, false),
            corner(h, false, false, false),
            corner(h, false, false, true),
            corner(h, false, true, true),
        ]
    } else if f == 2 {
        [
            corner(h, true, true, false),
            corner(h, false, true, false),
            corner(h, false, true, true),
            corner(h, true, true, true),
        ]
    } else if f == 3 {
        [
            corner(h, false, false, false),
            corner(h, true, false, false),
            corner(h, true, false, true),
            corner(h, false, false, true),
        ]
    } else if f == 4 {
        [
            corner(h, false, false, true),
            corner(h, true, false, true),
            corner(h, true, true, true),
            corner(h, false, true, true),
        ]
    } else {
        [
            corner(h, false, true, false),
            corner(h, true, true, false),
            corner(h, true, false, false),
            corner(h, false, false, false),
        ]
    }
}

/// The texture coordinates of the four corners of a face.
pub open spec fn corner_uv(k: int) -> [u32; 2] {
    if k == 0 {
        [0, ONE]
    } else if k == 1 {
        [ONE, ONE]
    } else if k == 2 {
        [ONE, 0]
    } else {
        [0, 0]
    }
}

/// The vertices of a box, four to each face.
pub open spec fn cube_vertices(h: Bits3) -> Seq<PosNormalUv> {
    Seq::new(
        24,
        |k: int|
            PosNormalUv {
                position: face_corners(k / 4, h)[k % 4],
                normal: face_normal(k / 4),
                uv: corner_uv(k % 4),
            },
    )
}

/// The two triangles of a face whose first vertex is `b`.
pub open spec fn face_triangles(b: int) -> Seq<int> {
    seq![b, b + 1, b + 2, b, b + 2, b + 3]
}

/// The triangles of the first `faces` faces.
pub open spec fn cube_triangles(faces: nat) -> Seq<int>
    decreases faces,
{
    if faces == 0 {
        Seq::empty()
    } else {
        cube_triangles((faces - 1) as nat) + face_triangles(4 * (faces - 1))
    }
}

fn corner_of(h: Bits3, x: bool, y: bool, z: bool) -> (r: Bits3)
    ensures
        r == corner(h, x, y, z),
{
    [
        if x {
            h[0]
        } else {
            negate(h[0])
        },
        if y {
            h[1]
        } else {
            negate(h[1])
        },
        if z {
            h[2]
        } else {
            negate(h[2])
        },
    ]
}

fn corners_of(f: u32, h: Bits3) -> (r: [Bits3; 4])
    ensures
        r == face_corners(f as int, h),
{
    if f == 0 {
        [
            corner_of(h, true, false, false),
            corner_of(h, true, true, false),
            corner_of(h, true, true, true),
            corner_of(h, true, false, true),
        ]
    } else if f == 1 {
        [
            corner_of(h, false, true, false),
            corner_of(h, false, false, false),
            corner_of(h, false, false, true),
            corner_of(h, false, true, true),
        ]
    } else if f == 2 {
        [
            corner_of(h, true, true, false),
            corner_of(h, false, true, false),
            corner_of(h, false, true, true),
            corner_of(h, true, true, true),
        ]
    } else if f == 3 {
        [
            corner_of(h, false, false, false),
            corner_of(h, true, false, false),
            corner_of(h, true, false, true),
            corner_of(h, false, false, true),
        ]
    } else if f == 4 {
        [
            corner_of(h, false, false, true),
            corner_of(h, true, false, true),
            corner_of(h, true, true, true),
            corner_of(h, false, true, true),
        ]
    } else {
        [
            corner_of(h, false, true, false),
            corner_of(h, true, true, false),
            corner_of(h, true, false, false),
            corner_of(h, false, false, false),
        ]
    }
}

fn normal_of(f: u32) -> (r: Bits3)
    ensures
        r == face_normal(f as int),
{
    let k = f / 2;
    let along: Bits3 = if k == 0 {
        [ONE, 0, 0]
    } else if k == 1 {
        [0, ONE, 0]
    } else {
        [0, 0, ONE]
    };
    if f % 2 == 0 {
        along
    } else {
        [negate(along[0]), negate(along[1]), negate(along[2])]
    }
}

fn uv_of(k: usize) -> (r: [u32; 2])
    ensures
        r == corner_uv(k as int),
{
    if k == 0 {
        [0, ONE]
    } else if k == 1 {
        [ONE, ONE]
    } else if k == 2 {
        [ONE, 0]
    } else {
        [0, 0]
    }
}

impl PrimitiveMesh {
    /// A box with the given half extents, each face shaded flat and with
    /// texture coordinates of its own.
    pub fn cube(half: Bits3) -> (r: PrimitiveMesh)
        ensures
            r.vertices@ == cube_vertices(half),
            as_ints(r.indices@) == cube_triangles(6),
    {
        let ghost whole = cube_vertices(half);
        let mut vertices: Vec<PosNormalUv> = Vec::new();
        let mut indices: Vec<u32> = Vec::new();
        let mut f: u32 = 0;
        assert(as_ints(indices@) =~= Seq::<int>::empty());
        while f < 6
            invariant
                f <= 6,
                whole == cube_vertices(half),
                vertices@ == whole.take(4 * f),
                as_ints(indices@) == cube_triangles(f as nat),
            decreases 6 - f,
        {
            let normal = normal_of(f);
            let corners = corners_of(f, half);
            let mut k: usize = 0;
            while k < 4
                invariant
                    k <= 4,
                    f < 6,
                    whole == cube_vertices(half),
                    normal == face_normal(f as int),
                    corners == face_corners(f as int, half),
                    vertices@ == whole.take(4 * f + k),
                decreases 4 - k,
            {
                let vertex = PosNormalUv { position: corners[k], normal, uv: uv_of(k) };
                vertices.push(vertex);
                assert((4 * f + k) / 4 == f && (4 * f + k) % 4 == k);
                assert(whole[4 * f + k] == vertex);
                k += 1;
                assert(whole.take(4 * f + k) =~= whole.take(4 * f + k - 1).push(vertex));
            }
            let ghost now = as_ints(indices@);
            let b = f * 4;
            indices.push(b);
            indices.push(b + 1);
            indices.push(b + 2);
            indices.push(b);
            indices.push(b + 2);
            indices.push(b + 3);
            assert(as_ints(indices@) =~= now + face_triangles(b as int));
            f += 1;
        }
        assert(whole.take(24) =~= whole);
        PrimitiveMesh { vertices, indices }
    }
}

/// All indices refer to one of `count` vertices.
pub open spec fn in_bounds(indices: Seq<int>, count: int) -> bool {
    forall|k: int| 0 <= k < indices.len() ==> 0 <= #[trigger] indices[k] < count
}

proof fn lemma_in_bounds_concat(a: Seq<int>, b: Seq<int>, count: int)
    requires
        in_bounds(a, count),
        in_bounds(b, count),
    ensures
        in_bounds(a + b, count),
{
    assert forall|k: int| 0 <= k < (a + b).len() implies 0 <= #[trigger] (a + b)[k] < count by {
        if k < a.len() {
            assert((a + b)[k] == a[k]);
        } else {
            assert((a + b)[k] == b[k - a.len()]);
        }
    }
}

proof fn lemma_quad_row(start: int, ring: int, count: nat, cut: Cut, limit: int)
    requires
        start >= 0,
        ring >= 1,
        count > 0 ==> start + count + ring < limit,
    ensures
        quad_row(start, ring, count, cut).len() == 6 * count,
        in_bounds(quad_row(start, ring, count, cut), limit),
    decreases count,
{
    if count > 0 {
        lemma_quad_row(start, ring, (count - 1) as nat, cut, limit);
        lemma_in_bounds_concat(
            quad_row(start, ring, (count - 1) as nat, cut),
            quad(start + count - 1, ring, cut),
            limit,
        );
    }
}

/// A grid of quads has six indices per quad, and all of them refer to vertices
/// of the grid.
pub proof fn law_grid_is_well_indexed(columns: nat, rows: nat, cut: Cut)
    ensures
        grid_plan(columns + 1, rows + 1).len() == (columns + 1) * (rows + 1),
        quad_grid(columns, rows, cut).len() == 6 * (columns * rows),
        in_bounds(quad_grid(columns, rows, cut), ((columns + 1) * (rows + 1)) as int),
{
    lemma_grid_plan_len(columns + 1, rows + 1);
    lemma_quad_grid(columns, rows, cut, ((columns + 1) * (rows + 1)) as int);
}

/// The vertices of a grid come row by row: the one in column `i` of row `j` is
/// number `j * columns + i`.
pub proof fn law_grid_runs_row_by_row(columns: nat, rows: nat, i: int, j: int)
    requires
        0 <= i < columns,
        0 <= j < rows,
    ensures
        0 <= j * columns + i < grid_plan(columns, rows).len(),
        grid_plan(columns, rows)[j * columns + i] == (GridPoint {
            column: i as u32,
            row: j as u32,
        }),
    decreases rows,
{
    let less = (rows - 1) as nat;
    lemma_grid_plan_len(columns, rows);
    lemma_grid_plan_len(columns, less);
    assert(j * columns >= 0) by (nonlinear_arith)
        requires
            j >= 0,
            columns >= 0,
    ;
    assert(columns * less == less * columns) by (nonlinear_arith);
    if j < less {
        law_grid_runs_row_by_row(columns, less, i, j);
    }
}

proof fn lemma_grid_plan_len(columns: nat, rows: nat)
    ensures
        grid_plan(columns, rows).len() == columns * rows,
    decreases rows,
{
    if rows > 0 {
        lemma_grid_plan_len(columns, (rows - 1) as nat);
        assert(columns * (rows - 1) + columns == columns * rows) by (nonlinear_arith);
    } else {
        assert(columns * 0 == 0) by (nonlinear_arith);
    }
}

proof fn lemma_quad_grid(columns: nat, rows: nat, cut: Cut, limit: int)
    requires
        limit >= (columns + 1) * (rows + 1),
    ensures
        quad_grid(columns, rows, cut).len() == 6 * (columns * rows),
        in_bounds(quad_grid(columns, rows, cut), limit),
    decreases rows,
{
    if rows > 0 {
        let less = (rows - 1) as nat;
        assert((columns + 1) * (rows + 1) == (columns + 1) * (less + 1) + (columns + 1)
            && (columns + 1) * (less + 1) == less * (columns + 1) + (columns + 1)
            && less * (columns + 1) >= 0 && columns * rows == columns * less + columns)
            by (nonlinear_arith)
            requires
                less + 1 == rows,
                columns >= 0,
                less >= 0,
        ;
        lemma_quad_grid(columns, less, cut, limit);
        lemma_quad_row((rows - 1) * (columns + 1), columns as int + 1, columns, cut, limit);
        lemma_in_bounds_concat(
            quad_grid(columns, less, cut),
            quad_row((rows - 1) * (columns + 1), columns as int + 1, columns, cut),
            limit,
        );
    } else {
        assert(columns * 0 == 0) by (nonlinear_arith);
    }
}

proof fn lemma_fan(centre: int, ring: int, count: nat, reversed: bool, limit: int)
    requires
        0 <= centre < limit,
        ring >= 0,
        ring + count < limit,
    ensures
        fan(centre, ring, count, reversed).len() == 3 * count,
        in_bounds(fan(centre, ring, count, reversed), limit),
    decreases count,
{
    if count > 0 {
        let less = (count - 1) as nat;
        lemma_fan(centre, ring, less, reversed, limit);
        let a = ring + count - 1;
        let tri = if reversed {
            seq![centre, a + 1, a]
        } else {
            seq![centre, a, a + 1]
        };
        lemma_in_bounds_concat(fan(centre, ring, less, reversed), tri, limit);
    }
}

/// A cylinder's indices all refer to its vertices; it has six per side quad
/// and three per cap triangle.
pub proof fn law_cylinder_is_well_indexed(segments: nat, caps: bool)
    ensures
        cylinder_plan(segments, caps).len() == (if caps {
            4 * (segments + 1) + 2
        } else {
            2 * (segments + 1)
        }),
        cylinder_triangles(segments, caps).len() == (if caps {
            12 * segments
        } else {
            6 * segments
        }),
        in_bounds(
            cylinder_triangles(segments, caps),
            cylinder_plan(segments, caps).len() as int,
        ),
{
    let n = cylinder_plan(segments, caps).len() as int;
    let sides = quad_row(0, segments as int + 1, segments, Cut::Upward);
    lemma_quad_row(0, segments as int + 1, segments, Cut::Upward, n);
    if caps {
        let top = 2 * (segments as int + 1);
        let bottom = 3 * (segments as int + 1) + 1;
        lemma_fan(top, top + 1, segments, false, n);
        lemma_fan(bottom, bottom + 1, segments, true, n);
        let upper = fan(top, top + 1, segments, false);
        let lower = fan(bottom, bottom + 1, segments, true);
        lemma_in_bounds_concat(sides, upper, n);
        lemma_in_bounds_concat(sides + upper, lower, n);
    }
}

proof fn lemma_slant(apex: int, count: nat, limit: int)
    requires
        apex >= 0,
        count < limit,
        apex + count <= limit,
    ensures
        slant(apex, count).len() == 3 * count,
        in_bounds(slant(apex, count), limit),
    decreases count,
{
    if count > 0 {
        let less = (count - 1) as nat;
        lemma_slant(apex, less, limit);
        lemma_in_bounds_concat(
            slant(apex, less),
            seq![count - 1, count as int, apex + count - 1],
            limit,
        );
    }
}

/// A cone's indices all refer to its vertices; it has three per triangle.
pub proof fn law_cone_is_well_indexed(segments: nat, base: bool)
    ensures
        cone_plan(segments, base).len() == (if base {
            3 * segments + 3
        } else {
            2 * segments + 1
        }),
        cone_triangles(segments, base).len() == (if base {
            6 * segments
        } else {
            3 * segments
        }),
        in_bounds(cone_triangles(segments, base), cone_plan(segments, base).len() as int),
{
    let n = cone_plan(segments, base).len() as int;
    lemma_slant(segments as int + 1, segments, n);
    if base {
        let centre = 2 * segments as int + 1;
        lemma_fan(centre, centre + 1, segments, true, n);
        lemma_in_bounds_concat(
            slant(segments as int + 1, segments),
            fan(centre, centre + 1, segments, true),
            n,
        );
    }
}

/// A box has 24 vertices, and 36 indices that all refer to them.
pub proof fn law_cube_is_well_indexed(half: Bits3)
    ensures
        cube_vertices(half).len() == 24,
        cube_triangles(6).len() == 36,
        in_bounds(cube_triangles(6), 24),
{
    lemma_cube_triangles(6);
}

proof fn lemma_cube_triangles(faces: nat)
    ensures
        cube_triangles(faces).len() == 6 * faces,
        in_bounds(cube_triangles(faces), 4 * faces as int),
    decreases faces,
{
    if faces > 0 {
        let less = (faces - 1) as nat;
        lemma_cube_triangles(less);
        assert(in_bounds(cube_triangles(less), 4 * faces as int)) by {
            assert forall|k: int| 0 <= k < cube_triangles(less).len() implies 0
                <= #[trigger] cube_triangles(less)[k] < 4 * faces by {}
        }
        lemma_in_bounds_concat(cube_triangles(less), face_triangles(4 * (faces - 1)), 4 * faces as int);
    }
}

/// Twice the area of a triangle, positive if its corners go round
/// counter-clockwise.
pub open spec fn turn(a: (int, int), b: (int, int), c: (int, int)) -> int {
    (b.0 - a.0) * (c.1 - a.1) - (c.0 - a.0) * (b.1 - a.1)
}

/// The point is a corner of the cell in column `i` of row `j`.
pub open spec fn is_cell_corner(p: (int, int), i: int, j: int) -> bool {
    (p.0 == i || p.0 == i + 1) && (p.1 == j || p.1 == j + 1)
}

/// One of the three points from `from` on is `p`.
pub open spec fn has_corner(points: Seq<(int, int)>, from: int, p: (int, int)) -> bool {
    points[from] == p || points[from + 1] == p || points[from + 2] == p
}

/// Two triangles tile the cell in column `i` of row `j`: their corners are those
/// of the cell, both have half its area and go round the same way, together they
/// use all four corners, and where one leaves a corner out the other leaves out
/// the opposite one, so that they meet in a diagonal.
pub open spec fn tiles(points: Seq<(int, int)>, i: int, j: int, way: int) -> bool {
    &&& points.len() == 6
    &&& forall|k: int| 0 <= k < 6 ==> is_cell_corner(#[trigger] points[k], i, j)
    &&& turn(points[0], points[1], points[2]) == way
    &&& turn(points[3], points[4], points[5]) == way
    &&& forall|p: (int, int)| #[trigger]
        is_cell_corner(p, i, j) ==> {
            &&& has_corner(points, 0, p) || has_corner(points, 3, p)
            &&& !has_corner(points, 0, p) ==> !has_corner(
                points,
                3,
                (2 * i + 1 - p.0, 2 * j + 1 - p.1),
            )
        }
}

/// The place of a grid point in the plane of the grid.
pub open spec fn on_grid(p: GridPoint) -> (int, int) {
    (p.column as int, p.row as int)
}

proof fn lemma_quad_row_at(start: int, ring: int, count: nat, cut: Cut, i: int, k: int)
    requires
        0 <= i < count,
        0 <= k < 6,
    ensures
        quad_row(start, ring, count, cut).len() == 6 * count,
        quad_row(start, ring, count, cut)[6 * i + k] == quad(start + i, ring, cut)[k],
    decreases count,
{
    let less = (count - 1) as nat;
    lemma_quad_row_len(start, ring, less, cut);
    lemma_quad_row_len(start, ring, count, cut);
    if i < less {
        lemma_quad_row_at(start, ring, less, cut, i, k);
    }
}

proof fn lemma_quad_row_len(start: int, ring: int, count: nat, cut: Cut)
    ensures
        quad_row(start, ring, count, cut).len() == 6 * count,
    decreases count,
{
    if count > 0 {
        lemma_quad_row_len(start, ring, (count - 1) as nat, cut);
    }
}

proof fn lemma_quad_grid_at(columns: nat, rows: nat, cut: Cut, i: int, j: int, k: int)
    requires
        0 <= i < columns,
        0 <= j < rows,
        0 <= k < 6,
    ensures
        quad_grid(columns, rows, cut).len() == 6 * (columns * rows),
        0 <= 6 * (j * columns + i) + k < quad_grid(columns, rows, cut).len(),
        quad_grid(columns, rows, cut)[6 * (j * columns + i) + k] == quad(
            j * (columns + 1) + i,
            columns as int + 1,
            cut,
        )[k],
    decreases rows,
{
    let less = (rows - 1) as nat;
    lemma_quad_grid_len(columns, less, cut);
    lemma_quad_grid_len(columns, rows, cut);
    lemma_quad_row_len((rows - 1) * (columns + 1), columns as int + 1, columns, cut);
    assert(columns * rows == columns * less + columns) by (nonlinear_arith)
        requires
            less + 1 == rows,
    ;
    assert(columns * less == less * columns) by (nonlinear_arith);
    if j < less {
        lemma_quad_grid_at(columns, less, cut, i, j, k);
    } else {
        lemma_quad_row_at((rows - 1) * (columns + 1), columns as int + 1, columns, cut, i, k);
    }
    assert(0 <= j * columns && j * columns + i < columns * rows) by (nonlinear_arith)
        requires
            0 <= j < rows,
            0 <= i < columns,
    ;
}

proof fn lemma_quad_grid_len(columns: nat, rows: nat, cut: Cut)
    ensures
        quad_grid(columns, rows, cut).len() == 6 * (columns * rows),
    decreases rows,
{
    if rows > 0 {
        let less = (rows - 1) as nat;
        lemma_quad_grid_len(columns, less, cut);
        lemma_quad_row_len((rows - 1) * (columns + 1), columns as int + 1, columns, cut);
        assert(columns * rows == columns * less + columns) by (nonlinear_arith)
            requires
                less + 1 == rows,
        ;
    } else {
        assert(columns * 0 == 0) by (nonlinear_arith);
    }
}

/// Six points in the order in which a quad joins them.
proof fn lemma_quad_tiles(i: int, j: int, cut: Cut) -> (points: Seq<(int, int)>)
    ensures
        points.len() == 6,
        forall|at: int, ring: int, k: int|
            0 <= k < 6 && at == j * ring + i ==> #[trigger] quad(at, ring, cut)[k]
                == points[k].1 * ring + points[k].0,
        tiles(
            points,
            i,
            j,
            match cut {
                Cut::Upward => 1,
                Cut::Downward => -1,
            },
        ),
{
    let a = (i, j);
    let b = (i + 1, j);
    let c = (i + 1, j + 1);
    let d = (i, j + 1);
    let points = match cut {
        Cut::Upward => seq![a, b, c, a, c, d],
        Cut::Downward => seq![a, c, b, a, d, c],
    };
    let way = match cut {
        Cut::Upward => 1int,
        Cut::Downward => -1int,
    };
    assert forall|at: int, ring: int, k: int|
        0 <= k < 6 && at == j * ring + i implies #[trigger] quad(at, ring, cut)[k] == points[k].1
        * ring + points[k].0 by {
        assert((j + 1) * ring == j * ring + ring) by (nonlinear_arith);
    }
    assert((i + 1 - i) * (j + 1 - j) - (i + 1 - i) * (j - j) == 1) by (nonlinear_arith);
    assert((i + 1 - i) * (j + 1 - j) - (i - i) * (j + 1 - j) == 1) by (nonlinear_arith);
    assert((i + 1 - i) * (j - j) - (i + 1 - i) * (j + 1 - j) == -1) by (nonlinear_arith);
    assert((i - i) * (j + 1 - j) - (i + 1 - i) * (j + 1 - j) == -1) by (nonlinear_arith);
    assert(turn(a, b, c) == 1 && turn(a, c, d) == 1 && turn(a, c, b) == -1 && turn(a, d, c) == -1);
    assert forall|p: (int, int)| #[trigger] is_cell_corner(p, i, j) implies {
        &&& has_corner(points, 0, p) || has_corner(points, 3, p)
        &&& !has_corner(points, 0, p) ==> !has_corner(
            points,
            3,
            (2 * i + 1 - p.0, 2 * j + 1 - p.1),
        )
    } by {
        assert(p == a || p == b || p == c || p == d);
    }
    assert(tiles(points, i, j, way));
    points
}

/// What a mesh draws for the cell in column `i` of row `j` of a grid with
/// `columns` cells to a row: two triangles between vertices that the caller gave
/// for grid points, and the points tile the cell.
pub open spec fn draws_cell<F: Fn(GridPoint) -> PosNormalUv>(
    mesh: PrimitiveMesh,
    vertex: F,
    columns: int,
    i: int,
    j: int,
    way: int,
    points: Seq<GridPoint>,
) -> bool {
    let first = 6 * (j * columns + i);
    &&& points.len() == 6
    &&& tiles(points.map_values(|p: GridPoint| on_grid(p)), i, j, way)
    &&& 0 <= first && first + 6 <= mesh.indices@.len()
    &&& forall|k: int|
        0 <= k < 6 ==> {
            &&& mesh.indices@[first + k] < mesh.vertices@.len()
            &&& call_ensures(
                vertex,
                (#[trigger] points[k],),
                mesh.vertices@[mesh.indices@[first + k] as int],
            )
        }
}

proof fn lemma_draws_cell<F: Fn(GridPoint) -> PosNormalUv>(
    mesh: PrimitiveMesh,
    vertex: F,
    columns: nat,
    rows: nat,
    cut: Cut,
    i: int,
    j: int,
) -> (points: Seq<GridPoint>)
    requires
        0 <= i < columns < u32::MAX,
        0 <= j < rows < u32::MAX,
        placed(grid_plan(columns + 1, rows + 1), vertex, mesh.vertices@),
        as_ints(mesh.indices@) == quad_grid(columns, rows, cut),
    ensures
        draws_cell(
            mesh,
            vertex,
            columns as int,
            i,
            j,
            match cut {
                Cut::Upward => 1,
                Cut::Downward => -1,
            },
            points,
        ),
        mesh.indices@.len() == 6 * (columns * rows),
        mesh.vertices@.len() == (columns + 1) * (rows + 1),
{
    let flat = lemma_quad_tiles(i, j, cut);
    let points = Seq::new(
        6,
        |k: int| GridPoint { column: flat[k].0 as u32, row: flat[k].1 as u32 },
    );
    let ring = columns as int + 1;
    let first = 6 * (j * columns + i);
    let way = match cut {
        Cut::Upward => 1int,
        Cut::Downward => -1int,
    };
    lemma_quad_grid_at(columns, rows, cut, i, j, 0);
    lemma_quad_grid_at(columns, rows, cut, i, j, 5);
    assert(mesh.indices@.len() == as_ints(mesh.indices@).len());
    assert(points.map_values(|p: GridPoint| on_grid(p)) =~= flat) by {
        assert forall|k: int| 0 <= k < 6 implies on_grid(#[trigger] points[k]) == flat[k] by {
            assert(is_cell_corner(flat[k], i, j));
        }
    }
    lemma_grid_plan_len(columns + 1, rows + 1);
    assert forall|k: int| 0 <= k < 6 implies {
        &&& mesh.indices@[first + k] < mesh.vertices@.len()
        &&& call_ensures(
            vertex,
            (#[trigger] points[k],),
            mesh.vertices@[mesh.indices@[first + k] as int],
        )
    } by {
        lemma_quad_grid_at(columns, rows, cut, i, j, k);
        assert(is_cell_corner(flat[k], i, j));
        assert(quad(j * ring + i, ring, cut)[k] == flat[k].1 * ring + flat[k].0);
        law_grid_runs_row_by_row(columns + 1, rows + 1, flat[k].0, flat[k].1);
        let v = mesh.indices@[first + k] as int;
        assert(as_ints(mesh.indices@)[first + k] == v);
        assert(v == flat[k].1 * (columns + 1) + flat[k].0);
        assert(grid_plan(columns + 1, rows + 1)[v] == points[k]);
        assert(call_ensures(vertex, (grid_plan(columns + 1, rows + 1)[v],), mesh.vertices@[v]));
    }
    points
}

/// The greater of two numbers.
pub open spec fn more_of(a: int, b: int) -> int {
    if a < b {
        b
    } else {
        a
    }
}

/// A plane is tiled: each of its cells is drawn as two triangles that leave no
/// hole and do not overlap, counter-clockwise as columns and rows go, between the
/// vertices of the cell's corners; and it has nothing but its cells.
pub proof fn law_planes_are_tiled<F: Fn(GridPoint) -> PosNormalUv>(
    segments_x: u32,
    segments_y: u32,
    vertex: F,
    mesh: PrimitiveMesh,
    i: int,
    j: int,
) -> (points: Seq<GridPoint>)
    requires
        segments_x < u32::MAX,
        segments_y < u32::MAX,
        call_ensures(PrimitiveMesh::plane::<F>, (segments_x, segments_y, vertex), mesh),
        0 <= i < more_of(segments_x as int, 1),
        0 <= j < more_of(segments_y as int, 1),
    ensures
        draws_cell(mesh, vertex, more_of(segments_x as int, 1), i, j, 1, points),
        mesh.indices@.len() == 6 * (more_of(segments_x as int, 1) * more_of(segments_y as int, 1)),
        mesh.vertices@.len() == (more_of(segments_x as int, 1) + 1) * (more_of(
            segments_y as int,
            1,
        ) + 1),
{
    lemma_draws_cell(
        mesh,
        vertex,
        more_of(segments_x as int, 1) as nat,
        more_of(segments_y as int, 1) as nat,
        Cut::Upward,
        i,
        j,
    )
}

/// A sphere is tiled: each of its cells is drawn as two triangles that leave no
/// hole and do not overlap, clockwise as columns and rows go, since its rows run
/// down from the upper pole; and it has nothing but its cells.
pub proof fn law_spheres_are_tiled<F: Fn(GridPoint) -> PosNormalUv>(
    longitudes: u32,
    latitudes: u32,
    vertex: F,
    mesh: PrimitiveMesh,
    i: int,
    j: int,
) -> (points: Seq<GridPoint>)
    requires
        longitudes < u32::MAX,
        latitudes < u32::MAX,
        call_ensures(PrimitiveMesh::sphere::<F>, (longitudes, latitudes, vertex), mesh),
        0 <= i < more_of(longitudes as int, 3),
        0 <= j < more_of(latitudes as int, 2),
    ensures
        draws_cell(mesh, vertex, more_of(longitudes as int, 3), i, j, -1, points),
        mesh.indices@.len() == 6 * (more_of(longitudes as int, 3) * more_of(latitudes as int, 2)),
        mesh.vertices@.len() == (more_of(longitudes as int, 3) + 1) * (more_of(
            latitudes as int,
            2,
        ) + 1),
{
    lemma_draws_cell(
        mesh,
        vertex,
        more_of(longitudes as int, 3) as nat,
        more_of(latitudes as int, 2) as nat,
        Cut::Downward,
        i,
        j,
    )
}

/// A capsule is tiled as a sphere is, with one row of cells between its two caps.
pub proof fn law_capsules_are_tiled<F: Fn(GridPoint) -> PosNormalUv>(
    longitudes: u32,
    cap_latitudes: u32,
    vertex: F,
    mesh: PrimitiveMesh,
    i: int,
    j: int,
) -> (points: Seq<GridPoint>)
    requires
        longitudes < u32::MAX,
        2 * cap_latitudes + 1 < u32::MAX,
        call_ensures(PrimitiveMesh::capsule::<F>, (longitudes, cap_latitudes, vertex), mesh),
        0 <= i < more_of(longitudes as int, 3),
        0 <= j < 2 * more_of(cap_latitudes as int, 1) + 1,
    ensures
        draws_cell(mesh, vertex, more_of(longitudes as int, 3), i, j, -1, points),
        mesh.indices@.len() == 6 * (more_of(longitudes as int, 3) * (2 * more_of(
            cap_latitudes as int,
            1,
        ) + 1)),
        mesh.vertices@.len() == (more_of(longitudes as int, 3) + 1) * (2 * more_of(
            cap_latitudes as int,
            1,
        ) + 2),
{
    lemma_draws_cell(
        mesh,
        vertex,
        more_of(longitudes as int, 3) as nat,
        (2 * more_of(cap_latitudes as int, 1) + 1) as nat,
        Cut::Downward,
        i,
        j,
    )
}

proof fn lemma_fan_at(centre: int, ring: int, count: nat, reversed: bool, i: int)
    requires
        0 <= i < count,
    ensures
        fan(centre, ring, count, reversed).len() == 3 * count,
        fan(centre, ring, count, reversed)[3 * i] == centre,
        fan(centre, ring, count, reversed)[3 * i + 1] == ring + i + (if reversed {
            1int
        } else {
            0
        }),
        fan(centre, ring, count, reversed)[3 * i + 2] == ring + i + (if reversed {
            0int
        } else {
            1
        }),
    decreases count,
{
    let less = (count - 1) as nat;
    lemma_fan_len(centre, ring, less, reversed);
    lemma_fan_len(centre, ring, count, reversed);
    if i < less {
        lemma_fan_at(centre, ring, less, reversed, i);
    }
}

proof fn lemma_fan_len(centre: int, ring: int, count: nat, reversed: bool)
    ensures
        fan(centre, ring, count, reversed).len() == 3 * count,
    decreases count,
{
    if count > 0 {
        lemma_fan_len(centre, ring, (count - 1) as nat, reversed);
    }
}

/// The mesh has a triangle, from index `first` on, between the vertices that the
/// caller gave for three places.
pub open spec fn joins<P, F: Fn(P) -> PosNormalUv>(
    mesh: PrimitiveMesh,
    vertex: F,
    first: int,
    a: P,
    b: P,
    c: P,
) -> bool {
    &&& 0 <= first && first + 3 <= mesh.indices@.len()
    &&& mesh.indices@[first] < mesh.vertices@.len()
    &&& mesh.indices@[first + 1] < mesh.vertices@.len()
    &&& mesh.indices@[first + 2] < mesh.vertices@.len()
    &&& call_ensures(vertex, (a,), mesh.vertices@[mesh.indices@[first] as int])
    &&& call_ensures(vertex, (b,), mesh.vertices@[mesh.indices@[first + 1] as int])
    &&& call_ensures(vertex, (c,), mesh.vertices@[mesh.indices@[first + 2] as int])
}

/// The place of a point of a cylinder's side, unrolled: columns go round, and the
/// upper edge is one row above the lower.
pub open spec fn on_side(p: CylinderPoint) -> (int, int) {
    match p {
        CylinderPoint::SideBottom(i) => (i as int, 0),
        CylinderPoint::SideTop(i) => (i as int, 1),
        _ => (-1, -1),
    }
}

proof fn lemma_joined<P, F: Fn(P) -> PosNormalUv>(
    mesh: PrimitiveMesh,
    vertex: F,
    plan: Seq<P>,
    triangles: Seq<int>,
    k: int,
)
    requires
        placed(plan, vertex, mesh.vertices@),
        as_ints(mesh.indices@) == triangles,
        0 <= k < triangles.len(),
        0 <= triangles[k] < plan.len(),
    ensures
        k < mesh.indices@.len(),
        mesh.indices@[k] == triangles[k],
        mesh.indices@[k] < mesh.vertices@.len(),
        call_ensures(vertex, (plan[triangles[k]],), mesh.vertices@[mesh.indices@[k] as int]),
{
    assert(as_ints(mesh.indices@)[k] == mesh.indices@[k]);
    let v = triangles[k];
    assert(call_ensures(vertex, (plan[v],), mesh.vertices@[v]));
}

/// A cylinder's side is tiled: between two neighbouring columns there are two
/// triangles that leave no hole and do not overlap, counter-clockwise seen from
/// outside. Each cap, if there are caps, is a fan: for each step round it a
/// triangle from its centre to its edge, counter-clockwise seen from outside,
/// which is against the columns for the lower one. There are no other triangles.
#[verifier::spinoff_prover]
pub proof fn law_cylinders_are_closed<F: Fn(CylinderPoint) -> PosNormalUv>(
    segments: u32,
    caps: bool,
    vertex: F,
    mesh: PrimitiveMesh,
    i: u32,
) -> (points: Seq<CylinderPoint>)
    requires
        segments < 0x1000_0000,
        call_ensures(PrimitiveMesh::cylinder::<F>, (segments, caps, vertex), mesh),
        i < more_of(segments as int, 3),
    ensures
        ({
            let n = more_of(segments as int, 3);
            let next = (i + 1) as u32;
            &&& points.len() == 6
            &&& tiles(points.map_values(|p: CylinderPoint| on_side(p)), i as int, 0, 1)
            &&& joins(mesh, vertex, 6 * i, points[0], points[1], points[2])
            &&& joins(mesh, vertex, 6 * i + 3, points[3], points[4], points[5])
            &&& caps ==> {
                &&& mesh.indices@.len() == 12 * n
                &&& joins(
                    mesh,
                    vertex,
                    6 * n + 3 * i,
                    CylinderPoint::TopCentre,
                    CylinderPoint::TopRing(i),
                    CylinderPoint::TopRing(next),
                )
                &&& joins(
                    mesh,
                    vertex,
                    9 * n + 3 * i,
                    CylinderPoint::BottomCentre,
                    CylinderPoint::BottomRing(next),
                    CylinderPoint::BottomRing(i),
                )
            }
            &&& !caps ==> mesh.indices@.len() == 6 * n
        }),
{
    let n = more_of(segments as int, 3);
    let m = n as nat;
    let col = i as int;
    let next = (i + 1) as u32;
    let flat = lemma_quad_tiles(col, 0, Cut::Upward);
    let points = Seq::new(
        6,
        |k: int|
            if flat[k].1 == 0 {
                CylinderPoint::SideBottom(flat[k].0 as u32)
            } else {
                CylinderPoint::SideTop(flat[k].0 as u32)
            },
    );
    let plan = cylinder_plan(m, caps);
    let triangles = cylinder_triangles(m, caps);
    let ring = n + 1;
    law_cylinder_is_well_indexed(m, caps);
    assert(mesh.indices@.len() == as_ints(mesh.indices@).len());
    assert(points.map_values(|p: CylinderPoint| on_side(p)) =~= flat) by {
        assert forall|k: int| 0 <= k < 6 implies on_side(#[trigger] points[k]) == flat[k] by {
            assert(is_cell_corner(flat[k], col, 0));
        }
    }
    lemma_quad_row_len(0, ring, m, Cut::Upward);
    assert forall|k: int| 0 <= k < 6 implies {
        &&& mesh.indices@[6 * col + k] < mesh.vertices@.len()
        &&& call_ensures(
            vertex,
            (#[trigger] points[k],),
            mesh.vertices@[mesh.indices@[6 * col + k] as int],
        )
    } by {
        lemma_quad_row_at(0, ring, m, Cut::Upward, col, k);
        assert(is_cell_corner(flat[k], col, 0));
        assert(0 * ring + col == col);
        assert(quad(col, ring, Cut::Upward)[k] == flat[k].1 * ring + flat[k].0);
        let v = triangles[6 * col + k];
        assert(v == quad_row(0, ring, m, Cut::Upward)[6 * col + k]);
        assert(flat[k].1 == 0 || flat[k].1 == 1);
        assert(1 * ring == ring);
        if flat[k].1 == 0 {
            assert(v == flat[k].0);
        } else {
            assert(v == ring + flat[k].0);
        }
        assert(plan[v] == points[k]);
        lemma_joined(mesh, vertex, plan, triangles, 6 * col + k);
    }
    if caps {
        lemma_cylinder_caps(m, vertex, mesh, i);
    }
    points
}

proof fn lemma_cylinder_caps<F: Fn(CylinderPoint) -> PosNormalUv>(
    m: nat,
    vertex: F,
    mesh: PrimitiveMesh,
    i: u32,
)
    requires
        i < m <= 0x1000_0000,
        placed(cylinder_plan(m, true), vertex, mesh.vertices@),
        as_ints(mesh.indices@) == cylinder_triangles(m, true),
    ensures
        joins(
            mesh,
            vertex,
            6 * m + 3 * i,
            CylinderPoint::TopCentre,
            CylinderPoint::TopRing(i),
            CylinderPoint::TopRing((i + 1) as u32),
        ),
        joins(
            mesh,
            vertex,
            9 * m + 3 * i,
            CylinderPoint::BottomCentre,
            CylinderPoint::BottomRing((i + 1) as u32),
            CylinderPoint::BottomRing(i),
        ),
{
    let n = m as int;
    let ring = n + 1;
    let col = i as int;
    let next = (i + 1) as u32;
    let plan = cylinder_plan(m, true);
    let triangles = cylinder_triangles(m, true);
    law_cylinder_is_well_indexed(m, true);
    lemma_quad_row_len(0, ring, m, Cut::Upward);
    assert(mesh.indices@.len() == as_ints(mesh.indices@).len());
    let top = 2 * ring;
    let bottom = 3 * ring + 1;
    lemma_fan_at(top, top + 1, m, false, col);
    lemma_fan_at(bottom, bottom + 1, m, true, col);
    let upper = 6 * n + 3 * col;
    let lower = 9 * n + 3 * col;
    assert(triangles[upper] == top && triangles[upper + 1] == top + 1 + col
        && triangles[upper + 2] == top + 2 + col);
    assert(triangles[lower] == bottom && triangles[lower + 1] == bottom + 2 + col
        && triangles[lower + 2] == bottom + 1 + col);
    assert(plan[top] == CylinderPoint::TopCentre);
    assert(plan[top + 1 + col] == CylinderPoint::TopRing(i));
    assert(plan[top + 2 + col] == CylinderPoint::TopRing(next));
    assert(plan[bottom] == CylinderPoint::BottomCentre);
    assert(plan[bottom + 1 + col] == CylinderPoint::BottomRing(i));
    assert(plan[bottom + 2 + col] == CylinderPoint::BottomRing(next));
    lemma_joined(mesh, vertex, plan, triangles, upper);
    lemma_joined(mesh, vertex, plan, triangles, upper + 1);
    lemma_joined(mesh, vertex, plan, triangles, upper + 2);
    lemma_joined(mesh, vertex, plan, triangles, lower);
    lemma_joined(mesh, vertex, plan, triangles, lower + 1);
    lemma_joined(mesh, vertex, plan, triangles, lower + 2);
}

proof fn lemma_slant_at(apex: int, count: nat, i: int)
    requires
        0 <= i < count,
    ensures
        slant(apex, count).len() == 3 * count,
        slant(apex, count)[3 * i] == i,
        slant(apex, count)[3 * i + 1] == i + 1,
        slant(apex, count)[3 * i + 2] == apex + i,
    decreases count,
{
    let less = (count - 1) as nat;
    lemma_slant_len(apex, less);
    lemma_slant_len(apex, count);
    if i < less {
        lemma_slant_at(apex, less, i);
    }
}

proof fn lemma_slant_len(apex: int, count: nat)
    ensures
        slant(apex, count).len() == 3 * count,
    decreases count,
{
    if count > 0 {
        lemma_slant_len(apex, (count - 1) as nat);
    }
}

/// A cone's slant has for each step round it a triangle from its edge to an apex
/// of the triangle's own, counter-clockwise seen from outside, and its base, if
/// it has one, is a fan that goes round the other way. There are no other
/// triangles.
pub proof fn law_cones_are_closed<F: Fn(ConePoint) -> PosNormalUv>(
    segments: u32,
    base: bool,
    vertex: F,
    mesh: PrimitiveMesh,
    i: u32,
)
    requires
        segments < 0x1000_0000,
        call_ensures(PrimitiveMesh::cone::<F>, (segments, base, vertex), mesh),
        i < more_of(segments as int, 3),
    ensures
        ({
            let n = more_of(segments as int, 3);
            let next = (i + 1) as u32;
            &&& joins(
                mesh,
                vertex,
                3 * i,
                ConePoint::SlantRing(i),
                ConePoint::SlantRing(next),
                ConePoint::Apex(i),
            )
            &&& base ==> mesh.indices@.len() == 6 * n && joins(
                mesh,
                vertex,
                3 * n + 3 * i,
                ConePoint::BaseCentre,
                ConePoint::BaseRing(next),
                ConePoint::BaseRing(i),
            )
            &&& !base ==> mesh.indices@.len() == 3 * n
        }),
{
    let n = more_of(segments as int, 3);
    let m = n as nat;
    let col = i as int;
    let next = (i + 1) as u32;
    let plan = cone_plan(m, base);
    let triangles = cone_triangles(m, base);
    law_cone_is_well_indexed(m, base);
    assert(mesh.indices@.len() == as_ints(mesh.indices@).len());
    lemma_slant_at(n + 1, m, col);
    assert(triangles[3 * col] == col && triangles[3 * col + 1] == col + 1 && triangles[3 * col + 2]
        == n + 1 + col);
    assert(plan[col] == ConePoint::SlantRing(i));
    assert(plan[col + 1] == ConePoint::SlantRing(next));
    assert(plan[n + 1 + col] == ConePoint::Apex(i));
    lemma_joined(mesh, vertex, plan, triangles, 3 * col);
    lemma_joined(mesh, vertex, plan, triangles, 3 * col + 1);
    lemma_joined(mesh, vertex, plan, triangles, 3 * col + 2);
    if base {
        let centre = 2 * n + 1;
        lemma_fan_at(centre, centre + 1, m, true, col);
        let first = 3 * n + 3 * col;
        assert(triangles[first] == centre && triangles[first + 1] == centre + 2 + col
            && triangles[first + 2] == centre + 1 + col);
        assert(plan[centre] == ConePoint::BaseCentre);
        assert(plan[centre + 1 + col] == ConePoint::BaseRing(i));
        assert(plan[centre + 2 + col] == ConePoint::BaseRing(next));
        lemma_joined(mesh, vertex, plan, triangles, first);
        lemma_joined(mesh, vertex, plan, triangles, first + 1);
        lemma_joined(mesh, vertex, plan, triangles, first + 2);
    }
}

/// A corner of a box with the given half extents: on each axis on the side that
/// the sign tells.
pub open spec fn signed_corner(h: Bits3, signs: (int, int, int)) -> Bits3 {
    [
        if signs.0 > 0 {
            h[0]
        } else {
            neg_bits(h[0])
        },
        if signs.1 > 0 {
            h[1]
        } else {
            neg_bits(h[1])
        },
        if signs.2 > 0 {
            h[2]
        } else {
            neg_bits(h[2])
        },
    ]
}

/// One of the three signs.
pub open spec fn sign_on(signs: (int, int, int), axis: int) -> int {
    if axis == 0 {
        signs.0
    } else if axis == 1 {
        signs.1
    } else {
        signs.2
    }
}

/// What stands on an axis of the vector that is square to the sides `b - a` and
/// `c - a`; its length is twice the area between them.
pub open spec fn square_to(
    a: (int, int, int),
    b: (int, int, int),
    c: (int, int, int),
    axis: int,
) -> int {
    let u = (axis + 1) % 3;
    let v = (axis + 2) % 3;
    (sign_on(b, u) - sign_on(a, u)) * (sign_on(c, v) - sign_on(a, v)) - (sign_on(b, v) - sign_on(
        a,
        v,
    )) * (sign_on(c, u) - sign_on(a, u))
}

/// 1 for the faces that look along an axis, -1 for those that look against it.
pub open spec fn facing(f: int) -> int {
    if f % 2 == 0 {
        1
    } else {
        -1
    }
}

/// Neither of the numbers is anything but 1 or -1.
pub open spec fn are_signs(signs: (int, int, int)) -> bool {
    &&& signs.0 == 1 || signs.0 == -1
    &&& signs.1 == 1 || signs.1 == -1
    &&& signs.2 == 1 || signs.2 == -1
}

/// The vertex is one of face `f`: it lies on the face, and its normal points
/// straight out of it.
pub open spec fn is_on_face(v: PosNormalUv, signs: (int, int, int), h: Bits3, f: int) -> bool {
    &&& are_signs(signs)
    &&& v.position == signed_corner(h, signs)
    &&& sign_on(signs, f / 2) == facing(f)
    &&& v.normal[f / 2] == (if facing(f) > 0 {
        ONE
    } else {
        neg_bits(ONE)
    })
    &&& forall|axis: int|
        0 <= axis < 3 && axis != f / 2 ==> #[trigger] v.normal[axis] == 0 || v.normal[axis]
            == neg_bits(0)
    &&& v.uv[0] == 0 || v.uv[0] == ONE
    &&& v.uv[1] == 0 || v.uv[1] == ONE
}

/// The three vertices from `at` on make a triangle of face `f` with half its
/// area, counter-clockwise seen from outside.
pub open spec fn is_face_triangle(
    indices: Seq<u32>,
    signs: Seq<(int, int, int)>,
    f: int,
    at: int,
) -> bool {
    let a = indices[at] as int;
    let b = indices[at + 1] as int;
    let c = indices[at + 2] as int;
    &&& 4 * f <= a < 4 * f + 4
    &&& 4 * f <= b < 4 * f + 4
    &&& 4 * f <= c < 4 * f + 4
    &&& square_to(signs[a], signs[b], signs[c], f / 2) == 4 * facing(f)
}

/// One of the three indices from `at` on is `v`.
pub open spec fn has_vertex(indices: Seq<u32>, at: int, v: int) -> bool {
    indices[at] == v || indices[at + 1] == v || indices[at + 2] == v
}

/// The sides on which the corner number `k` of face `f` stands.
spec fn face_signs(f: int, k: int) -> (int, int, int) {
    if f == 0 {
        (1, if k == 0 || k == 3 { -1 } else { 1 }, if k < 2 { -1 } else { 1 })
    } else if f == 1 {
        (-1, if k == 0 || k == 3 { 1 } else { -1 }, if k < 2 { -1 } else { 1 })
    } else if f == 2 {
        (if k == 0 || k == 3 { 1 } else { -1 }, 1, if k < 2 { -1 } else { 1 })
    } else if f == 3 {
        (if k == 0 || k == 3 { -1 } else { 1 }, -1, if k < 2 { -1 } else { 1 })
    } else if f == 4 {
        (if k == 0 || k == 3 { -1 } else { 1 }, if k < 2 { -1 } else { 1 }, 1)
    } else {
        (if k == 0 || k == 3 { -1 } else { 1 }, if k < 2 { 1 } else { -1 }, -1)
    }
}

/// A box has six faces, along and against each axis. Every vertex of a face is a
/// corner of the box on that side, with the normal of the face; the two triangles
/// of a face have half its area each and go round counter-clockwise seen from
/// outside, use all of its four vertices, and where one leaves a vertex out the
/// other leaves out the one at the opposite corner; and the four vertices have
/// the four corners of the texture.
pub proof fn law_cubes_are_closed_boxes(half: Bits3, mesh: PrimitiveMesh) -> (signs: Seq<
    (int, int, int),
>)
    requires
        call_ensures(PrimitiveMesh::cube, (half,), mesh),
    ensures
        mesh.vertices@.len() == 24,
        mesh.indices@.len() == 36,
        forall|f: int, k: int|
            0 <= f < 6 && 0 <= k < 4 ==> is_on_face(
                #[trigger] mesh.vertices@[4 * f + k],
                signs[4 * f + k],
                half,
                f,
            ),
        forall|f: int|
            #![trigger facing(f)]
            0 <= f < 6 ==> {
                &&& is_face_triangle(mesh.indices@, signs, f, 6 * f)
                &&& is_face_triangle(mesh.indices@, signs, f, 6 * f + 3)
            },
        forall|f: int, k: int|
            #![trigger mesh.vertices@[4 * f + k]]
            0 <= f < 6 && 0 <= k < 4 ==> {
                let v = 4 * f + k;
                &&& has_vertex(mesh.indices@, 6 * f, v) || has_vertex(mesh.indices@, 6 * f + 3, v)
                &&& !has_vertex(mesh.indices@, 6 * f, v) ==> forall|l: int|
                    0 <= l < 4 && #[trigger] signs[4 * f + l] == opposite_on_face(signs[v], f)
                        ==> !has_vertex(mesh.indices@, 6 * f + 3, 4 * f + l)
            },
        forall|f: int, k: int, l: int|
            0 <= f < 6 && 0 <= k < l < 4 ==> (#[trigger] mesh.vertices@[4 * f + k]).uv != (
            #[trigger] mesh.vertices@[4 * f + l]).uv,
{
    let signs = Seq::new(24, |v: int| face_signs(v / 4, v % 4));
    let indices = mesh.indices@;
    lemma_cube_triangles(6);
    assert(indices.len() == as_ints(indices).len());
    assert forall|f: int, k: int| 0 <= f < 6 && 0 <= k < 4 implies is_on_face(
        #[trigger] mesh.vertices@[4 * f + k],
        signs[4 * f + k],
        half,
        f,
    ) by {
        lemma_cube_vertex(half, mesh, f, k);
        assert((4 * f + k) / 4 == f && (4 * f + k) % 4 == k);
    }
    assert forall|f: int| 0 <= f < 6 implies {
        &&& #[trigger] indices[6 * f] == 4 * f
        &&& indices[6 * f + 1] == 4 * f + 1
        &&& indices[6 * f + 2] == 4 * f + 2
        &&& indices[6 * f + 3] == 4 * f
        &&& indices[6 * f + 4] == 4 * f + 2
        &&& indices[6 * f + 5] == 4 * f + 3
    } by {
        lemma_cube_triangles_at(6, f);
        assert(as_ints(indices)[6 * f] == indices[6 * f]);
        assert(as_ints(indices)[6 * f + 1] == indices[6 * f + 1]);
        assert(as_ints(indices)[6 * f + 2] == indices[6 * f + 2]);
        assert(as_ints(indices)[6 * f + 3] == indices[6 * f + 3]);
        assert(as_ints(indices)[6 * f + 4] == indices[6 * f + 4]);
        assert(as_ints(indices)[6 * f + 5] == indices[6 * f + 5]);
    }
    assert forall|f: int| #![trigger facing(f)] 0 <= f < 6 implies {
        &&& is_face_triangle(indices, signs, f, 6 * f)
        &&& is_face_triangle(indices, signs, f, 6 * f + 3)
    } by {
        assert(indices[6 * f] == 4 * f);
        assert((4 * f) / 4 == f && (4 * f + 1) / 4 == f && (4 * f + 2) / 4 == f && (4 * f + 3) / 4
            == f);
        assert((4 * f) % 4 == 0 && (4 * f + 1) % 4 == 1 && (4 * f + 2) % 4 == 2 && (4 * f + 3) % 4
            == 3);
        lemma_face_turns(f);
    }
    assert forall|f: int, k: int|
        #![trigger mesh.vertices@[4 * f + k]]
        0 <= f < 6 && 0 <= k < 4 implies {
        let v = 4 * f + k;
        &&& has_vertex(indices, 6 * f, v) || has_vertex(indices, 6 * f + 3, v)
        &&& !has_vertex(indices, 6 * f, v) ==> forall|l: int|
            0 <= l < 4 && #[trigger] signs[4 * f + l] == opposite_on_face(signs[v], f)
                ==> !has_vertex(indices, 6 * f + 3, 4 * f + l)
    } by {
        assert(indices[6 * f] == 4 * f);
        assert((4 * f + k) / 4 == f && (4 * f + k) % 4 == k);
        assert forall|l: int|
            0 <= l < 4 && k == 3 && #[trigger] signs[4 * f + l] == opposite_on_face(
                signs[4 * f + k],
                f,
            ) implies !has_vertex(indices, 6 * f + 3, 4 * f + l) by {
            assert((4 * f + l) / 4 == f && (4 * f + l) % 4 == l);
        }
    }
    assert forall|f: int, k: int, l: int| 0 <= f < 6 && 0 <= k < l < 4 implies (
    #[trigger] mesh.vertices@[4 * f + k]).uv != (#[trigger] mesh.vertices@[4 * f + l]).uv by {
        lemma_cube_vertex(half, mesh, f, k);
        lemma_cube_vertex(half, mesh, f, l);
        let a = mesh.vertices@[4 * f + k].uv;
        let b = mesh.vertices@[4 * f + l].uv;
        assert(a[0] != b[0] || a[1] != b[1]);
    }
    signs
}

/// The signs of the corner across a face.
pub open spec fn opposite_on_face(signs: (int, int, int), f: int) -> (int, int, int) {
    if f / 2 == 0 {
        (signs.0, -signs.1, -signs.2)
    } else if f / 2 == 1 {
        (-signs.0, signs.1, -signs.2)
    } else {
        (-signs.0, -signs.1, signs.2)
    }
}

proof fn lemma_cube_vertex(half: Bits3, mesh: PrimitiveMesh, f: int, k: int)
    requires
        mesh.vertices@ == cube_vertices(half),
        0 <= f < 6,
        0 <= k < 4,
    ensures
        is_on_face(mesh.vertices@[4 * f + k], face_signs(f, k), half, f),
        mesh.vertices@[4 * f + k].uv == corner_uv(k),
{
    let v = mesh.vertices@[4 * f + k];
    assert((4 * f + k) / 4 == f && (4 * f + k) % 4 == k);
    assert(v.position == face_corners(f, half)[k]);
    assert(v.position =~= signed_corner(half, face_signs(f, k)));
    assert(v.normal == face_normal(f));
    assert(v.uv == corner_uv(k));
}

proof fn lemma_cube_triangles_at(faces: nat, f: int)
    requires
        0 <= f < faces,
    ensures
        cube_triangles(faces).len() == 6 * faces,
        cube_triangles(faces)[6 * f] == 4 * f,
        cube_triangles(faces)[6 * f + 1] == 4 * f + 1,
        cube_triangles(faces)[6 * f + 2] == 4 * f + 2,
        cube_triangles(faces)[6 * f + 3] == 4 * f,
        cube_triangles(faces)[6 * f + 4] == 4 * f + 2,
        cube_triangles(faces)[6 * f + 5] == 4 * f + 3,
    decreases faces,
{
    lemma_cube_triangles(faces);
    lemma_cube_triangles((faces - 1) as nat);
    if f < faces - 1 {
        lemma_cube_triangles_at((faces - 1) as nat, f);
    }
}

proof fn lemma_face_turns(f: int)
    requires
        0 <= f < 6,
    ensures
        square_to(face_signs(f, 0), face_signs(f, 1), face_signs(f, 2), f / 2) == 4 * facing(f),
        square_to(face_signs(f, 0), face_signs(f, 2), face_signs(f, 3), f / 2) == 4 * facing(f),
{
    let u = (f / 2 + 1) % 3;
    let v = (f / 2 + 2) % 3;
    let a = face_signs(f, 0);
    let b = face_signs(f, 1);
    let c = face_signs(f, 2);
    let d = face_signs(f, 3);
    lemma_sides(sign_on(b, u) - sign_on(a, u), sign_on(c, v) - sign_on(a, v));
    lemma_sides(sign_on(b, v) - sign_on(a, v), sign_on(c, u) - sign_on(a, u));
    lemma_sides(sign_on(c, u) - sign_on(a, u), sign_on(d, v) - sign_on(a, v));
    lemma_sides(sign_on(c, v) - sign_on(a, v), sign_on(d, u) - sign_on(a, u));
}

proof fn lemma_sides(x: int, y: int)
    requires
        x == 2 || x == 0 || x == -2,
        y == 2 || y == 0 || y == -2,
    ensures
        x * y == (if x == 0 || y == 0 {
            0int
        } else if x == y {
            4
        } else {
            -4
        }),
{
    if x == 2 {
        assert(2 * y == y + y);
    } else if x == -2 {
        assert(-2 * y == -(y + y));
    } else {
        assert(0 * y == 0);
    }
}

} // verus!
