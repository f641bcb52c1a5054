//! The edges of a cube as lines: one pixel wide, or as quads of any width.

use super::float_bits::Bits3;
use super::mesh_primitives::{has_corner, is_cell_corner, tiles, turn};
use super::pipeline::{fat_line_attributes, fat_line_vertex, FAT_LINE_STRIDE};
use super::vertex_layout::{fills, VertexAttribute};
use vstd::prelude::*;

verus! {

/// 0.5 as a bit pattern.
pub const HALF: u32 = 0x3f00_0000;

/// -0.5 as a bit pattern.
pub const MINUS_HALF: u32 = 0xbf00_0000;

/// 1 as a bit pattern.
pub const ONE: u32 = 0x3f80_0000;

/// -1 as a bit pattern.
pub const MINUS_ONE: u32 = 0xbf80_0000;

/// The sign of a coordinate of a corner: corners go round the bottom of the
/// cube and then round its top.
pub open spec fn is_high(corner: int, axis: int) -> bool {
    if axis == 0 {
        corner % 4 == 1 || corner % 4 == 2
    } else if axis == 1 {
        corner % 4 >= 2
    } else {
        corner >= 4
    }
}

/// A coordinate of a corner.
pub open spec fn coordinate(corner: int, axis: int) -> u32 {
    if is_high(corner, axis) {
        HALF
    } else {
        MINUS_HALF
    }
}

/// A corner of the cube.
pub open spec fn is_corner(p: Bits3, corner: int) -> bool {
    &&& p@[0] == coordinate(corner, 0)
    &&& p@[1] == coordinate(corner, 1)
    &&& p@[2] == coordinate(corner, 2)
}

/// The corners that an edge joins: first the edges of the bottom, then those of
/// the top, then the upright ones.
pub open spec fn edge(e: int) -> (int, int) {
    if e < 4 {
        (e, (e + 1) % 4)
    } else if e < 8 {
        (e, 4 + (e + 1) % 4)
    } else {
        (e - 8, e - 4)
    }
}

/// On how many axes two corners differ.
pub open spec fn axes_apart(a: int, b: int) -> int {
    (if is_high(a, 0) != is_high(b, 0) {
        1int
    } else {
        0
    }) + (if is_high(a, 1) != is_high(b, 1) {
        1int
    } else {
        0
    }) + (if is_high(a, 2) != is_high(b, 2) {
        1int
    } else {
        0
    })
}

/// Every edge joins corners that differ on one axis, so that it has the length
/// of the cube's side, and every two such corners are joined by one edge.
pub proof fn law_edges_are_those_of_a_cube()
    ensures
        forall|e: int|
            0 <= e < 12 ==> 0 <= (#[trigger] edge(e)).0 < 8 && 0 <= edge(e).1 < 8 && axes_apart(
                edge(e).0,
                edge(e).1,
            ) == 1,
        forall|e: int, f: int|
            0 <= e < f < 12 ==> {
                &&& #[trigger] edge(e) != #[trigger] edge(f)
                &&& edge(e) != (edge(f).1, edge(f).0)
            },
        forall|a: int, b: int|
            0 <= a < b < 8 && #[trigger] axes_apart(a, b) == 1 ==> exists|e: int|
                0 <= e < 12 && (#[trigger] edge(e) == (a, b) || edge(e) == (b, a)),
{
    assert forall|a: int, b: int| 0 <= a < b < 8 && #[trigger] axes_apart(a, b) == 1 implies exists|
        e: int,
    |
        0 <= e < 12 && (#[trigger] edge(e) == (a, b) || edge(e) == (b, a)) by {
        let e = if b >= 4 && a < 4 {
            a + 8
        } else if b == a + 1 {
            a
        } else {
            b
        };
        assert(edge(e) == (a, b) || edge(e) == (b, a));
    }
}

/// The corners of a cube with side 1 about the origin.
pub fn unit_cube_corners() -> (r: [Bits3; 8])
    ensures
        forall|i: int| 0 <= i < 8 ==> is_corner(#[trigger] r@[i], i),
{
    let h: u32 = HALF;
    let l: u32 = MINUS_HALF;
    [
        [l, l, l],
        [h, l, l],
        [h, h, l],
        [l, h, l],
        [l, l, h],
        [h, l, h],
        [h, h, h],
        [l, h, h],
    ]
}

/// The edges of a cube with side 1 about the origin: its corners, and for each
/// edge the two that it joins.
pub fn unit_cube_line_geometry() -> (r: ([Bits3; 8], [u16; 24]))
    ensures
        forall|i: int| 0 <= i < 8 ==> is_corner(#[trigger] r.0@[i], i),
        forall|e: int|
            #![trigger edge(e)]
            0 <= e < 12 ==> r.1@[2 * e] == edge(e).0 && r.1@[2 * e + 1] == edge(e).1,
{
    let indices: [u16; 24] = [
        0, 1, 1, 2, 2, 3, 3, 0, 4, 5, 5, 6, 6, 7, 7, 4, 0, 4, 1, 5, 2, 6, 3, 7,
    ];
    (unit_cube_corners(), indices)
}

/// A vertex of the quad that an edge is drawn as.
#[derive(Debug, Clone, Copy, PartialEq, Eq)]
pub struct FatLineVertex {
    pub pos_a: Bits3,
    pub pos_b: Bits3,
    /// The side of the line, -1 or 1.
    pub side: u32,
    /// The end of the line, 0 or 1.
    pub endpoint: u32,
}

impl FatLineVertex {
    /// The bytes of a vertex.
    pub fn stride() -> (r: u64)
        ensures
            r == FAT_LINE_STRIDE,
    {
        FAT_LINE_STRIDE
    }

    /// The attributes of a vertex, at locations from `start_location`.
    pub fn attributes(start_location: u32) -> (r: Vec<VertexAttribute>)
        requires
            start_location + 3 <= u32::MAX,
        ensures
            r@ == fat_line_attributes(start_location as int),
            fills(r@, FAT_LINE_STRIDE as int, start_location as int),
    {
        fat_line_vertex(start_location)
    }
}

/// The vertex at `i`: each edge has four, two at either end, one on either
/// side.
pub open spec fn is_quad_vertex(v: FatLineVertex, i: int) -> bool {
    &&& is_corner(v.pos_a, edge(i / 4).0)
    &&& is_corner(v.pos_b, edge(i / 4).1)
    &&& v.side == (if i % 2 == 0 {
        MINUS_ONE
    } else {
        ONE
    })
    &&& v.endpoint == (if i % 4 < 2 {
        0
    } else {
        ONE
    })
}

/// The index at `i`: each edge has two triangles, which share its second and
/// third vertices.
pub open spec fn quad_index(i: int) -> int {
    let corner = if i % 6 < 3 {
        i % 6
    } else if i % 6 == 3 {
        2
    } else if i % 6 == 4 {
        1
    } else {
        3
    };
    4 * (i / 6) + corner
}

/// The edges of a cube with side 1 about the origin, as quads of two triangles.
pub fn unit_cube_fat_line_geometry() -> (r: (Vec<FatLineVertex>, Vec<u16>))
    ensures
        r.0@.len() == 48,
        forall|i: int| 0 <= i < 48 ==> is_quad_vertex(#[trigger] r.0@[i], i),
        r.1@.len() == 72,
        forall|i: int| 0 <= i < 72 ==> #[trigger] r.1@[i] == quad_index(i),
{
    let (corners, ends) = unit_cube_line_geometry();
    let mut vertices: Vec<FatLineVertex> = Vec::new();
    let mut indices: Vec<u16> = Vec::new();
    let mut e: usize = 0;
    while e < 12
        invariant
            e <= 12,
            forall|i: int| 0 <= i < 8 ==> is_corner(#[trigger] corners@[i], i),
            forall|e: int|
                #![trigger edge(e)]
                0 <= e < 12 ==> ends@[2 * e] == edge(e).0 && ends@[2 * e + 1] == edge(e).1,
            vertices@.len() == 4 * e,
            forall|i: int| 0 <= i < 4 * e ==> is_quad_vertex(#[trigger] vertices@[i], i),
            indices@.len() == 6 * e,
            forall|i: int| 0 <= i < 6 * e ==> #[trigger] indices@[i] == quad_index(i),
        decreases 12 - e,
    {
        let ghost this = edge(e as int);
        let a = ends[2 * e] as usize;
        let b = ends[2 * e + 1] as usize;
        let pos_a = corners[a];
        let pos_b = corners[b];
        let base: u16 = (4 * e) as u16;
        let ghost old_vertices = vertices@;
        let ghost old_indices = indices@;
        vertices.push(FatLineVertex { pos_a, pos_b, side: MINUS_ONE, endpoint: 0 });
        vertices.push(FatLineVertex { pos_a, pos_b, side: ONE, endpoint: 0 });
        vertices.push(FatLineVertex { pos_a, pos_b, side: MINUS_ONE, endpoint: ONE });
        vertices.push(FatLineVertex { pos_a, pos_b, side: ONE, endpoint: ONE });
        indices.push(base);
        indices.push(base + 1);
        indices.push(base + 2);
        indices.push(base + 2);
        indices.push(base + 1);
        indices.push(base + 3);
        proof {
            assert forall|i: int| 0 <= i < 4 * (e + 1) implies is_quad_vertex(
                #[trigger] vertices@[i],
                i,
            ) by {
                if i < 4 * e {
                    assert(vertices@[i] == old_vertices[i]);
                } else {
                    assert(i / 4 == e as int);
                }
            }
            assert forall|i: int| 0 <= i < 6 * (e + 1) implies #[trigger] indices@[i]
                == quad_index(i) by {
                if i < 6 * e {
                    assert(indices@[i] == old_indices[i]);
                } else {
                    assert(i / 6 == e as int);
                }
            }
        }
        e += 1;
    }
    (vertices, indices)
}

/// Every index of the quads is that of a vertex, and both triangles of an edge
/// use its vertices alone.
pub proof fn law_quads_are_well_indexed(i: int)
    requires
        0 <= i < 72,
    ensures
        0 <= quad_index(i) < 48,
        quad_index(i) / 4 == i / 6,
{
}

/// The coordinate is that of a corner of the cube.
pub open spec fn is_half(c: u32) -> bool {
    c == HALF || c == MINUS_HALF
}

/// The two points are corners of a cube with side 1 about the origin that an edge
/// joins: they differ on one axis.
pub open spec fn are_ends(a: Bits3, b: Bits3) -> bool {
    &&& is_half(a@[0]) && is_half(a@[1]) && is_half(a@[2])
    &&& is_half(b@[0]) && is_half(b@[1]) && is_half(b@[2])
    &&& {
        ||| a@[0] != b@[0] && a@[1] == b@[1] && a@[2] == b@[2]
        ||| a@[0] == b@[0] && a@[1] != b@[1] && a@[2] == b@[2]
        ||| a@[0] == b@[0] && a@[1] == b@[1] && a@[2] != b@[2]
    }
}

/// The two pairs of points are the same, whichever comes first.
pub open spec fn are_same_ends(a: Bits3, b: Bits3, c: Bits3, d: Bits3) -> bool {
    (a@ == c@ && b@ == d@) || (a@ == d@ && b@ == c@)
}

/// The place of a vertex on the quad of its line: across it and along it.
pub open spec fn on_quad(v: FatLineVertex) -> (int, int) {
    (
        if v.side == ONE {
            1
        } else {
            0
        },
        if v.endpoint == ONE {
            1
        } else {
            0
        },
    )
}

/// The lines of a cube join its corners, one line for each of the twelve edges.
pub proof fn law_lines_are_the_edges_of_a_cube(r: ([Bits3; 8], [u16; 24]))
    requires
        call_ensures(unit_cube_line_geometry, (), r),
    ensures
        forall|e: int|
            #![trigger r.1@[2 * e]]
            0 <= e < 12 ==> {
                &&& r.1@[2 * e] < 8
                &&& r.1@[2 * e + 1] < 8
                &&& are_ends(r.0@[r.1@[2 * e] as int], r.0@[r.1@[2 * e + 1] as int])
            },
        forall|e: int, f: int|
            #![trigger r.1@[2 * e], r.1@[2 * f]]
            0 <= e < f < 12 ==> !are_same_ends(
                r.0@[r.1@[2 * e] as int],
                r.0@[r.1@[2 * e + 1] as int],
                r.0@[r.1@[2 * f] as int],
                r.0@[r.1@[2 * f + 1] as int],
            ),
{
    law_edges_are_those_of_a_cube();
    assert forall|e: int| #![trigger r.1@[2 * e]] 0 <= e < 12 implies {
        &&& r.1@[2 * e] < 8
        &&& r.1@[2 * e + 1] < 8
        &&& are_ends(r.0@[r.1@[2 * e] as int], r.0@[r.1@[2 * e + 1] as int])
    } by {
        assert(0 <= edge(e).0 < 8 && axes_apart(edge(e).0, edge(e).1) == 1);
        assert(is_corner(r.0@[edge(e).0], edge(e).0));
        assert(is_corner(r.0@[edge(e).1], edge(e).1));
    }
    assert forall|e: int, f: int| #![trigger r.1@[2 * e], r.1@[2 * f]] 0 <= e < f < 12 implies !are_same_ends(
        r.0@[r.1@[2 * e] as int],
        r.0@[r.1@[2 * e + 1] as int],
        r.0@[r.1@[2 * f] as int],
        r.0@[r.1@[2 * f + 1] as int],
    ) by {
        assert(edge(e) != edge(f) && edge(e) != (edge(f).1, edge(f).0));
        lemma_corners_differ(r.0@[edge(e).0], r.0@[edge(f).0], edge(e).0, edge(f).0);
        lemma_corners_differ(r.0@[edge(e).1], r.0@[edge(f).1], edge(e).1, edge(f).1);
        lemma_corners_differ(r.0@[edge(e).0], r.0@[edge(f).1], edge(e).0, edge(f).1);
        lemma_corners_differ(r.0@[edge(e).1], r.0@[edge(f).0], edge(e).1, edge(f).0);
    }
}

proof fn lemma_corners_differ(p: Bits3, q: Bits3, a: int, b: int)
    requires
        0 <= a < 8,
        0 <= b < 8,
        is_corner(p, a),
        is_corner(q, b),
    ensures
        p@ == q@ ==> a == b,
{
}

/// A fat line is drawn along an edge of the cube as a quad of two triangles that
/// leave no hole and do not overlap; all four of its vertices know both ends of
/// the edge, and lie at either end on either side.
pub proof fn law_fat_lines_are_whole_quads(r: (Vec<FatLineVertex>, Vec<u16>), e: int) -> (points: Seq<
    (int, int),
>)
    requires
        call_ensures(unit_cube_fat_line_geometry, (), r),
        0 <= e < 12,
    ensures
        r.0@.len() == 48,
        r.1@.len() == 72,
        tiles(points, 0, 0, 1),
        forall|k: int|
            #![trigger points[k]]
            0 <= k < 6 ==> {
                let v = r.1@[6 * e + k] as int;
                &&& 4 * e <= v < 4 * e + 4
                &&& points[k] == on_quad(r.0@[v])
                &&& r.0@[v].side == ONE || r.0@[v].side == MINUS_ONE
                &&& r.0@[v].endpoint == ONE || r.0@[v].endpoint == 0
                &&& are_ends(r.0@[v].pos_a, r.0@[v].pos_b)
                &&& r.0@[v].pos_a@ == r.0@[4 * e].pos_a@
                &&& r.0@[v].pos_b@ == r.0@[4 * e].pos_b@
            },
{
    let points: Seq<(int, int)> = Seq::new(
        6,
        |k: int| on_quad(r.0@[r.1@[6 * e + k] as int]),
    );
    law_edges_are_those_of_a_cube();
    assert(0 <= edge(e).0 < 8 && 0 <= edge(e).1 < 8);
    assert forall|k: int|
        #![trigger points[k]]
        0 <= k < 6 implies {
        let v = r.1@[6 * e + k] as int;
        &&& 4 * e <= v < 4 * e + 4
        &&& points[k] == on_quad(r.0@[v])
        &&& r.0@[v].side == ONE || r.0@[v].side == MINUS_ONE
        &&& r.0@[v].endpoint == ONE || r.0@[v].endpoint == 0
        &&& are_ends(r.0@[v].pos_a, r.0@[v].pos_b)
        &&& r.0@[v].pos_a@ == r.0@[4 * e].pos_a@
        &&& r.0@[v].pos_b@ == r.0@[4 * e].pos_b@
    } by {
        let v = r.1@[6 * e + k] as int;
        assert((6 * e + k) / 6 == e && (6 * e + k) % 6 == k);
        assert(v == quad_index(6 * e + k));
        assert(is_quad_vertex(r.0@[v], v));
        assert(v / 4 == e);
        assert(is_quad_vertex(r.0@[4 * e], 4 * e));
        assert((4 * e) / 4 == e);
        assert(r.0@[v].pos_a@ =~= r.0@[4 * e].pos_a@);
        assert(r.0@[v].pos_b@ =~= r.0@[4 * e].pos_b@);
    }
    assert(points[0] == (0int, 0int) && points[1] == (1int, 0int) && points[2] == (0int, 1int)
        && points[3] == (0int, 1int) && points[4] == (1int, 0int) && points[5] == (1int, 1int)) by {
        assert forall|k: int| 0 <= k < 6 implies (#[trigger] points[k]) == on_quad(
            r.0@[quad_index(6 * e + k)],
        ) by {
            assert(r.1@[6 * e + k] == quad_index(6 * e + k));
        }
        assert((6 * e + 0) % 6 == 0 && (6 * e + 1) % 6 == 1 && (6 * e + 2) % 6 == 2 && (6 * e + 3)
            % 6 == 3 && (6 * e + 4) % 6 == 4 && (6 * e + 5) % 6 == 5);
        assert((6 * e + 0) / 6 == e && (6 * e + 1) / 6 == e && (6 * e + 2) / 6 == e && (6 * e + 3)
            / 6 == e && (6 * e + 4) / 6 == e && (6 * e + 5) / 6 == e);
        assert(is_quad_vertex(r.0@[4 * e], 4 * e));
        assert(is_quad_vertex(r.0@[4 * e + 1], 4 * e + 1));
        assert(is_quad_vertex(r.0@[4 * e + 2], 4 * e + 2));
        assert(is_quad_vertex(r.0@[4 * e + 3], 4 * e + 3));
    }
    assert(turn((0, 0), (1, 0), (0, 1)) == 1 && turn((0, 1), (1, 0), (1, 1)) == 1) by {
        assert((1int - 0) * (1int - 0) - (0int - 0) * (0int - 0) == 1) by (nonlinear_arith);
        assert((1int - 0) * (1int - 1) - (1int - 0) * (0int - 1) == 1) by (nonlinear_arith);
    }
    assert forall|p: (int, int)| #[trigger] is_cell_corner(p, 0, 0) implies {
        &&& has_corner(points, 0, p) || has_corner(points, 3, p)
        &&& !has_corner(points, 0, p) ==> !has_corner(
            points,
            3,
            (2 * 0 + 1 - p.0, 2 * 0 + 1 - p.1),
        )
    } by {}
    assert forall|k: int| 0 <= k < 6 implies is_cell_corner(#[trigger] points[k], 0, 0) by {}
    points
}

} // verus!
