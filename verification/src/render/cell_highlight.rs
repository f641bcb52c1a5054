//! The highlight of one cell: a fan of triangles round its centre.

use super::float_bits::Bits3;
use vstd::prelude::*;

verus! {

/// The most vertices that the highlight's buffer holds.
pub const MAX_VERTICES: u64 = 32;

/// A grid of square cells.
pub struct SquareGrid;

impl SquareGrid {
    pub const CORNERS_PER_CELL: usize = 4;
}

/// A grid of hexagonal cells.
pub struct HexGrid;

impl HexGrid {
    pub const CORNERS_PER_CELL: usize = 6;
}

/// A vertex of the fan.
#[derive(Debug, Clone, Copy, PartialEq, Eq)]
pub struct OutlineVertex {
    pub pos: Bits3,
    pub color: [u32; 4],
}

/// The vertex over a point of the plane.
pub open spec fn is_over(v: OutlineVertex, at: [u32; 2], z: u32, color: [u32; 4]) -> bool {
    &&& v.pos@[0] == at@[0]
    &&& v.pos@[1] == at@[1]
    &&& v.pos@[2] == z
    &&& v.color == color
}

/// The point under the vertex `i` of the fan: each edge has the centre, the
/// corner it starts at and the corner it ends at.
pub open spec fn fan_point(centre: [u32; 2], corners: Seq<[u32; 2]>, i: int) -> [u32; 2] {
    let edge = i / 3;
    if i % 3 == 0 {
        centre
    } else if i % 3 == 1 {
        corners[edge]
    } else if edge + 1 == corners.len() {
        corners[0]
    } else {
        corners[edge + 1]
    }
}

/// The vertices are the fan round `centre` at the height `z`.
pub open spec fn is_fan(
    vertices: Seq<OutlineVertex>,
    centre: [u32; 2],
    corners: Seq<[u32; 2]>,
    z: u32,
    color: [u32; 4],
) -> bool {
    &&& vertices.len() == 3 * corners.len()
    &&& forall|i: int|
        0 <= i < vertices.len() ==> is_over(
            #[trigger] vertices[i],
            fan_point(centre, corners, i),
            z,
            color,
        )
}

fn over(at: [u32; 2], z: u32, color: [u32; 4]) -> (r: OutlineVertex)
    ensures
        is_over(r, at, z, color),
{
    OutlineVertex { pos: [at[0], at[1], z], color }
}

/// The highlight: its colour, and how many vertices are to be drawn.
pub struct CellHighlight {
    vertex_count: u32,
    color: [u32; 4],
}

impl CellHighlight {
    /// How many vertices are to be drawn.
    pub closed spec fn count(&self) -> u32 {
        self.vertex_count
    }

    /// The colour of the next cell.
    pub closed spec fn colour(&self) -> [u32; 4] {
        self.color
    }

    /// A highlight that is on no cell.
    pub fn new(color: [u32; 4]) -> (r: Self)
        ensures
            r.count() == 0,
            r.colour() == color,
    {
        CellHighlight { vertex_count: 0, color }
    }

    /// Puts the highlight on a cell, and gives the vertices to be drawn for it.
    pub fn set_cell(&mut self, centre: [u32; 2], corners: &[[u32; 2]], z: u32) -> (r: Vec<
        OutlineVertex,
    >)
        requires
            3 * corners@.len() <= MAX_VERTICES,
        ensures
            is_fan(r@, centre, corners@, z, old(self).colour()),
            final(self).count() == r@.len(),
            final(self).colour() == old(self).colour(),
    {
        let color = self.color;
        let n = corners.len();
        let mut out: Vec<OutlineVertex> = Vec::new();
        let mut i: usize = 0;
        while i < n
            invariant
                i <= n,
                n == corners@.len(),
                3 * n <= MAX_VERTICES,
                out@.len() == 3 * i,
                forall|k: int|
                    0 <= k < 3 * i ==> is_over(
                        #[trigger] out@[k],
                        fan_point(centre, corners@, k),
                        z,
                        color,
                    ),
            decreases n - i,
        {
            let ghost before = out@;
            let next: usize = if i + 1 == n {
                0
            } else {
                i + 1
            };
            out.push(over(centre, z, color));
            out.push(over(corners[i], z, color));
            out.push(over(corners[next], z, color));
            proof {
                assert forall|k: int| 0 <= k < 3 * (i + 1) implies is_over(
                    #[trigger] out@[k],
                    fan_point(centre, corners@, k),
                    z,
                    color,
                ) by {
                    if k < 3 * i {
                        assert(out@[k] == before[k]);
                    } else {
                        assert(k / 3 == i as int);
                    }
                }
            }
            i += 1;
        }
        self.vertex_count = out.len() as u32;
        out
    }

    /// Takes the highlight off.
    pub fn clear(&mut self)
        ensures
            final(self).count() == 0,
            final(self).colour() == old(self).colour(),
    {
        self.vertex_count = 0;
    }

    /// Sets the colour of the next cell.
    pub fn set_color(&mut self, color: [u32; 4])
        ensures
            final(self).count() == old(self).count(),
            final(self).colour() == color,
    {
        self.color = color;
    }

    /// How many vertices are to be drawn, if any are.
    pub fn draw(&self) -> (r: Option<u32>)
        ensures
            r == (if self.count() == 0 {
                None
            } else {
                Some(self.count())
            }),
    {
        if self.vertex_count == 0 {
            None
        } else {
            Some(self.vertex_count)
        }
    }
}

/// Cells of either grid fit the buffer.
pub proof fn law_cells_fit_the_buffer()
    ensures
        3 * SquareGrid::CORNERS_PER_CELL <= MAX_VERTICES,
        3 * HexGrid::CORNERS_PER_CELL <= MAX_VERTICES,
{
}

/// The fan goes all the way round: each corner ends one edge and starts
/// another.
pub proof fn law_fan_is_closed(
    vertices: Seq<OutlineVertex>,
    centre: [u32; 2],
    corners: Seq<[u32; 2]>,
    z: u32,
    color: [u32; 4],
    edge: int,
)
    requires
        is_fan(vertices, centre, corners, z, color),
        0 <= edge < corners.len(),
    ensures
        is_over(vertices[3 * edge], centre, z, color),
        is_over(vertices[3 * edge + 1], corners[edge], z, color),
        is_over(
            vertices[3 * (if edge == 0 {
                corners.len() - 1
            } else {
                edge - 1
            }) + 2],
            corners[edge],
            z,
            color,
        ),
{
    let last = if edge == 0 {
        corners.len() - 1
    } else {
        edge - 1
    };
    assert((3 * last + 2) / 3 == last);
    assert(fan_point(centre, corners, 3 * last + 2) == corners[edge]);
    assert(fan_point(centre, corners, 3 * edge) == centre);
    assert(fan_point(centre, corners, 3 * edge + 1) == corners[edge]);
}

/// For each edge of the cell the highlight has the triangle from the centre to
/// the edge's two corners, all at the given height and in the highlight's colour,
/// and nothing else.
pub proof fn law_highlights_cover_the_cell(
    vertices: Seq<OutlineVertex>,
    centre: [u32; 2],
    corners: Seq<[u32; 2]>,
    z: u32,
    color: [u32; 4],
    edge: int,
)
    requires
        is_fan(vertices, centre, corners, z, color),
        0 <= edge < corners.len(),
    ensures
        vertices.len() == 3 * corners.len(),
        forall|k: int|
            #![trigger vertices[3 * edge + k]]
            0 <= k < 3 ==> vertices[3 * edge + k].pos@[2] == z && vertices[3 * edge + k].color
                == color,
        vertices[3 * edge].pos@[0] == centre@[0],
        vertices[3 * edge].pos@[1] == centre@[1],
        vertices[3 * edge + 1].pos@[0] == corners[edge]@[0],
        vertices[3 * edge + 1].pos@[1] == corners[edge]@[1],
        vertices[3 * edge + 2].pos@[0] == corners[(edge + 1) % (corners.len() as int)]@[0],
        vertices[3 * edge + 2].pos@[1] == corners[(edge + 1) % (corners.len() as int)]@[1],
{
    assert((3 * edge) / 3 == edge && (3 * edge + 1) / 3 == edge && (3 * edge + 2) / 3 == edge);
    assert(is_over(vertices[3 * edge], fan_point(centre, corners, 3 * edge), z, color));
    assert(is_over(vertices[3 * edge + 1], fan_point(centre, corners, 3 * edge + 1), z, color));
    assert(is_over(vertices[3 * edge + 2], fan_point(centre, corners, 3 * edge + 2), z, color));
    let n = corners.len() as int;
    if edge + 1 == n {
        assert((edge + 1) % n == 0) by (nonlinear_arith)
            requires
                edge + 1 == n,
                n > 0,
        ;
    } else {
        assert((edge + 1) % n == edge + 1) by (nonlinear_arith)
            requires
                0 <= edge,
                edge + 1 < n,
        ;
    }
}

} // verus!
