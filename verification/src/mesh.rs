//! Addressing the 3x3x3 block of chunks a mesh job reads, the winding of
//! block faces, and which faces are drawn at all.
use vstd::prelude::*;
use crate::block::{see_through, BlockId};

verus! {

/// Number of chunks in the 3x3x3 block a mesh job needs.
pub const NEIGHBOR_COUNT: usize = 27;

/// Index into a `[_; NEIGHBOR_COUNT]` for a chunk offset in -1..=1 on each
/// axis: y-major, then z, then x.
pub fn neighbor_index(dx: i32, dy: i32, dz: i32) -> (r: usize)
    requires
        -1 <= dx <= 1,
        -1 <= dy <= 1,
        -1 <= dz <= 1,
    ensures
        r == ((dy + 1) * 3 + (dz + 1)) * 3 + (dx + 1),
        r < NEIGHBOR_COUNT,
{
    (((dy + 1) * 3 + (dz + 1)) * 3 + (dx + 1)) as usize
}

/// Every offset in the neighbourhood gets its own index.
pub proof fn lemma_neighbor_index_distinct(a: (int, int, int), b: (int, int, int))
    requires
        -1 <= a.0 <= 1 && -1 <= a.1 <= 1 && -1 <= a.2 <= 1,
        -1 <= b.0 <= 1 && -1 <= b.1 <= 1 && -1 <= b.2 <= 1,
        ((a.1 + 1) * 3 + (a.2 + 1)) * 3 + (a.0 + 1) == ((b.1 + 1) * 3 + (b.2 + 1)) * 3 + (b.0 + 1),
    ensures
        a == b,
{
}

/// Outward normal of each cube face: +Y, -Y, +Z, -Z, +X, -X.
pub const FACE_NORMALS: [[i32; 3]; 6] = [
    [0, 1, 0],
    [0, -1, 0],
    [0, 0, 1],
    [0, 0, -1],
    [1, 0, 0],
    [-1, 0, 0],
];

/// Corner offsets of each face on the unit cube, counter-clockwise seen from
/// outside the cube, in the order of [`FACE_NORMALS`].
pub const FACE_CORNERS: [[[i32; 3]; 4]; 6] = [
    [[0, 1, 0], [0, 1, 1], [1, 1, 1], [1, 1, 0]],
    [[0, 0, 0], [1, 0, 0], [1, 0, 1], [0, 0, 1]],
    [[0, 0, 1], [1, 0, 1], [1, 1, 1], [0, 1, 1]],
    [[0, 0, 0], [0, 1, 0], [1, 1, 0], [1, 0, 0]],
    [[1, 0, 0], [1, 1, 0], [1, 1, 1], [1, 0, 1]],
    [[0, 0, 0], [0, 0, 1], [0, 1, 1], [0, 1, 0]],
];

/// Corner `c` of face `f`, coordinate `k`.
pub open spec fn corner(f: int, c: int, k: int) -> int {
    FACE_CORNERS@[f]@[c]@[k] as int
}

/// Component `k` of face `f`'s normal.
pub open spec fn normal(f: int, k: int) -> int {
    FACE_NORMALS@[f]@[k] as int
}

/// The cross product of the edges from corner 0 to corners `a` and `b` of
/// face `f`, dotted with the face normal: positive when the triangle
/// (0, a, b) is wound counter-clockwise seen from outside.
pub open spec fn winding(f: int, a: int, b: int) -> int {
    let e1 = (corner(f, a, 0) - corner(f, 0, 0), corner(f, a, 1) - corner(f, 0, 1), corner(f, a, 2) - corner(f, 0, 2));
    let e2 = (corner(f, b, 0) - corner(f, 0, 0), corner(f, b, 1) - corner(f, 0, 1), corner(f, b, 2) - corner(f, 0, 2));
    let k = (e1.1 * e2.2 - e1.2 * e2.1, e1.2 * e2.0 - e1.0 * e2.2, e1.0 * e2.1 - e1.1 * e2.0);
    k.0 * normal(f, 0) + k.1 * normal(f, 1) + k.2 * normal(f, 2)
}

/// Both triangles of every face are wound counter-clockwise seen from
/// outside the cube, so back-face culling keeps exactly the faces that point
/// at the viewer.
pub proof fn lemma_faces_wind_outward(f: int)
    requires
        0 <= f < 6,
    ensures
        winding(f, 1, 2) > 0,
        winding(f, 2, 3) > 0,
{
    assert(FACE_NORMALS@[0]@ == seq![0i32, 1, 0]);
    assert(FACE_NORMALS@[1]@ == seq![0i32, -1i32, 0]);
    assert(FACE_NORMALS@[2]@ == seq![0i32, 0, 1]);
    assert(FACE_NORMALS@[3]@ == seq![0i32, 0, -1i32]);
    assert(FACE_NORMALS@[4]@ == seq![1i32, 0, 0]);
    assert(FACE_NORMALS@[5]@ == seq![-1i32, 0, 0]);
    let c = FACE_CORNERS@;
    assert(c[0]@[0]@ == seq![0i32, 1, 0] && c[0]@[1]@ == seq![0i32, 1, 1] && c[0]@[2]@ == seq![1i32, 1, 1] && c[0]@[3]@ == seq![1i32, 1, 0]);
    assert(c[1]@[0]@ == seq![0i32, 0, 0] && c[1]@[1]@ == seq![1i32, 0, 0] && c[1]@[2]@ == seq![1i32, 0, 1] && c[1]@[3]@ == seq![0i32, 0, 1]);
    assert(c[2]@[0]@ == seq![0i32, 0, 1] && c[2]@[1]@ == seq![1i32, 0, 1] && c[2]@[2]@ == seq![1i32, 1, 1] && c[2]@[3]@ == seq![0i32, 1, 1]);
    assert(c[3]@[0]@ == seq![0i32, 0, 0] && c[3]@[1]@ == seq![0i32, 1, 0] && c[3]@[2]@ == seq![1i32, 1, 0] && c[3]@[3]@ == seq![1i32, 0, 0]);
    assert(c[4]@[0]@ == seq![1i32, 0, 0] && c[4]@[1]@ == seq![1i32, 1, 0] && c[4]@[2]@ == seq![1i32, 1, 1] && c[4]@[3]@ == seq![1i32, 0, 1]);
    assert(c[5]@[0]@ == seq![0i32, 0, 0] && c[5]@[1]@ == seq![0i32, 0, 1] && c[5]@[2]@ == seq![0i32, 1, 1] && c[5]@[3]@ == seq![0i32, 1, 0]);
    if f == 0 {
        assert(corner(0, 0, 0) == 0 && corner(0, 0, 1) == 1 && corner(0, 0, 2) == 0 && corner(0, 1, 0) == 0 && corner(0, 1, 1) == 1 && corner(0, 1, 2) == 1);
        assert(corner(0, 2, 0) == 1 && corner(0, 2, 1) == 1 && corner(0, 2, 2) == 1 && corner(0, 3, 0) == 1 && corner(0, 3, 1) == 1 && corner(0, 3, 2) == 0);
        assert(normal(0, 0) == 0 && normal(0, 1) == 1 && normal(0, 2) == 0);
        assert(winding(0, 1, 2) > 0 && winding(0, 2, 3) > 0) by (nonlinear_arith)
            requires
                corner(0, 0, 0) == 0,
                corner(0, 0, 1) == 1,
                corner(0, 0, 2) == 0,
                corner(0, 1, 0) == 0,
                corner(0, 1, 1) == 1,
                corner(0, 1, 2) == 1,
                corner(0, 2, 0) == 1,
                corner(0, 2, 1) == 1,
                corner(0, 2, 2) == 1,
                corner(0, 3, 0) == 1,
                corner(0, 3, 1) == 1,
                corner(0, 3, 2) == 0,
                normal(0, 0) == 0,
                normal(0, 1) == 1,
                normal(0, 2) == 0,
        ;
    } else if f == 1 {
        assert(corner(1, 0, 0) == 0 && corner(1, 0, 1) == 0 && corner(1, 0, 2) == 0 && corner(1, 1, 0) == 1 && corner(1, 1, 1) == 0 && corner(1, 1, 2) == 0);
        assert(corner(1, 2, 0) == 1 && corner(1, 2, 1) == 0 && corner(1, 2, 2) == 1 && corner(1, 3, 0) == 0 && corner(1, 3, 1) == 0 && corner(1, 3, 2) == 1);
        assert(normal(1, 0) == 0 && normal(1, 1) == -1 && normal(1, 2) == 0);
        assert(winding(1, 1, 2) > 0 && winding(1, 2, 3) > 0) by (nonlinear_arith)
            requires
                corner(1, 0, 0) == 0,
                corner(1, 0, 1) == 0,
                corner(1, 0, 2) == 0,
                corner(1, 1, 0) == 1,
                corner(1, 1, 1) == 0,
                corner(1, 1, 2) == 0,
                corner(1, 2, 0) == 1,
                corner(1, 2, 1) == 0,
                corner(1, 2, 2) == 1,
                corner(1, 3, 0) == 0,
                corner(1, 3, 1) == 0,
                corner(1, 3, 2) == 1,
                normal(1, 0) == 0,
                normal(1, 1) == -1,
                normal(1, 2) == 0,
        ;
    } else if f == 2 {
        assert(corner(2, 0, 0) == 0 && corner(2, 0, 1) == 0 && corner(2, 0, 2) == 1 && corner(2, 1, 0) == 1 && corner(2, 1, 1) == 0 && corner(2, 1, 2) == 1);
        assert(corner(2, 2, 0) == 1 && corner(2, 2, 1) == 1 && corner(2, 2, 2) == 1 && corner(2, 3, 0) == 0 && corner(2, 3, 1) == 1 && corner(2, 3, 2) == 1);
        assert(normal(2, 0) == 0 && normal(2, 1) == 0 && normal(2, 2) == 1);
        assert(winding(2, 1, 2) > 0 && winding(2, 2, 3) > 0) by (nonlinear_arith)
            requires
                corner(2, 0, 0) == 0,
                corner(2, 0, 1) == 0,
                corner(2, 0, 2) == 1,
                corner(2, 1, 0) == 1,
                corner(2, 1, 1) == 0,
                corner(2, 1, 2) == 1,
                corner(2, 2, 0) == 1,
                corner(2, 2, 1) == 1,
                corner(2, 2, 2) == 1,
                corner(2, 3, 0) == 0,
                corner(2, 3, 1) == 1,
                corner(2, 3, 2) == 1,
                normal(2, 0) == 0,
                normal(2, 1) == 0,
                normal(2, 2) == 1,
        ;
    } else if f == 3 {
        assert(corner(3, 0, 0) == 0 && corner(3, 0, 1) == 0 && corner(3, 0, 2) == 0 && corner(3, 1, 0) == 0 && corner(3, 1, 1) == 1 && corner(3, 1, 2) == 0);
        assert(corner(3, 2, 0) == 1 && corner(3, 2, 1) == 1 && corner(3, 2, 2) == 0 && corner(3, 3, 0) == 1 && corner(3, 3, 1) == 0 && corner(3, 3, 2) == 0);
        assert(normal(3, 0) == 0 && normal(3, 1) == 0 && normal(3, 2) == -1);
        assert(winding(3, 1, 2) > 0 && winding(3, 2, 3) > 0) by (nonlinear_arith)
            requires
                corner(3, 0, 0) == 0,
                corner(3, 0, 1) == 0,
                corner(3, 0, 2) == 0,
                corner(3, 1, 0) == 0,
                corner(3, 1, 1) == 1,
                corner(3, 1, 2) == 0,
                corner(3, 2, 0) == 1,
                corner(3, 2, 1) == 1,
                corner(3, 2, 2) == 0,
                corner(3, 3, 0) == 1,
                corner(3, 3, 1) == 0,
                corner(3, 3, 2) == 0,
                normal(3, 0) == 0,
                normal(3, 1) == 0,
                normal(3, 2) == -1,
        ;
    } else if f == 4 {
        assert(corner(4, 0, 0) == 1 && corner(4, 0, 1) == 0 && corner(4, 0, 2) == 0 && corner(4, 1, 0) == 1 && corner(4, 1, 1) == 1 && corner(4, 1, 2) == 0);
        assert(corner(4, 2, 0) == 1 && corner(4, 2, 1) == 1 && corner(4, 2, 2) == 1 && corner(4, 3, 0) == 1 && corner(4, 3, 1) == 0 && corner(4, 3, 2) == 1);
        assert(normal(4, 0) == 1 && normal(4, 1) == 0 && normal(4, 2) == 0);
        assert(winding(4, 1, 2) > 0 && winding(4, 2, 3) > 0) by (nonlinear_arith)
            requires
                corner(4, 0, 0) == 1,
                corner(4, 0, 1) == 0,
                corner(4, 0, 2) == 0,
                corner(4, 1, 0) == 1,
                corner(4, 1, 1) == 1,
                corner(4, 1, 2) == 0,
                corner(4, 2, 0) == 1,
                corner(4, 2, 1) == 1,
                corner(4, 2, 2) == 1,
                corner(4, 3, 0) == 1,
                corner(4, 3, 1) == 0,
                corner(4, 3, 2) == 1,
                normal(4, 0) == 1,
                normal(4, 1) == 0,
                normal(4, 2) == 0,
        ;
    } else {
        assert(corner(5, 0, 0) == 0 && corner(5, 0, 1) == 0 && corner(5, 0, 2) == 0 && corner(5, 1, 0) == 0 && corner(5, 1, 1) == 0 && corner(5, 1, 2) == 1);
        assert(corner(5, 2, 0) == 0 && corner(5, 2, 1) == 1 && corner(5, 2, 2) == 1 && corner(5, 3, 0) == 0 && corner(5, 3, 1) == 1 && corner(5, 3, 2) == 0);
        assert(normal(5, 0) == -1 && normal(5, 1) == 0 && normal(5, 2) == 0);
        assert(winding(5, 1, 2) > 0 && winding(5, 2, 3) > 0) by (nonlinear_arith)
            requires
                corner(5, 0, 0) == 0,
                corner(5, 0, 1) == 0,
                corner(5, 0, 2) == 0,
                corner(5, 1, 0) == 0,
                corner(5, 1, 1) == 0,
                corner(5, 1, 2) == 1,
                corner(5, 2, 0) == 0,
                corner(5, 2, 1) == 1,
                corner(5, 2, 2) == 1,
                corner(5, 3, 0) == 0,
                corner(5, 3, 1) == 1,
                corner(5, 3, 2) == 0,
                normal(5, 0) == -1,
                normal(5, 1) == 0,
                normal(5, 2) == 0,
        ;
    }
}

/// Which neighbouring chunk a padded chunk-local coordinate falls into:
/// `-1` below the chunk, `1` above it, `0` inside.
pub fn chunk_offset(local: i32) -> (r: i32)
    ensures
        r == (if local < 0 {
            -1
        } else if local >= 16 {
            1
        } else {
            0
        }),
{
    if local < 0 {
        -1
    } else if local >= 16 {
        1
    } else {
        0
    }
}

/// Whether a block's face toward a neighbour is drawn. An undamaged opaque
/// neighbour hides it; a chipped one does not, since light shows through the
/// holes. Two of the same see-through block (leaves beside leaves, water
/// beside water) share a face that is inside the mass, and it is not drawn.
pub fn face_visible(id: BlockId, neighbor: BlockId, neighbor_damaged: bool) -> (r: bool)
    ensures
        r == !((!see_through(neighbor.0) && !neighbor_damaged) || (see_through(id.0) && neighbor.0
            == id.0)),
{
    if neighbor.is_opaque() && !neighbor_damaged {
        return false;
    }
    !(!id.is_opaque() && neighbor.0 == id.0)
}

} // verus!
