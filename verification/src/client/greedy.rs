//! Merging the visible faces of one slice of a chunk into rectangles, as the mesher does
//! before it emits quads: the slice is scanned row by row, and each first open face grows as
//! wide, then as tall, as open faces of the same kind allow; the faces taken are closed.
//! Fluid faces are not merged: each becomes a quad of its own. The slices of each of the six
//! face directions lie across the chunk along their own axes.

use vstd::prelude::*;
use crate::chunk::BlockId;

verus! {

/// Faces along each side of a slice.
pub const SLICE_SIDE: usize = 32;

/// Faces in a slice.
pub const SLICE_CELLS: usize = 1024;

/// What neighbouring visible faces must share to be merged: the block, the fingerprint of
/// its corner shading and the light level in front of it.
#[derive(Debug, Clone, Copy, PartialEq, Eq, Structural)]
pub struct FaceKey {
    pub block: BlockId,
    pub ao: u8,
    pub light: u8,
}

/// A rectangle of merged faces: its first corner in the slice, its size, and what its faces
/// share.
#[derive(Debug, Clone, Copy, PartialEq, Eq, Structural)]
pub struct MergedQuad {
    pub u: usize,
    pub v: usize,
    pub width: usize,
    pub height: usize,
    pub key: FaceKey,
}

/// The directions a block face can look in, as the mesher walks them: +X, -X, +Y, -Y, +Z, -Z.
pub const FACE_DIRECTIONS: usize = 6;

/// How the slices of one face direction lie in a chunk: the axis the faces look along (0 for
/// x, 1 for y, 2 for z) and on which side, and the axes that a slice's columns and rows run
/// along.
#[derive(Debug, Clone, Copy, PartialEq, Eq, Structural)]
pub struct FaceAxes {
    pub axis: usize,
    pub sign: i32,
    pub u_axis: usize,
    pub v_axis: usize,
}

/// The axes of the face direction at `index`, in the mesher's order.
pub open spec fn spec_face_axes(index: int) -> FaceAxes {
    if index == 0 {
        FaceAxes { axis: 0, sign: 1, u_axis: 1, v_axis: 2 }
    } else if index == 1 {
        FaceAxes { axis: 0, sign: -1i32, u_axis: 2, v_axis: 1 }
    } else if index == 2 {
        FaceAxes { axis: 1, sign: 1, u_axis: 2, v_axis: 0 }
    } else if index == 3 {
        FaceAxes { axis: 1, sign: -1i32, u_axis: 0, v_axis: 2 }
    } else if index == 4 {
        FaceAxes { axis: 2, sign: 1, u_axis: 0, v_axis: 1 }
    } else {
        FaceAxes { axis: 2, sign: -1i32, u_axis: 1, v_axis: 0 }
    }
}

/// The columns and rows of a face direction's slices run so that, looked at from the side
/// the faces look to, they turn counter-clockwise: column axis, row axis and the axis the
/// faces look along are in cyclic order (x, y, z) for faces on the positive side, and in the
/// reverse order for faces on the negative side.
pub open spec fn faces_outward(f: FaceAxes) -> bool {
    &&& f.sign == 1 || f.sign == -1
    &&& f.sign == 1 ==> f.u_axis == (f.axis + 1) % 3 && f.v_axis == (f.axis + 2) % 3
    &&& f.sign == -1 ==> f.u_axis == (f.axis + 2) % 3 && f.v_axis == (f.axis + 1) % 3
}

/// The six face directions come in opposite pairs along x, y and z, in that order, the one
/// looking to the positive side first: direction `i` looks along axis `i / 2`, to the positive
/// side when `i` is even and to the negative side when it is odd. Each pair's slices are laid
/// out so that its faces turn outward (`faces_outward`).
pub proof fn lemma_face_directions_pair_up(i: int)
    requires
        0 <= i < FACE_DIRECTIONS,
    ensures
        spec_face_axes(i).axis == i / 2,
        spec_face_axes(i).sign == (if i % 2 == 0 { 1i32 } else { -1i32 }),
        faces_outward(spec_face_axes(i)),
        spec_face_axes(i).axis == spec_face_axes(i + 1 - 2 * (i % 2)).axis,
        spec_face_axes(i).sign == -spec_face_axes(i + 1 - 2 * (i % 2)).sign,
{
}

/// The axes of the face direction at `index`.
pub fn face_axes(index: usize) -> (r: FaceAxes)
    requires
        index < FACE_DIRECTIONS,
    ensures
        r == spec_face_axes(index as int),
        r.axis < 3 && r.u_axis < 3 && r.v_axis < 3,
        r.axis != r.u_axis && r.axis != r.v_axis && r.u_axis != r.v_axis,
        r.axis == index / 2,
        r.sign == (if index % 2 == 0 { 1i32 } else { -1i32 }),
        faces_outward(r),
{
    if index == 0 {
        FaceAxes { axis: 0, sign: 1, u_axis: 1, v_axis: 2 }
    } else if index == 1 {
        FaceAxes { axis: 0, sign: -1i32, u_axis: 2, v_axis: 1 }
    } else if index == 2 {
        FaceAxes { axis: 1, sign: 1, u_axis: 2, v_axis: 0 }
    } else if index == 3 {
        FaceAxes { axis: 1, sign: -1i32, u_axis: 0, v_axis: 2 }
    } else if index == 4 {
        FaceAxes { axis: 2, sign: 1, u_axis: 0, v_axis: 1 }
    } else {
        FaceAxes { axis: 2, sign: -1i32, u_axis: 1, v_axis: 0 }
    }
}

/// The position in the chunk of the face at column `u` of row `v` of a slice: the slice's
/// index along the face's axis, and the column and row along the other two.
pub fn face_block_coords(face: FaceAxes, slice: usize, u: usize, v: usize) -> (r: [i32; 3])
    requires
        face.axis < 3,
        face.u_axis < 3,
        face.v_axis < 3,
        face.axis != face.u_axis,
        face.axis != face.v_axis,
        face.u_axis != face.v_axis,
        slice < SLICE_SIDE,
        u < SLICE_SIDE,
        v < SLICE_SIDE,
    ensures
        r[face.axis as int] == slice,
        r[face.u_axis as int] == u,
        r[face.v_axis as int] == v,
{
    let mut coords: [i32; 3] = [0, 0, 0];
    coords[face.axis] = slice as i32;
    coords[face.u_axis] = u as i32;
    coords[face.v_axis] = v as i32;
    coords
}

/// Where the face at column `u` of row `v` is kept in a slice's mask.
pub open spec fn cell(u: int, v: int) -> int {
    v * 32 + u
}

/// A column and row inside the slice.
pub open spec fn in_slice(u: int, v: int) -> bool {
    0 <= u < 32 && 0 <= v < 32
}

/// A quad takes in the face at column `u` of row `v`.
pub open spec fn quad_covers(q: MergedQuad, u: int, v: int) -> bool {
    q.u <= u < q.u + q.width && q.v <= v < q.v + q.height
}

/// One of the quads takes in the face at column `u` of row `v`.
pub open spec fn covered(quads: Seq<MergedQuad>, u: int, v: int) -> bool {
    exists|k: int| 0 <= k < quads.len() && #[trigger] quad_covers(quads[k], u, v)
}

/// The face still open at a place once the quads are taken out of the mask.
pub open spec fn open_face(mask: Seq<Option<FaceKey>>, quads: Seq<MergedQuad>, u: int, v: int) -> Option<FaceKey> {
    if covered(quads, u, v) {
        None
    } else {
        mask[cell(u, v)]
    }
}

/// Column `a` of row `b` comes before column `u` of row `v` in the scan.
pub open spec fn scans_before(a: int, b: int, u: int, v: int) -> bool {
    b < v || (b == v && a < u)
}

/// The quad at `k` is the one the scan takes after those before it: it starts at the first
/// face still open in row order and takes in only open faces of that face's kind; merging, it
/// is as wide as such faces reach along its row, then as tall as whole rows of them reach;
/// not merging, it is a single face.
pub open spec fn greedy_step(mask: Seq<Option<FaceKey>>, quads: Seq<MergedQuad>, k: int, merge: bool) -> bool {
    let before = quads.take(k);
    let q = quads[k];
    let (u, v) = (q.u as int, q.v as int);
    &&& q.width >= 1 && q.height >= 1
    &&& u + q.width <= 32 && v + q.height <= 32
    &&& open_face(mask, before, u, v) == Some(q.key)
    &&& forall|a: int, b: int|
        in_slice(a, b) && scans_before(a, b, u, v) ==> #[trigger] open_face(mask, before, a, b) is None
    &&& forall|a: int, b: int| #[trigger]
        quad_covers(q, a, b) ==> open_face(mask, before, a, b) == Some(q.key)
    &&& if merge {
        &&& (u + q.width == 32 || open_face(mask, before, u + q.width, v) != Some(q.key))
        &&& (v + q.height == 32 || exists|a: int|
            u <= a < u + q.width && #[trigger] open_face(mask, before, a, v + q.height) != Some(q.key))
    } else {
        q.width == 1 && q.height == 1
    }
}

/// The quads are those the greedy scan takes, in the order it takes them, until no face is
/// left open.
pub open spec fn greedy_quads(mask: Seq<Option<FaceKey>>, quads: Seq<MergedQuad>, merge: bool) -> bool {
    &&& forall|k: int| 0 <= k < quads.len() ==> #[trigger] greedy_step(mask, quads, k, merge)
    &&& forall|a: int, b: int| in_slice(a, b) ==> #[trigger] open_face(mask, quads, a, b) is None
}

proof fn lemma_open_face_push(mask: Seq<Option<FaceKey>>, quads: Seq<MergedQuad>, q: MergedQuad, a: int, b: int)
    ensures
        open_face(mask, quads.push(q), a, b) == (if quad_covers(q, a, b) {
            None
        } else {
            open_face(mask, quads, a, b)
        }),
{
    let qs = quads.push(q);
    if covered(quads, a, b) {
        let k = choose|k: int| 0 <= k < quads.len() && #[trigger] quad_covers(quads[k], a, b);
        assert(qs[k] == quads[k]);
        assert(covered(qs, a, b));
    }
    if quad_covers(q, a, b) {
        assert(qs[quads.len() as int] == q);
        assert(covered(qs, a, b));
    }
    if covered(qs, a, b) {
        let k = choose|k: int| 0 <= k < qs.len() && #[trigger] quad_covers(qs[k], a, b);
        if k < quads.len() {
            assert(qs[k] == quads[k]);
            assert(covered(quads, a, b));
        }
    }
}

/// The quads of the greedy scan take in every visible face once: each quad lies in the slice
/// and takes in only visible faces of its own kind, no face lies in two quads, and every
/// visible face lies in one.
pub proof fn lemma_merged_faces_partition(mask: Seq<Option<FaceKey>>, quads: Seq<MergedQuad>, merge: bool)
    requires
        mask.len() == SLICE_CELLS,
        greedy_quads(mask, quads, merge),
    ensures
        forall|k: int, a: int, b: int|
            0 <= k < quads.len() && #[trigger] quad_covers(quads[k], a, b) ==> in_slice(a, b) && mask[cell(
                a,
                b,
            )] == Some(quads[k].key),
        forall|j: int, k: int, a: int, b: int|
            0 <= j < k < quads.len() && #[trigger] quad_covers(quads[j], a, b) ==> !#[trigger] quad_covers(
                quads[k],
                a,
                b,
            ),
        forall|a: int, b: int| in_slice(a, b) && mask[cell(a, b)] is Some ==> #[trigger] covered(quads, a, b),
{
    assert forall|k: int, a: int, b: int|
        0 <= k < quads.len() && #[trigger] quad_covers(quads[k], a, b) implies in_slice(a, b) && mask[cell(
            a,
            b,
        )] == Some(quads[k].key) by {
        assert(greedy_step(mask, quads, k, merge));
    }
    assert forall|j: int, k: int, a: int, b: int|
        0 <= j < k < quads.len() && #[trigger] quad_covers(quads[j], a, b) implies !#[trigger] quad_covers(
            quads[k],
            a,
            b,
        ) by {
        assert(greedy_step(mask, quads, k, merge));
        let before = quads.take(k);
        assert(before[j] == quads[j]);
        assert(covered(before, a, b));
    }
    assert forall|a: int, b: int| in_slice(a, b) && mask[cell(a, b)] is Some implies #[trigger] covered(
        quads,
        a,
        b,
    ) by {
        assert(open_face(mask, quads, a, b) is None);
    }
}

/// The face at column `u` of row `v` is `Some(key)`.
fn face_is(mask: &Vec<Option<FaceKey>>, u: usize, v: usize, key: FaceKey) -> (r: bool)
    requires
        mask@.len() == SLICE_CELLS,
        u < SLICE_SIDE,
        v < SLICE_SIDE,
    ensures
        r == (mask@[cell(u as int, v as int)] == Some(key)),
{
    match mask[v * SLICE_SIDE + u] {
        Some(k) => k == key,
        None => false,
    }
}

/// Every face of row `v` from column `u` on, `width` of them, is `Some(key)`.
fn row_is(mask: &Vec<Option<FaceKey>>, u: usize, v: usize, width: usize, key: FaceKey) -> (r: bool)
    requires
        mask@.len() == SLICE_CELLS,
        u + width <= SLICE_SIDE,
        v < SLICE_SIDE,
    ensures
        r == (forall|a: int| u <= a < u + width ==> mask@[#[trigger] cell(a, v as int)] == Some(key)),
{
    let mut d: usize = 0;
    while d < width
        invariant
            mask@.len() == SLICE_CELLS,
            u + width <= SLICE_SIDE,
            v < SLICE_SIDE,
            d <= width,
            forall|a: int| u <= a < u + d ==> mask@[#[trigger] cell(a, v as int)] == Some(key),
        decreases width - d,
    {
        if !face_is(mask, u + d, v, key) {
            return false;
        }
        d += 1;
    }
    true
}

/// Closes every face of the rectangle of `width` columns from `u` and `height` rows from `v`.
fn close_rect(mask: &mut Vec<Option<FaceKey>>, u: usize, v: usize, width: usize, height: usize)
    requires
        old(mask)@.len() == SLICE_CELLS,
        u + width <= SLICE_SIDE,
        v + height <= SLICE_SIDE,
    ensures
        final(mask)@.len() == SLICE_CELLS,
        forall|a: int, b: int|
            in_slice(a, b) ==> #[trigger] final(mask)@[cell(a, b)] == (if u <= a < u + width && v <= b < v
                + height {
                None
            } else {
                old(mask)@[cell(a, b)]
            }),
{
    let ghost before = mask@;
    let mut dv: usize = 0;
    while dv < height
        invariant
            mask@.len() == SLICE_CELLS,
            u + width <= SLICE_SIDE,
            v + height <= SLICE_SIDE,
            dv <= height,
            forall|a: int, b: int|
                in_slice(a, b) ==> #[trigger] mask@[cell(a, b)] == (if u <= a < u + width && v <= b < v + dv {
                    None
                } else {
                    before[cell(a, b)]
                }),
        decreases height - dv,
    {
        let mut du: usize = 0;
        while du < width
            invariant
                mask@.len() == SLICE_CELLS,
                u + width <= SLICE_SIDE,
                v + height <= SLICE_SIDE,
                dv < height,
                du <= width,
                forall|a: int, b: int|
                    in_slice(a, b) ==> #[trigger] mask@[cell(a, b)] == (if (u <= a < u + width && v <= b < v
                        + dv) || (b == v + dv && u <= a < u + du) {
                        None
                    } else {
                        before[cell(a, b)]
                    }),
            decreases width - du,
        {
            let idx = (v + dv) * SLICE_SIDE + u + du;
            mask.set(idx, None);
            proof {
                assert forall|a: int, b: int| in_slice(a, b) implies #[trigger] mask@[cell(a, b)] == (if (u
                    <= a < u + width && v <= b < v + dv) || (b == v + dv && u <= a < u + du + 1) {
                    None
                } else {
                    before[cell(a, b)]
                }) by {
                    if cell(a, b) == idx as int {
                        assert(a == u + du && b == v + dv);
                    }
                }
            }
            du += 1;
        }
        dv += 1;
    }
}

/// The quads the mesher emits for one slice, given which face is visible at each place
/// (`mask[v * 32 + u]`, `None` where none is): merging neighbouring faces of the same kind
/// into rectangles where `merge` holds, one quad per face where it does not.
pub fn merge_slice_faces(mask: Vec<Option<FaceKey>>, merge: bool) -> (quads: Vec<MergedQuad>)
    requires
        mask@.len() == SLICE_CELLS,
    ensures
        greedy_quads(mask@, quads@, merge),
{
    let ghost m = mask@;
    let mut cur = mask;
    let mut quads: Vec<MergedQuad> = Vec::new();
    let mut v: usize = 0;
    while v < SLICE_SIDE
        invariant
            m.len() == SLICE_CELLS,
            cur@.len() == SLICE_CELLS,
            v <= SLICE_SIDE,
            forall|a: int, b: int| in_slice(a, b) ==> cur@[cell(a, b)] == #[trigger] open_face(m, quads@, a, b),
            forall|k: int| 0 <= k < quads@.len() ==> #[trigger] greedy_step(m, quads@, k, merge),
            forall|a: int, b: int| in_slice(a, b) && b < v ==> #[trigger] open_face(m, quads@, a, b) is None,
        decreases SLICE_SIDE - v,
    {
        let mut u: usize = 0;
        while u < SLICE_SIDE
            invariant
                m.len() == SLICE_CELLS,
                cur@.len() == SLICE_CELLS,
                v < SLICE_SIDE,
                u <= SLICE_SIDE,
                forall|a: int, b: int| in_slice(a, b) ==> cur@[cell(a, b)] == #[trigger] open_face(m, quads@, a, b),
                forall|k: int| 0 <= k < quads@.len() ==> #[trigger] greedy_step(m, quads@, k, merge),
                forall|a: int, b: int|
                    in_slice(a, b) && scans_before(a, b, u as int, v as int) ==> #[trigger] open_face(
                        m,
                        quads@,
                        a,
                        b,
                    ) is None,
            decreases SLICE_SIDE - u,
        {
            let here = cur[v * SLICE_SIDE + u];
            proof {
                assert(cur@[cell(u as int, v as int)] == open_face(m, quads@, u as int, v as int));
            }
            match here {
                None => {
                    u += 1;
                },
                Some(key) => {
                    let mut width: usize = 1;
                    if merge {
                        while u + width < SLICE_SIDE && face_is(&cur, u + width, v, key)
                            invariant
                                cur@.len() == SLICE_CELLS,
                                u < SLICE_SIDE,
                                v < SLICE_SIDE,
                                1 <= width,
                                u + width <= SLICE_SIDE,
                                forall|a: int| u <= a < u + width ==> cur@[#[trigger] cell(a, v as int)] == Some(key),
                            decreases SLICE_SIDE - u - width,
                        {
                            width += 1;
                        }
                    }
                    let mut height: usize = 1;
                    if merge {
                        while v + height < SLICE_SIDE && row_is(&cur, u, v + height, width, key)
                            invariant
                                cur@.len() == SLICE_CELLS,
                                u + width <= SLICE_SIDE,
                                v < SLICE_SIDE,
                                1 <= height,
                                v + height <= SLICE_SIDE,
                                forall|a: int, b: int|
                                    u <= a < u + width && v <= b < v + height ==> cur@[#[trigger] cell(a, b)]
                                        == Some(key),
                            decreases SLICE_SIDE - v - height,
                        {
                            height += 1;
                        }
                    }
                    let q = MergedQuad { u, v, width, height, key };
                    let ghost old_cur = cur@;
                    let ghost old_quads = quads@;
                    close_rect(&mut cur, u, v, width, height);
                    quads.push(q);
                    proof {
                        let k = old_quads.len() as int;
                        assert(quads@.take(k) =~= old_quads);
                        assert forall|a: int, b: int| in_slice(a, b) implies cur@[cell(a, b)] == #[trigger] open_face(
                            m,
                            quads@,
                            a,
                            b,
                        ) by {
                            lemma_open_face_push(m, old_quads, q, a, b);
                            assert(old_cur[cell(a, b)] == open_face(m, old_quads, a, b));
                        }
                        assert forall|a: int, b: int| #[trigger]
                            quad_covers(q, a, b) implies open_face(m, old_quads, a, b) == Some(key) by {
                            assert(in_slice(a, b));
                            assert(old_cur[cell(a, b)] == open_face(m, old_quads, a, b));
                        }
                        if merge {
                            if u + width < 32 {
                                assert(old_cur[cell(u + width, v as int)] == open_face(
                                    m,
                                    old_quads,
                                    u + width,
                                    v as int,
                                ));
                            }
                            if v + height < 32 {
                                let a = choose|a: int|
                                    u <= a < u + width && old_cur[#[trigger] cell(a, v + height)] != Some(key);
                                assert(old_cur[cell(a, v + height)] == open_face(m, old_quads, a, v + height));
                            }
                        }
                        assert(greedy_step(m, quads@, k, merge));
                        assert forall|j: int| 0 <= j < quads@.len() implies #[trigger] greedy_step(
                            m,
                            quads@,
                            j,
                            merge,
                        ) by {
                            if j < k {
                                assert(quads@.take(j) =~= old_quads.take(j));
                                assert(quads@[j] == old_quads[j]);
                                assert(greedy_step(m, old_quads, j, merge));
                            }
                        }
                        assert forall|a: int, b: int|
                            in_slice(a, b) && scans_before(a, b, (u + width) as int, v as int) implies #[trigger] open_face(
                            m,
                            quads@,
                            a,
                            b,
                        ) is None by {
                            lemma_open_face_push(m, old_quads, q, a, b);
                            if !scans_before(a, b, u as int, v as int) {
                                assert(quad_covers(q, a, b));
                            }
                        }
                    }
                    u += width;
                },
            }
        }
        v += 1;
    }
    quads
}

} // verus!
