use veldspar::chunk::BlockId;
use veldspar::client::greedy::{
    face_axes, face_block_coords, merge_slice_faces, FaceKey, MergedQuad, FACE_DIRECTIONS, SLICE_CELLS,
};

fn key(block: u16, ao: u8, light: u8) -> FaceKey {
    FaceKey { block: BlockId(block), ao, light }
}

fn quad(u: usize, v: usize, width: usize, height: usize, key: FaceKey) -> MergedQuad {
    MergedQuad { u, v, width, height, key }
}

fn mask_with(faces: &[(usize, usize, FaceKey)]) -> Vec<Option<FaceKey>> {
    let mut mask = vec![None; SLICE_CELLS];
    for &(u, v, k) in faces {
        mask[v * 32 + u] = Some(k);
    }
    mask
}

#[test]
fn merging_grows_wide_then_tall_and_keeps_kinds_apart() {
    let stone = key(1, 0, 15);
    let dirt = key(2, 0, 15);
    let mask = mask_with(&[
        (0, 0, stone),
        (1, 0, stone),
        (2, 0, dirt),
        (0, 1, stone),
        (1, 1, stone),
        (5, 3, stone),
    ]);
    let quads = merge_slice_faces(mask, true);
    assert_eq!(
        quads,
        vec![quad(0, 0, 2, 2, stone), quad(2, 0, 1, 1, dirt), quad(5, 3, 1, 1, stone)]
    );
}

#[test]
fn faces_with_other_shading_or_light_are_not_merged() {
    let lit = key(1, 0, 15);
    let shaded = key(1, 3, 15);
    let dim = key(1, 0, 4);
    let mask = mask_with(&[(0, 0, lit), (1, 0, shaded), (2, 0, dim), (3, 0, lit)]);
    let quads = merge_slice_faces(mask, true);
    assert_eq!(
        quads,
        vec![quad(0, 0, 1, 1, lit), quad(1, 0, 1, 1, shaded), quad(2, 0, 1, 1, dim), quad(3, 0, 1, 1, lit)]
    );
}

#[test]
fn an_l_shape_becomes_a_row_then_the_rest() {
    let stone = key(1, 0, 15);
    let mask = mask_with(&[(0, 0, stone), (1, 0, stone), (0, 1, stone)]);
    let quads = merge_slice_faces(mask, true);
    assert_eq!(quads, vec![quad(0, 0, 2, 1, stone), quad(0, 1, 1, 1, stone)]);
}

#[test]
fn fluid_faces_stay_single_in_scan_order() {
    let water = key(9, 0, 15);
    let mask = mask_with(&[(1, 1, water), (0, 0, water), (1, 0, water), (0, 1, water)]);
    let quads = merge_slice_faces(mask, false);
    assert_eq!(
        quads,
        vec![quad(0, 0, 1, 1, water), quad(1, 0, 1, 1, water), quad(0, 1, 1, 1, water), quad(1, 1, 1, 1, water)]
    );
}

#[test]
fn a_full_slice_of_one_kind_is_one_quad_and_an_empty_one_none() {
    let stone = key(1, 0, 15);
    let full = vec![Some(stone); SLICE_CELLS];
    assert_eq!(merge_slice_faces(full, true), vec![quad(0, 0, 32, 32, stone)]);
    assert_eq!(merge_slice_faces(vec![None; SLICE_CELLS], true), vec![]);
    let full = vec![Some(stone); SLICE_CELLS];
    assert_eq!(merge_slice_faces(full, false).len(), SLICE_CELLS);
}

#[test]
fn each_direction_places_slice_column_and_row_on_its_own_axes() {
    let px = face_axes(0);
    assert_eq!((px.axis, px.sign, px.u_axis, px.v_axis), (0, 1, 1, 2));
    assert_eq!(face_block_coords(px, 5, 6, 7), [5, 6, 7]);
    let nz = face_axes(5);
    assert_eq!((nz.axis, nz.sign, nz.u_axis, nz.v_axis), (2, -1, 1, 0));
    assert_eq!(face_block_coords(nz, 5, 6, 7), [7, 6, 5]);
    for i in 0..FACE_DIRECTIONS {
        let f = face_axes(i);
        let c = face_block_coords(f, 1, 2, 3);
        assert_eq!((c[f.axis], c[f.u_axis], c[f.v_axis]), (1, 2, 3));
    }
}
