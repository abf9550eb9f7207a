use veldspar::client::chunk_renderer::{plan_mesh_upload, BufferCapacities};
use veldspar::client::main_menu::visible_world_range;
use veldspar::client::particles::{push_particles, MAX_PARTICLES};
use veldspar::client::quads::quad_indices;

#[test]
fn quads_are_drawn_as_two_triangles_each() {
    assert_eq!(quad_indices(10, 100), vec![0, 1, 2, 0, 2, 3, 4, 5, 6, 4, 6, 7]);
    assert_eq!(quad_indices(3, 100), Vec::<u16>::new());
}

#[test]
fn no_more_quads_are_drawn_than_the_buffers_hold() {
    assert_eq!(quad_indices(40, 3).len(), 18);
    let many = quad_indices(4 * 16385, 20000);
    assert_eq!(many.len(), 6 * 16385);
    assert_eq!(&many[6 * 16383..6 * 16384], &[65532, 65533, 65534, 65532, 65534, 65535]);
    assert_eq!(&many[6 * 16384..], &[0, 1, 2, 0, 2, 3]);
}

#[test]
fn a_burst_fills_the_particle_list_up_to_its_limit() {
    let mut list: Vec<u32> = vec![0; MAX_PARTICLES - 2];
    push_particles(&mut list, vec![1, 2, 3, 4, 5]);
    assert_eq!(list.len(), MAX_PARTICLES);
    assert_eq!(*list.last().unwrap(), 5);
    let mut short: Vec<u32> = vec![9];
    push_particles(&mut short, vec![1, 2]);
    assert_eq!(short, vec![9, 1, 2]);
}

#[test]
fn uploads_grow_only_the_buffers_too_small() {
    let mut caps = BufferCapacities { vertex_capacity_bytes: 0, index_capacity_bytes: 100 };
    let stats = plan_mesh_upload(&mut caps, 100, 50);
    assert_eq!(stats.uploaded_bytes, 150);
    assert_eq!(stats.buffer_reallocations, 1);
    assert_eq!(caps, BufferCapacities { vertex_capacity_bytes: 128, index_capacity_bytes: 100 });
    let stats = plan_mesh_upload(&mut caps, 129, 101);
    assert_eq!(stats.buffer_reallocations, 2);
    assert_eq!(caps, BufferCapacities { vertex_capacity_bytes: 256, index_capacity_bytes: 128 });
}

#[test]
fn a_list_that_fits_is_shown_whole_even_at_the_largest_sizes() {
    assert_eq!(visible_world_range(usize::MAX, usize::MAX, Some(5)), (0, usize::MAX));
    assert_eq!(visible_world_range(10, 4, Some(9)), (6, 10));
    assert_eq!(visible_world_range(10, 4, Some(5)), (3, 7));
}
