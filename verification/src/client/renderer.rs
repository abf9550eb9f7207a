//! What the renderer counts in a frame.

use vstd::prelude::*;
use crate::client::chunk_renderer::{ChunkPassStats, MeshUploadStats};

verus! {

/// What a frame drew.
#[derive(Debug, Clone, Copy, Default, PartialEq, Eq, Structural)]
pub struct RenderFrameStats {
    pub opaque_draw_calls: u32,
    pub portal_draw_calls: u32,
    pub portal_view_passes: u32,
    pub water_draw_calls: u32,
    pub rendered_chunks: u32,
    pub rendered_indices: u64,
    pub rendered_vertices: u64,
}

/// Adds what a pass over the chunks drew to the frame's counts; its draw calls count as
/// opaque or as water draws.
pub fn accumulate_chunk_stats(frame_stats: &mut RenderFrameStats, pass_stats: ChunkPassStats, opaque: bool)
    requires
        opaque ==> old(frame_stats).opaque_draw_calls + pass_stats.draw_calls <= u32::MAX,
        !opaque ==> old(frame_stats).water_draw_calls + pass_stats.draw_calls <= u32::MAX,
        old(frame_stats).rendered_chunks + pass_stats.rendered_chunks <= u32::MAX,
        old(frame_stats).rendered_indices + pass_stats.rendered_indices <= u64::MAX,
        old(frame_stats).rendered_vertices + pass_stats.rendered_vertices <= u64::MAX,
    ensures
        final(frame_stats).opaque_draw_calls == old(frame_stats).opaque_draw_calls + if opaque {
            pass_stats.draw_calls
        } else {
            0
        },
        final(frame_stats).water_draw_calls == old(frame_stats).water_draw_calls + if opaque {
            0
        } else {
            pass_stats.draw_calls
        },
        final(frame_stats).portal_draw_calls == old(frame_stats).portal_draw_calls,
        final(frame_stats).portal_view_passes == old(frame_stats).portal_view_passes,
        final(frame_stats).rendered_chunks == old(frame_stats).rendered_chunks + pass_stats.rendered_chunks,
        final(frame_stats).rendered_indices == old(frame_stats).rendered_indices + pass_stats.rendered_indices,
        final(frame_stats).rendered_vertices == old(frame_stats).rendered_vertices + pass_stats.rendered_vertices,
{
    if opaque {
        frame_stats.opaque_draw_calls += pass_stats.draw_calls;
    } else {
        frame_stats.water_draw_calls += pass_stats.draw_calls;
    }
    frame_stats.rendered_chunks += pass_stats.rendered_chunks;
    frame_stats.rendered_indices += pass_stats.rendered_indices;
    frame_stats.rendered_vertices += pass_stats.rendered_vertices;
}

/// Adds an upload's bytes and reallocations to the running totals.
pub fn accumulate_upload_stats(total: &mut MeshUploadStats, delta: MeshUploadStats)
    requires
        old(total).uploaded_bytes + delta.uploaded_bytes <= u64::MAX,
        old(total).buffer_reallocations + delta.buffer_reallocations <= u32::MAX,
    ensures
        final(total).uploaded_bytes == old(total).uploaded_bytes + delta.uploaded_bytes,
        final(total).buffer_reallocations == old(total).buffer_reallocations + delta.buffer_reallocations,
{
    total.uploaded_bytes += delta.uploaded_bytes;
    total.buffer_reallocations += delta.buffer_reallocations;
}

} // verus!
