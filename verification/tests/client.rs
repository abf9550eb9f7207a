use veldspar::atlas::{
    item_texture_slots, sort_names,
    extra_texture_placements, extra_texture_slots, resolve_texture_name_for_block,
    slot_pixel_origin, texture_name_candidates,
};
use veldspar::chunk::{BlockId, ChunkData};
use veldspar::client::chunk_renderer::{grow_capacity, ChunkPassStats, MeshUploadStats};
use veldspar::client::crosshair::build_indices;
use veldspar::client::debug_overlay::{
    block_display_name, face_label, format_bytes, format_portal_overlay_info,
    movement_mode_labels, Face, PortalOverlayInfo,
};
use veldspar::client::inventory::{
    creative_block_catalog_key, creative_catalog_blocks, creative_max_scroll,
    truncate_text_chars, CraftingUiMode,
};
use veldspar::client::main_menu::{
    seed_preview_bytes, settings_target_to_selection, truncate_text, visible_world_range,
    SettingsHitTarget, SettingsSliderKind,
};
use veldspar::client::mesh::{axis_out, in_chunk_bounds, sample_block, wrap_to_local, ChunkNeighbors};
use veldspar::client::portal_renderer::scaled_dimension;
use veldspar::client::renderer::{accumulate_chunk_stats, accumulate_upload_stats, RenderFrameStats};
use veldspar::client::world::ClientWorld;
use veldspar::client::{inventory, main_menu, text_overlay};
use veldspar::coords::{ChunkPos, CHUNK_VOLUME};

fn strings(v: &[&str]) -> Vec<String> {
    v.iter().map(|s| s.to_string()).collect()
}

#[test]
fn texture_candidates_follow_the_table_then_the_shape_then_stone() {
    assert_eq!(texture_name_candidates("bedstone"), strings(&["bedrock", "stone"]));
    assert_eq!(
        texture_name_candidates("still_water"),
        strings(&["water_still", "water_flow", "water_still", "water_flow", "stone"])
    );
    assert_eq!(
        texture_name_candidates("wheat_stage_3"),
        strings(&["wheat_stage3", "wheat_stage_full_3", "stone"])
    );
    assert_eq!(
        texture_name_candidates("carpet_red"),
        strings(&["red_carpet", "red_wool", "stone"])
    );
    assert_eq!(texture_name_candidates("wool_blue"), strings(&["blue_wool", "stone"]));
    assert_eq!(
        texture_name_candidates("door_north_open"),
        strings(&["oak_door_side", "door_north", "oak_door_side", "stone"])
    );
    assert_eq!(
        texture_name_candidates("stone_stairs_east"),
        strings(&["cobblestone", "stone", "stone_stairs", "cobblestone", "stone"])
    );
    assert_eq!(
        texture_name_candidates("mystery_log_on"),
        strings(&["mystery_log_on", "mystery_log", "oak_log", "stone"])
    );
    assert_eq!(
        texture_name_candidates("trapdoor_north"),
        strings(&["oak_trapdoor", "trapdoor", "oak_door_side", "oak_trapdoor", "stone"])
    );
    assert_eq!(texture_name_candidates("copper_vein"), strings(&["copper_ore", "iron_ore", "stone"]));
    assert_eq!(texture_name_candidates("ladder_east"), strings(&["ladder", "ladder", "stone"]));
}

#[test]
fn block_textures_resolve_to_the_first_loaded_candidate() {
    let loaded = strings(&["oak_planks", "stone", "acacia_slab"]);
    assert_eq!(resolve_texture_name_for_block("air", &loaded), None);
    assert_eq!(
        resolve_texture_name_for_block("wooden_slab_top", &loaded),
        Some("oak_planks".to_string())
    );
    assert_eq!(resolve_texture_name_for_block("granite", &loaded), Some("stone".to_string()));
    assert_eq!(resolve_texture_name_for_block("unobtainium", &[]), Some("stone".to_string()));
}

#[test]
fn extra_textures_take_their_fixed_slots() {
    let slots = extra_texture_slots();
    assert_eq!(slots[0], ("oak_log_top", 960));
    assert_eq!(slots[10], ("lava_flow", 970));
    let placed = extra_texture_placements(&strings(&["torch", "lava_flow", "dirt"]));
    assert_eq!(placed, vec![("torch", 965), ("lava_flow", 970)]);
    assert_eq!(slot_pixel_origin(965), (5 * 16, 30 * 16));
}

#[test]
fn buffer_capacity_grows_to_powers_of_two() {
    assert_eq!(grow_capacity(0), 4);
    assert_eq!(grow_capacity(3), 4);
    assert_eq!(grow_capacity(5), 8);
    assert_eq!(grow_capacity(1024), 1024);
    assert_eq!(grow_capacity(1025), 2048);
    for v in [1u64, 4, 17, 4096, 1 << 40, (1 << 63) - 1, 1 << 63] {
        assert_eq!(grow_capacity(v), v.max(4).next_power_of_two());
    }
}

#[test]
fn frame_stats_add_up() {
    let mut frame = RenderFrameStats::default();
    let pass = ChunkPassStats { draw_calls: 3, rendered_chunks: 2, rendered_indices: 30, rendered_vertices: 20 };
    accumulate_chunk_stats(&mut frame, pass, true);
    accumulate_chunk_stats(&mut frame, pass, false);
    assert_eq!(frame.opaque_draw_calls, 3);
    assert_eq!(frame.water_draw_calls, 3);
    assert_eq!(frame.rendered_chunks, 4);
    assert_eq!(frame.rendered_indices, 60);
    assert_eq!(frame.rendered_vertices, 40);
    let mut total = MeshUploadStats::default();
    accumulate_upload_stats(&mut total, MeshUploadStats { uploaded_bytes: 100, buffer_reallocations: 1 });
    accumulate_upload_stats(&mut total, MeshUploadStats { uploaded_bytes: 5, buffer_reallocations: 0 });
    assert_eq!(total, MeshUploadStats { uploaded_bytes: 105, buffer_reallocations: 1 });
}

fn f32_scaled(dimension: u32) -> u32 {
    ((dimension.max(1) as f32) * 0.5).round().max(1.0) as u32
}

#[test]
fn portal_targets_are_half_the_screen_as_f32_rounds_it() {
    for d in [0u32, 1, 2, 3, 5, 799, 1920, 1081, 16_777_215, 16_777_216, 16_777_217, 16_777_219,
        33_554_435, 4_294_967_295, 4_294_967_040, 2_147_483_649] {
        assert_eq!(scaled_dimension(d), f32_scaled(d), "{d}");
    }
    let mut d: u32 = 7;
    for _ in 0..2000 {
        assert_eq!(scaled_dimension(d), f32_scaled(d), "{d}");
        d = d.wrapping_mul(2_654_435_761).wrapping_add(12345);
    }
}

fn f64_bytes(bytes: u64) -> String {
    const KIB: f64 = 1024.0;
    const MIB: f64 = KIB * 1024.0;
    let b = bytes as f64;
    if b >= MIB {
        format!("{:.2} MiB", b / MIB)
    } else if b >= KIB {
        format!("{:.2} KiB", b / KIB)
    } else {
        format!("{bytes} B")
    }
}

#[test]
fn byte_counts_read_as_the_float_formatting_gives_them() {
    assert_eq!(format_bytes(0), "0 B");
    assert_eq!(format_bytes(1023), "1023 B");
    assert_eq!(format_bytes(1024), "1.00 KiB");
    assert_eq!(format_bytes(1536), "1.50 KiB");
    assert_eq!(format_bytes(1_048_576), "1.00 MiB");
    for b in [1152u64, 1029, 1034, 1_179_648, 5_000_000, 1_048_575, 1_048_571, 9_007_199_254_740_993,
        18_446_744_073_709_551_615, 123_456_789_012] {
        assert_eq!(format_bytes(b), f64_bytes(b), "{b}");
    }
    let mut b: u64 = 977;
    for _ in 0..3000 {
        assert_eq!(format_bytes(b), f64_bytes(b), "{b}");
        b = b.wrapping_mul(6_364_136_223_846_793_005).wrapping_add(1_442_695_040_888_963_407) >> (b % 50);
    }
}

#[test]
fn overlay_labels() {
    assert_eq!(movement_mode_labels(true), ("Fly", "FLY"));
    assert_eq!(movement_mode_labels(false), ("Walk", "WALK"));
    assert_eq!(face_label(Face::NegZ), "-Z");
    assert_eq!(block_display_name(BlockId(4)), "Verdant Turf");
    assert_eq!(block_display_name(BlockId(99)), "Unknown");
    assert_eq!(format_portal_overlay_info(None), "none");
    let info = PortalOverlayInfo {
        support_lower: veldspar::coords::WorldPos { x: -3, y: 64, z: 12 },
        face: Face::PosY,
        linked: true,
    };
    assert_eq!(format_portal_overlay_info(Some(info)), "-3 64 12 | +Y | linked=yes");
}

#[test]
fn crosshair_indices() {
    assert_eq!(build_indices(), [0, 1, 2, 0, 2, 3, 4, 5, 6, 4, 6, 7]);
}

#[test]
fn fonts_cover_their_characters() {
    assert_eq!(text_overlay::glyph('A'), Some([0x04, 0x0A, 0x11, 0x1F, 0x11, 0x11, 0x11]));
    assert_eq!(text_overlay::glyph('?'), Some([0x0E, 0x11, 0x01, 0x02, 0x04, 0x00, 0x04]));
    assert_eq!(text_overlay::glyph('a'), None);
    assert_eq!(main_menu::glyph('/'), Some([0x01, 0x02, 0x04, 0x08, 0x10, 0x00, 0x00]));
    assert_eq!(text_overlay::glyph('/'), Some([0x01, 0x01, 0x02, 0x04, 0x08, 0x10, 0x10]));
    assert_eq!(main_menu::glyph('?'), None);
    assert_eq!(inventory::glyph(':'), None);
    assert_eq!(inventory::glyph('9'), Some([0x0E, 0x11, 0x11, 0x0F, 0x01, 0x02, 0x0C]));
}

#[test]
fn texts_are_cut_to_their_room() {
    assert_eq!(truncate_text("short", 10), "short");
    assert_eq!(truncate_text("a long world name", 8), "a lon...");
    assert_eq!(truncate_text("abcdef", 3), "abc");
    assert_eq!(truncate_text("héllo wörld", 6), "hél...");
    assert_eq!(truncate_text_chars("héllo", 2), "hé");
    assert_eq!(truncate_text_chars("abc", 3), "abc");
}

#[test]
fn world_list_scrolls_around_the_selection() {
    assert_eq!(visible_world_range(0, 5, None), (0, 0));
    assert_eq!(visible_world_range(4, 5, Some(2)), (0, 4));
    assert_eq!(visible_world_range(20, 5, Some(10)), (8, 13));
    assert_eq!(visible_world_range(20, 5, Some(19)), (15, 20));
    assert_eq!(visible_world_range(20, 5, None), (0, 5));
    assert_eq!(visible_world_range(20, 0, Some(3)), (0, 20));
}

#[test]
fn creative_catalog_rules() {
    assert_eq!(creative_max_scroll(0), 0);
    assert_eq!(creative_max_scroll(45), 0);
    assert_eq!(creative_max_scroll(46), 1);
    assert_eq!(creative_max_scroll(100), 7);
    assert_eq!(CraftingUiMode::Inventory2x2.input_slot_count(), 4);
    assert_eq!(CraftingUiMode::CraftingTable3x3.input_slot_count(), 9);
    assert_eq!(creative_block_catalog_key("door_north_open"), "wooden_door");
    assert_eq!(creative_block_catalog_key("bed_head_east"), "bed");
    assert_eq!(creative_block_catalog_key("wheat_stage_3"), "wheat");
    assert_eq!(creative_block_catalog_key("a_stage_b_stage_c"), "a_stage_b");
    assert_eq!(creative_block_catalog_key("ladder_east"), "ladder");
    assert_eq!(creative_block_catalog_key("stone_slab_top"), "stone_slab");
    assert_eq!(creative_block_catalog_key("lever_on"), "lever");
    assert_eq!(creative_block_catalog_key("granite"), "granite");
    let names = strings(&[
        "air", "granite", "flowing_water_1", "ladder", "ladder_east", "stone_slab_top",
        "stone_slab_bottom", "door_south", "door_north",
    ]);
    assert_eq!(creative_catalog_blocks(&names), vec![1, 3, 5, 7]);
}

fn chunk_with(block: u16) -> ChunkData {
    let mut c = ChunkData::new_empty();
    for i in 0..CHUNK_VOLUME {
        c.set_index(i, BlockId(block));
    }
    c
}

#[test]
fn mesher_reads_blocks_across_chunk_faces() {
    assert!(in_chunk_bounds(0) && in_chunk_bounds(31) && !in_chunk_bounds(32) && !in_chunk_bounds(-1));
    assert_eq!((axis_out(-1), axis_out(5), axis_out(32)), (-1, 0, 1));
    assert_eq!((wrap_to_local(-1), wrap_to_local(32), wrap_to_local(7)), (31, 0, 7));
    let mut center = chunk_with(1);
    center.set_index(0, BlockId(5));
    let east = chunk_with(2);
    let below = chunk_with(3);
    let n = ChunkNeighbors {
        pos_x: Some(&east),
        neg_x: None,
        pos_y: None,
        neg_y: Some(&below),
        pos_z: None,
        neg_z: None,
    };
    assert_eq!(sample_block(&center, &n, [0, 0, 0]), BlockId(5));
    assert_eq!(sample_block(&center, &n, [32, 4, 4]), BlockId(2));
    assert_eq!(sample_block(&center, &n, [4, -1, 4]), BlockId(3));
    assert_eq!(sample_block(&center, &n, [-1, 4, 4]), BlockId(0));
    assert_eq!(sample_block(&center, &n, [32, -1, 4]), BlockId(0));
}

#[test]
fn client_world_holds_and_drops_chunks() {
    let mut w = ClientWorld::new();
    let pos = ChunkPos { x: 1, y: 1, z: 1 };
    w.set_chunk(pos, chunk_with(6));
    assert_eq!(w.loaded_chunks.chunk_count(), 1);
    w.remove_chunk(&pos);
    assert_eq!(w.loaded_chunks.chunk_count(), 0);
    assert!(w.loaded_chunks.load_chunk(pos).is_none());
}

#[test]
fn item_textures_fill_free_slots_in_name_order() {
    let names: Vec<String> = (0..12).rev().map(|i| format!("item_{i:02}")).collect();
    let slots = item_texture_slots(950, &names);
    let got: Vec<(String, u32)> = slots.clone();
    let mut expected = Vec::new();
    let mut slot_values: Vec<u32> = (950..960).collect();
    slot_values.extend([971, 972]);
    for (i, s) in slot_values.into_iter().enumerate() {
        expected.push((format!("item_{i:02}"), s));
    }
    assert_eq!(got, expected);
    assert!(item_texture_slots(1024, &names).is_empty());
    assert_eq!(item_texture_slots(1022, &names).len(), 2);

    let words = strings(&["zeta", "Alpha", "alpha", "beta", "", "é", "b", "alp"]);
    let mut std_sorted = words.clone();
    std_sorted.sort();
    assert_eq!(sort_names(&words), std_sorted);
}

#[test]
fn settings_targets_select_their_row() {
    assert_eq!(settings_target_to_selection(SettingsHitTarget::Slider(SettingsSliderKind::RenderDistance)), 0);
    assert_eq!(settings_target_to_selection(SettingsHitTarget::Slider(SettingsSliderKind::Fov)), 6);
    assert_eq!(settings_target_to_selection(SettingsHitTarget::Slider(SettingsSliderKind::GuiScale)), 7);
    assert_eq!(settings_target_to_selection(SettingsHitTarget::ShowFpsToggle), 8);
    assert_eq!(settings_target_to_selection(SettingsHitTarget::Back), 9);
}

#[test]
fn seed_previews_take_three_bytes_of_a_scrambled_seed() {
    assert_eq!(seed_preview_bytes(0), (66, 179, 57));
    assert_eq!(seed_preview_bytes(12345), (118, 143, 57));
}
