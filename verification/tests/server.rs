use veldspar::chunk::{BlockId, ChunkData};
use veldspar::chunk_manager::ChunkManager;
use veldspar::coords::{world_to_chunk, ChunkPos, LocalPos, WorldPos};
use veldspar::persistence::PersistenceLayer;
use veldspar::region::RegionFile;
use veldspar::server::{
    elapsed_ticks, gather_stream_targets, group_block_changes, is_in_stream_range, parse_u64,
    sort_changes, tick_actions, HandshakeOutcome, InputOutcome, PlayerRoster, Session,
};
use veldspar::server_world::{ChunkSource, ServerWorld, DEFAULT_WORLD_SEED};

fn chars(s: &str) -> Vec<char> {
    s.chars().collect()
}

#[test]
fn tick_actions_follow_their_intervals() {
    let a = tick_actions(600);
    assert!(a.water && a.save && a.time_sync);
    let a = tick_actions(100);
    assert!(a.water && !a.save && a.time_sync);
    let a = tick_actions(7);
    assert!(!a.water && !a.save && !a.time_sync);
    let a = tick_actions(5);
    assert!(a.water && !a.save && !a.time_sync);
}

#[test]
fn elapsed_ticks_is_at_least_one() {
    assert_eq!(elapsed_ticks(10, 4), 6);
    assert_eq!(elapsed_ticks(10, 10), 1);
    assert_eq!(elapsed_ticks(3, 10), 1);
    assert_eq!(elapsed_ticks(11, 10), 1);
}

#[test]
fn ids_parse_like_u64_from_str() {
    assert_eq!(parse_u64(&chars("42")), Some(42));
    assert_eq!(parse_u64(&chars("+7")), Some(7));
    assert_eq!(parse_u64(&chars("007")), Some(7));
    assert_eq!(parse_u64(&chars("18446744073709551615")), Some(u64::MAX));
    assert_eq!(parse_u64(&chars("18446744073709551616")), None);
    assert_eq!(parse_u64(&chars("")), None);
    assert_eq!(parse_u64(&chars("+")), None);
    assert_eq!(parse_u64(&chars("-1")), None);
    assert_eq!(parse_u64(&chars("1a")), None);
    for s in ["0", "1", "99999", "+12", "12 ", " 12", "1_0"] {
        assert_eq!(parse_u64(&chars(s)), s.parse::<u64>().ok(), "{s}");
    }
}

fn roster() -> PlayerRoster {
    let mut r = PlayerRoster::new();
    r.upsert(3, "Alice".to_string(), 0);
    r.upsert(8, "bob".to_string(), 0);
    r.upsert(5, "BOB".to_string(), 0);
    r
}

#[test]
fn console_targets_resolve_by_id_or_name() {
    let r = roster();
    assert_eq!(r.resolve_player_target("3"), Ok(3));
    assert_eq!(r.resolve_player_target("alice"), Ok(3));
    assert_eq!(r.resolve_player_target("9"), Err("player id 9 is not connected".to_string()));
    assert_eq!(r.resolve_player_target("carol"), Err("player 'carol' is not connected".to_string()));
    assert_eq!(
        r.resolve_player_target("Bob"),
        Err("multiple players match 'Bob', use /list and kick by id".to_string())
    );
}

#[test]
fn roster_updates_and_lists_players_by_id() {
    let mut r = roster();
    r.upsert(8, "Robert".to_string(), 40);
    assert_eq!(r.username(8), Some("Robert".to_string()));
    assert_eq!(r.last_position_tick(8), Some(40));
    r.touch(3, 12);
    assert_eq!(r.last_position_tick(3), Some(12));
    let listed = r.sorted_by_id();
    assert_eq!(
        listed,
        vec![(3, "Alice".to_string()), (5, "BOB".to_string()), (8, "Robert".to_string())]
    );
    r.remove(5);
    assert!(!r.contains(5));
    assert_eq!(r.ids().len(), 2);
}

#[test]
fn handshake_accepts_the_expected_version_and_announces_new_players() {
    let mut s = Session::new();
    match s.handshake(1, "one".to_string(), 3, 4) {
        HandshakeOutcome::Reject { reason } => {
            assert_eq!(reason, "Unsupported protocol version 3, expected 4")
        }
        other => panic!("unexpected {other:?}"),
    }
    assert!(!s.is_handshaken(1));
    match s.handshake(1, "one".to_string(), 4, 4) {
        HandshakeOutcome::Accept { joined, announce_to } => {
            assert!(joined);
            assert!(announce_to.is_empty());
        }
        other => panic!("unexpected {other:?}"),
    }
    match s.handshake(2, "two".to_string(), 4, 4) {
        HandshakeOutcome::Accept { joined, announce_to } => {
            assert!(joined);
            assert_eq!(announce_to, vec![1]);
        }
        other => panic!("unexpected {other:?}"),
    }
    match s.handshake(2, "deux".to_string(), 4, 4) {
        HandshakeOutcome::Accept { joined, announce_to } => {
            assert!(!joined);
            assert!(announce_to.is_empty());
        }
        other => panic!("unexpected {other:?}"),
    }
    assert_eq!(s.roster().username(2), Some("deux".to_string()));
    assert_eq!(s.display_name(2), "deux");
    assert_eq!(s.display_name(77), "Player77");
}

#[test]
fn disconnect_forgets_the_player_and_tells_the_others() {
    let mut s = Session::new();
    s.handshake(1, "one".to_string(), 1, 1);
    s.handshake(2, "two".to_string(), 1, 1);
    s.record_chunk_sent(1, ChunkPos { x: 0, y: 0, z: 0 });
    s.record_chunk_sent(2, ChunkPos { x: 0, y: 0, z: 0 });
    let told = s.disconnect(1);
    assert_eq!(told, vec![2]);
    assert!(!s.is_handshaken(1));
    assert!(!s.roster().contains(1));
    assert_eq!(s.chunk_recipients(ChunkPos { x: 0, y: 0, z: 0 }), vec![2]);
    assert!(s.disconnect(9).is_empty());
}

#[test]
fn inputs_chat_and_block_edits_need_a_handshake() {
    let mut s = Session::new();
    assert_eq!(s.player_input(4), InputOutcome::Ignored);
    assert!(s.chat_route(4).is_none());
    assert_eq!(
        s.block_edit_refusal(4, 1, true),
        Some("handshake required before editing blocks".to_string())
    );
    s.handshake(4, "four".to_string(), 1, 1);
    assert_eq!(s.block_edit_refusal(4, 900, false), Some("invalid block id 900".to_string()));
    assert_eq!(s.block_edit_refusal(4, 1, true), None);
    for _ in 0..5 {
        s.advance_tick();
    }
    assert_eq!(s.tick(), 5);
    assert_eq!(s.player_input(4), InputOutcome::Moved { elapsed_ticks: 5 });
    assert_eq!(s.player_input(4), InputOutcome::Moved { elapsed_ticks: 1 });
    let route = s.chat_route(4).unwrap();
    assert_eq!(route.sender_name, "four");
    assert_eq!(route.recipients, vec![4]);
}

#[test]
fn stream_area_is_twenty_five_by_twenty_five_by_four() {
    let center = ChunkPos { x: 10, y: -3, z: 100 };
    let targets = gather_stream_targets(center);
    assert_eq!(targets.len(), 2500);
    assert_eq!(targets[0], ChunkPos { x: -2, y: -5, z: 88 });
    assert_eq!(targets[2499], ChunkPos { x: 22, y: -2, z: 112 });
    assert!(targets.iter().all(|p| is_in_stream_range(center, *p)));
    assert!(!is_in_stream_range(center, ChunkPos { x: 23, y: -3, z: 100 }));
    assert!(!is_in_stream_range(center, ChunkPos { x: 10, y: -1, z: 100 }));
    assert!(is_in_stream_range(center, ChunkPos { x: 10, y: -2, z: 100 }));
}

#[test]
fn unloads_take_back_chunks_outside_the_area() {
    let mut s = Session::new();
    s.handshake(1, "one".to_string(), 1, 1);
    let near = ChunkPos { x: 1, y: 0, z: 1 };
    let far = ChunkPos { x: 40, y: 0, z: 1 };
    s.record_chunk_sent(1, near);
    s.record_chunk_sent(1, far);
    s.record_chunk_sent(1, far);
    s.record_chunk_sent(2, far);
    let unloads = s.take_unloads(1, ChunkPos { x: 0, y: 0, z: 0 });
    assert_eq!(unloads, vec![far]);
    assert_eq!(s.chunk_recipients(far), vec![2]);
    assert_eq!(s.chunk_recipients(near), vec![1]);
    assert!(s.take_unloads(2, ChunkPos { x: 0, y: 0, z: 0 }).is_empty());
}

#[test]
fn block_changes_are_grouped_by_chunk_and_ordered_by_y_z_x() {
    let changes = vec![
        (WorldPos { x: 5, y: 3, z: 1 }, BlockId(1)),
        (WorldPos { x: -1, y: 0, z: 0 }, BlockId(2)),
        (WorldPos { x: 4, y: 1, z: 9 }, BlockId(3)),
        (WorldPos { x: 4, y: 1, z: 2 }, BlockId(4)),
        (WorldPos { x: 4, y: 1, z: 2 }, BlockId(5)),
    ];
    let groups = group_block_changes(&changes);
    assert_eq!(groups.len(), 2);
    assert_eq!(groups[0].0, ChunkPos { x: 0, y: 0, z: 0 });
    let locals: Vec<(u8, u8, u8, u16)> =
        groups[0].1.iter().map(|(l, b)| (l.x, l.y, l.z, b.0)).collect();
    assert_eq!(locals, vec![(4, 1, 2, 4), (4, 1, 2, 5), (4, 1, 9, 3), (5, 3, 1, 1)]);
    assert_eq!(groups[1].0, ChunkPos { x: -1, y: 0, z: 0 });
    assert_eq!(groups[1].1, vec![(LocalPos { x: 31, y: 0, z: 0 }, BlockId(2))]);
}

#[test]
fn sorting_changes_matches_a_stable_sort_by_y_z_x() {
    let mut v = Vec::new();
    for i in 0..40u16 {
        let l = LocalPos { x: (i * 7 % 5) as u8, y: (i % 3) as u8, z: (i * 3 % 4) as u8 };
        v.push((l, BlockId(i)));
    }
    let mut expected = v.clone();
    expected.sort_by_key(|(l, _)| (l.y, l.z, l.x));
    assert_eq!(sort_changes(v), expected);
}

#[test]
fn world_positions_split_into_chunk_and_offset() {
    let (c, l) = world_to_chunk(WorldPos { x: -1, y: 33, z: 64 });
    assert_eq!(c, ChunkPos { x: -1, y: 1, z: 2 });
    assert_eq!(l, LocalPos { x: 31, y: 1, z: 0 });
}

#[test]
fn world_sets_and_gets_blocks_and_tracks_changed_chunks() {
    let mut world = ServerWorld::new(20);
    assert_eq!(world.world_seed(), DEFAULT_WORLD_SEED);
    assert!(world.is_valid_block(BlockId(19)));
    assert!(!world.is_valid_block(BlockId(20)));
    let pos = ChunkPos { x: 0, y: 0, z: -1 };
    assert!(matches!(world.prepare_chunk(pos, None), ChunkSource::Generate));
    assert!(world.store_generated(pos, &ChunkData::new_empty(), &mut None).is_none());
    assert!(matches!(world.prepare_chunk(pos, None), ChunkSource::AlreadyLoaded));
    let w = WorldPos { x: 3, y: 4, z: -5 };
    assert_eq!(world.set_block(w, BlockId(7)), BlockId(0));
    assert_eq!(world.get_block(w), BlockId(7));
    assert_eq!(world.get_block(WorldPos { x: 4, y: 4, z: -5 }), BlockId(0));
    assert_eq!(world.set_block(w, BlockId(9)), BlockId(7));
    assert_eq!(world.dirty_positions(), vec![pos]);
    world.tick();
    assert_eq!(world.tick_count, 1);
    world.record_water_changes(&[WorldPos { x: 40, y: 0, z: 0 }]);
    assert_eq!(world.dirty_positions().len(), 2);
}

#[test]
fn world_saves_changed_chunks_to_open_regions() {
    let mut world = ServerWorld::new(20);
    let mut layer = PersistenceLayer::open("w".to_string());
    let pos = ChunkPos { x: 1, y: 0, z: 1 };
    world.insert_loaded_chunk(pos, &ChunkData::new_empty());
    world.set_block(WorldPos { x: 33, y: 0, z: 33 }, BlockId(4));
    let missing = world.regions_to_open(&layer);
    assert_eq!(missing.len(), 1);
    assert_eq!(missing[0].path, "w/region/r.0.0.vsr");
    let report = world.save_dirty_chunks(&mut layer);
    assert_eq!(report.failed.len(), 1);
    assert_eq!(world.dirty_positions(), vec![pos]);

    layer.insert_region(missing[0].coords, RegionFile::open(missing[0].path.clone(), None).unwrap());
    let report = world.save_dirty_chunks(&mut layer);
    assert!(report.failed.is_empty());
    assert_eq!(report.writes.len(), 1);
    assert_eq!(report.writes[0].0, pos);
    assert_eq!(report.writes[0].1.path, "w/region/r.0.0.vsr");
    let reopened = RegionFile::open(report.writes[0].1.path.clone(), Some(report.writes[0].1.bytes.clone())).unwrap();
    assert_eq!(reopened.load_chunk(pos).unwrap().get(LocalPos { x: 1, y: 0, z: 1 }), BlockId(4));
    assert!(world.dirty_positions().is_empty());
    let stored = layer.load_chunk(pos).unwrap().unwrap();
    assert_eq!(stored.get(LocalPos { x: 1, y: 0, z: 1 }), BlockId(4));
    assert_eq!(report.flushed.unwrap().len(), 1);

    let other_pos = ChunkPos { x: 0, y: 1, z: 0 };
    let mut holder = Some(layer);
    let req = world.store_generated(other_pos, &ChunkData::new_empty(), &mut holder).unwrap().unwrap();
    let layer = holder.unwrap();
    assert_eq!(req.path, "w/region/r.0.0.vsr");
    let reopened = RegionFile::open(req.path.clone(), Some(req.bytes.clone())).unwrap();
    assert!(reopened.load_chunk(other_pos).is_some());
    assert!(reopened.load_chunk(pos).is_some());

    let mut fresh = ServerWorld::new(20);
    assert!(matches!(fresh.prepare_chunk(pos, Some(&layer)), ChunkSource::LoadedFromRegion));
    assert_eq!(fresh.get_block(WorldPos { x: 33, y: 0, z: 33 }), BlockId(4));
    let other = ChunkPos { x: 100, y: 0, z: 0 };
    assert!(matches!(fresh.prepare_chunk(other, Some(&layer)), ChunkSource::ReadRegion(_)));
}

#[test]
fn chunk_manager_clears_its_requests() {
    let mut m = ChunkManager::new();
    m.request(ChunkPos { x: 1, y: 2, z: 3 });
    m.request(ChunkPos { x: 1, y: 2, z: 3 });
    m.process_requests();
    let d = ChunkManager::default();
    drop(d);
}
