//! Region payload format versions and the migrations between them.

use vstd::prelude::*;
use crate::coords::{ChunkPos, CHUNK_VOLUME};
use crate::chunk::{BlockId, ChunkData};
use crate::format::{
    ChunkRecord, LegacyChunkRecord, RegionPayload, LegacyRegionPayload, PayloadView, bincode_payload,
    bincode_legacy_payload, payload_bytes, payload_fits, legacy_payload_bytes, legacy_payload_fits, decode_payload, decode_legacy_payload,
    encode_payload,
    chunk_to_record, record_to_chunk, ids_of, values_of,
};
use crate::text::{decimal, signed_decimal, push_decimal, push_signed_decimal};

verus! {

/// The payload format version that regions are written in.
pub const CURRENT_REGION_FORMAT_VERSION: u32 = 2;

/// The payload format version that `flush` writes.
pub const FORMAT_VERSION: u32 = CURRENT_REGION_FORMAT_VERSION;

pub open spec fn unsupported_version_message(version: u32) -> Seq<char> {
    "unsupported region format version "@ + decimal(version as nat) + "; current version is "@
        + decimal(CURRENT_REGION_FORMAT_VERSION as nat)
}

pub open spec fn missing_path_message(version: u32) -> Seq<char> {
    "missing migration path for region format v"@ + decimal(version as nat) + " -> v"@ + decimal(
        (version + 1) as nat,
    )
}

pub open spec fn undecodable_v1_message() -> Seq<char> {
    "failed to decode region payload for migration from v1 to v2"@
}

/// The message for a stored chunk that does not hold `CHUNK_VOLUME` blocks.
pub open spec fn chunk_length_message(pos: ChunkPos, len: nat) -> Seq<char> {
    "chunk ChunkPos { x: "@ + signed_decimal(pos.x as int) + ", y: "@ + signed_decimal(
        pos.y as int,
    ) + ", z: "@ + signed_decimal(pos.z as int) + " } has "@ + decimal(len) + " blocks; expected "@
        + decimal(CHUNK_VOLUME as nat)
}

/// The first stored chunk, in order, whose block count is not `CHUNK_VOLUME`.
pub open spec fn first_wrong_length<T>(chunks: Seq<(ChunkPos, Seq<T>)>) -> Option<(ChunkPos, nat)>
    decreases chunks.len(),
{
    if chunks.len() == 0 {
        None
    } else if chunks[0].1.len() != CHUNK_VOLUME {
        Some((chunks[0].0, chunks[0].1.len()))
    } else {
        first_wrong_length(chunks.drop_first())
    }
}

/// Every stored chunk is full and the stored list fits bincode's u64 lengths.
pub open spec fn stored_full(s: Seq<(ChunkPos, Seq<u16>)>) -> bool {
    &&& s.len() <= u64::MAX
    &&& forall|i: int| 0 <= i < s.len() ==> (#[trigger] s[i]).1.len() == crate::coords::CHUNK_VOLUME
}


/// Every one-byte-per-block chunk is full and the list fits bincode's u64 lengths.
pub open spec fn legacy_full(s: Seq<(ChunkPos, Seq<u8>)>) -> bool {
    &&& s.len() <= u64::MAX
    &&& forall|i: int| 0 <= i < s.len() ==> (#[trigger] s[i]).1.len() == crate::coords::CHUNK_VOLUME
}

/// A list of full chunks has no chunk of the wrong length.
pub proof fn lemma_full_has_no_wrong<T>(s: Seq<(ChunkPos, Seq<T>)>)
    requires
        forall|i: int| 0 <= i < s.len() ==> (#[trigger] s[i]).1.len() == crate::coords::CHUNK_VOLUME,
    ensures
        first_wrong_length(s) is None,
    decreases s.len(),
{
    if s.len() > 0 {
        assert forall|i: int| 0 <= i < s.drop_first().len() implies (#[trigger] s.drop_first()[i]).1.len() == crate::coords::CHUNK_VOLUME by {
            assert(s.drop_first()[i] == s[i + 1]);
        }
        lemma_full_has_no_wrong(s.drop_first());
    }
}

/// One-byte block ids widened to two bytes.
pub open spec fn widen(chunks: Seq<(ChunkPos, Seq<u8>)>) -> Seq<(ChunkPos, Seq<u16>)> {
    chunks.map_values(|c: (ChunkPos, Seq<u8>)| (c.0, c.1.map_values(|b: u8| b as u16)))
}

/// What the chunks of a decoded version 1 payload become: the version 2 payload of the same
/// chunks when every one holds `CHUNK_VOLUME` blocks, else the message for the first that
/// does not.
pub open spec fn v1_chunks_outcome(c: Seq<(ChunkPos, Seq<u16>)>) -> Result<Seq<u8>, Seq<char>> {
    match first_wrong_length(c) {
        None => Ok(payload_bytes((CURRENT_REGION_FORMAT_VERSION, c))),
        Some(bad) => Err(chunk_length_message(bad.0, bad.1)),
    }
}

/// What the chunks of a decoded one-byte-per-block payload become: the version 2 payload of
/// the same chunks with each block id widened, when every one holds `CHUNK_VOLUME` blocks,
/// else the message for the first that does not.
pub open spec fn legacy_chunks_outcome(q: Seq<(ChunkPos, Seq<u8>)>) -> Result<Seq<u8>, Seq<char>> {
    match first_wrong_length(q) {
        None => Ok(payload_bytes((CURRENT_REGION_FORMAT_VERSION, widen(q)))),
        Some(bad) => Err(chunk_length_message(bad.0, bad.1)),
    }
}

/// Version 1 payloads are read in the current chunk layout first, then as one-byte block ids;
/// every chunk must hold `CHUNK_VOLUME` blocks, and the chunks are written again as a
/// version 2 payload.
pub open spec fn spec_migrate_v1_to_v2(bytes: Seq<u8>) -> Result<Seq<u8>, Seq<char>> {
    match bincode_payload(bytes) {
        Some(p) => v1_chunks_outcome(p.1),
        None => match bincode_legacy_payload(bytes) {
            Some(q) => legacy_chunks_outcome(q.1),
            None => Err(undecodable_v1_message()),
        },
    }
}

/// The outcome of migrating a payload of the given version to the current version.
pub open spec fn spec_migrate(version: u32, payload: Seq<u8>) -> Result<Seq<u8>, Seq<char>> {
    if version == CURRENT_REGION_FORMAT_VERSION {
        Ok(payload)
    } else if version == 0 || version > CURRENT_REGION_FORMAT_VERSION {
        Err(unsupported_version_message(version))
    } else {
        spec_migrate_v1_to_v2(payload)
    }
}

/// Bytes or message of an outcome.
pub open spec fn outcome_view(r: Result<Vec<u8>, String>) -> Result<Seq<u8>, Seq<char>> {
    match r {
        Ok(v) => Ok(v@),
        Err(e) => Err(e@),
    }
}

/// Chunks and their blocks as stored values.
pub open spec fn stored_chunks(chunks: Seq<(ChunkPos, ChunkData)>) -> Seq<(ChunkPos, Seq<u16>)> {
    chunks.map_values(|c: (ChunkPos, ChunkData)| (c.0, values_of(c.1@)))
}

fn chunk_length_error(pos: ChunkPos, len: usize) -> (s: String)
    ensures
        s@ == chunk_length_message(pos, len as nat),
{
    let mut s = String::new();
    s.push_str("chunk ChunkPos { x: ");
    push_signed_decimal(&mut s, pos.x as i64);
    s.push_str(", y: ");
    push_signed_decimal(&mut s, pos.y as i64);
    s.push_str(", z: ");
    push_signed_decimal(&mut s, pos.z as i64);
    s.push_str(" } has ");
    push_decimal(&mut s, len as u64);
    s.push_str(" blocks; expected ");
    push_decimal(&mut s, CHUNK_VOLUME as u64);
    s
}

/// Migrates a payload of format `version` to the current format; a current payload comes back
/// unchanged.
pub fn migrate_region_payload(version: u32, payload: Vec<u8>) -> (r: Result<Vec<u8>, String>)
    ensures
        outcome_view(r) == spec_migrate(version, payload@),
        version == CURRENT_REGION_FORMAT_VERSION ==> r is Ok && r->Ok_0@ == payload@,
        forall|c: Seq<(ChunkPos, Seq<u16>)>|
            version == 1 && stored_full(c) && payload@ == #[trigger] payload_bytes((1u32, c)) ==> r is Ok
                && r->Ok_0@ == payload_bytes((CURRENT_REGION_FORMAT_VERSION, c)),
        forall|c: Seq<(ChunkPos, Seq<u8>)>|
            version == 1 && legacy_full(c) && payload@ == #[trigger] legacy_payload_bytes((1u32, c))
                && bincode_payload(payload@) is None ==> r is Ok && r->Ok_0@ == payload_bytes(
                (CURRENT_REGION_FORMAT_VERSION, widen(c)),
            ),
{
    if version == CURRENT_REGION_FORMAT_VERSION {
        return Ok(payload);
    }
    if version == 0 || version > CURRENT_REGION_FORMAT_VERSION {
        let mut msg = String::new();
        msg.push_str("unsupported region format version ");
        push_decimal(&mut msg, version as u64);
        msg.push_str("; current version is ");
        push_decimal(&mut msg, CURRENT_REGION_FORMAT_VERSION as u64);
        return Err(msg);
    }
    let ghost original = payload@;
    let mut bytes = payload;
    let mut current = version;
    while current < CURRENT_REGION_FORMAT_VERSION
        invariant
            version == 1,
            original == payload@,
            1 <= current <= CURRENT_REGION_FORMAT_VERSION,
            current == 1 ==> bytes@ == original,
            current == 2 ==> spec_migrate_v1_to_v2(original) == Ok::<Seq<u8>, Seq<char>>(bytes@),
            current == 2 ==> forall|c: Seq<(ChunkPos, Seq<u16>)>|
                stored_full(c) && original == #[trigger] payload_bytes((1u32, c)) ==> bytes@
                    == payload_bytes((CURRENT_REGION_FORMAT_VERSION, c)),
            current == 2 ==> forall|c: Seq<(ChunkPos, Seq<u8>)>|
                legacy_full(c) && original == #[trigger] legacy_payload_bytes((1u32, c)) && bincode_payload(original)
                    is None ==> bytes@ == payload_bytes((CURRENT_REGION_FORMAT_VERSION, widen(c))),
        decreases CURRENT_REGION_FORMAT_VERSION - current,
    {
        let next_version = current + 1;
        let step = migrate_one_version(current, bytes);
        bytes = match step {
            Ok(next) => next,
            Err(e) => {
                assert(spec_migrate_v1_to_v2(original) == Err::<Seq<u8>, Seq<char>>(e@));
                assert forall|c: Seq<(ChunkPos, Seq<u16>)>|
                    !(stored_full(c) && original == #[trigger] payload_bytes((1u32, c))) by {}
                assert forall|c: Seq<(ChunkPos, Seq<u8>)>|
                    !(legacy_full(c) && original == #[trigger] legacy_payload_bytes((1u32, c)) && bincode_payload(
                        original,
                    ) is None) by {}
                return Err(e);
            },
        };
        current = next_version;
    }
    Ok(bytes)
}

/// Migrates a payload from `version` to the next version.
fn migrate_one_version(version: u32, payload: Vec<u8>) -> (r: Result<Vec<u8>, String>)
    ensures
        version == 1 ==> outcome_view(r) == spec_migrate_v1_to_v2(payload@),
        version != 1 ==> outcome_view(r) == Err::<Seq<u8>, Seq<char>>(missing_path_message(version)),
        forall|c: Seq<(ChunkPos, Seq<u16>)>|
            version == 1 && stored_full(c) && payload@ == #[trigger] payload_bytes((1u32, c)) ==> r is Ok
                && r->Ok_0@ == payload_bytes((CURRENT_REGION_FORMAT_VERSION, c)),
        forall|c: Seq<(ChunkPos, Seq<u8>)>|
            version == 1 && legacy_full(c) && payload@ == #[trigger] legacy_payload_bytes((1u32, c))
                && bincode_payload(payload@) is None ==> r is Ok && r->Ok_0@ == payload_bytes(
                (CURRENT_REGION_FORMAT_VERSION, widen(c)),
            ),
{
    if version == 1 {
        migrate_region_v1_to_v2(payload)
    } else {
        let mut msg = String::new();
        msg.push_str("missing migration path for region format v");
        push_decimal(&mut msg, version as u64);
        msg.push_str(" -> v");
        push_decimal(&mut msg, version as u64 + 1);
        Err(msg)
    }
}

/// Reads the records in the current chunk layout: `None` when one of them is not a full chunk.
pub(crate) fn records_to_chunks(records: &Vec<ChunkRecord>) -> (r: Option<Vec<(ChunkPos, ChunkData)>>)
    ensures
        r is Some <==> first_wrong_length(records@.map_values(|c: ChunkRecord| c@)) is None,
        r matches Some(chunks) ==> (forall|i: int| 0 <= i < chunks@.len() ==> (#[trigger] chunks@[i]).1.wf())
            && stored_chunks(chunks@) == records@.map_values(|c: ChunkRecord| c@),
{
    let ghost view = records@.map_values(|c: ChunkRecord| c@);
    let mut out: Vec<(ChunkPos, ChunkData)> = Vec::new();
    let mut i: usize = 0;
    assert(view.subrange(0, view.len() as int) =~= view);
    assert(stored_chunks(out@) =~= view.subrange(0, 0));
    while i < records.len()
        invariant
            i <= records@.len(),
            view == records@.map_values(|c: ChunkRecord| c@),
            first_wrong_length(view) == first_wrong_length(view.subrange(i as int, view.len() as int)),
            forall|k: int| 0 <= k < out@.len() ==> (#[trigger] out@[k]).1.wf(),
            stored_chunks(out@) == view.subrange(0, i as int),
        decreases records@.len() - i,
    {
        let ghost rest = view.subrange(i as int, view.len() as int);
        assert(rest[0] == records@[i as int]@);
        assert(rest.drop_first() == view.subrange(i + 1, view.len() as int));
        match record_to_chunk(&records[i]) {
            Some(chunk) => {
                proof {
                    assert(values_of(chunk@) =~= records@[i as int].blocks@);
                }
                let ghost before = out@;
                out.push((records[i].pos, chunk));
                i += 1;
                assert(out@ == before.push((records@[i - 1].pos, chunk)));
                assert(view.subrange(0, i as int) =~= view.subrange(0, i - 1).push(view[i - 1]));
                assert(stored_chunks(out@) =~= stored_chunks(before).push((records@[i - 1].pos, values_of(chunk@))));
            },
            None => {
                return None;
            },
        }
    }
    assert(view.subrange(0, i as int) == view);
    Some(out)
}

/// Converts stored two-byte block ids to chunks; fails on the first chunk whose block count
/// is not `CHUNK_VOLUME`.
pub(crate) fn legacy_blocks_to_chunks_u16(records: &Vec<ChunkRecord>) -> (r: Result<Vec<(ChunkPos, ChunkData)>, String>)
    ensures
        match first_wrong_length(records@.map_values(|c: ChunkRecord| c@)) {
            Some(bad) => r is Err && r->Err_0@ == chunk_length_message(bad.0, bad.1),
            None => r is Ok && (forall|i: int| 0 <= i < r->Ok_0@.len() ==> (#[trigger] r->Ok_0@[i]).1.wf())
                && stored_chunks(r->Ok_0@) == records@.map_values(|c: ChunkRecord| c@),
        },
{
    let ghost view = records@.map_values(|c: ChunkRecord| c@);
    let mut out: Vec<(ChunkPos, ChunkData)> = Vec::new();
    let mut i: usize = 0;
    assert(view.subrange(0, view.len() as int) =~= view);
    assert(stored_chunks(out@) =~= view.subrange(0, 0));
    while i < records.len()
        invariant
            i <= records@.len(),
            view == records@.map_values(|c: ChunkRecord| c@),
            first_wrong_length(view) == first_wrong_length(view.subrange(i as int, view.len() as int)),
            forall|k: int| 0 <= k < out@.len() ==> (#[trigger] out@[k]).1.wf(),
            stored_chunks(out@) == view.subrange(0, i as int),
        decreases records@.len() - i,
    {
        let ghost rest = view.subrange(i as int, view.len() as int);
        assert(rest[0] == records@[i as int]@);
        assert(rest.drop_first() == view.subrange(i + 1, view.len() as int));
        let (pos, chunk) = legacy_blocks_to_chunk(records[i].pos, &records[i].blocks)?;
        proof {
            assert(values_of(chunk@) =~= records@[i as int].blocks@);
        }
        let ghost before = out@;
        out.push((pos, chunk));
        i += 1;
        assert(out@ == before.push((pos, chunk)));
        assert(view.subrange(0, i as int) =~= view.subrange(0, i - 1).push(view[i - 1]));
        assert(stored_chunks(out@) =~= stored_chunks(before).push((pos, values_of(chunk@))));
    }
    assert(view.subrange(0, i as int) == view);
    Ok(out)
}

/// Converts stored one-byte block ids to chunks; fails on the first chunk whose block count
/// is not `CHUNK_VOLUME`.
fn legacy_blocks_to_chunks_u8(records: &Vec<LegacyChunkRecord>) -> (r: Result<Vec<(ChunkPos, ChunkData)>, String>)
    ensures
        match first_wrong_length(records@.map_values(|c: LegacyChunkRecord| c@)) {
            Some(bad) => r is Err && r->Err_0@ == chunk_length_message(bad.0, bad.1),
            None => r is Ok && (forall|i: int| 0 <= i < r->Ok_0@.len() ==> (#[trigger] r->Ok_0@[i]).1.wf())
                && stored_chunks(r->Ok_0@) == widen(records@.map_values(|c: LegacyChunkRecord| c@)),
        },
{
    let ghost view = records@.map_values(|c: LegacyChunkRecord| c@);
    let mut out: Vec<(ChunkPos, ChunkData)> = Vec::new();
    let mut i: usize = 0;
    assert(view.subrange(0, view.len() as int) =~= view);
    assert(stored_chunks(out@) =~= widen(view.subrange(0, 0)));
    while i < records.len()
        invariant
            i <= records@.len(),
            view == records@.map_values(|c: LegacyChunkRecord| c@),
            first_wrong_length(view) == first_wrong_length(view.subrange(i as int, view.len() as int)),
            forall|k: int| 0 <= k < out@.len() ==> (#[trigger] out@[k]).1.wf(),
            stored_chunks(out@) == widen(view.subrange(0, i as int)),
        decreases records@.len() - i,
    {
        let ghost rest = view.subrange(i as int, view.len() as int);
        assert(rest[0] == records@[i as int]@);
        assert(rest.drop_first() == view.subrange(i + 1, view.len() as int));
        let (pos, chunk) = legacy_u8_blocks_to_chunk(records[i].pos, &records[i].blocks)?;
        proof {
            assert(values_of(chunk@) =~= records@[i as int].blocks@.map_values(|b: u8| b as u16));
        }
        let ghost before = out@;
        out.push((pos, chunk));
        i += 1;
        assert(out@ == before.push((pos, chunk)));
        assert(view.subrange(0, i as int) =~= view.subrange(0, i - 1).push(view[i - 1]));
        assert(widen(view.subrange(0, i as int)) =~= widen(view.subrange(0, i - 1)).push(
            (pos, records@[i - 1].blocks@.map_values(|b: u8| b as u16)),
        ));
        assert(stored_chunks(out@) =~= stored_chunks(before).push((pos, values_of(chunk@))));
    }
    assert(view.subrange(0, i as int) == view);
    Ok(out)
}

fn migrate_region_v1_to_v2(payload: Vec<u8>) -> (r: Result<Vec<u8>, String>)
    ensures
        outcome_view(r) == spec_migrate_v1_to_v2(payload@),
        forall|c: Seq<(ChunkPos, Seq<u16>)>|
            stored_full(c) && payload@ == #[trigger] payload_bytes((1u32, c)) ==> r is Ok && r->Ok_0@
                == payload_bytes((CURRENT_REGION_FORMAT_VERSION, c)),
        forall|c: Seq<(ChunkPos, Seq<u8>)>|
            legacy_full(c) && payload@ == #[trigger] legacy_payload_bytes((1u32, c)) && bincode_payload(payload@)
                is None ==> r is Ok && r->Ok_0@ == payload_bytes((CURRENT_REGION_FORMAT_VERSION, widen(c))),
{
    let decoded = decode_payload(&payload);
    proof {
        assert forall|c: Seq<(ChunkPos, Seq<u8>)>|
            legacy_full(c) && payload@ == #[trigger] legacy_payload_bytes((1u32, c)) implies legacy_payload_fits((1u32, c))
                && legacy_payload_bytes((1u32, c)).is_prefix_of(payload@) && first_wrong_length(c) is None by {
            assert forall|i: int| 0 <= i < c.len() implies #[trigger] c[i].1.len() <= u64::MAX by {
                assert(c[i].1.len() == CHUNK_VOLUME);
            }
            assert(payload@.subrange(0, payload@.len() as int) =~= payload@);
            lemma_full_has_no_wrong(c);
        }
    }
    proof {
        assert forall|c: Seq<(ChunkPos, Seq<u16>)>|
            stored_full(c) && payload@ == #[trigger] payload_bytes((1u32, c)) implies spec_migrate_v1_to_v2(payload@)
                == Ok::<Seq<u8>, Seq<char>>(payload_bytes((CURRENT_REGION_FORMAT_VERSION, c))) by {
            let p: PayloadView = (1u32, c);
            assert(payload_fits(p)) by {
                assert forall|i: int| 0 <= i < p.1.len() implies #[trigger] p.1[i].1.len() <= u64::MAX by {
                    assert(c[i].1.len() == CHUNK_VOLUME);
                }
            }
            assert(payload_bytes(p).is_prefix_of(payload@)) by {
                assert(payload@.subrange(0, payload_bytes(p).len() as int) =~= payload_bytes(p));
            }
            lemma_full_has_no_wrong(c);
        }
    }
    if let Ok(v1) = decoded {
        return migrate_decoded_v1(&v1);
    }
    if let Some(v1) = decode_legacy_payload(&payload) {
        return migrate_decoded_legacy_v1(&v1);
    }
    Err("failed to decode region payload for migration from v1 to v2".to_string())
}

/// Turns a decoded version 1 payload into the bytes of the version 2 payload of its chunks.
pub fn migrate_decoded_v1(payload: &RegionPayload) -> (r: Result<Vec<u8>, String>)
    ensures
        outcome_view(r) == v1_chunks_outcome(payload@.1),
{
    if let Some(chunks) = records_to_chunks(&payload.chunks) {
        return encode_v2(chunks);
    }
    let chunks = legacy_blocks_to_chunks_u16(&payload.chunks)?;
    encode_v2(chunks)
}

/// Turns a decoded one-byte-per-block payload into the bytes of the version 2 payload of its
/// chunks, each block id widened.
pub fn migrate_decoded_legacy_v1(payload: &LegacyRegionPayload) -> (r: Result<Vec<u8>, String>)
    ensures
        outcome_view(r) == legacy_chunks_outcome(payload@.1),
{
    let chunks = legacy_blocks_to_chunks_u8(&payload.chunks)?;
    encode_v2(chunks)
}

/// A chunk from stored two-byte block ids; fails unless there are `CHUNK_VOLUME` of them.
fn legacy_blocks_to_chunk(pos: ChunkPos, blocks: &Vec<u16>) -> (r: Result<(ChunkPos, ChunkData), String>)
    ensures
        blocks@.len() != CHUNK_VOLUME ==> r is Err && r->Err_0@ == chunk_length_message(pos, blocks@.len()),
        blocks@.len() == CHUNK_VOLUME ==> r is Ok && r->Ok_0.0 == pos && r->Ok_0.1.wf()
            && r->Ok_0.1@ == ids_of(blocks@),
{
    if blocks.len() != CHUNK_VOLUME {
        return Err(chunk_length_error(pos, blocks.len()));
    }
    let mut chunk = ChunkData::new_empty();
    let mut index: usize = 0;
    while index < blocks.len()
        invariant
            index <= blocks@.len() == CHUNK_VOLUME,
            chunk.wf(),
            chunk@.len() == CHUNK_VOLUME,
            forall|k: int| 0 <= k < index ==> chunk@[k] == BlockId(#[trigger] blocks@[k]),
        decreases blocks@.len() - index,
    {
        chunk.set_index(index, BlockId(blocks[index]));
        index += 1;
    }
    assert(chunk@ =~= ids_of(blocks@));
    Ok((pos, chunk))
}

/// A chunk from stored one-byte block ids; fails unless there are `CHUNK_VOLUME` of them.
fn legacy_u8_blocks_to_chunk(pos: ChunkPos, blocks: &Vec<u8>) -> (r: Result<(ChunkPos, ChunkData), String>)
    ensures
        blocks@.len() != CHUNK_VOLUME ==> r is Err && r->Err_0@ == chunk_length_message(pos, blocks@.len()),
        blocks@.len() == CHUNK_VOLUME ==> r is Ok && r->Ok_0.0 == pos && r->Ok_0.1.wf()
            && r->Ok_0.1@ == blocks@.map_values(|b: u8| BlockId(b as u16)),
{
    if blocks.len() != CHUNK_VOLUME {
        return Err(chunk_length_error(pos, blocks.len()));
    }
    let mut chunk = ChunkData::new_empty();
    let mut index: usize = 0;
    while index < blocks.len()
        invariant
            index <= blocks@.len() == CHUNK_VOLUME,
            chunk.wf(),
            chunk@.len() == CHUNK_VOLUME,
            forall|k: int| 0 <= k < index ==> chunk@[k] == BlockId(#[trigger] blocks@[k] as u16),
        decreases blocks@.len() - index,
    {
        chunk.set_index(index, BlockId(blocks[index] as u16));
        index += 1;
    }
    assert(chunk@ =~= blocks@.map_values(|b: u8| BlockId(b as u16)));
    Ok((pos, chunk))
}

/// Writes the chunks as a current-version payload.
fn encode_v2(chunks: Vec<(ChunkPos, ChunkData)>) -> (r: Result<Vec<u8>, String>)
    ensures
        r is Ok && r->Ok_0@ == payload_bytes((CURRENT_REGION_FORMAT_VERSION, stored_chunks(chunks@))),
{
    let mut records: Vec<ChunkRecord> = Vec::new();
    let mut i: usize = 0;
    assert(records@.map_values(|c: ChunkRecord| c@) =~= stored_chunks(chunks@.subrange(0, 0)));
    while i < chunks.len()
        invariant
            i <= chunks@.len(),
            records@.map_values(|c: ChunkRecord| c@) == stored_chunks(chunks@.subrange(0, i as int)),
        decreases chunks@.len() - i,
    {
        let ghost before = records@;
        let rec = chunk_to_record(chunks[i].0, &chunks[i].1);
        records.push(rec);
        i += 1;
        assert(records@ == before.push(rec));
        assert(chunks@.subrange(0, i as int) =~= chunks@.subrange(0, i - 1).push(chunks@[i - 1]));
        assert(records@.map_values(|c: ChunkRecord| c@) =~= before.map_values(|c: ChunkRecord| c@).push(rec@));
        assert(stored_chunks(chunks@.subrange(0, i as int)) =~= stored_chunks(chunks@.subrange(0, i - 1)).push(rec@));
    }
    assert(chunks@.subrange(0, i as int) == chunks@);
    let v2 = RegionPayload { format_version: CURRENT_REGION_FORMAT_VERSION, chunks: records };
    Ok(encode_payload(&v2))
}

} // verus!
