//! The byte layout of region payloads (bincode's default fixed-width little-endian layout)
//! and the calls into bincode that read and write them.

use vstd::prelude::*;
use vstd::bytes::{spec_u16_to_le_bytes, spec_u64_to_le_bytes};
use crate::coords::{ChunkPos, CHUNK_VOLUME};
use crate::chunk::{BlockId, ChunkData};

verus! {

#[verifier::external_type_specification]
#[verifier::external_body]
pub struct ExBincodeErrorKind(bincode::ErrorKind);

/// A chunk as a region payload stores it: its position and its block ids in index order.
#[derive(Clone, Debug)]
pub struct ChunkRecord {
    pub pos: ChunkPos,
    pub blocks: Vec<u16>,
}

/// A chunk as the oldest region payloads stored it, with one byte per block.
#[derive(Clone, Debug)]
pub struct LegacyChunkRecord {
    pub pos: ChunkPos,
    pub blocks: Vec<u8>,
}

/// A region payload: the format version, then the chunks.
#[derive(Clone, Debug)]
pub struct RegionPayload {
    pub format_version: u32,
    pub chunks: Vec<ChunkRecord>,
}

/// A region payload of the oldest layout, with one byte per block.
#[derive(Clone, Debug)]
pub struct LegacyRegionPayload {
    pub format_version: u32,
    pub chunks: Vec<LegacyChunkRecord>,
}

/// Contents of a payload: the version and each chunk's position and block ids.
pub type PayloadView = (u32, Seq<(ChunkPos, Seq<u16>)>);

/// Contents of a legacy payload.
pub type LegacyPayloadView = (u32, Seq<(ChunkPos, Seq<u8>)>);

impl View for ChunkRecord {
    type V = (ChunkPos, Seq<u16>);

    open spec fn view(&self) -> (ChunkPos, Seq<u16>) {
        (self.pos, self.blocks@)
    }
}

impl View for LegacyChunkRecord {
    type V = (ChunkPos, Seq<u8>);

    open spec fn view(&self) -> (ChunkPos, Seq<u8>) {
        (self.pos, self.blocks@)
    }
}

impl View for RegionPayload {
    type V = PayloadView;

    open spec fn view(&self) -> PayloadView {
        (self.format_version, self.chunks@.map_values(|c: ChunkRecord| c@))
    }
}

impl View for LegacyRegionPayload {
    type V = LegacyPayloadView;

    open spec fn view(&self) -> LegacyPayloadView {
        (self.format_version, self.chunks@.map_values(|c: LegacyChunkRecord| c@))
    }
}

/// Little-endian bytes of each value in turn.
pub open spec fn u16s_bytes(s: Seq<u16>) -> Seq<u8>
    decreases s.len(),
{
    if s.len() == 0 {
        Seq::empty()
    } else {
        u16s_bytes(s.drop_last()) + spec_u16_to_le_bytes(s.last())
    }
}

/// A u32 as bincode writes it: four little-endian bytes, the lowest first.
pub open spec fn le_u32_bytes(x: u32) -> Seq<u8> {
    seq![
        (x % 256) as u8,
        (x / 256 % 256) as u8,
        (x / 65536 % 256) as u8,
        (x / 16777216) as u8,
    ]
}

/// The u32 that four little-endian bytes stand for.
pub open spec fn le_u32_value(s: Seq<u8>) -> u32 {
    (s[0] as int + 256 * (s[1] as int) + 65536 * (s[2] as int) + 16777216 * (s[3] as int)) as u32
}

/// Reading back the four bytes of a u32 gives the u32.
pub proof fn lemma_le_u32_round_trip(x: u32)
    ensures
        le_u32_bytes(x).len() == 4,
        le_u32_value(le_u32_bytes(x)) == x,
{
    let b = le_u32_bytes(x);
    let q1 = x / 256;
    let q2 = x / 65536;
    let q3 = x / 16777216;
    assert(x == 256 * q1 + x % 256);
    assert(q1 == 256 * (q1 / 256) + q1 % 256);
    assert(q1 / 256 == q2) by {
        vstd::arithmetic::div_mod::lemma_div_denominator(x as int, 256, 256);
    }
    assert(q2 == 256 * (q2 / 256) + q2 % 256);
    assert(q2 / 256 == q3) by {
        vstd::arithmetic::div_mod::lemma_div_denominator(x as int, 65536, 256);
    }
    assert(q3 < 256);
    assert(b[0] as int == x % 256);
    assert(b[1] as int == q1 % 256);
    assert(b[2] as int == q2 % 256);
    assert(b[3] as int == q3);
}

/// A length as bincode writes it: a little-endian u64.
pub open spec fn len_bytes(n: nat) -> Seq<u8> {
    spec_u64_to_le_bytes(n as u64)
}

/// A chunk position: three little-endian i32 values.
pub open spec fn pos_bytes(p: ChunkPos) -> Seq<u8> {
    le_u32_bytes(p.x as u32) + le_u32_bytes(p.y as u32) + le_u32_bytes(p.z as u32)
}

/// One chunk record: its position, the block count, then each block.
pub open spec fn record_bytes(r: (ChunkPos, Seq<u16>)) -> Seq<u8> {
    pos_bytes(r.0) + len_bytes(r.1.len()) + u16s_bytes(r.1)
}

/// Each record in turn.
pub open spec fn records_bytes(s: Seq<(ChunkPos, Seq<u16>)>) -> Seq<u8>
    decreases s.len(),
{
    if s.len() == 0 {
        Seq::empty()
    } else {
        records_bytes(s.drop_last()) + record_bytes(s.last())
    }
}

/// The bytes of a payload: the version as a little-endian u32, the chunk count as a
/// little-endian u64, then each chunk.
pub open spec fn payload_bytes(p: PayloadView) -> Seq<u8> {
    le_u32_bytes(p.0) + len_bytes(p.1.len()) + records_bytes(p.1)
}

/// Every length in the payload fits the u64 that bincode writes it as.
pub open spec fn payload_fits(p: PayloadView) -> bool {
    &&& p.1.len() <= u64::MAX
    &&& forall|i: int| 0 <= i < p.1.len() ==> #[trigger] p.1[i].1.len() <= u64::MAX
}

/// A legacy chunk record: its position, the block count, then one byte per block.
pub open spec fn legacy_record_bytes(r: (ChunkPos, Seq<u8>)) -> Seq<u8> {
    pos_bytes(r.0) + len_bytes(r.1.len()) + r.1
}

/// Each legacy record in turn.
pub open spec fn legacy_records_bytes(s: Seq<(ChunkPos, Seq<u8>)>) -> Seq<u8>
    decreases s.len(),
{
    if s.len() == 0 {
        Seq::empty()
    } else {
        legacy_records_bytes(s.drop_last()) + legacy_record_bytes(s.last())
    }
}

/// The bytes of a legacy payload: the version as a little-endian u32, the chunk count as a
/// little-endian u64, then each chunk.
pub open spec fn legacy_payload_bytes(q: LegacyPayloadView) -> Seq<u8> {
    le_u32_bytes(q.0) + len_bytes(q.1.len()) + legacy_records_bytes(q.1)
}

/// Every length in the legacy payload fits the u64 that bincode writes it as.
pub open spec fn legacy_payload_fits(q: LegacyPayloadView) -> bool {
    &&& q.1.len() <= u64::MAX
    &&& forall|i: int| 0 <= i < q.1.len() ==> #[trigger] q.1[i].1.len() <= u64::MAX
}

/// The payload that `bincode::deserialize` reads from the front of `bytes`: the one whose
/// bytes the buffer starts with, if there is one.
pub open spec fn bincode_payload(bytes: Seq<u8>) -> Option<PayloadView> {
    if exists|p: PayloadView| payload_fits(p) && #[trigger] payload_bytes(p).is_prefix_of(bytes) {
        Some(choose|p: PayloadView| payload_fits(p) && #[trigger] payload_bytes(p).is_prefix_of(bytes))
    } else {
        None
    }
}

/// The legacy one-byte-per-block payload that `bincode::deserialize` reads from the front of
/// `bytes`: the one whose bytes the buffer starts with, if there is one.
pub open spec fn bincode_legacy_payload(bytes: Seq<u8>) -> Option<LegacyPayloadView> {
    if exists|q: LegacyPayloadView| legacy_payload_fits(q) && #[trigger] legacy_payload_bytes(q).is_prefix_of(
        bytes,
    ) {
        Some(
            choose|q: LegacyPayloadView|
                legacy_payload_fits(q) && #[trigger] legacy_payload_bytes(q).is_prefix_of(bytes),
        )
    } else {
        None
    }
}

/// Calls `bincode::serialize` on the payload, as a version and a vector of
/// (position triple, block vector) pairs. With bincode's default configuration, which has no
/// size limit, integers, tuples and vectors serialize without error, into the fixed-width
/// little-endian layout of `payload_bytes`.
#[verifier::external_body]
fn bincode_serialize_payload(p: &RegionPayload) -> (r: Result<Vec<u8>, Box<bincode::ErrorKind>>)
    ensures
        r is Ok && r->Ok_0@ == payload_bytes(p@),
{
    let plain: (u32, Vec<((i32, i32, i32), &Vec<u16>)>) = (
        p.format_version,
        p.chunks.iter().map(|c| ((c.pos.x, c.pos.y, c.pos.z), &c.blocks)).collect(),
    );
    bincode::serialize(&plain)
}

/// Calls `bincode::deserialize` for a version and a vector of (position triple, u16 vector)
/// pairs. With bincode's default configuration (fixed-width little-endian integers, no size
/// limit, trailing bytes allowed) it reads that layout from the front of the buffer: it
/// succeeds exactly when the buffer starts with the bytes of a payload, gives back that
/// payload, and fails when the bytes run out first.
#[verifier::external_body]
fn bincode_deserialize_payload(bytes: &[u8]) -> (r: Result<RegionPayload, Box<bincode::ErrorKind>>)
    ensures
        r is Ok <==> bincode_payload(bytes@) is Some,
        r is Ok ==> r->Ok_0@ == bincode_payload(bytes@)->Some_0,
        forall|p: PayloadView|
            payload_fits(p) && #[trigger] payload_bytes(p).is_prefix_of(bytes@) ==> r is Ok
                && r->Ok_0@ == p,
{
    let plain: (u32, Vec<((i32, i32, i32), Vec<u16>)>) = bincode::deserialize(bytes)?;
    Ok(RegionPayload {
        format_version: plain.0,
        chunks: plain.1.into_iter().map(|((x, y, z), blocks)| ChunkRecord { pos: ChunkPos { x, y, z }, blocks }).collect(),
    })
}

/// Calls `bincode::deserialize` for a version and a vector of (position triple, u8 vector)
/// pairs: it succeeds exactly when the buffer starts with the bytes of such a payload, and
/// gives back that payload.
#[verifier::external_body]
fn bincode_deserialize_legacy_payload(bytes: &[u8]) -> (r: Result<LegacyRegionPayload, Box<bincode::ErrorKind>>)
    ensures
        r is Ok <==> bincode_legacy_payload(bytes@) is Some,
        r is Ok ==> r->Ok_0@ == bincode_legacy_payload(bytes@)->Some_0,
        forall|q: LegacyPayloadView|
            legacy_payload_fits(q) && #[trigger] legacy_payload_bytes(q).is_prefix_of(bytes@) ==> r is Ok
                && r->Ok_0@ == q,
{
    let plain: (u32, Vec<((i32, i32, i32), Vec<u8>)>) = bincode::deserialize(bytes)?;
    Ok(LegacyRegionPayload {
        format_version: plain.0,
        chunks: plain.1.into_iter().map(|((x, y, z), blocks)| LegacyChunkRecord { pos: ChunkPos { x, y, z }, blocks }).collect(),
    })
}

/// Calls `bincode::deserialize_from` for a `u32` on the front of the buffer: it reads four
/// little-endian bytes and fails when there are fewer.
#[verifier::external_body]
fn bincode_deserialize_u32_prefix(bytes: &[u8]) -> (r: Result<u32, Box<bincode::ErrorKind>>)
    ensures
        r is Ok <==> bytes@.len() >= 4,
        r is Ok ==> r->Ok_0 == le_u32_value(bytes@.subrange(0, 4)),
{
    bincode::deserialize_from::<_, u32>(std::io::Cursor::new(bytes))
}

/// Calls the `Display` of `bincode::ErrorKind`.
#[verifier::external_body]
pub(crate) fn bincode_error_text(err: &Box<bincode::ErrorKind>) -> String {
    format!("{err}")
}

/// Encodes a payload.
pub fn encode_payload(p: &RegionPayload) -> (r: Vec<u8>)
    ensures
        r@ == payload_bytes(p@),
{
    match bincode_serialize_payload(p) {
        Ok(v) => v,
        Err(_) => Vec::new(),
    }
}

/// Decodes a payload from the front of the bytes; the error holds bincode's message.
pub fn decode_payload(bytes: &[u8]) -> (r: Result<RegionPayload, String>)
    ensures
        r is Ok <==> bincode_payload(bytes@) is Some,
        r is Ok ==> r->Ok_0@ == bincode_payload(bytes@)->Some_0,
        forall|p: PayloadView|
            payload_fits(p) && #[trigger] payload_bytes(p).is_prefix_of(bytes@) ==> r is Ok
                && r->Ok_0@ == p,
{
    match bincode_deserialize_payload(bytes) {
        Ok(p) => Ok(p),
        Err(e) => Err(bincode_error_text(&e)),
    }
}

/// Decodes a legacy one-byte-per-block payload from the front of the bytes.
pub fn decode_legacy_payload(bytes: &[u8]) -> (r: Option<LegacyRegionPayload>)
    ensures
        r is Some <==> bincode_legacy_payload(bytes@) is Some,
        r is Some ==> r->Some_0@ == bincode_legacy_payload(bytes@)->Some_0,
        forall|q: LegacyPayloadView|
            legacy_payload_fits(q) && #[trigger] legacy_payload_bytes(q).is_prefix_of(bytes@) ==> r is Some
                && r->Some_0@ == q,
{
    match bincode_deserialize_legacy_payload(bytes) {
        Ok(p) => Some(p),
        Err(_) => None,
    }
}

/// Reads the little-endian u32 at the front of the bytes; the error, when there are fewer
/// than four, holds bincode's message.
pub fn decode_version_prefix(bytes: &[u8]) -> (r: Result<u32, String>)
    ensures
        r is Ok <==> bytes@.len() >= 4,
        r is Ok ==> r->Ok_0 == le_u32_value(bytes@.subrange(0, 4)),
{
    match bincode_deserialize_u32_prefix(bytes) {
        Ok(v) => Ok(v),
        Err(e) => Err(bincode_error_text(&e)),
    }
}

/// Block ids of a stored chunk, as `BlockId`s.
pub open spec fn ids_of(s: Seq<u16>) -> Seq<BlockId> {
    s.map_values(|v: u16| BlockId(v))
}

/// Block values of a chunk, as stored.
pub open spec fn values_of(s: Seq<BlockId>) -> Seq<u16> {
    s.map_values(|b: BlockId| b.0)
}

/// Turns a stored chunk into chunk data; `None` unless it holds exactly `CHUNK_VOLUME` blocks.
pub fn record_to_chunk(record: &ChunkRecord) -> (r: Option<ChunkData>)
    ensures
        r is Some <==> record.blocks@.len() == CHUNK_VOLUME,
        r matches Some(c) ==> c.wf() && c@ == ids_of(record.blocks@),
{
    if record.blocks.len() != CHUNK_VOLUME {
        return None;
    }
    let mut blocks: Vec<BlockId> = Vec::new();
    let mut i: usize = 0;
    while i < record.blocks.len()
        invariant
            i <= record.blocks@.len(),
            blocks@ == ids_of(record.blocks@.subrange(0, i as int)),
        decreases record.blocks@.len() - i,
    {
        blocks.push(BlockId(record.blocks[i]));
        i += 1;
        assert(ids_of(record.blocks@.subrange(0, i as int)) =~= ids_of(
            record.blocks@.subrange(0, i - 1),
        ).push(BlockId(record.blocks@[i - 1])));
    }
    assert(record.blocks@.subrange(0, i as int) == record.blocks@);
    ChunkData::from_blocks(blocks)
}

/// Stores a chunk as a record.
pub fn chunk_to_record(pos: ChunkPos, chunk: &ChunkData) -> (r: ChunkRecord)
    ensures
        r@ == (pos, values_of(chunk@)),
{
    let src = chunk.blocks();
    let mut blocks: Vec<u16> = Vec::new();
    let mut i: usize = 0;
    while i < src.len()
        invariant
            i <= src@.len(),
            src@ == chunk@,
            blocks@ == values_of(src@.subrange(0, i as int)),
        decreases src@.len() - i,
    {
        blocks.push(src[i].0);
        i += 1;
        assert(values_of(src@.subrange(0, i as int)) =~= values_of(src@.subrange(0, i - 1)).push(
            src@[i - 1].0,
        ));
    }
    assert(src@.subrange(0, i as int) == src@);
    ChunkRecord { pos, blocks }
}

} // verus!
