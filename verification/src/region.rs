//! Region files: the chunks of one region, held in memory, read from and written to the
//! bytes of a region file.

use vstd::prelude::*;
use vstd::slice::{slice_subrange, slice_to_vec};
use crate::coords::ChunkPos;
use crate::text::{decimal, push_decimal};
use crate::chunk::{BlockId, ChunkData};
use crate::chunk_store::{ChunkStore, map_of, distinct_positions};
use crate::compression::{compress_zstd, decompress_zstd, zstd_decoded, zstd_frame};
use crate::format::{
    RegionPayload, ChunkRecord, bincode_payload, payload_bytes, payload_fits, decode_payload,
    encode_payload, chunk_to_record, ids_of, values_of, le_u32_bytes, le_u32_value,
    lemma_le_u32_round_trip, legacy_payload_bytes,
};
use crate::versioning::{
    migrate_region_payload, spec_migrate, first_wrong_length, legacy_blocks_to_chunks_u16,
    stored_chunks, stored_full, lemma_full_has_no_wrong, legacy_full, widen,
    CURRENT_REGION_FORMAT_VERSION, FORMAT_VERSION,
};

verus! {

/// The first four bytes of every non-empty region file: `VSPR`.
pub const REGION_MAGIC: [u8; 4] = [86u8, 83u8, 80u8, 82u8];

/// Wire version byte of an uncompressed payload.
pub const WIRE_VERSION_UNCOMPRESSED: u8 = 1;

/// Wire version byte of a zstd-compressed payload.
pub const WIRE_VERSION_ZSTD: u8 = 2;

/// The zstd level that `flush` compresses at.
pub const REGION_ZSTD_LEVEL: i32 = 3;

pub open spec fn magic_bytes() -> Seq<u8> {
    seq![86u8, 83u8, 80u8, 82u8]
}

/// Why a region payload could not be read.
#[derive(Debug)]
pub enum PayloadError {
    /// The payload is shorter than its four-byte version prefix; holds bincode's message.
    VersionPrefix(String),
    /// The payload's version could not be migrated to the current one.
    Migration { version: u32, reason: String },
    /// The migrated payload could not be decoded, or one of its chunks is not full.
    Decode(String),
}

/// Why a region file could not be read or written.
#[derive(Debug)]
pub enum RegionError {
    /// The file does not start with `VSPR`.
    InvalidMagic,
    /// The wire version byte is neither 1 nor 2.
    UnsupportedWireVersion(u8),
    /// The zstd payload could not be decompressed; holds zstd's message.
    Decompress(String),
    /// The payload could not be read.
    Payload(PayloadError),
    /// An uncompressed payload could be read neither after its wire byte nor, as in files
    /// written before the wire byte existed, including it.
    Legacy { versioned: PayloadError, legacy: PayloadError },
    /// The payload could not be compressed; holds zstd's message.
    Compress(String),
}

/// The kind of a payload failure, with the migration's message.
pub enum PayloadFailure {
    VersionPrefix,
    Migration(u32, Seq<char>),
    Decode,
}

/// The kind of a region failure.
pub enum RegionFailure {
    InvalidMagic,
    UnsupportedWireVersion(u8),
    Decompress,
    Payload(PayloadFailure),
    Legacy(PayloadFailure, PayloadFailure),
    Compress,
}

pub open spec fn payload_failure(e: PayloadError) -> PayloadFailure {
    match e {
        PayloadError::VersionPrefix(_) => PayloadFailure::VersionPrefix,
        PayloadError::Migration { version, reason } => PayloadFailure::Migration(version, reason@),
        PayloadError::Decode(_) => PayloadFailure::Decode,
    }
}

pub open spec fn region_failure(e: RegionError) -> RegionFailure {
    match e {
        RegionError::InvalidMagic => RegionFailure::InvalidMagic,
        RegionError::UnsupportedWireVersion(w) => RegionFailure::UnsupportedWireVersion(w),
        RegionError::Decompress(_) => RegionFailure::Decompress,
        RegionError::Payload(p) => RegionFailure::Payload(payload_failure(p)),
        RegionError::Legacy { versioned, legacy } => RegionFailure::Legacy(
            payload_failure(versioned),
            payload_failure(legacy),
        ),
        RegionError::Compress(_) => RegionFailure::Compress,
    }
}

/// The message of a payload failure.
pub open spec fn payload_error_text(e: PayloadError) -> Seq<char> {
    match e {
        PayloadError::VersionPrefix(m) => "failed to decode region version prefix: "@ + m@,
        PayloadError::Migration { version, reason } => "failed to migrate region payload from format v"@
            + decimal(version as nat) + ": "@ + reason@,
        PayloadError::Decode(m) => "failed to decode region payload: "@ + m@,
    }
}

/// The message of a region failure.
pub open spec fn region_error_text(e: RegionError) -> Seq<char> {
    match e {
        RegionError::InvalidMagic => "invalid region file magic; expected VSPR"@,
        RegionError::UnsupportedWireVersion(w) => "unsupported region wire format version "@ + decimal(
            w as nat,
        ) + "; expected 1 or 2"@,
        RegionError::Decompress(m) => "failed to decompress region payload: "@ + m@,
        RegionError::Payload(p) => payload_error_text(p),
        RegionError::Legacy { versioned, legacy } => "failed to decode region payload (versioned: "@
            + payload_error_text(versioned) + "; legacy: "@ + payload_error_text(legacy) + ")"@,
        RegionError::Compress(m) => "failed to compress region payload: "@ + m@,
    }
}

impl PayloadError {
    /// The message of the failure.
    pub fn message(&self) -> (r: String)
        ensures
            r@ == payload_error_text(*self),
    {
        let mut s = String::new();
        match self {
            PayloadError::VersionPrefix(m) => {
                s.push_str("failed to decode region version prefix: ");
                s.push_str(m.as_str());
            },
            PayloadError::Migration { version, reason } => {
                s.push_str("failed to migrate region payload from format v");
                push_decimal(&mut s, *version as u64);
                s.push_str(": ");
                s.push_str(reason.as_str());
            },
            PayloadError::Decode(m) => {
                s.push_str("failed to decode region payload: ");
                s.push_str(m.as_str());
            },
        }
        assert(s@ =~= payload_error_text(*self));
        s
    }
}

impl RegionError {
    /// The message of the failure.
    pub fn message(&self) -> (r: String)
        ensures
            r@ == region_error_text(*self),
    {
        let mut s = String::new();
        match self {
            RegionError::InvalidMagic => {
                s.push_str("invalid region file magic; expected VSPR");
            },
            RegionError::UnsupportedWireVersion(w) => {
                s.push_str("unsupported region wire format version ");
                push_decimal(&mut s, *w as u64);
                s.push_str("; expected 1 or 2");
            },
            RegionError::Decompress(m) => {
                s.push_str("failed to decompress region payload: ");
                s.push_str(m.as_str());
            },
            RegionError::Payload(p) => {
                let t = p.message();
                s.push_str(t.as_str());
            },
            RegionError::Legacy { versioned, legacy } => {
                s.push_str("failed to decode region payload (versioned: ");
                let a = versioned.message();
                s.push_str(a.as_str());
                s.push_str("; legacy: ");
                let b = legacy.message();
                s.push_str(b.as_str());
                s.push_str(")");
            },
            RegionError::Compress(m) => {
                s.push_str("failed to compress region payload: ");
                s.push_str(m.as_str());
            },
        }
        assert(s@ =~= region_error_text(*self));
        s
    }
}

/// Reading a payload: its version prefix, the migration to the current version, then the
/// chunks, each of which must be full.
pub open spec fn spec_read_payload(payload: Seq<u8>) -> Result<Seq<(ChunkPos, Seq<u16>)>, PayloadFailure> {
    if payload.len() < 4 {
        Err(PayloadFailure::VersionPrefix)
    } else {
        let version = le_u32_value(payload.subrange(0, 4));
        match spec_migrate(version, payload) {
            Err(reason) => Err(PayloadFailure::Migration(version, reason)),
            Ok(migrated) => match bincode_payload(migrated) {
                None => Err(PayloadFailure::Decode),
                Some(p) => if first_wrong_length(p.1) is Some {
                    Err(PayloadFailure::Decode)
                } else {
                    Ok(p.1)
                },
            },
        }
    }
}

/// Reading the contents of a region file (`None` when there is no file).
pub open spec fn spec_open(contents: Option<Seq<u8>>) -> Result<Seq<(ChunkPos, Seq<u16>)>, RegionFailure> {
    match contents {
        None => Ok(Seq::empty()),
        Some(bytes) => if bytes.len() == 0 {
            Ok(Seq::empty())
        } else if bytes.len() < 4 || bytes.subrange(0, 4) != magic_bytes() {
            Err(RegionFailure::InvalidMagic)
        } else {
            let payload = bytes.subrange(4, bytes.len() as int);
            if payload.len() == 0 {
                Ok(Seq::empty())
            } else {
                let wire = payload[0];
                let rest = payload.subrange(1, payload.len() as int);
                if wire == WIRE_VERSION_UNCOMPRESSED {
                    match spec_read_payload(rest) {
                        Ok(c) => Ok(c),
                        Err(versioned) => match spec_read_payload(payload) {
                            Ok(c) => Ok(c),
                            Err(legacy) => Err(RegionFailure::Legacy(versioned, legacy)),
                        },
                    }
                } else if wire == WIRE_VERSION_ZSTD {
                    match zstd_decoded(rest) {
                        None => Err(RegionFailure::Decompress),
                        Some(d) => match spec_read_payload(d) {
                            Ok(c) => Ok(c),
                            Err(f) => Err(RegionFailure::Payload(f)),
                        },
                    }
                } else {
                    Err(RegionFailure::UnsupportedWireVersion(wire))
                }
            }
        },
    }
}

/// The bytes of a region file that `flush` writes for the given stored chunks.
pub open spec fn region_file_bytes(chunks: Seq<(ChunkPos, Seq<u16>)>) -> Seq<u8> {
    magic_bytes() + seq![WIRE_VERSION_ZSTD] + zstd_frame(
        payload_bytes((FORMAT_VERSION, chunks)),
        REGION_ZSTD_LEVEL,
    )
}

/// Stored chunks with their block ids as `BlockId`s.
pub open spec fn id_chunks(s: Seq<(ChunkPos, Seq<u16>)>) -> Seq<(ChunkPos, Seq<BlockId>)> {
    s.map_values(|c: (ChunkPos, Seq<u16>)| (c.0, ids_of(c.1)))
}


/// Chunks with their blocks as stored values.
pub open spec fn stored_of(s: Seq<(ChunkPos, Seq<BlockId>)>) -> Seq<(ChunkPos, Seq<u16>)> {
    s.map_values(|c: (ChunkPos, Seq<BlockId>)| (c.0, values_of(c.1)))
}

proof fn lemma_region_file_bytes_shape()
    ensures
        forall|c: Seq<(ChunkPos, Seq<u16>)>|
            {
                let b = #[trigger] region_file_bytes(c);
                &&& b.len() >= 5
                &&& b.subrange(0, 4) == magic_bytes()
                &&& b.subrange(4, b.len() as int)[0] == WIRE_VERSION_ZSTD
                &&& b.subrange(4, b.len() as int).subrange(1, b.len() - 4) == zstd_frame(
                    payload_bytes((FORMAT_VERSION, c)),
                    REGION_ZSTD_LEVEL,
                )
            },
{
    assert forall|c: Seq<(ChunkPos, Seq<u16>)>|
        {
            let b = #[trigger] region_file_bytes(c);
            &&& b.len() >= 5
            &&& b.subrange(0, 4) == magic_bytes()
            &&& b.subrange(4, b.len() as int)[0] == WIRE_VERSION_ZSTD
            &&& b.subrange(4, b.len() as int).subrange(1, b.len() - 4) == zstd_frame(
                payload_bytes((FORMAT_VERSION, c)),
                REGION_ZSTD_LEVEL,
            )
        } by {
        let b = region_file_bytes(c);
        let z = zstd_frame(payload_bytes((FORMAT_VERSION, c)), REGION_ZSTD_LEVEL);
        assert(b == magic_bytes() + seq![WIRE_VERSION_ZSTD] + z);
        assert(b.subrange(0, 4) =~= magic_bytes());
        assert(b.subrange(4, b.len() as int).subrange(1, b.len() - 4) =~= z);
    }
}

/// Bytes after the magic: the file is the magic, then those bytes; and where the first of
/// them is a wire byte, the rest follows it.
proof fn lemma_after_magic()
    ensures
        forall|x: Seq<u8>|
            {
                let b = #[trigger] (magic_bytes() + x);
                &&& b.len() == x.len() + 4
                &&& b.subrange(0, 4) == magic_bytes()
                &&& b.subrange(4, b.len() as int) == x
            },
        forall|w: u8, x: Seq<u8>|
            {
                let b = #[trigger] (magic_bytes() + seq![w] + x);
                &&& b.len() == x.len() + 5
                &&& b.subrange(0, 4) == magic_bytes()
                &&& b.subrange(4, b.len() as int)[0] == w
                &&& b.subrange(4, b.len() as int).subrange(1, x.len() + 1int) == x
            },
{
    assert forall|x: Seq<u8>|
        {
            let b = #[trigger] (magic_bytes() + x);
            &&& b.len() == x.len() + 4
            &&& b.subrange(0, 4) == magic_bytes()
            &&& b.subrange(4, b.len() as int) == x
        } by {
        let b = magic_bytes() + x;
        assert(b.subrange(0, 4) =~= magic_bytes());
        assert(b.subrange(4, b.len() as int) =~= x);
    }
    assert forall|w: u8, x: Seq<u8>|
        {
            let b = #[trigger] (magic_bytes() + seq![w] + x);
            &&& b.len() == x.len() + 5
            &&& b.subrange(0, 4) == magic_bytes()
            &&& b.subrange(4, b.len() as int)[0] == w
            &&& b.subrange(4, b.len() as int).subrange(1, x.len() + 1int) == x
        } by {
        let b = magic_bytes() + seq![w] + x;
        assert(b.subrange(0, 4) =~= magic_bytes());
        assert(b.subrange(4, b.len() as int).subrange(1, x.len() + 1int) =~= x);
    }
}

/// A version 1 payload written without a wire byte in front: its first byte, the low byte of
/// its version, reads as the uncompressed wire version, and what follows that byte does not
/// read as a payload of a known version.
proof fn lemma_pre_wire_payload_shape()
    ensures
        forall|c: Seq<(ChunkPos, Seq<u8>)>|
            {
                let q = #[trigger] legacy_payload_bytes((1u32, c));
                &&& q.len() > 0
                &&& q[0] == WIRE_VERSION_UNCOMPRESSED
                &&& spec_read_payload(q.subrange(1, q.len() as int)) is Err
            },
{
    assert forall|c: Seq<(ChunkPos, Seq<u8>)>|
        {
            let q = #[trigger] legacy_payload_bytes((1u32, c));
            &&& q.len() > 0
            &&& q[0] == WIRE_VERSION_UNCOMPRESSED
            &&& spec_read_payload(q.subrange(1, q.len() as int)) is Err
        } by {
        let q = legacy_payload_bytes((1u32, c));
        lemma_le_u32_round_trip(1u32);
        assert(q.subrange(0, 4) =~= le_u32_bytes(1u32));
        assert(q[0] == q.subrange(0, 4)[0]);
        let rest = q.subrange(1, q.len() as int);
        if rest.len() >= 4 {
            let v = le_u32_value(rest.subrange(0, 4));
            assert(rest[0] == q.subrange(0, 4)[1]);
            assert(rest[1] == q.subrange(0, 4)[2]);
            assert(rest[2] == q.subrange(0, 4)[3]);
            assert(v == 16777216 * (rest[3] as int));
            assert(v == 0 || v > CURRENT_REGION_FORMAT_VERSION);
        }
    }
}

/// What reading a payload of the current version gives: the chunks it was written from.
proof fn lemma_read_own_payload(c: Seq<(ChunkPos, Seq<u16>)>)
    requires
        stored_full(c),
    ensures
        payload_bytes((FORMAT_VERSION, c)).len() >= 4,
        le_u32_value(payload_bytes((FORMAT_VERSION, c)).subrange(0, 4)) == FORMAT_VERSION,
        payload_fits((FORMAT_VERSION, c)),
        first_wrong_length(c) is None,
{
    let b = payload_bytes((FORMAT_VERSION, c));
    lemma_le_u32_round_trip(FORMAT_VERSION);
    assert(b.subrange(0, 4) =~= le_u32_bytes(FORMAT_VERSION));
    lemma_full_has_no_wrong(c);
}

/// The chunks of one region, by position, with the path of their file.
pub struct RegionFile {
    path: String,
    store: ChunkStore,
}

impl View for RegionFile {
    type V = Map<ChunkPos, Seq<BlockId>>;

    closed spec fn view(&self) -> Map<ChunkPos, Seq<BlockId>> {
        self.store@
    }
}

impl RegionFile {
    /// The chunks with their blocks, in the order they are held and written.
    pub closed spec fn entries(&self) -> Seq<(ChunkPos, Seq<BlockId>)> {
        self.store.entries()
    }

    /// Positions are distinct and every chunk is full.
    pub closed spec fn wf(&self) -> bool {
        self.store.wf()
    }

    pub closed spec fn spec_path(&self) -> Seq<char> {
        self.path@
    }

    /// The region's chunks are those its entries list, each full and at its own position.
    pub proof fn lemma_wf(&self)
        requires
            self.wf(),
        ensures
            self@ == map_of(self.entries()),
            distinct_positions(self.entries()),
            self@.dom().finite(),
            self@.dom().len() == self.entries().len(),
            self.entries().len() <= usize::MAX,
            forall|i: int| 0 <= i < self.entries().len() ==> (#[trigger] self.entries()[i]).1.len() == crate::coords::CHUNK_VOLUME,
    {
        self.store.lemma_wf();
    }

    /// The path of the region's file.
    pub fn path(&self) -> (p: &String)
        ensures
            p@ == self.spec_path(),
    {
        &self.path
    }

    /// Stores a chunk at a position, replacing the chunk held there.
    pub fn save_chunk(&mut self, pos: ChunkPos, chunk: &ChunkData)
        requires
            old(self).wf(),
            chunk.wf(),
        ensures
            final(self).wf(),
            final(self)@ == old(self)@.insert(pos, chunk@),
            final(self).spec_path() == old(self).spec_path(),
    {
        self.store.save_chunk(pos, chunk);
    }

    /// The chunk held at a position.
    pub fn load_chunk(&self, pos: ChunkPos) -> (r: Option<ChunkData>)
        requires
            self.wf(),
        ensures
            r is Some <==> self@.dom().contains(pos),
            r matches Some(c) ==> c.wf() && c@ == self@[pos],
    {
        self.store.load_chunk(pos)
    }

    /// The number of chunks held.
    pub fn chunk_count(&self) -> (n: usize)
        requires
            self.wf(),
        ensures
            n == self@.dom().len(),
    {
        self.store.chunk_count()
    }

    /// The positions of the chunks held, each once.
    pub fn chunk_positions(&self) -> (r: Vec<ChunkPos>)
        requires
            self.wf(),
        ensures
            r@.no_duplicates(),
            r@.len() == self@.dom().len(),
            forall|p: ChunkPos| r@.contains(p) <==> self@.dom().contains(p),
    {
        self.store.chunk_positions()
    }
}


/// Contents of an optional file, as bytes.
pub open spec fn contents_view(contents: Option<Vec<u8>>) -> Option<Seq<u8>> {
    match contents {
        Some(v) => Some(v@),
        None => None,
    }
}

/// Reads the chunks of a payload whose version is current.
fn decode_region_disk(payload: &[u8]) -> (r: Result<Vec<(ChunkPos, ChunkData)>, PayloadError>)
    ensures
        match bincode_payload(payload@) {
            None => r is Err && payload_failure(r->Err_0) == PayloadFailure::Decode,
            Some(p) => if first_wrong_length(p.1) is Some {
                r is Err && payload_failure(r->Err_0) == PayloadFailure::Decode
            } else {
                r is Ok && (forall|i: int| 0 <= i < r->Ok_0@.len() ==> (#[trigger] r->Ok_0@[i]).1.wf())
                    && stored_chunks(r->Ok_0@) == p.1
            },
        },
        forall|p: crate::format::PayloadView|
            payload_fits(p) && #[trigger] payload_bytes(p).is_prefix_of(payload@) ==> bincode_payload(payload@) == Some(p),
{
    let disk = match decode_payload(payload) {
        Ok(d) => d,
        Err(text) => return Err(PayloadError::Decode(text)),
    };
    let _ = disk.format_version;
    match legacy_blocks_to_chunks_u16(&disk.chunks) {
        Ok(chunks) => Ok(chunks),
        Err(text) => Err(PayloadError::Decode(text)),
    }
}

/// Reads a payload: its version prefix, its migration to the current version, then its chunks.
fn decode_region_disk_with_migration(payload: &[u8]) -> (r: Result<Vec<(ChunkPos, ChunkData)>, PayloadError>)
    ensures
        match spec_read_payload(payload@) {
            Ok(c) => r is Ok && (forall|i: int| 0 <= i < r->Ok_0@.len() ==> (#[trigger] r->Ok_0@[i]).1.wf())
                && stored_chunks(r->Ok_0@) == c,
            Err(f) => r is Err && payload_failure(r->Err_0) == f,
        },
        forall|c: Seq<(ChunkPos, Seq<u16>)>|
            stored_full(c) && payload@ == #[trigger] payload_bytes((FORMAT_VERSION, c))
                ==> spec_read_payload(payload@) == Ok::<Seq<(ChunkPos, Seq<u16>)>, PayloadFailure>(c),
        forall|c: Seq<(ChunkPos, Seq<u16>)>|
            stored_full(c) && payload@ == #[trigger] payload_bytes((1u32, c))
                ==> spec_read_payload(payload@) == Ok::<Seq<(ChunkPos, Seq<u16>)>, PayloadFailure>(c),
        forall|c: Seq<(ChunkPos, Seq<u8>)>|
            legacy_full(c) && payload@ == #[trigger] legacy_payload_bytes((1u32, c)) && bincode_payload(
                payload@,
            ) is None ==> spec_read_payload(payload@) == Ok::<Seq<(ChunkPos, Seq<u16>)>, PayloadFailure>(
                widen(c),
            ),
{
    proof {
        assert forall|c: Seq<(ChunkPos, Seq<u8>)>|
            legacy_full(c) && payload@ == #[trigger] legacy_payload_bytes((1u32, c)) implies payload@.len() >= 4
                && le_u32_value(payload@.subrange(0, 4)) == 1 by {
            lemma_le_u32_round_trip(1u32);
            assert(payload@.subrange(0, 4) =~= le_u32_bytes(1u32));
        }
        assert forall|c: Seq<(ChunkPos, Seq<u16>)>|
            stored_full(c) && payload@ == #[trigger] payload_bytes((1u32, c)) implies payload@.len() >= 4
                && le_u32_value(payload@.subrange(0, 4)) == 1 by {
            lemma_le_u32_round_trip(1u32);
            assert(payload@.subrange(0, 4) =~= le_u32_bytes(1u32));
        }
    }
    let source_version = match crate::format::decode_version_prefix(payload) {
        Ok(v) => v,
        Err(text) => {
            proof {
                assert forall|c: Seq<(ChunkPos, Seq<u16>)>|
                    stored_full(c) && payload@ == #[trigger] payload_bytes((FORMAT_VERSION, c))
                    implies false by {
                    lemma_read_own_payload(c);
                }
            }
            return Err(PayloadError::VersionPrefix(text));
        },
    };
    let migrated = match migrate_region_payload(source_version, slice_to_vec(payload)) {
        Ok(m) => m,
        Err(reason) => {
            proof {
                assert forall|c: Seq<(ChunkPos, Seq<u16>)>|
                    stored_full(c) && payload@ == #[trigger] payload_bytes((FORMAT_VERSION, c))
                    implies false by {
                    lemma_read_own_payload(c);
                }
            }
            return Err(PayloadError::Migration { version: source_version, reason });
        },
    };
    let r = decode_region_disk(migrated.as_slice());
    proof {
        assert forall|c: Seq<(ChunkPos, Seq<u16>)>|
            stored_full(c) && payload@ == #[trigger] payload_bytes((FORMAT_VERSION, c))
            implies spec_read_payload(payload@) == Ok::<Seq<(ChunkPos, Seq<u16>)>, PayloadFailure>(c) by {
            lemma_read_own_payload(c);
            assert(migrated@ == payload@);
            let p = (FORMAT_VERSION, c);
            assert(payload_bytes(p).is_prefix_of(migrated@));
        }
        assert forall|c: Seq<(ChunkPos, Seq<u8>)>|
            legacy_full(c) && payload@ == #[trigger] legacy_payload_bytes((1u32, c)) && bincode_payload(
                payload@,
            ) is None implies spec_read_payload(payload@) == Ok::<Seq<(ChunkPos, Seq<u16>)>, PayloadFailure>(
            widen(c),
        ) by {
            let w = widen(c);
            let p = (CURRENT_REGION_FORMAT_VERSION, w);
            assert(migrated@ == payload_bytes(p));
            assert forall|i: int| 0 <= i < w.len() implies (#[trigger] w[i]).1.len() == crate::coords::CHUNK_VOLUME by {
                assert(c[i].1.len() == crate::coords::CHUNK_VOLUME);
            }
            assert(payload_fits(p)) by {
                assert forall|i: int| 0 <= i < p.1.len() implies #[trigger] p.1[i].1.len() <= u64::MAX by {
                    assert(w[i].1.len() == crate::coords::CHUNK_VOLUME);
                }
            }
            assert(payload_bytes(p).is_prefix_of(migrated@)) by {
                assert(migrated@.subrange(0, payload_bytes(p).len() as int) =~= payload_bytes(p));
            }
            lemma_full_has_no_wrong(w);
        }
        assert forall|c: Seq<(ChunkPos, Seq<u16>)>|
            stored_full(c) && payload@ == #[trigger] payload_bytes((1u32, c))
            implies spec_read_payload(payload@) == Ok::<Seq<(ChunkPos, Seq<u16>)>, PayloadFailure>(c) by {
            let p = (CURRENT_REGION_FORMAT_VERSION, c);
            assert(migrated@ == payload_bytes(p));
            assert(payload_fits(p)) by {
                assert forall|i: int| 0 <= i < p.1.len() implies #[trigger] p.1[i].1.len() <= u64::MAX by {
                    assert(c[i].1.len() == crate::coords::CHUNK_VOLUME);
                }
            }
            assert(payload_bytes(p).is_prefix_of(migrated@)) by {
                assert(migrated@.subrange(0, payload_bytes(p).len() as int) =~= payload_bytes(p));
            }
            lemma_full_has_no_wrong(c);
        }
    }
    r
}

/// Builds the region map from chunks in order; a later chunk replaces an earlier one.
fn collect_chunks(path: String, chunks: Vec<(ChunkPos, ChunkData)>) -> (r: RegionFile)
    requires
        forall|i: int| 0 <= i < chunks@.len() ==> (#[trigger] chunks@[i]).1.wf(),
    ensures
        r.wf(),
        r@ == map_of(chunks@.map_values(|c: (ChunkPos, ChunkData)| (c.0, c.1@))),
        r.spec_path() == path@,
{
    let ghost all = chunks@.map_values(|c: (ChunkPos, ChunkData)| (c.0, c.1@));
    let mut region = RegionFile { path, store: ChunkStore::new() };
    let mut i: usize = 0;
    assert(region@ =~= map_of(all.subrange(0, 0)));
    while i < chunks.len()
        invariant
            i <= chunks@.len(),
            forall|k: int| 0 <= k < chunks@.len() ==> (#[trigger] chunks@[k]).1.wf(),
            all == chunks@.map_values(|c: (ChunkPos, ChunkData)| (c.0, c.1@)),
            region.wf(),
            region@ == map_of(all.subrange(0, i as int)),
            region.spec_path() == path@,
        decreases chunks@.len() - i,
    {
        region.save_chunk(chunks[i].0, &chunks[i].1);
        i += 1;
        assert(all.subrange(0, i as int).drop_last() =~= all.subrange(0, i - 1));
    }
    assert(all.subrange(0, i as int) =~= all);
    region
}

/// Blocks of chunks read from a payload, each one whole.
pub open spec fn chunks_whole(chunks: Seq<(ChunkPos, ChunkData)>) -> bool {
    forall|i: int| 0 <= i < chunks.len() ==> (#[trigger] chunks[i]).1.wf()
}

/// Reads the chunks of an uncompressed payload, its wire byte included: first what follows
/// the wire byte, then, as in files written before the wire byte existed, the whole payload.
fn read_uncompressed(payload: &[u8]) -> (r: Result<Vec<(ChunkPos, ChunkData)>, RegionError>)
    requires
        payload@.len() > 0,
        payload@[0] == WIRE_VERSION_UNCOMPRESSED,
    ensures
        match spec_open(Some(magic_bytes() + payload@)) {
            Ok(c) => r is Ok && chunks_whole(r->Ok_0@) && stored_chunks(r->Ok_0@) == c,
            Err(f) => r is Err && region_failure(r->Err_0) == f,
        },
        forall|c: Seq<(ChunkPos, Seq<u8>)>|
            legacy_full(c) && bincode_payload(legacy_payload_bytes((1u32, c))) is None && payload@
                == #[trigger] legacy_payload_bytes((1u32, c)) ==> r is Ok && stored_chunks(r->Ok_0@) == widen(c),
        forall|c: Seq<(ChunkPos, Seq<u16>)>, v: u32|
            (v == 1 || v == FORMAT_VERSION) && stored_full(c) && payload@.subrange(1, payload@.len() as int)
                == #[trigger] payload_bytes((v, c)) ==> r is Ok && stored_chunks(r->Ok_0@) == c,
        forall|c: Seq<(ChunkPos, Seq<u8>)>|
            legacy_full(c) && bincode_payload(legacy_payload_bytes((1u32, c))) is None && payload@.subrange(
                1,
                payload@.len() as int,
            ) == #[trigger] legacy_payload_bytes((1u32, c)) ==> r is Ok && stored_chunks(r->Ok_0@) == widen(c),
{
    proof {
        lemma_after_magic();
        lemma_pre_wire_payload_shape();
    }
    let wire_payload = slice_subrange(payload, 1, payload.len());
    match decode_region_disk_with_migration(wire_payload) {
        Ok(disk) => Ok(disk),
        Err(versioned_err) => match decode_region_disk_with_migration(payload) {
            Ok(disk) => Ok(disk),
            Err(legacy_err) => Err(RegionError::Legacy { versioned: versioned_err, legacy: legacy_err }),
        },
    }
}

/// Reads the chunks of a zstd payload, its wire byte included: decompresses what follows the
/// wire byte and reads the payload that comes out.
fn read_zstd(payload: &[u8]) -> (r: Result<Vec<(ChunkPos, ChunkData)>, RegionError>)
    requires
        payload@.len() > 0,
        payload@[0] == WIRE_VERSION_ZSTD,
    ensures
        match spec_open(Some(magic_bytes() + payload@)) {
            Ok(c) => r is Ok && chunks_whole(r->Ok_0@) && stored_chunks(r->Ok_0@) == c,
            Err(f) => r is Err && region_failure(r->Err_0) == f,
        },
        forall|c: Seq<(ChunkPos, Seq<u16>)>|
            stored_full(c) && payload@.subrange(1, payload@.len() as int) == #[trigger] zstd_frame(
                payload_bytes((FORMAT_VERSION, c)),
                REGION_ZSTD_LEVEL,
            ) ==> r is Ok && stored_chunks(r->Ok_0@) == c,
{
    proof {
        lemma_after_magic();
    }
    let wire_payload = slice_subrange(payload, 1, payload.len());
    let decompress_result = decompress_zstd(wire_payload);
    proof {
        assert forall|c: Seq<(ChunkPos, Seq<u16>)>|
            stored_full(c) && payload@.subrange(1, payload@.len() as int) == #[trigger] zstd_frame(
                payload_bytes((FORMAT_VERSION, c)),
                REGION_ZSTD_LEVEL,
            ) implies decompress_result is Ok && decompress_result->Ok_0@ == payload_bytes((FORMAT_VERSION, c)) by {
            let z = payload_bytes((FORMAT_VERSION, c));
            assert(crate::compression::zstd_level_ok(REGION_ZSTD_LEVEL));
            let src = (z, REGION_ZSTD_LEVEL);
            assert(wire_payload@ == zstd_frame(src.0, src.1));
        }
    }
    let decompressed = match decompress_result {
        Ok(d) => d,
        Err(e) => return Err(RegionError::Decompress(e.message)),
    };
    match decode_region_disk_with_migration(decompressed.as_slice()) {
        Ok(disk) => Ok(disk),
        Err(e) => Err(RegionError::Payload(e)),
    }
}

impl RegionFile {
    /// Reads a region from the contents of its file; `None` means that there is no file, and
    /// a missing or empty file gives an empty region. A file that `flush` wrote reads back to
    /// the chunks it was written from, and a file written before the wire version byte existed
    /// (the magic followed directly by a version 1 payload of one-byte block ids, which does not
    /// also read as two-byte ids) reads as its chunks with their block ids widened.
    pub fn open(path: String, contents: Option<Vec<u8>>) -> (r: Result<RegionFile, RegionError>)
        ensures
            match spec_open(contents_view(contents)) {
                Ok(c) => r is Ok && r->Ok_0.wf() && r->Ok_0@ == map_of(id_chunks(c))
                    && r->Ok_0.spec_path() == path@,
                Err(f) => r is Err && region_failure(r->Err_0) == f,
            },
            forall|c: Seq<(ChunkPos, Seq<u16>)>|
                stored_full(c) && contents_view(contents) == Some(#[trigger] region_file_bytes(c))
                    ==> r is Ok && r->Ok_0@ == map_of(id_chunks(c)),
            forall|c: Seq<(ChunkPos, Seq<u8>)>|
                legacy_full(c) && bincode_payload(legacy_payload_bytes((1u32, c))) is None
                    && contents_view(contents) == Some(magic_bytes() + #[trigger] legacy_payload_bytes((1u32, c)))
                    ==> r is Ok && r->Ok_0@ == map_of(id_chunks(widen(c))),
            forall|c: Seq<(ChunkPos, Seq<u16>)>, v: u32|
                (v == 1 || v == FORMAT_VERSION) && stored_full(c) && contents_view(contents) == Some(
                    magic_bytes() + seq![WIRE_VERSION_UNCOMPRESSED] + #[trigger] payload_bytes((v, c)),
                ) ==> r is Ok && r->Ok_0@ == map_of(id_chunks(c)),
            forall|c: Seq<(ChunkPos, Seq<u8>)>|
                legacy_full(c) && bincode_payload(legacy_payload_bytes((1u32, c))) is None
                    && contents_view(contents) == Some(
                    magic_bytes() + seq![WIRE_VERSION_UNCOMPRESSED] + #[trigger] legacy_payload_bytes((1u32, c)),
                ) ==> r is Ok && r->Ok_0@ == map_of(id_chunks(widen(c))),
            contents is None || contents->Some_0@.len() == 0 || contents->Some_0@ == magic_bytes() ==> r is Ok
                && r->Ok_0@ == Map::<ChunkPos, Seq<BlockId>>::empty(),
            contents is Some && contents->Some_0@.len() > 0 && (contents->Some_0@.len() < 4
                || contents->Some_0@.subrange(0, 4) != magic_bytes()) ==> r is Err && r->Err_0 is InvalidMagic,
            contents is Some && contents->Some_0@.len() > 4 && contents->Some_0@.subrange(0, 4) == magic_bytes()
                && contents->Some_0@[4] != WIRE_VERSION_UNCOMPRESSED && contents->Some_0@[4] != WIRE_VERSION_ZSTD
                ==> r is Err && r->Err_0 == RegionError::UnsupportedWireVersion(contents->Some_0@[4]),
    {
        proof {
            lemma_region_file_bytes_shape();
            lemma_after_magic();
        }
        let bytes = match contents {
            None => {
                let empty = RegionFile { path, store: ChunkStore::new() };
                assert(empty@ =~= Map::<ChunkPos, Seq<BlockId>>::empty());
                return Ok(empty);
            },
            Some(b) => b,
        };
        if bytes.len() == 0 {
            let empty = RegionFile { path, store: ChunkStore::new() };
            assert(empty@ =~= Map::<ChunkPos, Seq<BlockId>>::empty());
            return Ok(empty);
        }
        if bytes.len() < 4 || bytes[0] != REGION_MAGIC[0] || bytes[1] != REGION_MAGIC[1]
            || bytes[2] != REGION_MAGIC[2] || bytes[3] != REGION_MAGIC[3] {
            proof {
                if bytes@.len() >= 4 {
                    assert(bytes@.subrange(0, 4) != magic_bytes()) by {
                        if bytes@.subrange(0, 4) == magic_bytes() {
                            assert(bytes@[0] == bytes@.subrange(0, 4)[0]);
                            assert(bytes@[1] == bytes@.subrange(0, 4)[1]);
                            assert(bytes@[2] == bytes@.subrange(0, 4)[2]);
                            assert(bytes@[3] == bytes@.subrange(0, 4)[3]);
                        }
                    }
                }
            }
            return Err(RegionError::InvalidMagic);
        }
        assert(bytes@.subrange(0, 4) =~= magic_bytes());
        let payload = slice_subrange(bytes.as_slice(), 4, bytes.len());
        assert(bytes@ =~= magic_bytes() + payload@);
        if payload.len() == 0 {
            let empty = RegionFile { path, store: ChunkStore::new() };
            assert(empty@ =~= Map::<ChunkPos, Seq<BlockId>>::empty());
            return Ok(empty);
        }
        assert(bytes@.len() > 4 && bytes@[4] == payload@[0]);
        let wire_version = payload[0];
        let chunks = if wire_version == WIRE_VERSION_UNCOMPRESSED {
            match read_uncompressed(payload) {
                Ok(disk) => disk,
                Err(e) => return Err(e),
            }
        } else if wire_version == WIRE_VERSION_ZSTD {
            match read_zstd(payload) {
                Ok(disk) => disk,
                Err(e) => return Err(e),
            }
        } else {
            return Err(RegionError::UnsupportedWireVersion(wire_version));
        };
        let region = collect_chunks(path, chunks);
        proof {
            assert(id_chunks(stored_chunks(chunks@)) =~= chunks@.map_values(|c: (ChunkPos, ChunkData)| (c.0, c.1@))) by {
                assert forall|k: int| 0 <= k < chunks@.len() implies ids_of(values_of(#[trigger] chunks@[k].1@)) == chunks@[k].1@ by {
                    assert(ids_of(values_of(chunks@[k].1@)) =~= chunks@[k].1@);
                }
            }
        }
        Ok(region)
    }

    /// The bytes of the region's file: `VSPR`, the zstd wire version byte, then the payload
    /// of the current format version, compressed with zstd at level 3.
    pub fn flush(&self) -> (r: Result<Vec<u8>, RegionError>)
        requires
            self.wf(),
        ensures
            r is Ok && r->Ok_0@ == region_file_bytes(stored_of(self.entries())),
    {
        let items = self.store.items();
        let mut records: Vec<ChunkRecord> = Vec::new();
        let mut i: usize = 0;
        let ghost target = stored_of(self.entries());
        assert(records@.map_values(|c: ChunkRecord| c@) =~= target.subrange(0, 0));
        while i < items.len()
            invariant
                i <= items@.len(),
                items@.map_values(|c: (ChunkPos, ChunkData)| (c.0, c.1@)) == self.entries(),
                target == stored_of(self.entries()),
                records@.map_values(|c: ChunkRecord| c@) == target.subrange(0, i as int),
            decreases items@.len() - i,
        {
            let ghost before = records@;
            let rec = chunk_to_record(items[i].0, &items[i].1);
            records.push(rec);
            i += 1;
            assert(records@ == before.push(rec));
            assert(self.entries()[i - 1] == (items@[i - 1].0, items@[i - 1].1@));
            assert(target[i - 1] == rec@);
            assert(target.subrange(0, i as int) =~= target.subrange(0, i - 1).push(target[i - 1]));
            assert(records@.map_values(|c: ChunkRecord| c@) =~= before.map_values(|c: ChunkRecord| c@).push(rec@));
        }
        assert(target.subrange(0, i as int) =~= target);
        let disk = RegionPayload { format_version: FORMAT_VERSION, chunks: records };
        let encoded = encode_payload(&disk);
        let compressed = match compress_zstd(encoded.as_slice(), REGION_ZSTD_LEVEL) {
            Ok(c) => c,
            Err(e) => return Err(RegionError::Compress(e.message)),
        };
        let mut bytes: Vec<u8> = Vec::new();
        bytes.push(REGION_MAGIC[0]);
        bytes.push(REGION_MAGIC[1]);
        bytes.push(REGION_MAGIC[2]);
        bytes.push(REGION_MAGIC[3]);
        bytes.push(WIRE_VERSION_ZSTD);
        let mut k: usize = 0;
        let ghost head = bytes@;
        while k < compressed.len()
            invariant
                k <= compressed@.len(),
                bytes@ == head + compressed@.subrange(0, k as int),
            decreases compressed@.len() - k,
        {
            bytes.push(compressed[k]);
            k += 1;
            assert(bytes@ =~= head + compressed@.subrange(0, k as int));
        }
        assert(bytes@ =~= magic_bytes() + seq![WIRE_VERSION_ZSTD] + compressed@);
        Ok(bytes)
    }
}

/// What `flush` writes is what `open` reads back: the stored chunks of a region are full,
/// fit the payload's lengths, and map back to the region's chunks.
pub proof fn lemma_flush_then_open(region: &RegionFile)
    requires
        region.wf(),
    ensures
        stored_full(stored_of(region.entries())),
        map_of(id_chunks(stored_of(region.entries()))) == region@,
{
    region.lemma_wf();
    let e = region.entries();
    assert forall|k: int| 0 <= k < stored_of(e).len() implies (#[trigger] stored_of(e)[k]).1.len() == crate::coords::CHUNK_VOLUME by {
        assert(e[k].1.len() == crate::coords::CHUNK_VOLUME);
    }
    assert(id_chunks(stored_of(e)) =~= e) by {
        assert forall|k: int| 0 <= k < e.len() implies ids_of(values_of(#[trigger] e[k].1)) == e[k].1 by {
            assert(ids_of(values_of(e[k].1)) =~= e[k].1);
        }
    }
}

} // verus!
