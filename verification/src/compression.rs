//! Whole-buffer compression with zstd and with size-prefixed LZ4.

use vstd::prelude::*;
use vstd::bytes::spec_u32_to_le_bytes;

verus! {

#[verifier::external_type_specification]
#[verifier::external_body]
pub struct ExIoError(std::io::Error);

#[verifier::external_type_specification]
#[verifier::external_body]
pub struct ExDecompressError(lz4_flex::block::DecompressError);

/// The zstd frame that `zstd::stream::encode_all` produces for `input` at compression `level`.
pub uninterp spec fn zstd_frame(input: Seq<u8>, level: i32) -> Seq<u8>;

/// What `zstd::stream::decode_all` decodes from `data`, if it succeeds.
pub uninterp spec fn zstd_decoded(data: Seq<u8>) -> Option<Seq<u8>>;

/// The LZ4 block that `lz4_flex` produces for `input`, without the size prefix.
pub uninterp spec fn lz4_block(input: Seq<u8>) -> Seq<u8>;

/// Levels at which zstd compresses an in-memory buffer without error.
pub open spec fn zstd_level_ok(level: i32) -> bool {
    1 <= level <= 19
}

/// The bytes `compress_lz4` produces: the input length as a little-endian u32, then the block.
pub open spec fn lz4_with_size(input: Seq<u8>) -> Seq<u8> {
    spec_u32_to_le_bytes(input.len() as u32) + lz4_block(input)
}

/// A compression or decompression failure, with the library's message.
#[derive(Debug)]
pub struct CompressionError {
    pub message: String,
}

/// Calls `zstd::stream::encode_all` on the buffer. Reading from a slice and writing into a
/// `Vec` cannot fail, and zstd clamps the level into its range, so the call succeeds and holds
/// the zstd frame of the input at that level.
#[verifier::external_body]
fn zstd_encode_all(data: &[u8], level: i32) -> (r: Result<Vec<u8>, std::io::Error>)
    ensures
        r is Ok && r->Ok_0@ == zstd_frame(data@, level),
{
    zstd::stream::encode_all(data, level)
}

/// Calls `zstd::stream::decode_all` on the buffer; a frame that `encode_all` wrote at a
/// usual level decodes to the bytes it was written from.
#[verifier::external_body]
fn zstd_decode_all(data: &[u8]) -> (r: Result<Vec<u8>, std::io::Error>)
    ensures
        r is Ok <==> zstd_decoded(data@) is Some,
        r is Ok ==> r->Ok_0@ == zstd_decoded(data@)->Some_0,
        forall|src: (Seq<u8>, i32)|
            zstd_level_ok(src.1) && data@ == #[trigger] zstd_frame(src.0, src.1) ==> r is Ok
                && r->Ok_0@ == src.0,
{
    zstd::stream::decode_all(data)
}

/// Calls `lz4_flex::compress_prepend_size`: the input length as a little-endian u32 followed
/// by the LZ4 block of the input.
#[verifier::external_body]
fn lz4_compress_prepend_size(data: &[u8]) -> (r: Vec<u8>)
    ensures
        r@ == spec_u32_to_le_bytes(data@.len() as u32) + lz4_block(data@),
{
    lz4_flex::compress_prepend_size(data)
}

/// The longest run of 0xFF bytes that LZ4 decompression reads safely: a length field adds
/// its bytes into a `u32`, and a run this long or longer could make that sum overflow.
pub const LZ4_FF_RUN_LIMIT: usize = 16_777_216;

/// The `n` bytes of `data` from `i` on are all 0xFF.
pub open spec fn ff_window(data: Seq<u8>, i: int, n: nat) -> bool {
    0 <= i && i + n <= data.len() && forall|j: int| i <= j < i + n ==> #[trigger] data[j] == 0xFFu8
}

/// Somewhere in `data`, `n` bytes in a row are 0xFF.
pub open spec fn has_ff_run(data: Seq<u8>, n: nat) -> bool {
    exists|i: int| #[trigger] ff_window(data, i, n)
}

/// Calls `lz4_flex::decompress_size_prepended`: it fails on fewer than four bytes, and gives
/// back the input of `compress_prepend_size` for any input whose length fits in a u32. A run
/// of `LZ4_FF_RUN_LIMIT` 0xFF bytes could overflow the `u32` in which it sums a length field,
/// so such inputs are left out.
#[verifier::external_body]
fn lz4_decompress_size_prepended(data: &[u8]) -> (r: Result<Vec<u8>, lz4_flex::block::DecompressError>)
    requires
        !has_ff_run(data@, LZ4_FF_RUN_LIMIT as nat),
    ensures
        data@.len() < 4 ==> r is Err,
        forall|orig: Seq<u8>|
            orig.len() <= u32::MAX && data@ == spec_u32_to_le_bytes(orig.len() as u32)
                + #[trigger] lz4_block(orig) ==> r is Ok && r->Ok_0@ == orig,
{
    lz4_flex::decompress_size_prepended(data)
}

/// Calls the `Display` of `std::io::Error`.
#[verifier::external_body]
fn io_error_text(err: &std::io::Error) -> String {
    format!("{err}")
}

/// Calls the `Display` of `lz4_flex::block::DecompressError`.
#[verifier::external_body]
fn lz4_error_text(err: &lz4_flex::block::DecompressError) -> String {
    format!("{err}")
}

/// The error for a buffer whose 0xFF run is too long to decompress safely.
fn lz4_run_too_long() -> (r: CompressionError) {
    let mut message = String::new();
    message.push_str("lz4 input holds a run of 0xFF bytes too long to decompress");
    CompressionError { message }
}

/// Compresses the buffer into one zstd frame at the given level.
pub fn compress_zstd(data: &[u8], level: i32) -> (r: Result<Vec<u8>, CompressionError>)
    ensures
        r is Ok && r->Ok_0@ == zstd_frame(data@, level),
{
    match zstd_encode_all(data, level) {
        Ok(v) => Ok(v),
        Err(e) => Err(CompressionError { message: io_error_text(&e) }),
    }
}

/// Decompresses zstd frames; the output of `compress_zstd` at a usual level comes back whole.
pub fn decompress_zstd(data: &[u8]) -> (r: Result<Vec<u8>, CompressionError>)
    ensures
        r is Ok <==> zstd_decoded(data@) is Some,
        r is Ok ==> r->Ok_0@ == zstd_decoded(data@)->Some_0,
        forall|src: (Seq<u8>, i32)|
            zstd_level_ok(src.1) && data@ == #[trigger] zstd_frame(src.0, src.1) ==> r is Ok
                && r->Ok_0@ == src.0,
{
    match zstd_decode_all(data) {
        Ok(v) => Ok(v),
        Err(e) => Err(CompressionError { message: io_error_text(&e) }),
    }
}

/// Compresses the buffer with LZ4, prefixed by its length as a little-endian u32.
pub fn compress_lz4(data: &[u8]) -> (r: Vec<u8>)
    ensures
        r@ == lz4_with_size(data@),
        r@.subrange(0, 4) == spec_u32_to_le_bytes(data@.len() as u32),
{
    let r = lz4_compress_prepend_size(data);
    proof {
        vstd::bytes::lemma_auto_spec_u32_to_from_le_bytes();
        assert(r@.subrange(0, 4) == spec_u32_to_le_bytes(data@.len() as u32));
    }
    r
}

/// Whether some `LZ4_FF_RUN_LIMIT` bytes in a row of `data` are 0xFF.
fn find_long_ff_run(data: &[u8]) -> (r: bool)
    ensures
        r == has_ff_run(data@, LZ4_FF_RUN_LIMIT as nat),
{
    let ghost l = LZ4_FF_RUN_LIMIT as int;
    let mut run: usize = 0;
    let mut i: usize = 0;
    while i < data.len()
        invariant
            l == LZ4_FF_RUN_LIMIT as int,
            i <= data@.len(),
            run <= i,
            run < LZ4_FF_RUN_LIMIT,
            forall|j: int| i - run <= j < i ==> #[trigger] data@[j] == 0xFFu8,
            run < i ==> data@[i - run - 1] != 0xFFu8,
            forall|s: int| #[trigger] ff_window(data@, s, LZ4_FF_RUN_LIMIT as nat) ==> s + l > i,
        decreases data@.len() - i,
    {
        let ghost old_run = run;
        if data[i] == 0xFF {
            run += 1;
            if run == LZ4_FF_RUN_LIMIT {
                proof {
                    let start = i - old_run;
                    assert forall|j: int| start <= j < start + l implies #[trigger] data@[j] == 0xFFu8 by {
                        if j < i {
                            assert(i - old_run <= j);
                        }
                    }
                    assert(ff_window(data@, start, LZ4_FF_RUN_LIMIT as nat));
                }
                return true;
            }
        } else {
            run = 0;
        }
        proof {
            assert forall|s: int| #[trigger] ff_window(data@, s, LZ4_FF_RUN_LIMIT as nat) implies s + l > i + 1 by {
                if s + l == i + 1 {
                    assert(data@[i as int] == 0xFFu8);
                    let k = i - old_run - 1;
                    assert(s <= k < s + l);
                    assert(data@[k] != 0xFFu8);
                }
            }
        }
        i += 1;
    }
    proof {
        if has_ff_run(data@, LZ4_FF_RUN_LIMIT as nat) {
            let s = choose|s: int| #[trigger] ff_window(data@, s, LZ4_FF_RUN_LIMIT as nat);
            assert(s + l > data@.len());
        }
    }
    false
}

/// Decompresses a size-prepended LZ4 buffer; the output of `compress_lz4` comes back whole. A
/// buffer holding `LZ4_FF_RUN_LIMIT` 0xFF bytes in a row is refused before decompression.
pub fn decompress_lz4(data: &[u8]) -> (r: Result<Vec<u8>, CompressionError>)
    ensures
        data@.len() < 4 ==> r is Err,
        has_ff_run(data@, LZ4_FF_RUN_LIMIT as nat) ==> r is Err,
        forall|orig: Seq<u8>|
            orig.len() <= u32::MAX && data@ == spec_u32_to_le_bytes(orig.len() as u32)
                + #[trigger] lz4_block(orig) && !has_ff_run(data@, LZ4_FF_RUN_LIMIT as nat) ==> r is Ok
                && r->Ok_0@ == orig,
{
    if find_long_ff_run(data) {
        return Err(lz4_run_too_long());
    }
    match lz4_decompress_size_prepended(data) {
        Ok(v) => Ok(v),
        Err(e) => Err(CompressionError { message: lz4_error_text(&e) }),
    }
}

} // verus!
