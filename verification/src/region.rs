//! The region container: where a chunk's payload lies, and what it holds.
//!
//! A container holds up to 32 by 32 chunks in sectors of 4096 bytes. Its
//! header has four bytes for each chunk: the sector where the chunk's
//! payload begins, as three bytes, the highest first, and the number of
//! sectors it takes. The payload begins with its length, as four bytes,
//! the highest first, and one byte that names the compression scheme; the
//! compressed document follows.

use vstd::prelude::*;
use vstd::slice::slice_subrange;
use crate::error::DecodeError;
use crate::tag::{inflate_document, inflated_entries, tag_entries, TagEntries};

verus! {

/// Bytes in one sector.
pub const SECTOR_BYTES: u64 = 4096;

/// Chunks along one edge of a region.
pub const REGION_EDGE: i64 = 32;

/// Bytes of a payload before its compressed document: the length and the
/// compression scheme.
pub const PAYLOAD_HEADER_BYTES: u64 = 5;

/// The compression scheme that is understood: zlib.
pub const COMPRESSION_ZLIB: u8 = 2;

/// Where a chunk's payload lies: the sector it begins at, and the sectors
/// it takes.
#[derive(Clone, Copy, Debug, PartialEq, Eq, Structural)]
pub struct ChunkLocation {
    pub sector_offset: i32,
    pub sector_count: u8,
}

/// The remainder of `a` by `d` that takes the sign of `a`, as division
/// that rounds towards zero leaves it.
pub open spec fn truncated_rem(a: int, d: int) -> int {
    if a >= 0 {
        a % d
    } else {
        -((-a) % d)
    }
}

/// Where in the header the entry of the chunk at `(chunk_x, chunk_z)`
/// begins. It is negative for some chunks with a negative coordinate: those
/// have no entry.
pub open spec fn header_index(chunk_x: int, chunk_z: int) -> int {
    4 * (truncated_rem(chunk_x, 32) + truncated_rem(chunk_z, 32) * 32)
}

/// The number that the three bytes of `bytes` from `at` spell, the highest
/// byte first.
pub open spec fn big_endian_3(bytes: Seq<u8>, at: int) -> int {
    bytes[at] * 0x1_0000 + bytes[at + 1] * 0x100 + bytes[at + 2]
}

/// The number that the four bytes of `bytes` from `at` spell, the highest
/// byte first.
pub open spec fn big_endian_4(bytes: Seq<u8>, at: int) -> int {
    bytes[at] * 0x100_0000 + bytes[at + 1] * 0x1_0000 + bytes[at + 2] * 0x100 + bytes[at + 3]
}

/// What the header of `container` says of the chunk at
/// `(chunk_x, chunk_z)`: where its payload lies, or `None` where the chunk
/// is absent, which is when sector and count are both zero. An entry that
/// does not lie within the container is an error.
pub open spec fn located(container: Seq<u8>, chunk_x: int, chunk_z: int) -> Result<
    Option<ChunkLocation>,
    DecodeError,
> {
    let index = header_index(chunk_x, chunk_z);
    if index < 0 || index + 4 > container.len() {
        Err(DecodeError::MalformedContainer)
    } else {
        let sector_offset = big_endian_3(container, index);
        let sector_count = container[index + 3];
        if sector_offset == 0 && sector_count == 0 {
            Ok(None)
        } else {
            Ok(Some(ChunkLocation { sector_offset: sector_offset as i32, sector_count }))
        }
    }
}

/// Where the compressed document of the payload at sector `sector_offset`
/// begins and ends in `container`.
///
/// The document is the bytes after the payload's five header bytes, as many
/// as its length says. Containers are written with a length that counts the
/// scheme byte too, so the last byte that the length counts may be no part
/// of the document: it is taken where the container has it, and not missed
/// where the container ends one byte short of it. A payload whose header
/// does not lie within the container, or whose length reaches further past
/// its end, is malformed; one that is not compressed with zlib is
/// unsupported, whatever its length.
pub open spec fn framed(container: Seq<u8>, sector_offset: int) -> Result<(int, int), DecodeError> {
    let base = sector_offset * 4096;
    if sector_offset < 0 || base + 5 > container.len() {
        Err(DecodeError::MalformedContainer)
    } else if container[base + 4] != 2 {
        Err(DecodeError::UnsupportedCompression)
    } else {
        let end = base + 5 + big_endian_4(container, base);
        if end <= container.len() {
            Ok((base + 5, end))
        } else if end == container.len() + 1 {
            Ok((base + 5, container.len() as int))
        } else {
            Err(DecodeError::MalformedContainer)
        }
    }
}

/// The entries of the document that `payload` holds, if it inflates to one.
pub open spec fn document_of(payload: Seq<u8>) -> Result<TagEntries, DecodeError> {
    match inflated_entries(payload) {
        Some(entries) => Ok(entries),
        None => Err(DecodeError::CorruptPayload),
    }
}

/// The entries of the document of the chunk whose payload begins at sector
/// `sector_offset` of `container`.
pub open spec fn loaded(container: Seq<u8>, sector_offset: int) -> Result<TagEntries, DecodeError> {
    match framed(container, sector_offset) {
        Ok((start, end)) => document_of(container.subrange(start, end)),
        Err(e) => Err(e),
    }
}

/// The entries of the document of the chunk at `(chunk_x, chunk_z)` of
/// `container`, or `None` where the chunk is absent.
pub open spec fn chunk_document(container: Seq<u8>, chunk_x: int, chunk_z: int) -> Result<
    Option<TagEntries>,
    DecodeError,
> {
    match located(container, chunk_x, chunk_z) {
        Err(e) => Err(e),
        Ok(None) => Ok(None),
        Ok(Some(location)) => match loaded(container, location.sector_offset as int) {
            Ok(entries) => Ok(Some(entries)),
            Err(e) => Err(e),
        },
    }
}

/// A chunk whose header entry is all zero is absent, whatever the container
/// holds elsewhere and wherever it ends: nothing of a payload is read.
pub proof fn lemma_absent_chunk(container: Seq<u8>, chunk_x: int, chunk_z: int)
    requires
        0 <= header_index(chunk_x, chunk_z),
        header_index(chunk_x, chunk_z) + 4 <= container.len(),
        forall|i: int|
            header_index(chunk_x, chunk_z) <= i < header_index(chunk_x, chunk_z) + 4
                ==> container[i] == 0,
    ensures
        located(container, chunk_x, chunk_z) == Ok::<Option<ChunkLocation>, DecodeError>(None),
        chunk_document(container, chunk_x, chunk_z) == Ok::<Option<TagEntries>, DecodeError>(
            None,
        ),
{
}

/// Whether `result` is a tag with the entries that `expected` asks for, or
/// the error that it asks for.
pub open spec fn is_loaded(
    result: Result<nbt::CompoundTag, DecodeError>,
    expected: Result<TagEntries, DecodeError>,
) -> bool {
    match (result, expected) {
        (Ok(tag), Ok(entries)) => tag_entries(tag) == entries,
        (Err(e), Err(expected_error)) => e == expected_error,
        _ => false,
    }
}

/// The remainder of `a` by 32 that takes the sign of `a`.
fn rem_32(a: i32) -> (r: i64)
    ensures
        r == truncated_rem(a as int, 32),
        -32 < r < 32,
{
    let wide: i64 = a as i64;
    if wide >= 0 {
        wide % REGION_EDGE
    } else {
        -((-wide) % REGION_EDGE)
    }
}

/// Looks the chunk at `(chunk_x, chunk_z)` up in the header of `container`.
pub fn resolve(container: &[u8], chunk_x: i32, chunk_z: i32) -> (r: Result<
    Option<ChunkLocation>,
    DecodeError,
>)
    ensures
        r == located(container@, chunk_x as int, chunk_z as int),
{
    let index: i64 = 4 * (rem_32(chunk_x) + rem_32(chunk_z) * 32);
    if index < 0 || index as u64 + 4 > container.len() as u64 {
        return Err(DecodeError::MalformedContainer);
    }
    let at: usize = index as usize;
    let sector_offset: i32 = container[at] as i32 * 0x1_0000 + container[at + 1] as i32 * 0x100
        + container[at + 2] as i32;
    let sector_count: u8 = container[at + 3];
    if sector_offset == 0 && sector_count == 0 {
        Ok(None)
    } else {
        Ok(Some(ChunkLocation { sector_offset, sector_count }))
    }
}

/// Finds the compressed document of the payload at sector `sector_offset`.
pub fn frame_payload(container: &[u8], sector_offset: i32) -> (r: Result<
    (usize, usize),
    DecodeError,
>)
    ensures
        match r {
            Ok((start, end)) => framed(container@, sector_offset as int) == Ok::<
                (int, int),
                DecodeError,
            >((start as int, end as int)) && start <= end <= container@.len(),
            Err(e) => framed(container@, sector_offset as int) == Err::<(int, int), _>(e),
        },
{
    if sector_offset < 0 {
        return Err(DecodeError::MalformedContainer);
    }
    let len: u64 = container.len() as u64;
    let base: u64 = sector_offset as u64 * SECTOR_BYTES;
    if base + PAYLOAD_HEADER_BYTES > len {
        return Err(DecodeError::MalformedContainer);
    }
    let at: usize = base as usize;
    if container[at + 4] != COMPRESSION_ZLIB {
        return Err(DecodeError::UnsupportedCompression);
    }
    let length: u64 = container[at] as u64 * 0x100_0000 + container[at + 1] as u64 * 0x1_0000
        + container[at + 2] as u64 * 0x100 + container[at + 3] as u64;
    let end: u64 = base + PAYLOAD_HEADER_BYTES + length;
    if end <= len {
        Ok((at + 5, end as usize))
    } else if end == len + 1 {
        Ok((at + 5, container.len()))
    } else {
        Err(DecodeError::MalformedContainer)
    }
}

/// Inflates `payload` and reads the document it holds.
pub fn read_payload(payload: &[u8]) -> (r: Result<nbt::CompoundTag, DecodeError>)
    ensures
        is_loaded(r, document_of(payload@)),
{
    match inflate_document(payload) {
        Ok(tag) => Ok(tag),
        Err(_) => Err(DecodeError::CorruptPayload),
    }
}

/// Loads the document of the chunk whose payload begins at sector
/// `sector_offset` of `container`.
pub fn load(container: &[u8], sector_offset: i32) -> (r: Result<nbt::CompoundTag, DecodeError>)
    ensures
        is_loaded(r, loaded(container@, sector_offset as int)),
{
    match frame_payload(container, sector_offset) {
        Ok((start, end)) => read_payload(slice_subrange(container, start, end)),
        Err(e) => Err(e),
    }
}

/// Loads the document of the chunk at `(chunk_x, chunk_z)` of `container`.
/// Returns `None` for an absent chunk, whatever the container holds past
/// its header.
pub fn load_chunk(container: &[u8], chunk_x: i32, chunk_z: i32) -> (r: Result<
    Option<nbt::CompoundTag>,
    DecodeError,
>)
    ensures
        match (r, chunk_document(container@, chunk_x as int, chunk_z as int)) {
            (Ok(Some(tag)), Ok(Some(entries))) => tag_entries(tag) == entries,
            (Ok(None), Ok(None)) => true,
            (Err(e), Err(expected)) => e == expected,
            _ => false,
        },
{
    match resolve(container, chunk_x, chunk_z) {
        Err(e) => Err(e),
        Ok(None) => Ok(None),
        Ok(Some(location)) => match load(container, location.sector_offset) {
            Ok(tag) => Ok(Some(tag)),
            Err(e) => Err(e),
        },
    }
}

} // verus!
