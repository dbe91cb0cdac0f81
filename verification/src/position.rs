//! World coordinates of a block, from its slot in a section.

use vstd::prelude::*;

verus! {

/// Blocks along one edge of a section.
pub const SECTION_EDGE: usize = 16;

/// Blocks in one horizontal layer of a section.
pub const LAYER_BLOCKS: usize = 256;

/// Blocks in one section.
pub const SECTION_BLOCKS: usize = 4096;

/// The world coordinates `(x, y, z)` of the block stored at `slot` of the
/// section that stands at `section_index` in its chunk.
///
/// Slots run along x first, then z, then y. The chunk coordinates count
/// chunks, so each is worth sixteen blocks; `min_section_y` is the vertical
/// index of the chunk's lowest section.
pub open spec fn world_position(
    slot: int,
    chunk_x: int,
    chunk_z: int,
    min_section_y: int,
    section_index: int,
) -> (int, int, int) {
    let relative_y = slot / 256;
    let layer_offset = slot - relative_y * 256;
    (
        layer_offset % 16 + chunk_x * 16,
        (section_index + min_section_y) * 16 + relative_y,
        layer_offset / 16 + chunk_z * 16,
    )
}

/// Computes [`world_position`]. The result is wide enough for every input.
pub fn calculate_position(
    block_index: usize,
    chunk_x: i32,
    chunk_z: i32,
    min_section_y: i32,
    section_index: u32,
) -> (pos: (i64, i64, i64))
    ensures
        (pos.0 as int, pos.1 as int, pos.2 as int) == world_position(
            block_index as int,
            chunk_x as int,
            chunk_z as int,
            min_section_y as int,
            section_index as int,
        ),
{
    let relative_y: usize = block_index / LAYER_BLOCKS;
    let layer_offset: usize = block_index - relative_y * LAYER_BLOCKS;
    let relative_x: usize = layer_offset % SECTION_EDGE;
    let relative_z: usize = layer_offset / SECTION_EDGE;
    let x: i64 = relative_x as i64 + chunk_x as i64 * 16;
    let y: i64 = (section_index as i64 + min_section_y as i64) * 16 + relative_y as i64;
    let z: i64 = relative_z as i64 + chunk_z as i64 * 16;
    (x, y, z)
}

/// The first slot of a chunk's lowest section lies at the chunk's own
/// corner: sixteen times the chunk coordinates, at sixteen times the lowest
/// section's vertical index.
pub proof fn lemma_position_of_first_slot(chunk_x: int, chunk_z: int, min_section_y: int)
    ensures
        world_position(0, chunk_x, chunk_z, min_section_y, 0) == (
            chunk_x * 16,
            min_section_y * 16,
            chunk_z * 16,
        ),
{
}

/// Within a section the three offsets stay below sixteen and name the slot:
/// no two slots of one section share a position.
pub proof fn lemma_position_within_section(
    slot: int,
    chunk_x: int,
    chunk_z: int,
    min_section_y: int,
    section_index: int,
)
    requires
        0 <= slot < 4096,
    ensures
        ({
            let (x, y, z) = world_position(slot, chunk_x, chunk_z, min_section_y, section_index);
            let dx = x - chunk_x * 16;
            let dy = y - (section_index + min_section_y) * 16;
            let dz = z - chunk_z * 16;
            &&& 0 <= dx < 16
            &&& 0 <= dy < 16
            &&& 0 <= dz < 16
            &&& slot == dy * 256 + dz * 16 + dx
        }),
{
}

} // verus!
