//! Blocks, palettes, and what a packed section decodes to.

use vstd::prelude::*;
use crate::bits::bits_for_palette;
use crate::error::DecodeError;
use crate::name::{bare_name_of, namespace_of, DEFAULT_NAME, DEFAULT_NAMESPACE};
use crate::packed::{holds_slot, packed_index};
use crate::position::world_position;
use crate::tag::{tag_entries, TagEntries};

verus! {

/// One entry of a section's palette: a block identifier and, where the
/// block has any, its properties.
#[derive(Clone, Copy, Debug)]
pub struct PaletteEntry<'a> {
    pub name: &'a str,
    pub properties: Option<&'a nbt::CompoundTag>,
}

/// What a palette entry holds.
pub struct PaletteEntryView {
    pub name: Seq<char>,
    pub properties: Option<TagEntries>,
}

impl<'a> View for PaletteEntry<'a> {
    type V = PaletteEntryView;

    open spec fn view(&self) -> PaletteEntryView {
        PaletteEntryView {
            name: self.name@,
            properties: match self.properties {
                Some(properties) => Some(tag_entries(*properties)),
                None => None,
            },
        }
    }
}

/// What the entries of a palette hold, in the palette's order.
pub open spec fn palette_view<'a>(palette: Seq<PaletteEntry<'a>>) -> Seq<PaletteEntryView> {
    Seq::new(palette.len(), |i: int| palette[i]@)
}

/// One decoded block. Its texts and properties are borrowed from the palette
/// it was decoded with, or are the decoder's own.
#[derive(Clone, Copy, Debug)]
pub struct Block<'a> {
    pub namespace: &'a str,
    pub block_name: &'a str,
    /// Absent for the air that fills a slot nothing was decoded into.
    pub world_pos: Option<(i64, i64, i64)>,
    /// The palette entry's properties, or the decoder's empty tag.
    pub properties: &'a nbt::CompoundTag,
    /// Never set by this decoder.
    pub biome: Option<&'a str>,
    /// Never set by this decoder.
    pub is_structure: bool,
}

/// What a block holds.
pub struct BlockView {
    pub namespace: Seq<char>,
    pub block_name: Seq<char>,
    pub world_pos: Option<(int, int, int)>,
    pub properties: TagEntries,
    pub biome: Option<Seq<char>>,
    pub is_structure: bool,
}

impl<'a> View for Block<'a> {
    type V = BlockView;

    open spec fn view(&self) -> BlockView {
        BlockView {
            namespace: self.namespace@,
            block_name: self.block_name@,
            world_pos: match self.world_pos {
                Some(pos) => Some((pos.0 as int, pos.1 as int, pos.2 as int)),
                None => None,
            },
            properties: tag_entries(*self.properties),
            biome: match self.biome {
                Some(biome) => Some(biome@),
                None => None,
            },
            is_structure: self.is_structure,
        }
    }
}

/// The block of an empty slot: air, without a position or properties.
pub open spec fn air_block() -> BlockView {
    BlockView {
        namespace: "minecraft"@,
        block_name: "air"@,
        world_pos: None,
        properties: TagEntries::empty(),
        biome: None,
        is_structure: false,
    }
}

/// The block that stands at `pos` where the packed index names `entry`. Air
/// leaves the slot as it was: empty, and without a position.
pub open spec fn block_of_entry(entry: PaletteEntryView, pos: (int, int, int)) -> BlockView {
    if entry.name == "minecraft:air"@ {
        air_block()
    } else {
        BlockView {
            namespace: namespace_of(entry.name),
            block_name: bare_name_of(entry.name),
            world_pos: Some(pos),
            properties: match entry.properties {
                Some(properties) => properties,
                None => TagEntries::empty(),
            },
            biome: None,
            is_structure: false,
        }
    }
}

/// What is wrong with entry `slot` of a section's stream, if anything: the
/// stream ends before it, or it names no entry of a palette of
/// `palette_len` entries.
pub open spec fn slot_failure(palette_len: nat, data: Seq<i64>, bits: nat, slot: nat) -> Option<
    DecodeError,
> {
    if !holds_slot(data, bits, slot) {
        Some(DecodeError::TruncatedData)
    } else if packed_index(data, bits, slot) >= palette_len {
        Some(DecodeError::PaletteIndexOutOfRange)
    } else {
        None
    }
}

/// What is wrong with the first of the first `count` entries that has
/// anything wrong with it.
pub open spec fn first_failure(palette_len: nat, data: Seq<i64>, bits: nat, count: nat) -> Option<
    DecodeError,
>
    decreases count,
{
    if count == 0 {
        None
    } else {
        match first_failure(palette_len, data, bits, (count - 1) as nat) {
            Some(e) => Some(e),
            None => slot_failure(palette_len, data, bits, (count - 1) as nat),
        }
    }
}

/// A failure among the first entries is the failure of every longer run.
pub proof fn lemma_first_failure_stays(
    palette_len: nat,
    data: Seq<i64>,
    bits: nat,
    count: nat,
    longer: nat,
)
    requires
        count <= longer,
        first_failure(palette_len, data, bits, count) is Some,
    ensures
        first_failure(palette_len, data, bits, longer) == first_failure(
            palette_len,
            data,
            bits,
            count,
        ),
    decreases longer - count,
{
    if count < longer {
        lemma_first_failure_stays(palette_len, data, bits, count, (longer - 1) as nat);
    }
}

/// Why a section with the palette `palette` and the stream `data` cannot be
/// decoded, if it cannot: what is wrong with the first of its 4096 entries
/// that has anything wrong with it.
pub open spec fn section_failure(palette: Seq<PaletteEntryView>, data: Seq<i64>) -> Option<
    DecodeError,
> {
    first_failure(palette.len(), data, bits_for_palette(palette.len()), 4096)
}

/// The block that slot `slot` of a section decodes to. The section stands
/// at `section_index` in the chunk at `(chunk_x, chunk_z)`, whose lowest
/// section has the vertical index `min_section_y`.
pub open spec fn decoded_block(
    palette: Seq<PaletteEntryView>,
    data: Seq<i64>,
    slot: nat,
    chunk_x: int,
    chunk_z: int,
    min_section_y: int,
    section_index: int,
) -> BlockView {
    block_of_entry(
        palette[packed_index(data, bits_for_palette(palette.len()), slot) as int],
        world_position(slot as int, chunk_x, chunk_z, min_section_y, section_index),
    )
}

/// A slot whose entry names air decodes to the block of an empty slot,
/// whatever the slot and wherever the section: it has no position, and the
/// slots after it are placed as if it had been any other block.
pub proof fn lemma_air_leaves_slot_empty(
    palette: Seq<PaletteEntryView>,
    data: Seq<i64>,
    slot: nat,
    chunk_x: int,
    chunk_z: int,
    min_section_y: int,
    section_index: int,
)
    requires
        palette[packed_index(data, bits_for_palette(palette.len()), slot) as int].name
            == "minecraft:air"@,
    ensures
        decoded_block(palette, data, slot, chunk_x, chunk_z, min_section_y, section_index)
            == air_block(),
        decoded_block(
            palette,
            data,
            slot + 1,
            chunk_x,
            chunk_z,
            min_section_y,
            section_index,
        ).world_pos matches Some(pos) ==> pos == world_position(
            (slot + 1) as int,
            chunk_x,
            chunk_z,
            min_section_y,
            section_index,
        ),
{
}

/// Two slots with the same packed index hold the same block but for where
/// it stands: namespace, name and properties are those of the one palette
/// entry.
pub proof fn lemma_same_entry_same_block(
    palette: Seq<PaletteEntryView>,
    data: Seq<i64>,
    slot: nat,
    other: nat,
    chunk_x: int,
    chunk_z: int,
    min_section_y: int,
    section_index: int,
)
    requires
        packed_index(data, bits_for_palette(palette.len()), slot) == packed_index(
            data,
            bits_for_palette(palette.len()),
            other,
        ),
    ensures
        ({
            let here = decoded_block(
                palette,
                data,
                slot,
                chunk_x,
                chunk_z,
                min_section_y,
                section_index,
            );
            let there = decoded_block(
                palette,
                data,
                other,
                chunk_x,
                chunk_z,
                min_section_y,
                section_index,
            );
            &&& here.namespace == there.namespace
            &&& here.block_name == there.block_name
            &&& here.properties == there.properties
            &&& here.world_pos is Some <==> there.world_pos is Some
        }),
{
}

/// The tag that the properties of the block at `slot` are borrowed from:
/// that of the palette entry, or `empty` for air and for an entry without
/// properties.
pub open spec fn properties_source<'a>(
    palette: Seq<PaletteEntry<'a>>,
    data: Seq<i64>,
    slot: nat,
    empty: nbt::CompoundTag,
) -> nbt::CompoundTag {
    let entry = palette[packed_index(data, bits_for_palette(palette.len()), slot) as int];
    match entry.properties {
        Some(properties) if entry.name@ != "minecraft:air"@ => *properties,
        _ => empty,
    }
}

impl<'a> Block<'a> {
    /// The block of an empty slot, with `empty` for its properties.
    pub fn air(empty: &'a nbt::CompoundTag) -> (r: Self)
        ensures
            r@ == (BlockView { properties: tag_entries(*empty), ..air_block() }),
            *r.properties == *empty,
    {
        Block {
            namespace: DEFAULT_NAMESPACE,
            block_name: DEFAULT_NAME,
            world_pos: None,
            properties: empty,
            biome: None,
            is_structure: false,
        }
    }
}

} // verus!
