//! The decoder: from a section's palette and packed stream to its blocks.

use vstd::prelude::*;
use crate::bits::{bits_for_palette, bits_per_block};
use crate::block::{
    air_block, block_of_entry, decoded_block, first_failure, lemma_first_failure_stays,
    palette_view, properties_source, section_failure, slot_failure, Block, BlockView,
    PaletteEntry,
};
use crate::document::{chunk_of, lemma_sections_read, read_document, ChunkDocument, ChunkView};
use crate::error::DecodeError;
use crate::name::{is_air, split_identifier};
use crate::packed::IndexReader;
use crate::position::{calculate_position, world_position, SECTION_BLOCKS};
use crate::tag::{compound_at, compound_list_at, long_array_at, tag_entries, TagEntries};

verus! {

/// The sections that a decoder has room for unless told otherwise.
pub const DEFAULT_SECTION_CAPACITY: u32 = 25;

/// Decodes sections. It owns the empty tag that stands for the properties
/// of every block that has none, and knows how many sections a chunk may
/// have.
pub struct BlockDecoder {
    empty: nbt::CompoundTag,
    capacity: u32,
}

/// What a palette entry resolves to before it has a position: nothing for
/// air, else the block's texts and properties.
spec fn resolves<'a>(
    resolved: Option<Block<'a>>,
    entry: PaletteEntry<'a>,
    empty: nbt::CompoundTag,
) -> bool {
    match resolved {
        None => entry.name@ == "minecraft:air"@,
        Some(block) => {
            &&& entry.name@ != "minecraft:air"@
            &&& *block.properties == match entry.properties {
                Some(properties) => *properties,
                None => empty,
            }
            &&& forall|pos: (int, int, int)|
                tag_entries(empty) == TagEntries::empty() ==> (BlockView {
                    world_pos: Some(pos),
                    ..block@
                }) == #[trigger] block_of_entry(entry@, pos)
        },
    }
}

/// The blocks of a section with nothing to decode: air in every slot.
pub open spec fn air_section() -> Seq<BlockView> {
    Seq::new(4096, |slot: int| air_block())
}

/// The blocks of section `index` of `chunk`: what its block states decode
/// to, or air in every slot where it has none or the chunk has no such
/// section.
pub open spec fn section_blocks(chunk: ChunkView, index: int) -> Seq<BlockView> {
    if 0 <= index < chunk.sections.len() && chunk.sections[index] is Some {
        let states = chunk.sections[index]->0;
        Seq::new(
            4096,
            |slot: int|
                decoded_block(
                    states.palette,
                    states.data,
                    slot as nat,
                    chunk.x_pos,
                    chunk.z_pos,
                    chunk.min_section_y,
                    index,
                ),
        )
    } else {
        air_section()
    }
}

/// Why the first `count` sections of `chunk` cannot be decoded, if they
/// cannot: the failure of the first of them that has one.
pub open spec fn chunk_failure(chunk: ChunkView, count: nat) -> Option<DecodeError>
    decreases count,
{
    if count == 0 {
        None
    } else {
        match chunk_failure(chunk, (count - 1) as nat) {
            Some(e) => Some(e),
            None => match chunk.sections[count - 1] {
                Some(states) => section_failure(states.palette, states.data),
                None => None,
            },
        }
    }
}

/// What `chunk` decodes to with room for `capacity` sections: that many
/// sections of 4096 blocks each, those past the chunk's last filled with
/// air. A chunk with more sections is refused.
pub open spec fn chunk_blocks(chunk: ChunkView, capacity: nat) -> Result<
    Seq<Seq<BlockView>>,
    DecodeError,
> {
    if chunk.sections.len() > capacity {
        Err(DecodeError::TooManySections)
    } else {
        match chunk_failure(chunk, chunk.sections.len()) {
            Some(e) => Err(e),
            None => Ok(Seq::new(capacity, |index: int| section_blocks(chunk, index))),
        }
    }
}

/// Whether the blocks of `section` hold what `expected` lists.
pub open spec fn holds_blocks<'a>(section: Vec<Block<'a>>, expected: Seq<BlockView>) -> bool {
    &&& section@.len() == expected.len()
    &&& forall|slot: int| 0 <= slot < expected.len() ==> (#[trigger] section@[slot])@ == expected[slot]
}

/// Whether `result` is what `expected` asks for: the same error, or
/// sections that hold the expected blocks.
pub open spec fn is_decoded<'a>(
    result: Result<Vec<Vec<Block<'a>>>, DecodeError>,
    expected: Result<Seq<Seq<BlockView>>, DecodeError>,
) -> bool {
    match (result, expected) {
        (Ok(sections), Ok(blocks)) => {
            &&& sections@.len() == blocks.len()
            &&& forall|index: int|
                0 <= index < blocks.len() ==> holds_blocks(#[trigger] sections@[index], blocks[index])
        },
        (Err(e), Err(expected_error)) => e == expected_error,
        _ => false,
    }
}

/// A failure among the first sections is the failure of every longer run.
pub proof fn lemma_chunk_failure_stays(chunk: ChunkView, count: nat, longer: nat)
    requires
        count <= longer,
        chunk_failure(chunk, count) is Some,
    ensures
        chunk_failure(chunk, longer) == chunk_failure(chunk, count),
    decreases longer - count,
{
    if count < longer {
        lemma_chunk_failure_stays(chunk, count, (longer - 1) as nat);
    }
}

/// A section whose block states lack the pair of `palette` and `data`
/// decodes to air in every slot, in every chunk that decodes at all.
pub proof fn lemma_block_states_without_pair_stay_air(
    chunk: TagEntries,
    capacity: nat,
    index: int,
)
    requires
        chunk_of(chunk) is Ok,
        chunk_blocks(chunk_of(chunk)->Ok_0, capacity) is Ok,
        ({
            &&& compound_list_at(chunk, "sections"@) matches Some(sections)
            &&& 0 <= index < sections.len()
            &&& compound_at(sections[index], "block_states"@) matches Some(states)
            &&& long_array_at(states, "data"@) is None || compound_list_at(
                states,
                "palette"@,
            ) is None
        }),
    ensures
        index < capacity,
        chunk_blocks(chunk_of(chunk)->Ok_0, capacity)->Ok_0[index] == air_section(),
{
    let sections = compound_list_at(chunk, "sections"@)->0;
    lemma_sections_read(sections, sections.len(), index);
}

impl BlockDecoder {
    #[verifier::type_invariant]
    spec fn holds_empty_tag(self) -> bool {
        tag_entries(self.empty) == TagEntries::empty()
    }

    /// The tag that blocks without properties refer to.
    pub closed spec fn empty_tag(&self) -> nbt::CompoundTag {
        self.empty
    }

    /// The sections that a chunk may have.
    pub closed spec fn capacity(&self) -> nat {
        self.capacity as nat
    }

    /// A decoder with room for twenty-five sections.
    pub fn new() -> (r: Self)
        ensures
            r.capacity() == 25,
            tag_entries(r.empty_tag()) == TagEntries::empty(),
    {
        BlockDecoder { empty: nbt::CompoundTag::new(), capacity: DEFAULT_SECTION_CAPACITY }
    }

    /// A decoder with room for `capacity` sections.
    pub fn with_section_capacity(capacity: u32) -> (r: Self)
        ensures
            r.capacity() == capacity,
            tag_entries(r.empty_tag()) == TagEntries::empty(),
    {
        BlockDecoder { empty: nbt::CompoundTag::new(), capacity }
    }

    /// The tag that blocks without properties refer to. It holds nothing.
    pub fn empty_properties(&self) -> (r: &nbt::CompoundTag)
        ensures
            *r == self.empty_tag(),
            tag_entries(*r) == TagEntries::empty(),
    {
        proof {
            use_type_invariant(self);
        }
        &self.empty
    }

    /// The sections that a chunk may have.
    pub fn section_capacity(&self) -> (r: u32)
        ensures
            r == self.capacity(),
    {
        self.capacity
    }

    /// What `entry` resolves to before it has a position.
    fn resolve_entry<'a>(&'a self, entry: &PaletteEntry<'a>) -> (r: Option<Block<'a>>)
        ensures
            resolves(r, *entry, self.empty_tag()),
    {
        if is_air(entry.name) {
            None
        } else {
            let (namespace, block_name) = split_identifier(entry.name);
            let properties: &'a nbt::CompoundTag = match entry.properties {
                Some(properties) => properties,
                None => &self.empty,
            };
            Some(
                Block {
                    namespace,
                    block_name,
                    world_pos: None,
                    properties,
                    biome: None,
                    is_structure: false,
                },
            )
        }
    }

    /// Decodes one section: the 4096 blocks that `data` names in `palette`,
    /// each at its place in the world.
    ///
    /// The section stands at `section_index` in its chunk, whose lowest
    /// section has the vertical index `min_section_y`. Entries are as wide
    /// as `palette` asks for. Decoding stops at the first entry that `data`
    /// does not reach or that names no palette entry.
    pub fn unpack<'a>(
        &'a self,
        section_index: u32,
        chunk_x: i32,
        chunk_z: i32,
        min_section_y: i32,
        palette: &[PaletteEntry<'a>],
        data: &[i64],
    ) -> (r: Result<Vec<Block<'a>>, DecodeError>)
        ensures
            match r {
                Ok(blocks) => {
                    &&& section_failure(palette_view(palette@), data@) is None
                    &&& blocks@.len() == 4096
                    &&& forall|slot: int|
                        0 <= slot < 4096 ==> (#[trigger] blocks@[slot])@ == decoded_block(
                            palette_view(palette@),
                            data@,
                            slot as nat,
                            chunk_x as int,
                            chunk_z as int,
                            min_section_y as int,
                            section_index as int,
                        )
                    &&& forall|slot: int|
                        0 <= slot < 4096 ==> *(#[trigger] blocks@[slot]).properties
                            == properties_source(palette@, data@, slot as nat, self.empty_tag())
                },
                Err(e) => section_failure(palette_view(palette@), data@) == Some(e),
            },
    {
        proof {
            use_type_invariant(self);
        }
        let bits: u32 = bits_per_block(palette.len());
        let mut resolved: Vec<Option<Block<'a>>> = Vec::new();
        let mut entry: usize = 0;
        while entry < palette.len()
            invariant
                entry <= palette@.len(),
                resolved@.len() == entry,
                forall|k: int|
                    0 <= k < entry ==> resolves(
                        #[trigger] resolved@[k],
                        palette@[k],
                        self.empty_tag(),
                    ),
            decreases palette@.len() - entry,
        {
            resolved.push(self.resolve_entry(&palette[entry]));
            entry = entry + 1;
        }
        let air: Block<'a> = Block::air(&self.empty);
        let mut reader = IndexReader::new(data, bits);
        let mut blocks: Vec<Block<'a>> = Vec::new();
        let mut slot: usize = 0;
        while slot < SECTION_BLOCKS
            invariant
                slot <= 4096,
                bits == bits_for_palette(palette@.len()),
                palette_view(palette@).len() == palette@.len(),
                reader.wf(),
                reader.data() == data@,
                reader.bits() == bits,
                reader.position() == slot,
                tag_entries(self.empty_tag()) == TagEntries::empty(),
                air@ == air_block(),
                *air.properties == self.empty_tag(),
                resolved@.len() == palette@.len(),
                forall|k: int|
                    0 <= k < palette@.len() ==> resolves(
                        #[trigger] resolved@[k],
                        palette@[k],
                        self.empty_tag(),
                    ),
                first_failure(palette@.len(), data@, bits as nat, slot as nat) is None,
                blocks@.len() == slot,
                forall|k: int|
                    0 <= k < slot ==> (#[trigger] blocks@[k])@ == decoded_block(
                        palette_view(palette@),
                        data@,
                        k as nat,
                        chunk_x as int,
                        chunk_z as int,
                        min_section_y as int,
                        section_index as int,
                    ),
                forall|k: int|
                    0 <= k < slot ==> *(#[trigger] blocks@[k]).properties == properties_source(
                        palette@,
                        data@,
                        k as nat,
                        self.empty_tag(),
                    ),
            decreases 4096 - slot,
        {
            let index: u64 = match reader.next_index() {
                Ok(index) => index,
                Err(e) => {
                    proof {
                        lemma_first_failure_stays(
                            palette@.len(),
                            data@,
                            bits as nat,
                            (slot + 1) as nat,
                            4096,
                        );
                    }
                    return Err(e);
                },
            };
            if index >= palette.len() as u64 {
                proof {
                    lemma_first_failure_stays(
                        palette@.len(),
                        data@,
                        bits as nat,
                        (slot + 1) as nat,
                        4096,
                    );
                }
                return Err(DecodeError::PaletteIndexOutOfRange);
            }
            assert(slot_failure(palette@.len(), data@, bits as nat, slot as nat) is None);
            let block: Block<'a> = match resolved[index as usize] {
                None => air,
                Some(found) => Block {
                    namespace: found.namespace,
                    block_name: found.block_name,
                    world_pos: Some(
                        calculate_position(slot, chunk_x, chunk_z, min_section_y, section_index),
                    ),
                    properties: found.properties,
                    biome: found.biome,
                    is_structure: found.is_structure,
                },
            };
            proof {
                let pos = world_position(
                    slot as int,
                    chunk_x as int,
                    chunk_z as int,
                    min_section_y as int,
                    section_index as int,
                );
                assert(resolves(resolved@[index as int], palette@[index as int], self.empty_tag()));
                assert(palette_view(palette@)[index as int] == palette@[index as int]@);
                assert(block@ == block_of_entry(palette@[index as int]@, pos));
            }
            blocks.push(block);
            slot = slot + 1;
        }
        Ok(blocks)
    }

    /// The blocks of a section with nothing to decode.
    pub fn air_slab<'a>(&'a self) -> (r: Vec<Block<'a>>)
        ensures
            holds_blocks(r, air_section()),
            forall|slot: int|
                0 <= slot < 4096 ==> *(#[trigger] r@[slot]).properties == self.empty_tag(),
    {
        proof {
            use_type_invariant(self);
        }
        let air: Block<'a> = Block::air(&self.empty);
        let mut blocks: Vec<Block<'a>> = Vec::new();
        let mut slot: usize = 0;
        while slot < SECTION_BLOCKS
            invariant
                slot <= 4096,
                air@ == air_block(),
                *air.properties == self.empty_tag(),
                blocks@.len() == slot,
                forall|k: int| 0 <= k < slot ==> (#[trigger] blocks@[k]) == air,
            decreases 4096 - slot,
        {
            blocks.push(air);
            slot = slot + 1;
        }
        blocks
    }

    /// Decodes every section of `document`.
    ///
    /// The result has as many sections as the decoder has room for, each
    /// of 4096 blocks. A section of the document with block states holds
    /// what they decode to; every other one is air. Where a section cannot
    /// be decoded, neither can the chunk.
    pub fn decode_document<'a>(&'a self, document: &ChunkDocument<'a>) -> (r: Result<
        Vec<Vec<Block<'a>>>,
        DecodeError,
    >)
        ensures
            is_decoded(r, chunk_blocks(document@, self.capacity())),
    {
        let count: usize = document.sections.len();
        if count > self.capacity as usize {
            return Err(DecodeError::TooManySections);
        }
        let first: usize = match document.first_selected() {
            Some(first) => first,
            None => count,
        };
        let ghost chunk = document@;
        let mut sections: Vec<Vec<Block<'a>>> = Vec::new();
        let mut index: u32 = 0;
        while index < self.capacity
            invariant
                index <= self.capacity,
                first <= count,
                forall|k: int| 0 <= k < first ==> (#[trigger] document.sections@[k]) is None,
                count == document.sections@.len(),
                count <= self.capacity,
                chunk == document@,
                chunk.sections.len() == count,
                chunk_failure(chunk, if index <= count { index as nat } else { count as nat }) is None,
                sections@.len() == index,
                forall|k: int|
                    0 <= k < index ==> holds_blocks(
                        #[trigger] sections@[k],
                        section_blocks(chunk, k),
                    ),
            decreases self.capacity - index,
        {
            let at: usize = index as usize;
            let blocks: Vec<Block<'a>> = if first <= at && at < count {
                match &document.sections[at] {
                    Some(states) => {
                        assert(chunk.sections[at as int] == Some(states@));
                        assert(states@.palette =~= palette_view(states.palette@));
                        match self.unpack(
                            index,
                            document.x_pos,
                            document.z_pos,
                            document.min_section_y,
                            states.palette.as_slice(),
                            states.data,
                        ) {
                            Ok(blocks) => blocks,
                            Err(e) => {
                                proof {
                                    lemma_chunk_failure_stays(chunk, (at + 1) as nat, count as nat);
                                }
                                return Err(e);
                            },
                        }
                    },
                    None => {
                        assert(chunk.sections[at as int] is None);
                        self.air_slab()
                    },
                }
            } else {
                assert(at < count ==> chunk.sections[at as int] is None);
                self.air_slab()
            };
            sections.push(blocks);
            index = index + 1;
        }
        Ok(sections)
    }

    /// Decodes the chunk whose root tag is `chunk`: reads its document and
    /// decodes every section of it.
    pub fn parse_blocks<'a>(&'a self, chunk: &'a nbt::CompoundTag) -> (r: Result<
        Vec<Vec<Block<'a>>>,
        DecodeError,
    >)
        ensures
            match chunk_of(tag_entries(*chunk)) {
                Ok(document) => is_decoded(r, chunk_blocks(document, self.capacity())),
                Err(e) => r == Err::<Vec<Vec<Block<'a>>>, _>(e),
            },
    {
        match read_document(chunk) {
            Ok(document) => self.decode_document(&document),
            Err(e) => Err(e),
        }
    }
}

} // verus!
