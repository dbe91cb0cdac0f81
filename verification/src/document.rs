//! The chunk document: what the decoder reads out of a chunk's tag tree.
//!
//! A chunk's root tag holds `xPos` and `zPos`, the chunk's coordinates, and
//! `sections`, a list of compound tags from the lowest section upwards. A
//! section holds `Y`, its vertical index, and may hold `block_states`, with
//! a `palette` (a list of compound tags, each with a `Name` and possibly
//! with `Properties`) and `data` (the packed stream).

use vstd::prelude::*;
use crate::block::{PaletteEntry, PaletteEntryView};
use crate::error::{DecodeError, Field};
use crate::tag::{
    byte_at, compound_at, compound_list_at, int_at, long_array_at, tag_entries, text_at,
    TagEntries,
};

verus! {

/// The block states of one section: its palette and its packed stream.
#[derive(Debug)]
pub struct BlockStates<'a> {
    pub palette: Vec<PaletteEntry<'a>>,
    pub data: &'a [i64],
}

/// What the block states of a section hold.
pub struct BlockStatesView {
    pub palette: Seq<PaletteEntryView>,
    pub data: Seq<i64>,
}

impl<'a> View for BlockStates<'a> {
    type V = BlockStatesView;

    open spec fn view(&self) -> BlockStatesView {
        BlockStatesView {
            palette: Seq::new(self.palette@.len(), |i: int| self.palette@[i]@),
            data: self.data@,
        }
    }
}

/// What the decoder needs of a chunk.
#[derive(Debug)]
pub struct ChunkDocument<'a> {
    /// The chunk's coordinates, in chunks.
    pub x_pos: i32,
    pub z_pos: i32,
    /// The vertical index of the chunk's first section, taken for its
    /// lowest.
    pub min_section_y: i32,
    /// For each section, from the first, its block states; `None` for a
    /// section that has none to decode.
    pub sections: Vec<Option<BlockStates<'a>>>,
}

/// What a chunk document holds.
pub struct ChunkView {
    pub x_pos: int,
    pub z_pos: int,
    pub min_section_y: int,
    pub sections: Seq<Option<BlockStatesView>>,
}

/// What the block states of a section hold, if it has any.
pub open spec fn section_view<'a>(section: Option<BlockStates<'a>>) -> Option<BlockStatesView> {
    match section {
        Some(states) => Some(states@),
        None => None,
    }
}

impl<'a> View for ChunkDocument<'a> {
    type V = ChunkView;

    open spec fn view(&self) -> ChunkView {
        ChunkView {
            x_pos: self.x_pos as int,
            z_pos: self.z_pos as int,
            min_section_y: self.min_section_y as int,
            sections: Seq::new(self.sections@.len(), |i: int| section_view(self.sections@[i])),
        }
    }
}

impl<'a> ChunkDocument<'a> {
    /// The index of the first section that has block states, if any has.
    /// Nothing below it is ever decoded.
    pub fn first_selected(&self) -> (r: Option<usize>)
        ensures
            match r {
                Some(first) => {
                    &&& first < self.sections@.len()
                    &&& self.sections@[first as int] is Some
                    &&& forall|i: int| 0 <= i < first ==> (#[trigger] self.sections@[i]) is None
                },
                None => forall|i: int|
                    0 <= i < self.sections@.len() ==> (#[trigger] self.sections@[i]) is None,
            },
    {
        let mut at: usize = 0;
        while at < self.sections.len()
            invariant
                at <= self.sections@.len(),
                forall|i: int| 0 <= i < at ==> (#[trigger] self.sections@[i]) is None,
            decreases self.sections@.len() - at,
        {
            if self.sections[at].is_some() {
                return Some(at);
            }
            at = at + 1;
        }
        None
    }
}

/// The palette entry that the tag with the entries `entry` stands for, if
/// it has a name. `Properties` that are no compound tag count as none.
pub open spec fn palette_entry_of(entry: TagEntries) -> Option<PaletteEntryView> {
    match text_at(entry, "Name"@) {
        Some(name) => Some(
            PaletteEntryView { name, properties: compound_at(entry, "Properties"@) },
        ),
        None => None,
    }
}

/// Whether every tag of `palette` stands for a palette entry.
pub open spec fn all_named(palette: Seq<TagEntries>) -> bool {
    forall|i: int| 0 <= i < palette.len() ==> (#[trigger] palette_entry_of(palette[i])) is Some
}

/// The palette entries that the tags of `palette` stand for.
pub open spec fn palette_of(palette: Seq<TagEntries>) -> Seq<PaletteEntryView> {
    Seq::new(palette.len(), |i: int| palette_entry_of(palette[i])->0)
}

/// What there is to decode in the section with the entries `section`.
///
/// A section without `block_states`, or whose block states lack the pair of
/// `palette` and `data`, has nothing to decode and is no error. A palette
/// entry without a name is one.
pub open spec fn section_of(section: TagEntries) -> Result<Option<BlockStatesView>, DecodeError> {
    match compound_at(section, "block_states"@) {
        None => Ok(None),
        Some(states) => match (
            long_array_at(states, "data"@),
            compound_list_at(states, "palette"@),
        ) {
            (Some(data), Some(palette)) => if all_named(palette) {
                Ok(Some(BlockStatesView { palette: palette_of(palette), data }))
            } else {
                Err(DecodeError::MissingField(Field::PaletteName))
            },
            _ => Ok(None),
        },
    }
}

/// What there is to decode in the first `count` of `sections`, or the error
/// of the first of them that has one.
pub open spec fn sections_of(sections: Seq<TagEntries>, count: nat) -> Result<
    Seq<Option<BlockStatesView>>,
    DecodeError,
>
    decreases count,
{
    if count == 0 {
        Ok(Seq::empty())
    } else {
        match sections_of(sections, (count - 1) as nat) {
            Err(e) => Err(e),
            Ok(before) => match section_of(sections[count - 1]) {
                Err(e) => Err(e),
                Ok(section) => Ok(before.push(section)),
            },
        }
    }
}

/// The document of the chunk with the entries `chunk`.
///
/// `sections`, `xPos` and `zPos` are required, and so is `Y` of the first
/// section, which anchors the chunk in the world; they are looked for in
/// this order, and then the sections are read from the first.
pub open spec fn chunk_of(chunk: TagEntries) -> Result<ChunkView, DecodeError> {
    match compound_list_at(chunk, "sections"@) {
        None => Err(DecodeError::MissingField(Field::Sections)),
        Some(sections) => match int_at(chunk, "xPos"@) {
            None => Err(DecodeError::MissingField(Field::XPos)),
            Some(x_pos) => match int_at(chunk, "zPos"@) {
                None => Err(DecodeError::MissingField(Field::ZPos)),
                Some(z_pos) => if sections.len() == 0 {
                    Err(DecodeError::MissingField(Field::SectionY))
                } else {
                    match byte_at(sections[0], "Y"@) {
                        None => Err(DecodeError::MissingField(Field::SectionY)),
                        Some(y) => match sections_of(sections, sections.len()) {
                            Err(e) => Err(e),
                            Ok(read) => Ok(
                                ChunkView {
                                    x_pos: x_pos as int,
                                    z_pos: z_pos as int,
                                    min_section_y: y as int,
                                    sections: read,
                                },
                            ),
                        },
                    }
                },
            },
        },
    }
}

/// The entries of each of `tags`.
pub open spec fn entries_of<'a>(tags: Seq<&'a nbt::CompoundTag>) -> Seq<TagEntries> {
    Seq::new(tags.len(), |i: int| tag_entries(*tags[i]))
}

/// Reads a palette out of its tags.
pub fn read_palette<'a>(tags: &Vec<&'a nbt::CompoundTag>) -> (r: Result<
    Vec<PaletteEntry<'a>>,
    DecodeError,
>)
    ensures
        match r {
            Ok(palette) => {
                &&& all_named(entries_of(tags@))
                &&& palette@.len() == tags@.len()
                &&& forall|i: int|
                    0 <= i < palette@.len() ==> (#[trigger] palette@[i])@ == palette_of(
                        entries_of(tags@),
                    )[i]
            },
            Err(e) => {
                &&& !all_named(entries_of(tags@))
                &&& e == DecodeError::MissingField(Field::PaletteName)
            },
        },
{
    let ghost entries = entries_of(tags@);
    let mut palette: Vec<PaletteEntry<'a>> = Vec::new();
    let mut at: usize = 0;
    while at < tags.len()
        invariant
            at <= tags@.len(),
            entries == entries_of(tags@),
            palette@.len() == at,
            forall|i: int| 0 <= i < at ==> (#[trigger] palette_entry_of(entries[i])) is Some,
            forall|i: int|
                0 <= i < at ==> (#[trigger] palette@[i])@ == palette_entry_of(entries[i])->0,
        decreases tags@.len() - at,
    {
        let tag: &'a nbt::CompoundTag = tags[at];
        assert(entries[at as int] == tag_entries(*tag));
        let name: &'a str = match tag.get_str("Name") {
            Ok(name) => name,
            Err(_) => {
                assert(palette_entry_of(entries[at as int]) is None);
                return Err(DecodeError::MissingField(Field::PaletteName));
            },
        };
        let properties: Option<&'a nbt::CompoundTag> = match tag.get_compound_tag("Properties") {
            Ok(properties) => Some(properties),
            Err(_) => None,
        };
        palette.push(PaletteEntry { name, properties });
        at = at + 1;
    }
    Ok(palette)
}

/// Reads what there is to decode in `section`.
pub fn read_section<'a>(section: &'a nbt::CompoundTag) -> (r: Result<
    Option<BlockStates<'a>>,
    DecodeError,
>)
    ensures
        match r {
            Ok(states) => section_of(tag_entries(*section)) == Ok::<_, DecodeError>(
                section_view(states),
            ),
            Err(e) => section_of(tag_entries(*section)) == Err::<Option<BlockStatesView>, _>(e),
        },
{
    let states: &'a nbt::CompoundTag = match section.get_compound_tag("block_states") {
        Ok(states) => states,
        Err(_) => {
            return Ok(None);
        },
    };
    match (states.get_i64_vec("data"), states.get_compound_tag_vec("palette")) {
        (Ok(data), Ok(tags)) => {
            let ghost listed = compound_list_at(tag_entries(*states), "palette"@)->0;
            assert(listed =~= entries_of(tags@));
            match read_palette(&tags) {
                Ok(palette) => {
                    let read = BlockStates { palette, data: data.as_slice() };
                    assert(read@.palette =~= palette_of(listed));
                    Ok(Some(read))
                },
                Err(e) => Err(e),
            }
        },
        _ => Ok(None),
    }
}

/// Reads the document out of a chunk's root tag.
#[verifier::loop_isolation(false)]
pub fn read_document<'a>(chunk: &'a nbt::CompoundTag) -> (r: Result<
    ChunkDocument<'a>,
    DecodeError,
>)
    ensures
        match r {
            Ok(document) => chunk_of(tag_entries(*chunk)) == Ok::<_, DecodeError>(document@),
            Err(e) => chunk_of(tag_entries(*chunk)) == Err::<ChunkView, _>(e),
        },
{
    let tags: Vec<&'a nbt::CompoundTag> = match chunk.get_compound_tag_vec("sections") {
        Ok(tags) => tags,
        Err(_) => {
            return Err(DecodeError::MissingField(Field::Sections));
        },
    };
    let ghost listed = compound_list_at(tag_entries(*chunk), "sections"@)->0;
    let x_pos: i32 = match chunk.get_i32("xPos") {
        Ok(x_pos) => x_pos,
        Err(_) => {
            return Err(DecodeError::MissingField(Field::XPos));
        },
    };
    let z_pos: i32 = match chunk.get_i32("zPos") {
        Ok(z_pos) => z_pos,
        Err(_) => {
            return Err(DecodeError::MissingField(Field::ZPos));
        },
    };
    if tags.len() == 0 {
        return Err(DecodeError::MissingField(Field::SectionY));
    }
    let min_section_y: i32 = match tags[0].get_i8("Y") {
        Ok(y) => y as i32,
        Err(_) => {
            return Err(DecodeError::MissingField(Field::SectionY));
        },
    };
    let mut sections: Vec<Option<BlockStates<'a>>> = Vec::new();
    let mut at: usize = 0;
    while at < tags.len()
        invariant
            at <= tags@.len(),
            listed.len() == tags@.len(),
            forall|i: int| 0 <= i < tags@.len() ==> tag_entries(*#[trigger] tags@[i]) == listed[i],
            sections@.len() == at,
            sections_of(listed, at as nat) matches Ok(read) && read =~= Seq::new(
                at as nat,
                |i: int| section_view(sections@[i]),
            ),
        decreases tags@.len() - at,
    {
        let ghost before = Seq::new(at as nat, |i: int| section_view(sections@[i]));
        match read_section(tags[at]) {
            Ok(section) => {
                sections.push(section);
                assert(Seq::new((at + 1) as nat, |i: int| section_view(sections@[i]))
                    =~= before.push(section_view(section)));
            },
            Err(e) => {
                proof {
                    lemma_sections_error_stays(listed, (at + 1) as nat, listed.len());
                }
                return Err(e);
            },
        }
        at = at + 1;
    }
    let document = ChunkDocument { x_pos, z_pos, min_section_y, sections };
    assert(document@.sections =~= sections_of(listed, listed.len())->Ok_0);
    Ok(document)
}

/// Where the first `count` sections are read, each is read for itself.
pub proof fn lemma_sections_read(sections: Seq<TagEntries>, count: nat, index: int)
    requires
        sections_of(sections, count) is Ok,
        0 <= index < count,
    ensures
        sections_of(sections, count)->Ok_0.len() == count,
        section_of(sections[index]) == Ok::<Option<BlockStatesView>, DecodeError>(
            sections_of(sections, count)->Ok_0[index],
        ),
    decreases count,
{
    lemma_sections_len(sections, count);
    lemma_sections_len(sections, (count - 1) as nat);
    if index < count - 1 {
        lemma_sections_read(sections, (count - 1) as nat, index);
    }
}

/// As many sections are read as were asked for.
pub proof fn lemma_sections_len(sections: Seq<TagEntries>, count: nat)
    requires
        sections_of(sections, count) is Ok,
    ensures
        sections_of(sections, count)->Ok_0.len() == count,
    decreases count,
{
    if count > 0 {
        lemma_sections_len(sections, (count - 1) as nat);
    }
}

/// An error among the first sections is the error of every longer run.
pub proof fn lemma_sections_error_stays(sections: Seq<TagEntries>, count: nat, longer: nat)
    requires
        count <= longer,
        sections_of(sections, count) is Err,
    ensures
        sections_of(sections, longer) == sections_of(sections, count),
    decreases longer - count,
{
    if count < longer {
        lemma_sections_error_stays(sections, count, (longer - 1) as nat);
    }
}

} // verus!
