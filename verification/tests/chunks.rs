use chunk_decode::block::Block;
use chunk_decode::decoder::BlockDecoder;
use chunk_decode::document::{read_document, read_palette, read_section};
use chunk_decode::error::{DecodeError, Field};
use chunk_decode::pack::pack_indices;
use chunk_decode::position::calculate_position;
use chunk_decode::region::load_chunk;
use nbt::CompoundTag;

fn palette_entry(name: &str) -> CompoundTag {
    let mut entry = CompoundTag::new();
    entry.insert_str("Name", name);
    entry
}

fn block_states(palette: Vec<CompoundTag>, indices: &[u64], bits: u32) -> CompoundTag {
    let mut states = CompoundTag::new();
    states.insert_compound_tag_vec("palette", palette);
    states.insert_i64_vec("data", pack_indices(indices, bits).unwrap());
    states
}

fn section(y: i8, states: Option<CompoundTag>) -> CompoundTag {
    let mut section = CompoundTag::new();
    section.insert_i8("Y", y);
    if let Some(states) = states {
        section.insert_compound_tag("block_states", states);
    }
    section
}

fn chunk(x: i32, z: i32, sections: Vec<CompoundTag>) -> CompoundTag {
    let mut chunk = CompoundTag::new();
    chunk.insert_i32("xPos", x);
    chunk.insert_i32("zPos", z);
    chunk.insert_compound_tag_vec("sections", sections);
    chunk
}

fn stone_with_air_at_slot_0() -> CompoundTag {
    let mut indices = vec![1u64; 4096];
    indices[0] = 0;
    block_states(
        vec![palette_entry("minecraft:air"), palette_entry("minecraft:stone")],
        &indices,
        4,
    )
}

fn is_default_air(block: &Block<'_>, decoder: &BlockDecoder) -> bool {
    block.namespace == "minecraft"
        && block.block_name == "air"
        && block.world_pos.is_none()
        && std::ptr::eq(block.properties, decoder.empty_properties())
        && block.biome.is_none()
        && !block.is_structure
}

fn is_all_air(blocks: &[Block<'_>], decoder: &BlockDecoder) -> bool {
    blocks.len() == 4096 && blocks.iter().all(|block| is_default_air(block, decoder))
}

#[test]
fn one_section_of_stone_with_air_at_slot_0() {
    let decoder = BlockDecoder::new();
    let document = chunk(5, -7, vec![section(-4, Some(stone_with_air_at_slot_0()))]);
    let sections = decoder.parse_blocks(&document).unwrap();
    assert_eq!(sections.len(), 25);
    assert!(is_default_air(&sections[0][0], &decoder));
    for slot in 1..4096 {
        let block = &sections[0][slot];
        assert_eq!(block.namespace, "minecraft");
        assert_eq!(block.block_name, "stone");
        assert_eq!(block.world_pos, Some(calculate_position(slot, 5, -7, -4, 0)));
        assert!(block.properties.is_empty());
        assert!(block.biome.is_none());
        assert!(!block.is_structure);
    }
    assert_eq!(sections[0][1].world_pos, Some((81, -64, -112)));
    assert_eq!(sections[0][4095].world_pos, Some((95, -49, -97)));
    for index in 1..25 {
        assert!(is_all_air(&sections[index], &decoder));
    }
}

#[test]
fn first_section_anchors_the_height() {
    let decoder = BlockDecoder::new();
    let document = chunk(
        0,
        0,
        vec![
            section(-4, None),
            section(-3, Some(stone_with_air_at_slot_0())),
            section(9, Some(stone_with_air_at_slot_0())),
        ],
    );
    let sections = decoder.parse_blocks(&document).unwrap();
    assert!(is_all_air(&sections[0], &decoder));
    assert_eq!(sections[1][1].world_pos, Some((1, -48, 0)));
    assert_eq!(sections[1][4095].world_pos, Some((15, -33, 15)));
    // The third section is placed by where it stands, not by its own `Y`.
    assert_eq!(sections[2][1].world_pos, Some((1, -32, 0)));
}

#[test]
fn section_without_block_states_is_air() {
    let decoder = BlockDecoder::new();
    let document = chunk(
        1,
        1,
        vec![
            section(0, Some(stone_with_air_at_slot_0())),
            section(1, None),
            section(2, Some(stone_with_air_at_slot_0())),
        ],
    );
    let sections = decoder.parse_blocks(&document).unwrap();
    assert_eq!(sections[0][7].block_name, "stone");
    assert!(is_all_air(&sections[1], &decoder));
    assert_eq!(sections[2][7].block_name, "stone");
    assert_eq!(sections[2][7].world_pos, Some(calculate_position(7, 1, 1, 0, 2)));
}

#[test]
fn block_states_without_palette_or_data_are_air() {
    let decoder = BlockDecoder::new();
    let mut only_palette = CompoundTag::new();
    only_palette.insert_compound_tag_vec("palette", vec![palette_entry("minecraft:stone")]);
    let mut only_data = CompoundTag::new();
    only_data.insert_i64_vec("data", vec![0; 256]);
    let mut wrong_types = CompoundTag::new();
    wrong_types.insert_str("palette", "stone");
    wrong_types.insert_i32("data", 1);
    let mut mixed_palette = CompoundTag::new();
    mixed_palette.insert_str_vec("palette", vec!["minecraft:stone"]);
    mixed_palette.insert_i64_vec("data", vec![0; 256]);
    let document = chunk(
        0,
        0,
        vec![
            section(0, Some(CompoundTag::new())),
            section(1, Some(only_palette)),
            section(2, Some(only_data)),
            section(3, Some(wrong_types)),
            section(4, Some(mixed_palette)),
            section(5, Some(stone_with_air_at_slot_0())),
        ],
    );
    let sections = decoder.parse_blocks(&document).unwrap();
    for index in 0..5 {
        assert!(is_all_air(&sections[index], &decoder));
    }
    assert_eq!(sections[5][1].block_name, "stone");
}

#[test]
fn block_states_of_another_type_are_none() {
    let decoder = BlockDecoder::new();
    let mut odd = CompoundTag::new();
    odd.insert_i8("Y", 0);
    odd.insert_str("block_states", "none");
    let document = chunk(0, 0, vec![odd]);
    let sections = decoder.parse_blocks(&document).unwrap();
    assert!(is_all_air(&sections[0], &decoder));
}

#[test]
fn properties_come_from_the_palette() {
    let decoder = BlockDecoder::new();
    let mut properties = CompoundTag::new();
    properties.insert_str("axis", "y");
    let mut log = palette_entry("minecraft:oak_log");
    log.insert_compound_tag("Properties", properties);
    let mut odd = palette_entry("minecraft:odd");
    odd.insert_str("Properties", "not a compound");
    let indices: Vec<u64> = (0..4096).map(|slot| slot % 3).collect();
    let states = block_states(vec![log, palette_entry("minecraft:stone"), odd], &indices, 4);
    let document = chunk(0, 0, vec![section(0, Some(states))]);
    let sections = decoder.parse_blocks(&document).unwrap();
    assert_eq!(sections[0][0].block_name, "oak_log");
    assert_eq!(sections[0][0].properties.get_str("axis").unwrap(), "y");
    assert!(std::ptr::eq(sections[0][0].properties, sections[0][3].properties));
    assert!(sections[0][1].properties.is_empty());
    assert!(std::ptr::eq(sections[0][1].properties, decoder.empty_properties()));
    assert_eq!(sections[0][2].block_name, "odd");
    assert!(std::ptr::eq(sections[0][2].properties, decoder.empty_properties()));
}

#[test]
fn required_fields_are_looked_for_in_order() {
    let decoder = BlockDecoder::new();
    let empty = CompoundTag::new();
    assert_eq!(
        decoder.parse_blocks(&empty).err(),
        Some(DecodeError::MissingField(Field::Sections))
    );
    let mut only_sections = CompoundTag::new();
    only_sections.insert_compound_tag_vec("sections", vec![section(0, None)]);
    assert_eq!(
        decoder.parse_blocks(&only_sections).err(),
        Some(DecodeError::MissingField(Field::XPos))
    );
    only_sections.insert_i32("xPos", 1);
    assert_eq!(
        decoder.parse_blocks(&only_sections).err(),
        Some(DecodeError::MissingField(Field::ZPos))
    );
    only_sections.insert_i32("zPos", 1);
    assert!(decoder.parse_blocks(&only_sections).is_ok());
}

#[test]
fn required_fields_of_another_type_are_missing() {
    let decoder = BlockDecoder::new();
    let mut document = chunk(0, 0, vec![section(0, None)]);
    document.insert_i64("xPos", 1);
    assert_eq!(
        decoder.parse_blocks(&document).err(),
        Some(DecodeError::MissingField(Field::XPos))
    );
    let mut document = chunk(0, 0, vec![section(0, None)]);
    document.insert_str("zPos", "1");
    assert_eq!(
        decoder.parse_blocks(&document).err(),
        Some(DecodeError::MissingField(Field::ZPos))
    );
    let mut document = chunk(0, 0, vec![]);
    document.insert_i64_vec("sections", vec![1, 2]);
    assert_eq!(
        decoder.parse_blocks(&document).err(),
        Some(DecodeError::MissingField(Field::Sections))
    );
    let mut document = chunk(0, 0, vec![]);
    document.insert_str_vec("sections", vec!["a"]);
    assert_eq!(
        decoder.parse_blocks(&document).err(),
        Some(DecodeError::MissingField(Field::Sections))
    );
}

#[test]
fn the_first_section_needs_its_height() {
    let decoder = BlockDecoder::new();
    assert_eq!(
        decoder.parse_blocks(&chunk(0, 0, vec![])).err(),
        Some(DecodeError::MissingField(Field::SectionY))
    );
    let bare = CompoundTag::new();
    assert_eq!(
        decoder.parse_blocks(&chunk(0, 0, vec![bare])).err(),
        Some(DecodeError::MissingField(Field::SectionY))
    );
    let mut wide = CompoundTag::new();
    wide.insert_i32("Y", 0);
    assert_eq!(
        decoder.parse_blocks(&chunk(0, 0, vec![wide])).err(),
        Some(DecodeError::MissingField(Field::SectionY))
    );
    // Only the first section is asked.
    let bare = CompoundTag::new();
    assert!(decoder.parse_blocks(&chunk(0, 0, vec![section(0, None), bare])).is_ok());
}

#[test]
fn palette_entry_without_name_is_an_error() {
    let decoder = BlockDecoder::new();
    let states = block_states(
        vec![palette_entry("minecraft:stone"), CompoundTag::new()],
        &[0; 4096],
        4,
    );
    assert_eq!(
        decoder.parse_blocks(&chunk(0, 0, vec![section(0, Some(states))])).err(),
        Some(DecodeError::MissingField(Field::PaletteName))
    );
    let mut numbered = CompoundTag::new();
    numbered.insert_i32("Name", 3);
    let states = block_states(vec![numbered], &[0; 4096], 4);
    assert_eq!(
        decoder.parse_blocks(&chunk(0, 0, vec![section(0, Some(states))])).err(),
        Some(DecodeError::MissingField(Field::PaletteName))
    );
}

#[test]
fn corrupt_section_fails_the_chunk() {
    let decoder = BlockDecoder::new();
    let mut indices = vec![0u64; 4096];
    indices[100] = 1;
    let bad_index = block_states(vec![palette_entry("minecraft:stone")], &indices, 4);
    let document = chunk(
        0,
        0,
        vec![section(0, Some(stone_with_air_at_slot_0())), section(1, Some(bad_index))],
    );
    assert_eq!(
        decoder.parse_blocks(&document).err(),
        Some(DecodeError::PaletteIndexOutOfRange)
    );
    let short = block_states(vec![palette_entry("minecraft:stone")], &[0; 4000], 4);
    let document = chunk(0, 0, vec![section(0, Some(short))]);
    assert_eq!(decoder.parse_blocks(&document).err(), Some(DecodeError::TruncatedData));
}

#[test]
fn reading_fails_before_decoding_does() {
    let decoder = BlockDecoder::new();
    let short = block_states(vec![palette_entry("minecraft:stone")], &[0; 16], 4);
    let nameless = block_states(vec![CompoundTag::new()], &[0; 4096], 4);
    let document = chunk(0, 0, vec![section(0, Some(short)), section(1, Some(nameless))]);
    assert_eq!(
        decoder.parse_blocks(&document).err(),
        Some(DecodeError::MissingField(Field::PaletteName))
    );
}

#[test]
fn more_sections_than_room_is_an_error() {
    let sections: Vec<CompoundTag> = (0..26).map(|y| section(y, None)).collect();
    let document = chunk(0, 0, sections);
    assert_eq!(
        BlockDecoder::new().parse_blocks(&document).err(),
        Some(DecodeError::TooManySections)
    );
    let roomy = BlockDecoder::with_section_capacity(26);
    assert_eq!(roomy.parse_blocks(&document).unwrap().len(), 26);
    let sections: Vec<CompoundTag> = (0..25).map(|y| section(y, None)).collect();
    assert_eq!(BlockDecoder::new().parse_blocks(&chunk(0, 0, sections)).unwrap().len(), 25);
}

#[test]
fn capacity_sets_the_number_of_sections() {
    let document = chunk(0, 0, vec![section(0, Some(stone_with_air_at_slot_0()))]);
    let small = BlockDecoder::with_section_capacity(1);
    let sections = small.parse_blocks(&document).unwrap();
    assert_eq!(sections.len(), 1);
    assert_eq!(sections[0][1].block_name, "stone");
    let none = BlockDecoder::with_section_capacity(0);
    assert_eq!(none.parse_blocks(&document).err(), Some(DecodeError::TooManySections));
}

#[test]
fn read_document_keeps_what_the_decoder_needs() {
    let tag = chunk(
        11,
        -12,
        vec![section(-2, None), section(-1, Some(stone_with_air_at_slot_0())), section(0, None)],
    );
    let document = read_document(&tag).unwrap();
    assert_eq!(document.x_pos, 11);
    assert_eq!(document.z_pos, -12);
    assert_eq!(document.min_section_y, -2);
    assert_eq!(document.sections.len(), 3);
    assert!(document.sections[0].is_none());
    assert!(document.sections[2].is_none());
    let states = document.sections[1].as_ref().unwrap();
    assert_eq!(states.palette.len(), 2);
    assert_eq!(states.palette[0].name, "minecraft:air");
    assert_eq!(states.palette[1].name, "minecraft:stone");
    assert!(states.palette[1].properties.is_none());
    assert_eq!(states.data.len(), 256);
    assert_eq!(states.data[0], 0x1111_1111_1111_1110);
    assert_eq!(document.first_selected(), Some(1));
}

#[test]
fn first_selected_of_a_chunk_without_block_states() {
    let tag = chunk(0, 0, vec![section(0, None), section(1, None)]);
    assert_eq!(read_document(&tag).unwrap().first_selected(), None);
}

#[test]
fn read_section_tells_nothing_from_something() {
    assert!(read_section(&section(0, None)).unwrap().is_none());
    assert!(read_section(&section(0, Some(CompoundTag::new()))).unwrap().is_none());
    let full = section(0, Some(stone_with_air_at_slot_0()));
    let read = read_section(&full);
    assert_eq!(read.unwrap().unwrap().palette.len(), 2);
}

#[test]
fn read_palette_keeps_the_order() {
    let first = palette_entry("a:b");
    let second = palette_entry("c:d");
    let palette = read_palette(&vec![&first, &second]).unwrap();
    assert_eq!(palette[0].name, "a:b");
    assert_eq!(palette[1].name, "c:d");
    assert_eq!(read_palette(&vec![]).unwrap().len(), 0);
    let nameless = CompoundTag::new();
    assert_eq!(
        read_palette(&vec![&first, &nameless]).err(),
        Some(DecodeError::MissingField(Field::PaletteName))
    );
}

#[test]
fn decode_document_matches_parse_blocks() {
    let decoder = BlockDecoder::new();
    let tag = chunk(2, 3, vec![section(1, Some(stone_with_air_at_slot_0()))]);
    let document = read_document(&tag).unwrap();
    let decoded = decoder.decode_document(&document).unwrap();
    let parsed = decoder.parse_blocks(&tag).unwrap();
    assert_eq!(decoded.len(), parsed.len());
    for index in 0..decoded.len() {
        for slot in 0..4096 {
            assert_eq!(decoded[index][slot].block_name, parsed[index][slot].block_name);
            assert_eq!(decoded[index][slot].world_pos, parsed[index][slot].world_pos);
        }
    }
    assert_eq!(decoded[0][4095].world_pos, Some((47, 31, 63)));
}

#[test]
fn from_container_to_blocks() {
    let tag = chunk(3, 1, vec![section(-4, Some(stone_with_air_at_slot_0()))]);
    let mut payload = Vec::new();
    nbt::encode::write_zlib_compound_tag(&mut payload, &tag).unwrap();
    let mut container = vec![0u8; 8192];
    let entry = 4 * (3 + 32);
    container[entry..entry + 4].copy_from_slice(&[0, 0, 2, 1]);
    container.extend_from_slice(&(payload.len() as u32).to_be_bytes());
    container.push(2);
    container.extend_from_slice(&payload);
    container.resize(3 * 4096, 0);

    let loaded = load_chunk(&container, 3, 1).unwrap().unwrap();
    let decoder = BlockDecoder::new();
    let sections = decoder.parse_blocks(&loaded).unwrap();
    assert!(is_default_air(&sections[0][0], &decoder));
    assert_eq!(sections[0][1].block_name, "stone");
    assert_eq!(sections[0][1].world_pos, Some((49, -64, 16)));
    assert!(matches!(load_chunk(&container, 4, 1), Ok(None)));
}
