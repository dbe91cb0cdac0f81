use chunk_decode::block::{Block, PaletteEntry};
use chunk_decode::decoder::{BlockDecoder, DEFAULT_SECTION_CAPACITY};
use chunk_decode::error::DecodeError;
use chunk_decode::pack::pack_indices;
use chunk_decode::position::calculate_position;
use nbt::CompoundTag;

fn entry(name: &str) -> PaletteEntry<'_> {
    PaletteEntry { name, properties: None }
}

fn stream(indices: &[u64], bits: u32) -> Vec<i64> {
    pack_indices(indices, bits).unwrap()
}

fn is_default_air(block: &Block<'_>, decoder: &BlockDecoder) -> bool {
    block.namespace == "minecraft"
        && block.block_name == "air"
        && block.world_pos.is_none()
        && std::ptr::eq(block.properties, decoder.empty_properties())
        && block.biome.is_none()
        && !block.is_structure
}

#[test]
fn decoder_defaults() {
    assert_eq!(DEFAULT_SECTION_CAPACITY, 25);
    assert_eq!(BlockDecoder::new().section_capacity(), 25);
    assert_eq!(BlockDecoder::with_section_capacity(40).section_capacity(), 40);
    assert!(BlockDecoder::new().empty_properties().is_empty());
}

#[test]
fn air_block_is_the_default() {
    let decoder = BlockDecoder::new();
    let air = Block::air(decoder.empty_properties());
    assert!(is_default_air(&air, &decoder));
}

#[test]
fn air_slab_is_all_air() {
    let decoder = BlockDecoder::new();
    let slab = decoder.air_slab();
    assert_eq!(slab.len(), 4096);
    assert!(slab.iter().all(|block| is_default_air(block, &decoder)));
}

#[test]
fn unpack_stone_with_one_slot_of_air() {
    let decoder = BlockDecoder::new();
    let palette = [entry("minecraft:air"), entry("minecraft:stone")];
    let mut indices = vec![1u64; 4096];
    indices[0] = 0;
    let blocks = decoder.unpack(0, 3, -2, -4, &palette, &stream(&indices, 4)).unwrap();
    assert_eq!(blocks.len(), 4096);
    assert!(is_default_air(&blocks[0], &decoder));
    for slot in 1..4096 {
        let block = &blocks[slot];
        assert_eq!(block.namespace, "minecraft");
        assert_eq!(block.block_name, "stone");
        assert_eq!(block.world_pos, Some(calculate_position(slot, 3, -2, -4, 0)));
        assert!(std::ptr::eq(block.properties, decoder.empty_properties()));
        assert!(block.biome.is_none());
        assert!(!block.is_structure);
    }
    assert_eq!(blocks[1].world_pos, Some((49, -64, -32)));
    assert_eq!(blocks[4095].world_pos, Some((63, -49, -17)));
}

#[test]
fn air_leaves_its_slot_empty_and_moves_on() {
    let decoder = BlockDecoder::new();
    let palette = [entry("minecraft:dirt"), entry("minecraft:air")];
    let indices: Vec<u64> = (0..4096).map(|slot| (slot % 3 == 1) as u64).collect();
    let blocks = decoder.unpack(2, 0, 0, 0, &palette, &stream(&indices, 4)).unwrap();
    for slot in 0..4096 {
        if slot % 3 == 1 {
            assert!(is_default_air(&blocks[slot], &decoder));
        } else {
            assert_eq!(blocks[slot].block_name, "dirt");
            assert_eq!(blocks[slot].world_pos, Some(calculate_position(slot, 0, 0, 0, 2)));
        }
    }
}

#[test]
fn air_with_properties_is_still_empty() {
    let decoder = BlockDecoder::new();
    let mut properties = CompoundTag::new();
    properties.insert_str("waterlogged", "false");
    let palette = [PaletteEntry { name: "minecraft:air", properties: Some(&properties) }];
    let blocks = decoder.unpack(0, 0, 0, 0, &palette, &[0; 256]).unwrap();
    assert!(blocks.iter().all(|block| is_default_air(block, &decoder)));
}

#[test]
fn blocks_borrow_the_properties_of_their_palette_entry() {
    let decoder = BlockDecoder::new();
    let mut facing_north = CompoundTag::new();
    facing_north.insert_str("facing", "north");
    let mut facing_south = CompoundTag::new();
    facing_south.insert_str("facing", "south");
    let palette = [
        PaletteEntry { name: "minecraft:furnace", properties: Some(&facing_north) },
        PaletteEntry { name: "minecraft:furnace", properties: Some(&facing_south) },
        PaletteEntry { name: "minecraft:stone", properties: None },
    ];
    let indices: Vec<u64> = (0..4096).map(|slot| slot % 3).collect();
    let blocks = decoder.unpack(0, 0, 0, 0, &palette, &stream(&indices, 4)).unwrap();
    assert!(std::ptr::eq(blocks[0].properties, &facing_north));
    assert!(std::ptr::eq(blocks[3].properties, &facing_north));
    assert!(std::ptr::eq(blocks[1].properties, &facing_south));
    assert!(std::ptr::eq(blocks[2].properties, decoder.empty_properties()));
    assert_eq!(blocks[0].properties.get_str("facing").unwrap(), "north");
    assert_eq!(blocks[4].properties.get_str("facing").unwrap(), "south");
    assert!(blocks[5].properties.is_empty());
    assert_eq!(blocks[0].block_name, blocks[3].block_name);
    assert_eq!(blocks[0].namespace, blocks[3].namespace);
}

#[test]
fn identifier_without_separator_decodes_to_placed_air() {
    let decoder = BlockDecoder::new();
    let palette = [entry("stone")];
    let blocks = decoder.unpack(0, 1, 1, 0, &palette, &[0; 256]).unwrap();
    assert_eq!(blocks[0].namespace, "minecraft");
    assert_eq!(blocks[0].block_name, "air");
    assert_eq!(blocks[0].world_pos, Some((16, 0, 16)));
    assert_eq!(blocks[17].world_pos, Some((17, 0, 17)));
}

#[test]
fn namespace_and_name_are_split_at_the_first_separator() {
    let decoder = BlockDecoder::new();
    let palette = [entry("mod:machine:tier2")];
    let blocks = decoder.unpack(0, 0, 0, 0, &palette, &[0; 256]).unwrap();
    assert_eq!(blocks[9].namespace, "mod");
    assert_eq!(blocks[9].block_name, "machine:tier2");
}

#[test]
fn palette_of_seventeen_takes_five_bits() {
    let decoder = BlockDecoder::new();
    let names: Vec<String> = (0..17).map(|i| format!("minecraft:block_{}", i)).collect();
    let palette: Vec<PaletteEntry<'_>> = names.iter().map(|name| entry(name)).collect();
    let indices: Vec<u64> = (0..4096).map(|slot| slot % 17).collect();
    let data = stream(&indices, 5);
    assert_eq!(data.len(), 342);
    let blocks = decoder.unpack(0, 0, 0, 0, &palette, &data).unwrap();
    for slot in 0..4096 {
        assert_eq!(blocks[slot].block_name, format!("block_{}", slot % 17));
    }
    // The same words read four bits at a time name other blocks.
    assert!(decoder.unpack(0, 0, 0, 0, &palette[..16], &data).is_ok());
    assert_ne!(
        decoder.unpack(0, 0, 0, 0, &palette[..16], &data).unwrap()[12].block_name,
        "block_12"
    );
}

#[test]
fn palette_of_two_hundred_fifty_six_takes_eight_bits() {
    let decoder = BlockDecoder::new();
    let names: Vec<String> = (0..256).map(|i| format!("m:b{}", i)).collect();
    let palette: Vec<PaletteEntry<'_>> = names.iter().map(|name| entry(name)).collect();
    let indices: Vec<u64> = (0..4096).map(|slot| (slot * 7) % 256).collect();
    let blocks = decoder.unpack(0, 0, 0, 0, &palette, &stream(&indices, 8)).unwrap();
    for slot in 0..4096 {
        assert_eq!(blocks[slot].block_name, format!("b{}", (slot * 7) % 256));
    }
}

#[test]
fn negative_words_decode_by_their_bit_pattern() {
    let decoder = BlockDecoder::new();
    let names: Vec<String> = (0..16).map(|i| format!("m:b{}", i)).collect();
    let palette: Vec<PaletteEntry<'_>> = names.iter().map(|name| entry(name)).collect();
    let blocks = decoder.unpack(0, 0, 0, 0, &palette, &[-1; 256]).unwrap();
    assert!(blocks.iter().all(|block| block.block_name == "b15"));
    let blocks = decoder.unpack(0, 0, 0, 0, &palette, &[i64::MIN; 256]).unwrap();
    assert_eq!(blocks[15].block_name, "b8");
    assert_eq!(blocks[14].block_name, "b0");
}

#[test]
fn index_past_the_palette_is_an_error() {
    let decoder = BlockDecoder::new();
    let palette = [entry("minecraft:air"), entry("minecraft:stone")];
    let mut indices = vec![1u64; 4096];
    indices[4095] = 2;
    assert_eq!(
        decoder.unpack(0, 0, 0, 0, &palette, &stream(&indices, 4)).err(),
        Some(DecodeError::PaletteIndexOutOfRange)
    );
    assert_eq!(
        decoder.unpack(0, 0, 0, 0, &[], &[0; 256]).err(),
        Some(DecodeError::PaletteIndexOutOfRange)
    );
}

#[test]
fn short_stream_is_an_error() {
    let decoder = BlockDecoder::new();
    let palette = [entry("minecraft:stone")];
    assert_eq!(
        decoder.unpack(0, 0, 0, 0, &palette, &[]).err(),
        Some(DecodeError::TruncatedData)
    );
    assert_eq!(
        decoder.unpack(0, 0, 0, 0, &palette, &[0; 255]).err(),
        Some(DecodeError::TruncatedData)
    );
    assert!(decoder.unpack(0, 0, 0, 0, &palette, &[0; 256]).is_ok());
    assert!(decoder.unpack(0, 0, 0, 0, &palette, &[0; 300]).is_ok());
    assert_eq!(decoder.unpack(0, 0, 0, 0, &[], &[]).err(), Some(DecodeError::TruncatedData));
}

#[test]
fn the_first_bad_entry_decides_the_error() {
    let decoder = BlockDecoder::new();
    let palette = [entry("minecraft:stone")];
    // Entry 5 is out of range; the stream ends after entry 15.
    assert_eq!(
        decoder.unpack(0, 0, 0, 0, &palette, &[0x0010_0000]).err(),
        Some(DecodeError::PaletteIndexOutOfRange)
    );
    // The stream ends after entry 15; entry 16 would be the first bad one.
    assert_eq!(
        decoder.unpack(0, 0, 0, 0, &palette, &[0]).err(),
        Some(DecodeError::TruncatedData)
    );
}
