use rastra::entry::{read_entry, write_entry, BlockPaletteEntry};
use rastra::packing::{bit_width_for, cell_of_word, cells_per_word_of, pack_word, word_count_of};
use rastra::palette::{decode_layers, encode_layers, intern, position_of, CodecError, PalettedStorage};

fn entries(count: usize) -> Vec<BlockPaletteEntry> {
    (0..count).map(|k| BlockPaletteEntry::new(&format!("test:block_{k}"))).collect()
}

fn storage_of(palette_len: usize) -> PalettedStorage {
    let blocks: Vec<u32> = (0..4096u32).map(|i| (i * 7 + i / 5) % palette_len as u32).collect();
    PalettedStorage::new(blocks, entries(palette_len)).unwrap()
}

fn air_and_dirt() -> PalettedStorage {
    let mut blocks = vec![0u32; 4096];
    for cell in blocks.iter_mut().take(256) {
        *cell = 1;
    }
    let palette = vec![BlockPaletteEntry::new("minecraft:air"), BlockPaletteEntry::new("minecraft:dirt")];
    PalettedStorage::new(blocks, palette).unwrap()
}

fn nbt_of(name: &str) -> Vec<u8> {
    let mut fields = std::collections::HashMap::new();
    fields.insert(String::from("name"), nbtx::Value::String(String::from(name)));
    nbtx::to_net_bytes(&nbtx::Value::Compound(fields)).unwrap()
}

#[test]
fn the_width_is_the_smallest_allowed_one_that_holds_the_palette() {
    let expected = [
        (0usize, 1u8), (1, 1), (2, 1), (3, 2), (4, 2), (5, 3), (8, 3), (9, 4), (16, 4), (17, 5), (32, 5),
        (33, 6), (64, 6), (65, 8), (128, 8), (256, 8), (257, 16), (4096, 16), (65_536, 16),
    ];
    for (len, width) in expected {
        assert_eq!(bit_width_for(len), width, "palette of {len}");
    }
}

#[test]
fn a_palette_of_two_is_packed_one_bit_per_cell() {
    let wire = storage_of(2).encode(false);
    assert_eq!(wire[0] >> 1, 1);
    assert_eq!(wire.len(), 1 + 4 * 128);
}

#[test]
fn a_palette_of_257_is_packed_sixteen_bits_per_cell() {
    let wire = storage_of(257).encode(false);
    assert!(wire[0] >> 1 >= 9);
    assert_eq!(wire[0] >> 1, 16);
    assert_eq!(wire.len(), 1 + 4 * 2048);
}

#[test]
fn words_hold_whole_cells_only() {
    let expected = [(1u8, 32usize, 128usize), (2, 16, 256), (3, 10, 410), (4, 8, 512), (5, 6, 683), (6, 5, 820), (8, 4, 1024), (16, 2, 2048)];
    for (width, per_word, words) in expected {
        assert_eq!(cells_per_word_of(width), per_word);
        assert_eq!(word_count_of(width), words);
    }
    for (len, words) in [(2usize, 128usize), (4, 256), (8, 410), (16, 512), (32, 683), (64, 820), (256, 1024), (257, 2048)] {
        assert_eq!(storage_of(len).encode(false).len(), 1 + 4 * words);
    }
}

#[test]
fn the_first_cell_sits_in_the_lowest_bits() {
    let mut cells = vec![0u32; 4096];
    cells[0] = 5;
    cells[1] = 2;
    cells[9] = 7;
    cells[10] = 3;
    // Three bits per cell, ten cells per word, two bits left over.
    assert_eq!(pack_word(&cells, 3, 0), 5 | (2 << 3) | (7 << 27));
    assert_eq!(pack_word(&cells, 3, 10), 3);
    assert_eq!(cell_of_word(5 | (2 << 3) | (7 << 27), 3, 0), 5);
    assert_eq!(cell_of_word(5 | (2 << 3) | (7 << 27), 3, 1), 2);
    assert_eq!(cell_of_word(5 | (2 << 3) | (7 << 27), 3, 9), 7);
    // The padding at the top of the word is not part of any cell.
    assert_eq!(cell_of_word(0xc000_0000, 3, 9), 0);
}

#[test]
fn the_last_word_is_filled_up_with_zero() {
    let mut cells = vec![0u32; 4096];
    cells[4090] = 1;
    cells[4095] = 6;
    // 4096 cells at ten per word: the last word holds cells 4090 to 4095.
    assert_eq!(pack_word(&cells, 3, 4090), 1 | (6 << 15));
}

#[test]
fn air_and_dirt_have_their_known_bytes() {
    let wire = air_and_dirt().encode(true);
    let mut expected = vec![(1u8 << 1) | 1];
    for _ in 0..8 {
        expected.extend_from_slice(&[0xff, 0xff, 0xff, 0xff]);
    }
    for _ in 8..128 {
        expected.extend_from_slice(&[0, 0, 0, 0]);
    }
    expected.push(2);
    expected.extend_from_slice(&[10, 0, 8, 4, b'n', b'a', b'm', b'e', 13]);
    expected.extend_from_slice(b"minecraft:air");
    expected.push(0);
    expected.extend_from_slice(&[10, 0, 8, 4, b'n', b'a', b'm', b'e', 14]);
    expected.extend_from_slice(b"minecraft:dirt");
    expected.push(0);
    assert_eq!(wire, expected);
}

#[test]
fn without_the_palette_only_header_and_cells_are_written() {
    let wire = air_and_dirt().encode(false);
    assert_eq!(wire[0], 1 << 1);
    assert_eq!(wire.len(), 1 + 4 * 128);
    assert_eq!(&wire[1..], &air_and_dirt().encode(true)[1..1 + 4 * 128]);
}

#[test]
fn entries_are_written_as_nbtx_writes_them() {
    for name in ["minecraft:air", "", "a", "minecraft:bl\u{f6}ck", "\u{1f9f1}"] {
        let mut wire = vec![0xeeu8];
        write_entry(&mut wire, &BlockPaletteEntry::new(name));
        assert_eq!(wire[0], 0xee);
        assert_eq!(&wire[1..], &nbt_of(name)[..]);
    }
    let long = "x".repeat(300);
    let mut wire = Vec::new();
    write_entry(&mut wire, &BlockPaletteEntry::new(&long));
    assert_eq!(wire, nbt_of(&long));
    assert_eq!(&wire[8..10], &[0xac, 0x02]);
}

#[test]
fn nbtx_reads_the_entries_that_are_written() {
    let wire = air_and_dirt().encode(true);
    let mut rest: &[u8] = &wire[1 + 4 * 128 + 1..];
    let first: nbtx::Value = nbtx::from_net_bytes(&mut rest).unwrap();
    let second: nbtx::Value = nbtx::from_net_bytes(&mut rest).unwrap();
    assert!(rest.is_empty());
    let name = |value: &nbtx::Value| value.as_compound().unwrap().get("name").unwrap().as_string().unwrap().clone();
    assert_eq!(name(&first), "minecraft:air");
    assert_eq!(name(&second), "minecraft:dirt");
}

#[test]
fn entries_read_back() {
    for name in ["minecraft:air", "", "minecraft:bl\u{f6}ck", "\u{1f9f1}"] {
        let mut wire = vec![1u8, 2, 3];
        write_entry(&mut wire, &BlockPaletteEntry::new(name));
        let end = wire.len();
        wire.push(9);
        assert_eq!(read_entry(&wire, 3), Ok((BlockPaletteEntry::new(name), end)));
    }
}

#[test]
fn an_entry_of_another_shape_is_malformed() {
    let good = nbt_of("stone");
    let mut other_tag = good.clone();
    other_tag[0] = 9;
    assert_eq!(read_entry(&other_tag, 0), Err(CodecError::MalformedEntry));
    let mut named_root = good.clone();
    named_root[1] = 1;
    assert_eq!(read_entry(&named_root, 0), Err(CodecError::MalformedEntry));
    let mut other_key = good.clone();
    other_key[4] = b'N';
    assert_eq!(read_entry(&other_key, 0), Err(CodecError::MalformedEntry));
    let mut second_field = good.clone();
    *second_field.last_mut().unwrap() = 8;
    assert_eq!(read_entry(&second_field, 0), Err(CodecError::MalformedEntry));
    let not_utf8 = vec![10, 0, 8, 4, b'n', b'a', b'm', b'e', 2, 0xc3, 0x28, 0];
    assert_eq!(read_entry(&not_utf8, 0), Err(CodecError::MalformedEntry));
    let long_length = vec![10, 0, 8, 4, b'n', b'a', b'm', b'e', 0x80, 0x80, 0x80, 0x80, 0x80, 0x00, 0];
    assert_eq!(read_entry(&long_length, 0), Err(CodecError::MalformedEntry));
    let long_key = vec![10, 0, 8, 0x84, 0x00, b'n', b'a', b'm', b'e', 1, b'x', 0];
    assert_eq!(read_entry(&long_key, 0), Ok((BlockPaletteEntry::new("x"), long_key.len())));
}

#[test]
fn an_entry_that_ends_early_is_truncated() {
    let good = nbt_of("stone");
    for keep in 0..good.len() {
        assert_eq!(read_entry(&good[..keep], 0), Err(CodecError::Truncated), "kept {keep}");
    }
    assert_eq!(read_entry(&good, good.len()), Err(CodecError::Truncated));
    assert_eq!(read_entry(&good, good.len() + 5), Err(CodecError::Truncated));
}

#[test]
fn storages_of_every_width_read_back_with_their_palette() {
    for len in [1usize, 2, 3, 4, 5, 8, 9, 16, 17, 32, 33, 64, 65, 256, 257, 1000] {
        let storage = storage_of(len);
        let wire = storage.encode(true);
        let back = PalettedStorage::decode(&wire, true).unwrap();
        assert_eq!(back.blocks, storage.blocks, "palette of {len}");
        assert_eq!(back.palette, storage.palette, "palette of {len}");
        assert!(back.is_valid());
    }
}

#[test]
fn storages_of_every_width_read_back_without_their_palette() {
    for len in [1usize, 2, 3, 5, 9, 17, 33, 65, 257] {
        let storage = storage_of(len);
        let wire = storage.encode(false);
        let back = PalettedStorage::decode(&wire, false).unwrap();
        assert_eq!(back.blocks, storage.blocks, "palette of {len}");
        assert!(back.palette.is_empty());
        assert!(!back.is_valid());
    }
}

#[test]
fn the_largest_palette_reads_back() {
    let blocks: Vec<u32> = (0..4096u32).map(|i| i * 16 + 15).collect();
    let storage = PalettedStorage::new(blocks, entries(65_536)).unwrap();
    let wire = storage.encode(true);
    assert_eq!(wire[0] >> 1, 16);
    let back = PalettedStorage::decode(&wire, true).unwrap();
    assert_eq!(back.blocks, storage.blocks);
    assert_eq!(back.palette.len(), 65_536);
    assert_eq!(back.palette[65_535], storage.palette[65_535]);
}

#[test]
fn names_beyond_ascii_read_back() {
    let palette = vec![BlockPaletteEntry::new("minecraft:bl\u{f6}ck"), BlockPaletteEntry::new("\u{77f3}")];
    let storage = PalettedStorage::new(vec![1u32; 4096], palette).unwrap();
    let back = PalettedStorage::decode(&storage.encode(true), true).unwrap();
    assert_eq!(back.palette, storage.palette);
}

#[test]
fn a_storage_cut_short_by_one_byte_is_rejected() {
    for len in [1usize, 2, 17, 257] {
        for include_palette in [true, false] {
            let wire = storage_of(len).encode(include_palette);
            let cut = &wire[..wire.len() - 1];
            assert_eq!(PalettedStorage::decode(cut, include_palette).err(), Some(CodecError::Truncated));
        }
    }
}

#[test]
fn a_storage_cut_short_anywhere_is_rejected() {
    let wire = storage_of(3).encode(true);
    for keep in 0..wire.len() {
        assert!(PalettedStorage::decode(&wire[..keep], true).is_err(), "kept {keep}");
    }
    let wire = storage_of(3).encode(false);
    for keep in 0..wire.len() {
        assert!(PalettedStorage::decode(&wire[..keep], false).is_err(), "kept {keep}");
    }
}

#[test]
fn a_width_that_the_format_lacks_is_rejected() {
    for width in [0u8, 7, 9, 10, 15, 17, 32, 127] {
        let mut wire = storage_of(2).encode(true);
        wire[0] = (width << 1) | 1;
        assert_eq!(PalettedStorage::decode(&wire, true).err(), Some(CodecError::InvalidBitWidth));
    }
}

#[test]
fn a_palette_flag_that_was_not_asked_for_is_rejected() {
    let with = storage_of(2).encode(true);
    let without = storage_of(2).encode(false);
    assert_eq!(PalettedStorage::decode(&with, false).err(), Some(CodecError::PaletteFlagMismatch));
    assert_eq!(PalettedStorage::decode(&without, true).err(), Some(CodecError::PaletteFlagMismatch));
}

#[test]
fn a_cell_beyond_the_palette_is_rejected() {
    // Cells of two bits can say 3; a palette of three entries ends at 2.
    let mut wire = storage_of(3).encode(true);
    wire[1] |= 0b11;
    assert_eq!(PalettedStorage::decode(&wire, true).err(), Some(CodecError::IndexOutOfRange));
    // Without the palette there is nothing to hold the cell against.
    let mut wire = storage_of(3).encode(false);
    wire[1] |= 0b11;
    assert_eq!(PalettedStorage::decode(&wire, false).unwrap().blocks[0], 3);
}

#[test]
fn a_palette_that_claims_more_entries_than_follow_is_rejected() {
    let mut wire = storage_of(2).encode(true);
    let at = 1 + 4 * 128;
    assert_eq!(wire[at], 2);
    wire[at] = 3;
    assert_eq!(PalettedStorage::decode(&wire, true).err(), Some(CodecError::Truncated));
}

#[test]
fn a_palette_of_no_or_too_many_entries_is_rejected() {
    let mut wire = storage_of(1).encode(true);
    let at = 1 + 4 * 128;
    wire[at] = 0;
    assert_eq!(PalettedStorage::decode(&wire, true).err(), Some(CodecError::PaletteSize));
    let mut wire = storage_of(1).encode(true);
    wire.truncate(at);
    wire.extend_from_slice(&[0x81, 0x80, 0x04]);
    assert_eq!(PalettedStorage::decode(&wire, true).err(), Some(CodecError::PaletteSize));
}

#[test]
fn a_palette_length_beyond_32_bits_is_rejected() {
    let mut wire = storage_of(1).encode(true);
    wire.truncate(1 + 4 * 128);
    wire.extend_from_slice(&[0xff, 0xff, 0xff, 0xff, 0x7f]);
    assert_eq!(PalettedStorage::decode(&wire, true).err(), Some(CodecError::MalformedLength));
}

#[test]
fn a_malformed_entry_in_the_palette_is_rejected() {
    let mut wire = storage_of(2).encode(true);
    let at = 1 + 4 * 128 + 1;
    assert_eq!(wire[at], 10);
    wire[at] = 1;
    assert_eq!(PalettedStorage::decode(&wire, true).err(), Some(CodecError::MalformedEntry));
}

#[test]
fn bytes_behind_the_storage_are_rejected() {
    for include_palette in [true, false] {
        let mut wire = storage_of(2).encode(include_palette);
        wire.push(0);
        assert_eq!(PalettedStorage::decode(&wire, include_palette).err(), Some(CodecError::TrailingBytes));
    }
}

#[test]
fn empty_input_is_truncated() {
    assert_eq!(PalettedStorage::decode(&[], true).err(), Some(CodecError::Truncated));
    assert_eq!(PalettedStorage::decode(&[], false).err(), Some(CodecError::Truncated));
    assert_eq!(PalettedStorage::decode_prefix(&[3], 1, true).err(), Some(CodecError::Truncated));
}

#[test]
fn layers_follow_each_other_without_a_separator() {
    let solid = storage_of(5);
    let liquid = storage_of(2);
    let mut wire = vec![8u8, 2];
    wire.extend_from_slice(&solid.encode(true));
    wire.extend_from_slice(&liquid.encode(true));
    let (first, middle) = PalettedStorage::decode_prefix(&wire, 2, true).unwrap();
    let (second, end) = PalettedStorage::decode_prefix(&wire, middle, true).unwrap();
    assert_eq!(first.blocks, solid.blocks);
    assert_eq!(first.palette, solid.palette);
    assert_eq!(second.blocks, liquid.blocks);
    assert_eq!(second.palette, liquid.palette);
    assert_eq!(end, wire.len());
}

#[test]
fn a_storage_is_made_only_of_what_is_valid() {
    assert_eq!(PalettedStorage::new(vec![0; 10], entries(1)).err(), Some(CodecError::CellCount));
    assert_eq!(PalettedStorage::new(vec![0; 4097], entries(1)).err(), Some(CodecError::CellCount));
    assert_eq!(PalettedStorage::new(vec![0; 4096], entries(0)).err(), Some(CodecError::PaletteSize));
    assert_eq!(PalettedStorage::new(vec![0; 4096], entries(65_537)).err(), Some(CodecError::PaletteSize));
    let mut blocks = vec![0u32; 4096];
    blocks[4095] = 2;
    assert_eq!(PalettedStorage::new(blocks.clone(), entries(2)).err(), Some(CodecError::IndexOutOfRange));
    assert!(PalettedStorage::new(blocks, entries(3)).is_ok());
}

#[test]
fn checking_says_what_is_wrong() {
    let mut storage = storage_of(4);
    assert_eq!(storage.check(), Ok(()));
    assert!(storage.is_valid());
    storage.blocks[7] = 4;
    assert_eq!(storage.check(), Err(CodecError::IndexOutOfRange));
    assert!(!storage.is_valid());
    storage.blocks.pop();
    assert_eq!(storage.check(), Err(CodecError::CellCount));
}

#[test]
fn the_layers_of_a_sub_chunk_read_back() {
    let layers = vec![storage_of(5), storage_of(2), storage_of(300)];
    for include_palette in [true, false] {
        let mut wire = vec![8u8, 3];
        wire.extend_from_slice(&encode_layers(&layers, include_palette));
        let whole: Vec<u8> = layers.iter().flat_map(|layer| layer.encode(include_palette)).collect();
        assert_eq!(&wire[2..], &whole[..]);
        let (back, end) = decode_layers(&wire, 2, 3, include_palette).unwrap();
        assert_eq!(end, wire.len());
        assert_eq!(back.len(), 3);
        for (read, written) in back.iter().zip(&layers) {
            assert_eq!(read.blocks, written.blocks);
            if include_palette {
                assert_eq!(read, written);
            } else {
                assert!(read.palette.is_empty());
            }
        }
        assert_eq!(decode_layers(&wire, 2, 4, include_palette).err(), Some(CodecError::Truncated));
        let (fewer, middle) = decode_layers(&wire, 2, 2, include_palette).unwrap();
        assert_eq!(fewer.len(), 2);
        assert!(middle < wire.len());
        assert_eq!(decode_layers(&wire, 2, 0, include_palette), Ok((vec![], 2)));
    }
    assert_eq!(encode_layers(&Vec::new(), true), Vec::<u8>::new());
}

#[test]
fn a_layer_that_is_malformed_fails_the_sub_chunk() {
    let mut wire = encode_layers(&vec![storage_of(2), storage_of(2)], true);
    let second = wire.len() / 2;
    wire[second] = (7 << 1) | 1;
    assert_eq!(decode_layers(&wire, 0, 2, true).err(), Some(CodecError::InvalidBitWidth));
    assert!(decode_layers(&wire, 0, 1, true).is_ok());
}

#[test]
fn equal_blocks_share_one_slot_of_the_palette() {
    let mut palette = Vec::new();
    let air = BlockPaletteEntry::new("minecraft:air");
    let dirt = BlockPaletteEntry::new("minecraft:dirt");
    assert_eq!(position_of(&palette, &air), None);
    assert_eq!(intern(&mut palette, air.clone()), 0);
    assert_eq!(intern(&mut palette, dirt.clone()), 1);
    assert_eq!(intern(&mut palette, air.clone()), 0);
    assert_eq!(intern(&mut palette, BlockPaletteEntry::new("minecraft:dirt")), 1);
    assert_eq!(intern(&mut palette, BlockPaletteEntry::new("minecraft:stone")), 2);
    assert_eq!(palette, vec![air, dirt.clone(), BlockPaletteEntry::new("minecraft:stone")]);
    assert_eq!(position_of(&palette, &dirt), Some(1));
    assert_eq!(position_of(&palette, &BlockPaletteEntry::new("minecraft:Dirt")), None);
}

#[test]
fn the_first_of_two_equal_entries_is_found() {
    let stone = BlockPaletteEntry::new("stone");
    let palette = vec![BlockPaletteEntry::new("air"), stone.clone(), stone.clone()];
    assert_eq!(position_of(&palette, &stone), Some(1));
}
