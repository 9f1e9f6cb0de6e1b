use emerald_legacy::nbt::{read_nbt, write_nbt, NbtCompound, NbtValue};
use emerald_legacy::payload::{
    encode_compressed_storage, encode_legacy_nbt, fit_copy, force_chunk_coordinates, is_compressed_chunk_storage,
    try_decode_to_legacy_nbt, try_get_compressed_chunk_nbt_offset, try_read_chunk_coordinates,
};

fn level(x: i32, z: i32) -> NbtCompound {
    let mut l = NbtCompound::new("Level");
    l.insert("xPos", NbtValue::Int(x));
    l.insert("zPos", NbtValue::Int(z));
    let blocks: Vec<u8> = (0..32768u32).map(|i| if (i / 128) % 3 == 0 { (i % 7) as u8 } else { 0 }).collect();
    let data: Vec<u8> = (0..16384u32).map(|i| (i % 5) as u8).collect();
    l.insert("Blocks", NbtValue::ByteArray(blocks));
    l.insert("Data", NbtValue::ByteArray(data));
    l.insert("SkyLight", NbtValue::ByteArray(vec![0xFF; 16384]));
    l.insert("BlockLight", NbtValue::ByteArray(vec![0x12; 16384]));
    l.insert("HeightMap", NbtValue::ByteArray(vec![64; 256]));
    l.insert("Biomes", NbtValue::ByteArray(vec![1; 256]));
    l
}

#[test]
fn compressed_storage_keeps_blocks_and_coordinates() {
    let l = level(3, -2);
    let enc = encode_compressed_storage(&l);
    assert!(is_compressed_chunk_storage(&enc));
    assert_eq!(try_read_chunk_coordinates(&enc), Some((3, -2, false)));
    let doc = try_decode_to_legacy_nbt(&enc).expect("decodes");
    let root = read_nbt(&doc).unwrap();
    let back = root.compound("Level").unwrap();
    assert_eq!(back.int_value("xPos"), Some(3));
    assert_eq!(back.int_value("zPos"), Some(-2));
    let orig = l.byte_array("Blocks").unwrap();
    let got = back.byte_array("Blocks").unwrap();
    assert_eq!(got.len(), 65536);
    for xz in 0..256 {
        for y in 0..128 {
            assert_eq!(got[xz * 256 + y], orig[xz * 128 + y]);
            assert_eq!(got[xz * 256 + 128 + y], 0);
        }
    }
}

#[test]
fn nbt_offset_skips_storages_from_the_short_header() {
    let mut d = vec![0u8; 1324];
    d[1] = 8;
    assert_eq!(try_get_compressed_chunk_nbt_offset(&d), Some(1324));
    d.pop();
    assert_eq!(try_get_compressed_chunk_nbt_offset(&d), None);
    let mut d = vec![0u8; 1340];
    d[1] = 9;
    assert_eq!(try_get_compressed_chunk_nbt_offset(&d), Some(1332));
    let mut d = vec![0u8; 1400];
    d[1] = 8;
    d[13] = 4;
    assert_eq!(try_get_compressed_chunk_nbt_offset(&d), Some(1328));
}

#[test]
fn legacy_documents_carry_a_level() {
    let doc = encode_legacy_nbt(&level(5, 6));
    assert_eq!(try_read_chunk_coordinates(&doc), Some((5, 6, true)));
    assert!(!is_compressed_chunk_storage(&doc));
    assert_eq!(try_decode_to_legacy_nbt(&doc), Some(doc.clone()));
    assert_eq!(try_read_chunk_coordinates(&write_nbt(&level(5, 6))), Some((5, 6, false)));
    let moved = force_chunk_coordinates(&doc, 7, -8);
    assert_eq!(try_read_chunk_coordinates(&moved), Some((7, -8, true)));
    let enc = encode_compressed_storage(&level(1, 1));
    let moved = force_chunk_coordinates(&enc, 9, 10);
    assert_eq!(try_read_chunk_coordinates(&moved), Some((9, 10, false)));
    assert!(force_chunk_coordinates(&[], 1, 1).is_empty());
}

#[test]
fn short_or_foreign_data_is_not_a_chunk() {
    assert!(!is_compressed_chunk_storage(&[0, 8, 1, 2]));
    assert_eq!(try_read_chunk_coordinates(&[1, 2, 3]), None);
    assert_eq!(try_decode_to_legacy_nbt(&[1, 2, 3]), None);
    assert_eq!(try_get_compressed_chunk_nbt_offset(&[1, 2, 3]), None);
}

#[test]
fn fit_copy_cuts_or_pads() {
    assert_eq!(fit_copy(&[1, 2, 3], 2), vec![1, 2]);
    assert_eq!(fit_copy(&[1], 3), vec![1, 0, 0]);
}

#[test]
fn full_chunks_come_back_from_compressed_storage() {
    let mut l = NbtCompound::new("Level");
    l.insert("xPos", NbtValue::Int(-40));
    l.insert("zPos", NbtValue::Int(12));
    l.insert("LastUpdate", NbtValue::Long(123456789));
    l.insert("InhabitedTime", NbtValue::Long(-5));
    l.insert("TerrainPopulatedFlags", NbtValue::Short(-2));
    let blocks: Vec<u8> = (0..65536u32).map(|i| (i % 251) as u8).collect();
    let data: Vec<u8> = (0..32768u32).map(|i| (i % 7) as u8 * 17).collect();
    let sky: Vec<u8> = (0..32768u32).map(|i| if i % 3 == 0 { 0xFF } else { (i % 16) as u8 }).collect();
    let light: Vec<u8> = (0..32768u32).map(|i| if i % 64 < 32 { 0 } else { 0x5A }).collect();
    l.insert("Blocks", NbtValue::ByteArray(blocks.clone()));
    l.insert("Data", NbtValue::ByteArray(data.clone()));
    l.insert("SkyLight", NbtValue::ByteArray(sky.clone()));
    l.insert("BlockLight", NbtValue::ByteArray(light.clone()));
    l.insert("HeightMap", NbtValue::ByteArray(vec![70; 256]));
    l.insert("Biomes", NbtValue::ByteArray(vec![4; 256]));
    let enc = encode_compressed_storage(&l);
    let doc = try_decode_to_legacy_nbt(&enc).expect("decodes");
    let root = read_nbt(&doc).unwrap();
    let back = root.compound("Level").unwrap();
    assert_eq!(back.int_value("xPos"), Some(-40));
    assert_eq!(back.int_value("zPos"), Some(12));
    assert_eq!(back.long("LastUpdate"), Some(123456789));
    assert_eq!(back.long("InhabitedTime"), Some(-5));
    assert_eq!(back.short("TerrainPopulatedFlags"), Some(-2));
    assert_eq!(back.byte_array("Blocks").unwrap(), &blocks[..]);
    assert_eq!(back.byte_array("Data").unwrap(), &data[..]);
    assert_eq!(back.byte_array("SkyLight").unwrap(), &sky[..]);
    assert_eq!(back.byte_array("BlockLight").unwrap(), &light[..]);
    assert_eq!(back.byte_array("HeightMap").unwrap(), &[70u8; 256][..]);
    assert_eq!(back.byte_array("Biomes").unwrap(), &[4u8; 256][..]);
}
