use emerald_legacy::convert::parse_save_files;
use emerald_legacy::java_region::{JavaRegionFileWriter, JavaRegionReader};
use emerald_legacy::nbt::{read_nbt, NbtCompound, NbtValue};
use emerald_legacy::payload::encode_legacy_nbt;
use emerald_legacy::region::{
    compress_zlib, decompress_rle_zlib, decompress_zlib, parse_region_coordinates, LceRegionFile, SaveDataContainer,
};
use emerald_legacy::rle::rle_encode;

#[test]
fn region_names_carry_coordinates() {
    assert_eq!(parse_region_coordinates("saves/world/r.1.-2.mcr"), (1, -2));
    assert_eq!(parse_region_coordinates("r.x.5.mcr"), (0, 5));
    assert_eq!(parse_region_coordinates("level.dat"), (0, 0));
}

#[test]
fn zlib_and_rle_round_trip() {
    let data: Vec<u8> = (0..5000u32).map(|i| if i % 100 < 60 { 0 } else { (i % 13) as u8 }).collect();
    let z = compress_zlib(&data);
    assert_eq!(decompress_zlib(&z).unwrap(), data);
    assert!(decompress_zlib(&[1, 2, 3, 4]).is_err());
    let zr = compress_zlib(&rle_encode(&data));
    assert_eq!(decompress_rle_zlib(&zr, data.len()).unwrap(), data);
    assert!(decompress_rle_zlib(&[0u8; 4], 4).is_err());
}

fn saved_blob(file: &[u8]) -> Vec<u8> {
    assert_eq!(&file[0..4], &[0, 0, 0, 0]);
    let size = u32::from_le_bytes(file[4..8].try_into().unwrap()) as usize;
    let blob = decompress_zlib(&file[8..]).unwrap();
    assert_eq!(blob.len(), size);
    blob
}

#[test]
fn container_files_are_saved_and_read_back() {
    let mut c = SaveDataContainer::new(2, 9);
    let i = c.create_file("level.dat");
    c.write_to_file(i, b"hello");
    assert_eq!(c.create_file("level.dat"), i);
    let j = c.create_file("b");
    assert_ne!(i, j);
    c.write_to_file(j, b"xy");
    let files = parse_save_files(&saved_blob(&c.save_bytes())).unwrap();
    assert_eq!(files, vec![("level.dat".to_string(), b"hello".to_vec()), ("b".to_string(), b"xy".to_vec())]);
}

#[test]
fn region_chunks_land_in_their_slot() {
    let mut level = NbtCompound::new("Level");
    level.insert("xPos", NbtValue::Int(0));
    level.insert("zPos", NbtValue::Int(0));
    level.insert("Blocks", NbtValue::ByteArray(vec![3; 64]));
    let doc = encode_legacy_nbt(&level);
    let mut r = LceRegionFile::new("r.1.-2.mcr");
    r.write_chunk(3, 4, doc);
    r.write_chunk(40, 4, vec![1, 2, 3]);
    let mut c = SaveDataContainer::new(2, 9);
    r.write_to_container(&mut c);
    let files = parse_save_files(&saved_blob(&c.save_bytes())).unwrap();
    assert_eq!(files.len(), 1);
    let (name, data) = &files[0];
    assert_eq!(name, "r.1.-2.mcr");
    assert_eq!(data.len(), 3 * 4096);
    let slot = (3 + 4 * 32) * 4;
    let entry = u32::from_le_bytes(data[slot..slot + 4].try_into().unwrap());
    assert_eq!(entry, (2 << 8) | 1);
    let clen = u32::from_le_bytes(data[8192..8196].try_into().unwrap()) as usize;
    let payload = decompress_zlib(&data[8200..8200 + clen]).unwrap();
    let root = read_nbt(&payload).unwrap();
    let outer = root.compound("Level").unwrap();
    let l = outer.compound("Level").unwrap();
    assert_eq!(l.int_value("xPos"), Some(35));
    assert_eq!(l.int_value("zPos"), Some(-60));
    assert_eq!(l.byte_array("Blocks"), Some(&[3u8; 64][..]));
}

#[test]
fn java_region_write_then_read() {
    let payload: Vec<u8> = (0..9000u32).map(|i| (i % 17) as u8).collect();
    let mut w = JavaRegionFileWriter::new("r.0.0.mca");
    w.write_chunk(1, 2, &payload);
    w.write_chunk(31, 31, b"tiny");
    let bytes = w.save_bytes();
    assert_eq!(bytes.len() % 4096, 0);
    let mut r = JavaRegionReader::open_from_bytes(&bytes);
    assert_eq!(r.read_chunk(1, 2).unwrap(), Some(payload.clone()));
    assert_eq!(r.read_chunk(31, 31).unwrap(), Some(b"tiny".to_vec()));
    assert_eq!(r.read_chunk(0, 0).unwrap(), None);
    let mut again = JavaRegionFileWriter::load_from_bytes("r.0.0.mca", &bytes);
    again.write_chunk(0, 0, b"more");
    let bytes2 = again.save_bytes();
    let mut r2 = JavaRegionReader::open_from_bytes(&bytes2);
    assert_eq!(r2.read_chunk(1, 2).unwrap(), Some(payload));
    assert_eq!(r2.read_chunk(0, 0).unwrap(), Some(b"more".to_vec()));
}
