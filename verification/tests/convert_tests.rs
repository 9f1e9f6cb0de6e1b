use emerald_legacy::convert::{
    convert_lce_chunk, dimension_plan, estimate_spawn_y_from_chunk, floor_div, java_region_name, lce_region_chunks, lce_region_name,
    parse_save_files, region_coords_from_name, region_file_coords, save_container_files,
};
use emerald_legacy::java_region::JavaRegionFileWriter;
use emerald_legacy::region::SaveDataContainer;
use emerald_legacy::nbt::{read_nbt, write_nbt, NbtCompound, NbtValue};

#[test]
fn floor_division_rounds_down() {
    assert_eq!(floor_div(7, 2), 3);
    assert_eq!(floor_div(-7, 2), -4);
    assert_eq!(floor_div(7, -2), -4);
    assert_eq!(floor_div(-7, -2), 3);
    assert_eq!(floor_div(-16, 16), -1);
    assert_eq!(floor_div(-17, 16), -2);
    assert_eq!(floor_div(i32::MIN, 1), i32::MIN);
}

fn chunk_with(level: NbtCompound) -> NbtCompound {
    let mut root = NbtCompound::new("");
    root.insert("Level", NbtValue::Compound(level));
    root
}

#[test]
fn spawn_height_from_height_map() {
    let mut hm = vec![0u8; 256];
    hm[15 + 2 * 16] = 70;
    let mut level = NbtCompound::new("Level");
    level.insert("HeightMap", NbtValue::ByteArray(hm));
    let root = chunk_with(level);
    assert_eq!(estimate_spawn_y_from_chunk(&root, -1, 2, 30), 71);
    assert_eq!(estimate_spawn_y_from_chunk(&root, 0, 0, 30), 30);
    assert_eq!(estimate_spawn_y_from_chunk(&root, 0, 0, 500), 127);
    assert_eq!(estimate_spawn_y_from_chunk(&root, 0, 0, -3), 1);
}

#[test]
fn spawn_height_from_int_height_map_and_blocks() {
    let mut hm = vec![0i32; 256];
    hm[1] = 200;
    let mut level = NbtCompound::new("Level");
    level.insert("HeightMap", NbtValue::IntArray(hm));
    assert_eq!(estimate_spawn_y_from_chunk(&chunk_with(level), 1, 0, 5), 127);
    let mut blocks = vec![0u8; 32768];
    blocks[10 * 256 + 3] = 1;
    let mut level = NbtCompound::new("Level");
    level.insert("Blocks", NbtValue::ByteArray(blocks));
    assert_eq!(estimate_spawn_y_from_chunk(&chunk_with(level), 3, 0, 5), 11);
}

#[test]
fn spawn_height_from_sections() {
    let mut blocks = vec![0u8; 4096];
    blocks[4 * 256] = 7;
    let mut sec = NbtCompound::new("");
    sec.insert("Y", NbtValue::Byte(2));
    sec.insert("Blocks", NbtValue::ByteArray(blocks));
    let mut level = NbtCompound::new("Level");
    level.insert("Sections", NbtValue::List(vec![NbtValue::Compound(sec)]));
    assert_eq!(estimate_spawn_y_from_chunk(&chunk_with(level), 16, 32, 90), 37);
}

fn table_record(name: &str, length: u32, start: u32) -> Vec<u8> {
    let mut v = Vec::new();
    let units: Vec<u16> = name.encode_utf16().collect();
    for i in 0..64 {
        let u = if i < units.len() { units[i] } else { 0 };
        v.extend_from_slice(&u.to_le_bytes());
    }
    v.extend_from_slice(&length.to_le_bytes());
    v.extend_from_slice(&start.to_le_bytes());
    v.extend_from_slice(&[0u8; 8]);
    v
}

#[test]
fn save_files_are_read_from_the_footer_table() {
    let mut d = Vec::new();
    d.extend_from_slice(&16u32.to_le_bytes());
    d.extend_from_slice(&3u32.to_le_bytes());
    d.extend_from_slice(b"ABCDEFGH");
    d.extend(table_record("level.dat", 3, 8));
    d.extend(table_record("", 3, 8));
    d.extend(table_record("big", 1000, 8));
    let files = parse_save_files(&d).unwrap();
    assert_eq!(files.len(), 1);
    assert_eq!(files[0].0, "level.dat");
    assert_eq!(files[0].1, b"ABC".to_vec());
    assert!(parse_save_files(&[1, 2, 3]).is_none());
}

#[test]
fn region_names_give_coordinates() {
    assert_eq!(region_coords_from_name("r.-1.2.mcr"), (-1, 2));
    assert_eq!(region_coords_from_name("r.x.7.mcr"), (0, 7));
    assert_eq!(region_coords_from_name("r.1.2"), (0, 0));
}

#[test]
fn console_chunk_becomes_modern_chunk() {
    let mut blocks = vec![0u8; 32768];
    blocks[0] = 1;
    let mut level = NbtCompound::new("Level");
    level.insert("Blocks", NbtValue::ByteArray(blocks));
    let bytes = write_nbt(&chunk_with(level));
    let (rx, rz, lx, lz, out) = convert_lce_chunk(&bytes, -1, 0, 5, 4).unwrap();
    assert_eq!((rx, rz, lx, lz), (-1, 0, 5, 4));
    let c = read_nbt(&out).unwrap();
    assert_eq!(c.int_value("xPos"), Some(-27));
    assert_eq!(c.int_value("zPos"), Some(4));
    assert_eq!(c.string("Status"), Some("full"));
    assert!(c.list("sections").is_some());
    assert!(convert_lce_chunk(&[], 0, 0, 0, 0).is_none());
    assert!(convert_lce_chunk(&[1, 2, 3], 0, 0, 0, 0).is_none());
}

#[test]
fn dimension_plans_cover_the_square() {
    let plan = dimension_plan(1, 0, 0);
    let coords: Vec<(i32, i32)> = plan.iter().map(|m| (m.lce_x, m.lce_z)).collect();
    assert_eq!(coords, vec![(-1, -1), (-1, 0), (0, -1), (0, 0)]);
    assert_eq!((plan[0].lce_region_x, plan[0].lce_local_x), (-1, 31));
    assert_eq!((plan[3].lce_region_x, plan[3].lce_local_x), (0, 0));
    let plan = dimension_plan(2, 33, -64);
    assert_eq!(plan.len(), 16);
    let m = plan[0];
    assert_eq!((m.lce_x, m.lce_z), (-2, -2));
    assert_eq!((m.java_region_x, m.java_local_x), (0, 31));
    assert_eq!((m.java_region_z, m.java_local_z), (-3, 30));
    assert!(dimension_plan(0, 5, 5).is_empty());
}

#[test]
fn console_region_names() {
    assert_eq!(lce_region_name("DIM-1", -1, 0), "DIM-1r.-1.0.mcr");
    assert_eq!(lce_region_name("DIM1", 2, -3), "DIM1/r.2.-3.mcr");
    assert_eq!(lce_region_name("", i32::MIN, 0), "r.-2147483648.0.mcr");
}

#[test]
fn save_container_files_read_a_saved_container() {
    let mut c = SaveDataContainer::new(7, 9);
    let i = c.create_file("level.dat");
    c.write_to_file(i, b"abc");
    let files = save_container_files(&c.save_bytes()).unwrap();
    assert_eq!(files, vec![("level.dat".to_string(), b"abc".to_vec())]);
    let err = save_container_files(&[0, 0, 0, 0, 0, 0, 0, 0, 1, 2, 3]).unwrap_err();
    assert!(err.starts_with("Failed to decompress save data: "));
}

#[test]
fn console_region_chunks_are_converted() {
    let mut level = NbtCompound::new("Level");
    level.insert("Blocks", NbtValue::ByteArray(vec![0; 32768]));
    let mut root = NbtCompound::new("");
    root.insert("Level", NbtValue::Compound(level));
    let mut w = JavaRegionFileWriter::new("r.-1.0.mcr");
    w.write_chunk(1, 2, &write_nbt(&root));
    let bytes = w.save_bytes();
    let (chunks, errors) = lce_region_chunks("r.-1.0.mcr", &bytes);
    assert!(errors.is_empty());
    assert_eq!(chunks.len(), 1);
    let (rx, rz, lx, lz, data) = &chunks[0];
    assert_eq!((*rx, *rz, *lx, *lz), (-1, 0, 1, 2));
    assert_eq!(read_nbt(data).unwrap().int_value("xPos"), Some(-31));
    let mut broken = vec![0u8; 3 * 4096];
    broken[0..4].copy_from_slice(&((2u32 << 8) | 1).to_be_bytes());
    broken[8192..8196].copy_from_slice(&3u32.to_be_bytes());
    broken[8196] = 2;
    broken[8197] = 1;
    broken[8198] = 2;
    let (chunks, errors) = lce_region_chunks("r.0.0.mcr", &broken);
    assert!(chunks.is_empty());
    assert_eq!(errors.len(), 1);
    assert_eq!((errors[0].0, errors[0].1), (0, 0));
}

#[test]
fn java_region_file_names() {
    assert_eq!(region_file_coords("r.1.-2.mca"), Some((1, -2)));
    assert_eq!(region_file_coords("r.0.3.MCR"), Some((0, 3)));
    assert_eq!(region_file_coords("x.1.2.mca"), None);
    assert_eq!(region_file_coords("r.1.mca"), None);
    assert_eq!(region_file_coords("r.a.2.mca"), None);
    assert_eq!(region_file_coords("r.1.2.dat"), None);
}

#[test]
fn java_region_files_are_named_by_their_coordinates() {
    assert_eq!(java_region_name(-1, 0), "r.-1.0.mca");
    assert_eq!(java_region_name(12, -2147483648), "r.12.-2147483648.mca");
}
