use emerald_legacy::anvil::get_contextual_block_state;
use emerald_legacy::chunk::{convert_chunk, convert_chunk_for_save, inspect_chunk, read_section_y, JavaChunkFormat};
use emerald_legacy::nbt::{read_nbt, NbtCompound, NbtValue};
use emerald_legacy::payload::try_read_chunk_coordinates;

fn palette_section(y: i8, block: &str) -> NbtCompound {
    let mut entry = NbtCompound::new("");
    entry.insert("Name", NbtValue::String(block.to_string()));
    let mut states = NbtCompound::new("block_states");
    states.insert("palette", NbtValue::List(vec![NbtValue::Compound(entry)]));
    let mut s = NbtCompound::new("");
    s.insert("Y", NbtValue::Byte(y));
    s.insert("block_states", NbtValue::Compound(states));
    s
}

fn modern_chunk(ys: &[i8]) -> NbtCompound {
    let mut root = NbtCompound::new("");
    root.insert("DataVersion", NbtValue::Int(2975));
    root.insert("xPos", NbtValue::Int(1));
    root.insert("zPos", NbtValue::Int(2));
    let sections = ys.iter().map(|y| NbtValue::Compound(palette_section(*y, "minecraft:stone"))).collect();
    root.insert("sections", NbtValue::List(sections));
    root
}

#[test]
fn chunk_formats_are_recognised() {
    let info = inspect_chunk(&modern_chunk(&[-4, 0]));
    assert_eq!(info.format, JavaChunkFormat::ModernExtendedHeight);
    assert_eq!((info.min_section_y, info.max_section_y), (Some(-4), Some(0)));
    assert_eq!(info.data_version, 2975);
    assert!(!info.has_level_wrapper);
    assert!(info.requires_section_shift() && info.uses_palette_sections() && info.is_section_based());
    let info = inspect_chunk(&modern_chunk(&[0, 3]));
    assert_eq!(info.format, JavaChunkFormat::ModernPalette);
    assert!(!info.requires_section_shift());
    let mut level = NbtCompound::new("Level");
    level.insert("Blocks", NbtValue::ByteArray(vec![0; 32768]));
    let mut root = NbtCompound::new("");
    root.insert("Level", NbtValue::Compound(level));
    let info = inspect_chunk(&root);
    assert_eq!(info.format, JavaChunkFormat::LegacyBlockArray);
    assert!(info.has_level_wrapper && !info.is_section_based());
    assert_eq!(inspect_chunk(&NbtCompound::new("")).format, JavaChunkFormat::Unknown);
}

#[test]
fn section_heights_are_read_in_any_width() {
    let mut s = NbtCompound::new("");
    assert_eq!(read_section_y(&s), None);
    s.insert("Y", NbtValue::Short(-3));
    assert_eq!(read_section_y(&s), Some(-3));
    s.insert("Y", NbtValue::Int(20));
    assert_eq!(read_section_y(&s), Some(20));
    s.insert("Y", NbtValue::Byte(5));
    assert_eq!(read_section_y(&s), Some(5));
}

#[test]
fn modern_chunk_becomes_legacy_level() {
    let doc = convert_chunk(&modern_chunk(&[0]), 5, 6, false, Vec::new());
    let root = read_nbt(&doc).unwrap();
    let level = root.compound("Level").unwrap();
    assert_eq!(level.int_value("xPos"), Some(5));
    assert_eq!(level.int_value("zPos"), Some(6));
    let blocks = level.byte_array("Blocks").unwrap();
    assert_eq!(blocks.len(), 65536);
    assert!(blocks[0..16].iter().all(|b| *b == 1));
    assert_eq!(blocks[16], 0);
    assert_eq!(blocks[256], 1);
    assert_eq!(blocks[256 * 17 + 15], 1);
    let stored = convert_chunk_for_save(&modern_chunk(&[0]), 5, 6, false, Vec::new());
    assert_eq!(try_read_chunk_coordinates(&stored), Some((5, 6, false)));
}

#[test]
fn contextual_states_use_neighbours() {
    let blocks = vec![0u8; 32768];
    let data = vec![0u8; 16384];
    let s = get_contextual_block_state(1, 0, 0, 0, 0, &blocks, &data);
    assert_eq!(s.name, "minecraft:stone");
    assert!(s.props.is_empty());
    let mut blocks = vec![0u8; 32768];
    let mut data = vec![0u8; 16384];
    blocks[0] = 64;
    data[0] = 2;
    blocks[1] = 64;
    data[0] |= 9 << 4;
    let s = get_contextual_block_state(64, 9, 0, 1, 0, &blocks, &data);
    let has = |k: &str, v: &str| s.props.iter().any(|(a, b)| a == k && b == v);
    assert!(has("half", "upper"));
    assert!(has("hinge", "right"));
    assert!(has("facing", "west"));
}

#[test]
fn contextual_states_are_the_same_for_the_same_inputs() {
    let mut blocks = vec![0u8; 32768];
    let mut data = vec![0u8; 16384];
    blocks[0] = 64;
    data[0] = 2 | (9 << 4);
    blocks[1] = 64;
    let a = get_contextual_block_state(64, 9, 0, 1, 0, &blocks, &data);
    let b = get_contextual_block_state(64, 9, 0, 1, 0, &blocks, &data);
    assert_eq!(a.name, b.name);
    assert_eq!(a.props, b.props);
    let far = get_contextual_block_state(64, 9, 40, 300, 20, &blocks, &data);
    let far2 = get_contextual_block_state(64, 9, 40, 300, 20, &blocks, &data);
    assert_eq!(far.name, "minecraft:oak_door");
    assert_eq!(far.props, far2.props);
}
