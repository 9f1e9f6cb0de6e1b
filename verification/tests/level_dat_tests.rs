use emerald_legacy::level_dat::{convert_java_to_lce, convert_java_to_lce_at, convert_lce_to_java_at, read_spawn};
use emerald_legacy::nbt::{read_gzip_nbt, read_nbt, NbtCompound, NbtValue};

fn java_root(data_version: i32) -> NbtCompound {
    let mut d = NbtCompound::new("Data");
    d.insert("SpawnX", NbtValue::Int(100));
    d.insert("SpawnY", NbtValue::Int(200));
    d.insert("SpawnZ", NbtValue::Int(-20));
    d.insert("DataVersion", NbtValue::Int(data_version));
    d.insert("LevelName", NbtValue::String("W".to_string()));
    d.insert("RandomSeed", NbtValue::Long(5));
    d.insert("generatorName", NbtValue::String("largeBiomes".to_string()));
    let mut r = NbtCompound::new("");
    r.insert("Data", NbtValue::Compound(d));
    r
}

#[test]
fn spawn_is_read_from_data_or_defaults() {
    let s = read_spawn(&java_root(100));
    assert_eq!((s.x, s.y, s.z), (100, 200, -20));
    let s = read_spawn(&NbtCompound::new(""));
    assert_eq!((s.x, s.y, s.z), (0, 64, 0));
    let mut d = NbtCompound::new("Data");
    let mut sp = NbtCompound::new("spawn");
    sp.insert("pos", NbtValue::IntArray(vec![1, 2, 3]));
    d.insert("spawn", NbtValue::Compound(sp));
    let mut r = NbtCompound::new("");
    r.insert("Data", NbtValue::Compound(d));
    let s = read_spawn(&r);
    assert_eq!((s.x, s.y, s.z), (1, 2, 3));
}

#[test]
fn java_level_becomes_console_level() {
    let bytes = convert_java_to_lce_at(&java_root(100), 2, -1, 320, false, None, 1234);
    let root = read_nbt(&bytes).unwrap();
    let d = root.compound("Data").unwrap();
    assert_eq!(d.int_value("SpawnX"), Some(68));
    assert_eq!(d.int_value("SpawnZ"), Some(-4));
    assert_eq!(d.int_value("SpawnY"), Some(127));
    assert_eq!(d.long("LastPlayed"), Some(1234));
    assert_eq!(d.long("RandomSeed"), Some(5));
    assert_eq!(d.int_value("version"), Some(19133));
    assert_eq!(d.int_value("XZSize"), Some(320));
    assert_eq!(d.int_value("HellScale"), Some(3));
    assert_eq!(d.string("LevelName"), Some("W"));
    assert_eq!(d.string("generatorName"), Some("largeBiomes"));
    assert_eq!(d.byte("MapFeatures"), Some(1));
    assert_eq!(d.byte("newSeaLevel"), Some(1));
}

#[test]
fn modern_java_level_uses_default_generator_and_height() {
    let bytes = convert_java_to_lce_at(&java_root(3000), 0, 0, 864, false, None, 0);
    let d = read_nbt(&bytes).unwrap().compound("Data").unwrap().deep_clone();
    assert_eq!(d.int_value("SpawnY"), Some(64));
    assert_eq!(d.string("generatorName"), Some("default"));
    assert_eq!(d.int_value("generatorVersion"), Some(1));
    let flat = convert_java_to_lce_at(&java_root(3000), 0, 0, 864, true, Some(0), 0);
    let d = read_nbt(&flat).unwrap().compound("Data").unwrap().deep_clone();
    assert_eq!(d.string("generatorName"), Some("flat"));
    assert_eq!(d.string("generatorOptions"), Some("2;7,2x3,2;1;"));
    assert_eq!(d.int_value("SpawnY"), Some(1));
}

#[test]
fn java_to_console_with_current_time_sets_last_played() {
    let bytes = convert_java_to_lce(&java_root(100), 0, 0, 320, false, Some(70));
    let d = read_nbt(&bytes).unwrap().compound("Data").unwrap().deep_clone();
    assert!(d.long("LastPlayed").unwrap() > 0);
    assert_eq!(d.int_value("SpawnY"), Some(70));
}

#[test]
fn console_level_becomes_gzipped_java_level() {
    let mut d = NbtCompound::new("Data");
    d.insert("SpawnX", NbtValue::Int(3));
    d.insert("XZSize", NbtValue::Int(320));
    d.insert("hasStronghold", NbtValue::Byte(1));
    d.insert("LevelName", NbtValue::String("C".to_string()));
    let mut lce = NbtCompound::new("");
    lce.insert("Data", NbtValue::Compound(d));
    let mut player = NbtCompound::new("p");
    player.insert("Health", NbtValue::Short(20));
    let out = convert_lce_to_java_at(&lce, None, Some(90), Some(-5), Some(&player), 77);
    let root = read_gzip_nbt(&out).unwrap();
    let d = root.compound("Data").unwrap();
    assert!(d.get("XZSize").is_none());
    assert!(d.get("hasStronghold").is_none());
    assert_eq!(d.int_value("SpawnX"), Some(3));
    assert_eq!(d.int_value("SpawnY"), Some(90));
    assert_eq!(d.int_value("SpawnZ"), Some(-5));
    assert_eq!(d.int_value("version"), Some(19133));
    assert_eq!(d.int_value("DataVersion"), Some(1343));
    assert_eq!(d.compound("Version").unwrap().string("Name"), Some("1.12.2"));
    assert_eq!(d.compound("Player").unwrap().short("Health"), Some(20));
    assert_eq!(d.long("LastPlayed"), Some(77));
    assert_eq!(d.string("LevelName"), Some("C"));
}
