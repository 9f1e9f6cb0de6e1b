use emerald_legacy::nbt::{get_nibble, read_nbt, set_nibble, write_nbt, NbtCompound, NbtValue};

#[test]
fn nbt_write_then_read_gives_the_compound_back() {
    let mut c = NbtCompound::new("root");
    c.insert("a", NbtValue::Int(-7));
    c.insert("name", NbtValue::String("héllo".to_string()));
    c.insert("bytes", NbtValue::ByteArray(vec![1, 2, 3]));
    let mut inner = NbtCompound::new("inner");
    inner.insert("x", NbtValue::Long(1 << 40));
    c.insert("inner", NbtValue::Compound(inner));
    c.insert("list", NbtValue::List(vec![NbtValue::Short(5), NbtValue::Short(6)]));
    let bytes = write_nbt(&c);
    let back = read_nbt(&bytes).expect("parses");
    assert_eq!(back.name, "root");
    assert_eq!(back.int_value("a"), Some(-7));
    assert_eq!(back.string("name"), Some("héllo"));
    assert_eq!(back.byte_array("bytes"), Some(&[1u8, 2, 3][..]));
    assert_eq!(back.compound("inner").and_then(|i| i.long("x")), Some(1 << 40));
    assert_eq!(back.list("list").map(|l| l.len()), Some(2));
    assert_eq!(write_nbt(&back), bytes);
}

#[test]
fn nbt_encoding_of_a_small_compound() {
    let mut c = NbtCompound::new("");
    c.insert("v", NbtValue::Byte(3));
    assert_eq!(write_nbt(&c), vec![10, 0, 0, 1, 0, 1, b'v', 3, 0]);
}

#[test]
fn nbt_insert_replaces_and_moves_to_end() {
    let mut c = NbtCompound::new("");
    c.insert("a", NbtValue::Int(1));
    c.insert("b", NbtValue::Int(2));
    c.insert("a", NbtValue::Int(3));
    assert_eq!(c.tags.len(), 2);
    assert_eq!(c.tags[0].0, "b");
    assert_eq!(c.tags[1].0, "a");
    assert_eq!(c.int_value("a"), Some(3));
    c.remove("b");
    assert_eq!(c.tags.len(), 1);
    assert!(c.get("b").is_none());
}

#[test]
fn nbt_read_rejects_truncated_and_empty_data() {
    assert!(read_nbt(&[]).is_err());
    assert!(read_nbt(&[10, 0, 5, b'a']).is_err());
}

#[test]
fn nbt_typed_getters_check_the_type() {
    let mut c = NbtCompound::new("");
    c.insert("n", NbtValue::Int(4));
    assert_eq!(c.byte("n"), None);
    assert_eq!(c.long("n"), None);
    assert_eq!(c.int_value("n"), Some(4));
    assert_eq!(c.int_value("missing"), None);
}

#[test]
fn nibbles_low_then_high() {
    let mut d = vec![0u8; 2];
    set_nibble(&mut d, 0, 0xA);
    set_nibble(&mut d, 1, 0x5);
    set_nibble(&mut d, 3, 0xF);
    assert_eq!(d, vec![0x5A, 0xF0]);
    assert_eq!(get_nibble(&d, 0), 0xA);
    assert_eq!(get_nibble(&d, 1), 0x5);
    assert_eq!(get_nibble(&d, 3), 0xF);
    assert_eq!(get_nibble(&d, 9), 0);
}

#[test]
fn a_root_that_is_not_a_compound_is_named_in_the_error() {
    assert_eq!(read_nbt(&[8, 0, 0]).unwrap_err(), "root tag is not compound (type=8)");
    assert_eq!(read_nbt(&[]).unwrap_err(), "empty NBT data");
}
