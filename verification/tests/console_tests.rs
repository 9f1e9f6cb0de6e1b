use emerald_legacy::console::{
    build_empty_chunk_nbt, convert_region, convert_region_from_outcomes, convert_region_ps3, decompress_region_chunk,
    decompress_xmemcompress, region_chunk_from_tries, xmem_from_outcomes, LzxDecoder, LzxSession, find_bytes, output_save_version, find_safe_spawn, looks_like_4j_header, lzxd_window_from_bits,
    parse_ftable_be, parse_param_sfo, parse_region_filename, patch_level_name, patch_player_pos,
    patch_spawn, read_hdr_be, read_player_pos, read_spawn, s32, sanitise, sfo_get, stfs_read_file,
    too_close, win64_file_bytes, win64_raw_bytes, FileEntry, LzxWindow, StfsPackage,
};
use emerald_legacy::nbt::read_nbt;
use std::io::Write;

/// An LZX decoder backed by `lzxd`.
struct TestLzx {
    stream: Option<lzxd::Lzxd>,
}

fn lzx() -> LzxSession<TestLzx> {
    LzxSession::new(TestLzx { stream: None })
}

impl LzxDecoder for TestLzx {
    fn decode_fresh(&mut self, chunk: &[u8], out_len: usize, window: LzxWindow) -> Option<Vec<u8>> {
        let size = match window {
            LzxWindow::KB32 => lzxd::WindowSize::KB32,
            LzxWindow::KB64 => lzxd::WindowSize::KB64,
            LzxWindow::KB128 => lzxd::WindowSize::KB128,
            LzxWindow::KB256 => lzxd::WindowSize::KB256,
            LzxWindow::KB512 => lzxd::WindowSize::KB512,
            LzxWindow::MB1 => lzxd::WindowSize::MB1,
            LzxWindow::MB2 => lzxd::WindowSize::MB2,
        };
        lzxd::Lzxd::new(size).decompress_next(chunk, out_len).ok().map(|s| s.to_vec())
    }

    fn start_stream(&mut self) {
        self.stream = Some(lzxd::Lzxd::new(lzxd::WindowSize::KB128));
    }

    fn decode_next(&mut self, chunk: &[u8], out_len: usize) -> Result<Vec<u8>, String> {
        match self.stream.as_mut() {
            Some(d) => d.decompress_next(chunk, out_len).map(|s| s.to_vec()).map_err(|e| e.to_string()),
            None => Err("no stream".to_string()),
        }
    }
}

fn be_table_entry(name: &str, length: u32, start: u32, last_mod: i64) -> Vec<u8> {
    let mut v = Vec::new();
    let units: Vec<u16> = name.encode_utf16().collect();
    for i in 0..64 {
        let u = if i < units.len() { units[i] } else { 0 };
        v.extend_from_slice(&u.to_be_bytes());
    }
    v.extend_from_slice(&length.to_be_bytes());
    v.extend_from_slice(&start.to_be_bytes());
    v.extend_from_slice(&last_mod.to_be_bytes());
    v
}

#[test]
fn s32_reverses_a_word() {
    let mut b = vec![1u8, 2, 3, 4, 5, 6];
    s32(&mut b, 1);
    assert_eq!(b, vec![1, 5, 4, 3, 2, 6]);
}

#[test]
fn header_and_file_table_are_big_endian() {
    let mut d = Vec::new();
    d.extend_from_slice(&12u32.to_be_bytes());
    d.extend_from_slice(&3u32.to_be_bytes());
    d.extend_from_slice(&2i16.to_be_bytes());
    d.extend_from_slice(&9i16.to_be_bytes());
    d.extend(be_table_entry("level.dat", 10, 500, 77));
    d.extend(be_table_entry("", 10, 0, 0));
    d.extend(be_table_entry("r.0.0.mcr", 0, 0, 0));
    assert_eq!(read_hdr_be(&d), (12, 3, 2, 9));
    let t = parse_ftable_be(&d, 12, 3);
    assert_eq!(t.len(), 1);
    assert_eq!(t[0].filename, "level.dat");
    assert_eq!((t[0].length, t[0].start_offset, t[0].last_mod), (10, 500, 77));
    assert!(looks_like_4j_header(&d));
    let mut bad = d.clone();
    bad.push(0);
    assert!(!looks_like_4j_header(&bad));
    assert!(!looks_like_4j_header(&d[..11]));
}

#[test]
fn table_reading_stops_at_a_record_past_the_end() {
    let mut d = vec![0u8; 12];
    d.extend(be_table_entry("a", 1, 0, 0));
    assert_eq!(parse_ftable_be(&d, 12, 5).len(), 1);
}

#[test]
fn spawn_is_found_and_patched_by_signature() {
    let mut d = vec![0xAAu8, 0xBB];
    for (axis, v) in [(b'X', 100i32), (b'Y', 64), (b'Z', -5)] {
        d.extend_from_slice(&[3, 0, 6, b'S', b'p', b'a', b'w', b'n', axis]);
        d.extend_from_slice(&v.to_be_bytes());
    }
    assert_eq!(read_spawn(&d), Some((100, 64, -5)));
    patch_spawn(&mut d, 1, 2, 3);
    assert_eq!(read_spawn(&d), Some((1, 2, 3)));
    assert_eq!(read_spawn(&d[..20]), None);
}

#[test]
fn player_position_bits_round_trip() {
    let mut d = vec![0u8; 3];
    d.extend_from_slice(&[9, 0, 3, b'P', b'o', b's', 6, 0, 0, 0, 3]);
    for v in [1.5f64, 70.0, -3.25] {
        d.extend_from_slice(&v.to_be_bytes());
    }
    let (x, y, z) = read_player_pos(&d).unwrap();
    assert_eq!((f64::from_bits(x), f64::from_bits(y), f64::from_bits(z)), (1.5, 70.0, -3.25));
    patch_player_pos(&mut d, 8.5f64.to_bits(), 64.0f64.to_bits(), 9.5f64.to_bits());
    let (x, _, z) = read_player_pos(&d).unwrap();
    assert_eq!((f64::from_bits(x), f64::from_bits(z)), (8.5, 9.5));
    assert_eq!(read_player_pos(&d[..20]), None);
}

#[test]
fn level_name_is_replaced() {
    let mut d = vec![7u8];
    d.extend_from_slice(&[8, 0, 9]);
    d.extend_from_slice(b"LevelName");
    d.extend_from_slice(&3u16.to_be_bytes());
    d.extend_from_slice(b"old");
    d.push(0);
    let out = patch_level_name(&d, "New World");
    let mut expect = vec![7u8, 8, 0, 9];
    expect.extend_from_slice(b"LevelName");
    expect.extend_from_slice(&9u16.to_be_bytes());
    expect.extend_from_slice(b"New World");
    expect.push(0);
    assert_eq!(out, expect);
    assert_eq!(patch_level_name(b"no tag here", "x"), b"no tag here".to_vec());
}

#[test]
fn region_file_names_give_dimension_and_coordinates() {
    assert_eq!(parse_region_filename("r.-1.2.mcr"), Some(("overworld", -1, 2)));
    assert_eq!(parse_region_filename("DIM-1r.0.-3.MCR"), Some(("nether", 0, -3)));
    assert_eq!(parse_region_filename("DIM1\\r.4.5.mcr"), Some(("end", 4, 5)));
    assert_eq!(parse_region_filename("r.a.2.mcr"), None);
    assert_eq!(parse_region_filename("level.dat"), None);
    assert_eq!(parse_region_filename("r.1.2.mca"), None);
}

#[test]
fn folder_names_are_sanitised() {
    assert_eq!(sanitise("My: World??").as_deref(), Some("My_ World"));
    assert_eq!(sanitise("__a<>b..").as_deref(), Some("a_b"));
    assert_eq!(sanitise("...").as_deref(), Some("MinecraftSave"));
    let long = "x".repeat(70);
    assert_eq!(sanitise(&long).unwrap().len(), 64);
    let tricky = format!("{}é", "x".repeat(63));
    assert_eq!(sanitise(&tricky), None);
}

#[test]
fn safe_spawn_moves_away_from_dropped_chunks() {
    assert_eq!(find_safe_spawn(&[], (0, 70, 0)), None);
    assert_eq!(find_safe_spawn(&[(100, 100)], (0, 70, 0)), None);
    let s = find_safe_spawn(&[(0, 0)], (5, 70, 5)).unwrap();
    assert_eq!(s, (-12 * 16 + 8, 70, -12 * 16 + 8));
    assert!(too_close(&[(0, 0)], 11, -11));
    assert!(!too_close(&[(0, 0)], 12, 0));
}

#[test]
fn empty_chunk_parses_as_nbt() {
    let d = build_empty_chunk_nbt(3, -4);
    let root = read_nbt(&d).unwrap();
    let level = root.compound("Level").unwrap();
    assert_eq!(level.int_value("xPos"), Some(3));
    assert_eq!(level.int_value("zPos"), Some(-4));
    assert_eq!(level.byte_array("Blocks").map(|b| b.len()), Some(32768));
    assert_eq!(level.byte_array("SkyLight").map(|b| b[0]), Some(0xFF));
    assert_eq!(level.byte("TerrainPopulated"), Some(1));
}

#[test]
fn region_without_chunks_only_swaps_the_table() {
    let mut d = vec![0u8; 8192];
    d[0] = 0x12;
    d[1] = 0x34;
    let mut dropped = Vec::new();
    let out = convert_region(&d, &mut dropped, Some((0, 0)), &mut lzx()).unwrap();
    assert_eq!(&out[..4], &[0, 0, 0x34, 0x12]);
    assert!(dropped.is_empty());
    let out3 = convert_region_ps3(&d).unwrap();
    assert_eq!(out3, out);
}

#[test]
fn undecodable_xbox_chunk_is_replaced_by_an_empty_one() {
    let mut d = vec![0u8; 3 * 4096];
    d[0..4].copy_from_slice(&((2u32 << 8) | 1).to_be_bytes());
    let fo = 2 * 4096;
    d[fo..fo + 4].copy_from_slice(&(4u32 | 0x8000_0000).to_be_bytes());
    d[fo + 4..fo + 8].copy_from_slice(&100u32.to_be_bytes());
    d[fo + 8..fo + 12].copy_from_slice(&[0x00, 0x02, 0xAB, 0xCD]);
    let mut dropped = Vec::new();
    let out = convert_region(&d, &mut dropped, Some((1, 0)), &mut lzx()).unwrap();
    assert_eq!(dropped, vec![0]);
    let word = u32::from_le_bytes([out[0], out[1], out[2], out[3]]);
    assert_eq!(word >> 8, 2);
    let comp = u32::from_le_bytes([out[fo], out[fo + 1], out[fo + 2], out[fo + 3]]);
    assert!(comp & 0x8000_0000 != 0);
    let expect_nbt = build_empty_chunk_nbt(32, 0);
    let decomp = u32::from_le_bytes([out[fo + 4], out[fo + 5], out[fo + 6], out[fo + 7]]);
    assert_eq!(decomp as usize, expect_nbt.len());
    let mut dropped2 = Vec::new();
    let out2 = convert_region(&d, &mut dropped2, None, &mut lzx()).unwrap();
    assert_eq!(dropped2, vec![0]);
    assert_eq!(&out2[0..4], &[0, 0, 0, 0]);
}

#[test]
fn ps3_chunks_are_inflated_and_zlib_compressed() {
    let body = vec![5u8; 300];
    let mut enc = flate2::write::DeflateEncoder::new(Vec::new(), flate2::Compression::new(6));
    enc.write_all(&body).unwrap();
    let deflated = enc.finish().unwrap();
    let mut d = vec![0u8; 2 * 4096];
    d[4..8].copy_from_slice(&((2u32 << 8) | 1).to_be_bytes());
    let mut chunk = Vec::new();
    chunk.extend_from_slice(&((deflated.len() + 4) as u32).to_be_bytes());
    chunk.extend_from_slice(&300u32.to_be_bytes());
    chunk.extend_from_slice(&[0, 0, 0, 0]);
    chunk.extend_from_slice(&deflated);
    d.extend_from_slice(&chunk);
    let out = convert_region_ps3(&d).unwrap();
    let fo = 2 * 4096;
    let comp = u32::from_le_bytes([out[fo], out[fo + 1], out[fo + 2], out[fo + 3]]) as usize;
    let mut dec = flate2::read::ZlibDecoder::new(&out[fo + 8..fo + 8 + comp]);
    let mut back = Vec::new();
    std::io::Read::read_to_end(&mut dec, &mut back).unwrap();
    assert_eq!(back, body);
    assert_eq!(out.len(), 3 * 4096);
}

#[test]
fn lzx_windows_and_failures() {
    assert_eq!(lzxd_window_from_bits(17), Some(LzxWindow::KB128));
    assert_eq!(lzxd_window_from_bits(22), None);
    assert!(decompress_region_chunk(&[], &mut lzx()).is_err());
    let e = decompress_region_chunk(&[0x00, 0x02, 0x12, 0x34], &mut lzx()).unwrap_err();
    assert_eq!(e, "LZX decode failed (all window sizes rejected the chunk)");
}

#[test]
fn xmemcompress_header_errors() {
    assert_eq!(decompress_xmemcompress(&[0; 4], &mut lzx()).unwrap_err(), "savegame.dat too small");
    let mut d = vec![0u8; 10];
    d[0..4].copy_from_slice(&100u32.to_be_bytes());
    assert_eq!(decompress_xmemcompress(&d, &mut lzx()).unwrap_err(), "invalid metadata offset");
    d[0..4].copy_from_slice(&10u32.to_be_bytes());
    assert_eq!(decompress_xmemcompress(&d, &mut lzx()).unwrap_err(), "LZX stream too small");
    let mut ok = vec![0u8; 12];
    ok[0..4].copy_from_slice(&12u32.to_be_bytes());
    assert_eq!(decompress_xmemcompress(&ok, &mut lzx()).unwrap(), Vec::<u8>::new());
}

#[test]
fn stfs_packages_need_the_con_magic() {
    let err = StfsPackage::new(vec![1, 2]).err().unwrap();
    assert_eq!(err, "Not an STFS CON file (magic=[1, 2])");
    let err = StfsPackage::new(b"LIVE....".to_vec()).err().unwrap();
    assert_eq!(err, "Not an STFS CON file (magic=[76, 73, 86, 69])");
    let p = StfsPackage::new(b"CON rest".to_vec()).ok().unwrap();
    assert_eq!(p.table_shift, 1);
    assert_eq!(p.display_name(), None);
}

#[test]
fn stfs_display_name_and_file_read() {
    let mut raw = vec![0u8; 0xA000 + 3 * 0x1000];
    raw[..4].copy_from_slice(b"CON ");
    for (i, c) in "Save".encode_utf16().enumerate() {
        raw[0x411 + 2 * i..0x411 + 2 * i + 2].copy_from_slice(&c.to_be_bytes());
    }
    let p = StfsPackage::new(raw.clone()).ok().unwrap();
    assert_eq!(p.display_name().as_deref(), Some("Save"));
    let off = 0xA000 + 2 * 0x1000;
    raw[off..off + 3].copy_from_slice(b"abc");
    assert_eq!(stfs_read_file(&raw, 0, 3, 1), b"abc".to_vec());
    let mut blank = vec![0u8; 0x500];
    blank[..4].copy_from_slice(b"CON ");
    let q = StfsPackage::new(blank).ok().unwrap();
    assert_eq!(q.display_name().as_deref(), Some("Unknown"));
}

#[test]
fn windows_64_save_layout() {
    let entries = vec![
        FileEntry { filename: "a".to_string(), length: 0, start_offset: 0, last_mod: 5 },
        FileEntry { filename: "bb".to_string(), length: 0, start_offset: 0, last_mod: -1 },
    ];
    let blobs = vec![vec![1u8, 2, 3], vec![4u8]];
    let raw = win64_raw_bytes(&entries, &blobs, 2, 7, 9);
    assert_eq!(raw.len(), 12 + 4 + 2 * 144);
    assert_eq!(&raw[0..4], &16u32.to_le_bytes());
    assert_eq!(&raw[4..8], &2u32.to_le_bytes());
    assert_eq!(&raw[8..12], &[7, 0, 9, 0]);
    assert_eq!(&raw[12..16], &[1, 2, 3, 4]);
    let rec2 = 16 + 144;
    assert_eq!(&raw[rec2..rec2 + 4], &[b'b', 0, b'b', 0]);
    assert_eq!(&raw[rec2 + 128..rec2 + 132], &1u32.to_le_bytes());
    assert_eq!(&raw[rec2 + 132..rec2 + 136], &15u32.to_le_bytes());
    let file = win64_file_bytes(&raw);
    assert_eq!(&file[0..4], &[0, 0, 0, 0]);
    assert_eq!(&file[4..8], &(raw.len() as u32).to_le_bytes());
    let mut dec = flate2::read::ZlibDecoder::new(&file[8..]);
    let mut back = Vec::new();
    std::io::Read::read_to_end(&mut dec, &mut back).unwrap();
    assert_eq!(back, raw);
}

#[test]
fn param_sfo_pairs() {
    let mut d = vec![0u8, b'P', b'S', b'F', 1, 1, 0, 0];
    let key_tbl = 0x14 + 2 * 16;
    let keys = b"SUB_TITLE\0VERSION\0";
    let data_tbl = key_tbl + keys.len();
    d.extend_from_slice(&(key_tbl as u32).to_le_bytes());
    d.extend_from_slice(&(data_tbl as u32).to_le_bytes());
    d.extend_from_slice(&2u32.to_le_bytes());
    let mut e1 = vec![0u8; 16];
    e1[0..2].copy_from_slice(&0u16.to_le_bytes());
    e1[2..4].copy_from_slice(&0x0204u16.to_le_bytes());
    e1[4..6].copy_from_slice(&8u16.to_le_bytes());
    e1[8..12].copy_from_slice(&0u32.to_le_bytes());
    let mut e2 = vec![0u8; 16];
    e2[0..2].copy_from_slice(&10u16.to_le_bytes());
    e2[2..4].copy_from_slice(&0x0404u16.to_le_bytes());
    e2[4..6].copy_from_slice(&4u16.to_le_bytes());
    e2[8..12].copy_from_slice(&8u32.to_le_bytes());
    d.extend(e1);
    d.extend(e2);
    d.extend_from_slice(keys);
    d.extend_from_slice(b"World\0\0\0");
    d.extend_from_slice(&42u32.to_le_bytes());
    let pairs = parse_param_sfo(&d);
    assert_eq!(sfo_get(&pairs, "SUB_TITLE").as_deref(), Some("World"));
    assert_eq!(sfo_get(&pairs, "VERSION").as_deref(), Some("42"));
    assert_eq!(sfo_get(&pairs, "NOPE"), None);
    assert!(parse_param_sfo(b"nothing").is_empty());
}

#[test]
fn byte_search_finds_the_first_occurrence() {
    assert_eq!(find_bytes(b"abcabc", b"ca"), Some(2));
    assert_eq!(find_bytes(b"ab", b"abc"), None);
}

#[test]
fn package_thumbnail_is_the_png_after_the_header() {
    let mut raw = b"CON ".to_vec();
    raw.resize(0x171A + 5, 0);
    let png_start = raw.len();
    raw.extend_from_slice(b"\x89PNG\r\n\x1a\nDATA");
    raw.extend_from_slice(b"IEND\xAE\x42\x60\x82");
    raw.extend_from_slice(&[1, 2, 3, 4, 5, 6]);
    let pkg = StfsPackage::new(raw.clone()).unwrap();
    let thumb = pkg.thumbnail().unwrap();
    assert_eq!(thumb, raw[png_start..png_start + 12 + 12].to_vec());
    let mut short = b"CON ".to_vec();
    short.resize(0x100, 0);
    assert!(StfsPackage::new(short).unwrap().thumbnail().is_none());
    let mut no_end = b"CON ".to_vec();
    no_end.resize(0x171A, 0);
    no_end.extend_from_slice(b"\x89PNG\r\n\x1a\nxx");
    assert!(StfsPackage::new(no_end).unwrap().thumbnail().is_none());
}

#[test]
fn converted_saves_are_written_at_version_nine_at_most() {
    assert_eq!(output_save_version(7), 7);
    assert_eq!(output_save_version(9), 9);
    assert_eq!(output_save_version(11), 9);
    assert_eq!(output_save_version(-1), -1);
}

/// One LZX chunk holding an uncompressed block of the three bytes `abc`.
fn lzx_abc_chunk() -> Vec<u8> {
    vec![0x00, 0x30, 0x30, 0x00, 1, 0, 0, 0, 1, 0, 0, 0, 1, 0, 0, 0, b'a', b'b', b'c', 0x00]
}

#[test]
fn region_chunks_decode_through_lzx() {
    let mut d = vec![0xFF, 0x00, 0x03, 0x00, 20];
    d.extend_from_slice(&lzx_abc_chunk());
    assert_eq!(decompress_region_chunk(&d, &mut lzx()).unwrap(), b"abc".to_vec());
}

#[test]
fn xmemcompress_streams_decode_through_lzx() {
    let mut stream = 3u32.to_be_bytes().to_vec();
    stream.extend_from_slice(&[0xFF, 0x00, 0x03, 0x00, 20]);
    stream.extend_from_slice(&lzx_abc_chunk());
    let mut dat = ((8 + stream.len()) as u32).to_be_bytes().to_vec();
    dat.extend_from_slice(&[0, 0, 0, 0]);
    dat.extend_from_slice(&stream);
    assert_eq!(decompress_xmemcompress(&dat, &mut lzx()).unwrap(), b"abc".to_vec());
    let mut bad = dat.clone();
    bad[18] = 0x70;
    let e = decompress_xmemcompress(&bad, &mut lzx()).unwrap_err();
    assert!(e.starts_with("LZX decompression failed at offset 9: "), "{}", e);
}

#[test]
fn region_chunks_take_the_first_window_that_decodes() {
    let d = [0x00, 0x02, 0x12, 0x34];
    let tries = vec![None, Some(vec![7, 8]), Some(vec![9])];
    assert_eq!(region_chunk_from_tries(&d, &tries).unwrap(), vec![7, 8]);
    assert_eq!(
        region_chunk_from_tries(&d, &[None, None]).unwrap_err(),
        "LZX decode failed (all window sizes rejected the chunk)"
    );
    assert_eq!(region_chunk_from_tries(&[0xFF, 0], &tries).unwrap_err(), "LZX chunk header cut short");
}

#[test]
fn xmemcompress_outcomes_are_joined_until_one_fails() {
    let mut stream = 5u32.to_be_bytes().to_vec();
    stream.extend_from_slice(&[0xFF, 0x00, 0x03, 0x00, 2, 0xAA, 0xBB]);
    stream.extend_from_slice(&[0xFF, 0x00, 0x03, 0x00, 1, 0xCC]);
    let mut dat = ((8 + stream.len()) as u32).to_be_bytes().to_vec();
    dat.extend_from_slice(&[0, 0, 0, 0]);
    dat.extend_from_slice(&stream);
    let good = vec![Ok(vec![1, 2, 3]), Ok(vec![4, 5])];
    assert_eq!(xmem_from_outcomes(&dat, &good).unwrap(), vec![1, 2, 3, 4, 5]);
    let bad = vec![Ok(vec![1, 2, 3]), Err("broken".to_string())];
    assert_eq!(xmem_from_outcomes(&dat, &bad).unwrap_err(), "LZX decompression failed at offset 16: broken");
    assert_eq!(xmem_from_outcomes(&dat, &good[..1]).unwrap(), vec![1, 2, 3]);
    assert_eq!(xmem_from_outcomes(&[0; 4], &good).unwrap_err(), "savegame.dat too small");
}

#[test]
fn region_conversion_uses_the_slot_outcomes() {
    let mut d = vec![0u8; 3 * 4096];
    d[0..4].copy_from_slice(&((2u32 << 8) | 1).to_be_bytes());
    let fo = 2 * 4096;
    d[fo..fo + 4].copy_from_slice(&4u32.to_be_bytes());
    d[fo + 4..fo + 8].copy_from_slice(&3u32.to_be_bytes());
    d[fo + 8..fo + 12].copy_from_slice(&[0x00, 0x02, 0xAB, 0xCD]);
    let mut outs: Vec<Result<Vec<u8>, String>> = vec![Err(String::new()); 1024];
    outs[0] = Ok(vec![1, 2, 3]);
    let mut dropped = Vec::new();
    let out = convert_region_from_outcomes(&d, &mut dropped, None, &outs).unwrap();
    assert!(dropped.is_empty());
    let comp = u32::from_le_bytes([out[fo], out[fo + 1], out[fo + 2], out[fo + 3]]) as usize;
    let mut z = flate2::read::ZlibDecoder::new(&out[fo + 8..fo + 8 + comp]);
    let mut back = Vec::new();
    std::io::Read::read_to_end(&mut z, &mut back).unwrap();
    assert_eq!(back, vec![1, 2, 3]);
}

/// A decoder that notes what it is asked and decodes nothing.
struct Refusing {
    fresh: Vec<(Vec<u8>, usize, LzxWindow)>,
    next: Vec<(Vec<u8>, usize)>,
    starts: usize,
}

impl LzxDecoder for Refusing {
    fn decode_fresh(&mut self, chunk: &[u8], out_len: usize, window: LzxWindow) -> Option<Vec<u8>> {
        self.fresh.push((chunk.to_vec(), out_len, window));
        None
    }

    fn start_stream(&mut self) {
        self.starts += 1;
    }

    fn decode_next(&mut self, chunk: &[u8], out_len: usize) -> Result<Vec<u8>, String> {
        self.next.push((chunk.to_vec(), out_len));
        Err("refused".to_string())
    }
}

#[test]
fn the_decoder_gets_the_lzx_bytes_with_each_window_in_turn() {
    let mut s = LzxSession::new(Refusing { fresh: Vec::new(), next: Vec::new(), starts: 0 });
    let d = [0xFF, 0x01, 0x00, 0x00, 0x02, 0xAA, 0xBB, 0xCC];
    let e = decompress_region_chunk(&d, &mut s).unwrap_err();
    assert_eq!(e, "LZX decode failed (all window sizes rejected the chunk)");
    let windows: Vec<LzxWindow> = s.decoder.fresh.iter().map(|c| c.2).collect();
    assert_eq!(
        windows,
        vec![
            LzxWindow::KB128,
            LzxWindow::KB64,
            LzxWindow::KB32,
            LzxWindow::KB256,
            LzxWindow::KB512,
            LzxWindow::MB1,
            LzxWindow::MB2
        ]
    );
    assert!(s.decoder.fresh.iter().all(|c| c.0 == vec![0xAA, 0xBB] && c.1 == 0x100));
    let mut stream = 5u32.to_be_bytes().to_vec();
    stream.extend_from_slice(&[0xFF, 0x00, 0x03, 0x00, 2, 0xAA, 0xBB]);
    stream.extend_from_slice(&[0xFF, 0x00, 0x03, 0x00, 1, 0xCC]);
    let mut dat = ((8 + stream.len()) as u32).to_be_bytes().to_vec();
    dat.extend_from_slice(&[0, 0, 0, 0]);
    dat.extend_from_slice(&stream);
    let e = decompress_xmemcompress(&dat, &mut s).unwrap_err();
    assert_eq!(e, "LZX decompression failed at offset 9: refused");
    assert_eq!(s.decoder.starts, 1);
    assert_eq!(s.decoder.next, vec![(vec![0xAA, 0xBB], 3)]);
}
