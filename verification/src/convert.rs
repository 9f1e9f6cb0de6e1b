//! World conversion helpers: floor division for chunk and region
//! coordinates, spawn height estimation, reading a Windows 64 save's files,
//! and turning one LCE chunk into a modern Java chunk.
use vstd::prelude::*;
use crate::nbt::{lookup, CompoundModel, NbtCompound, NbtTag, NbtValue, spec_read_nbt, spec_write_nbt, read_nbt, write_nbt};
use crate::bytes::{le_u16_at, le_u32_at, get_u16_le, get_u32_le};
use crate::chunk::{section_y, read_section_y};
use crate::console::{units_text, FileEntryModel};
use crate::text::{push_char, split_at_byte, split_ranges, parse_i32, spec_parse_i32, text_bytes};
use crate::region::slice_range;
use vstd::utf8::encode_utf8;

verus! {

/// `a / b` rounded towards negative infinity.
pub open spec fn floor_div_spec(a: int, b: int) -> int {
    if b > 0 {
        a / b
    } else {
        (-a) / (-b)
    }
}

/// `a / b` rounded towards negative infinity.
pub fn floor_div(a: i32, b: i32) -> (r: i32)
    requires
        b != 0,
        !(a == i32::MIN && b == -1),
    ensures
        r as int == floor_div_spec(a as int, b as int),
{
    let (x, y): (i64, i64) = if b > 0 {
        (a as i64, b as i64)
    } else {
        (-(a as i64), -(b as i64))
    };
    let q: i64 = if x >= 0 {
        x / y
    } else {
        -((-x + y - 1) / y)
    };
    assert(q as int == (x as int) / (y as int)) by (nonlinear_arith)
        requires
            y > 0,
            x >= 0 ==> q as int == (x as int) / (y as int),
            x < 0 ==> q as int == -((-(x as int) + (y as int) - 1) / (y as int)),
    ;
    assert(-0x8000_0000 <= q <= 0x7FFF_FFFF) by (nonlinear_arith)
        requires
            y >= 1,
            q as int == (x as int) / (y as int),
            -0x8000_0000 <= x <= 0x8000_0000,
            x == 0x8000_0000 ==> y >= 2,
    ;
    q as i32
}

/// `v` limited to 1..=127.
pub open spec fn clamp_y(v: int) -> int {
    if v < 1 {
        1
    } else if v > 127 {
        127
    } else {
        v
    }
}

fn clamp_height(v: i64) -> (r: i32)
    ensures
        r as int == clamp_y(v as int),
{
    if v < 1 {
        1
    } else if v > 127 {
        127
    } else {
        v as i32
    }
}

/// The `Level` compound of a chunk root, or the root itself.
pub open spec fn level_of(root: CompoundModel) -> CompoundModel {
    match lookup(root.tags, "Level"@) {
        Some(NbtTag::Compound(l)) => l,
        _ => root,
    }
}

/// The highest block of section column `(lx, lz)` in sections `secs[..n]`
/// (Y from 0 to 7, full `Blocks`), as a world height, or -1.
pub open spec fn sections_top(secs: Seq<NbtTag>, lx: int, lz: int, n: int) -> int
    decreases n,
{
    if n <= 0 {
        -1
    } else {
        let m = sections_top(secs, lx, lz, n - 1);
        let t = match secs[n - 1] {
            NbtTag::Compound(s) => match section_y(s) {
                Some(sy) => if 0 <= sy <= 7 {
                    match lookup(s.tags, "Blocks"@) {
                        Some(NbtTag::ByteArray(b)) => if b.len() >= 4096 {
                            match column_top(b, lx + lz * 16, 15) {
                                Some(y) => sy * 16 + y,
                                None => -1,
                            }
                        } else {
                            -1
                        },
                        _ => -1,
                    }
                } else {
                    -1
                },
                None => -1,
            },
            _ => -1,
        };
        if t > m {
            t
        } else {
            m
        }
    }
}

/// The highest `y <= top` (down to `low`) at which the YZX-ordered block
/// array `b` (256 per layer) has a block at `col`.
pub open spec fn column_top_from(b: Seq<u8>, col: int, y: int, low: int) -> Option<int>
    decreases y - low + 1,
{
    if y < low {
        None
    } else if b[y * 256 + col] != 0 {
        Some(y)
    } else {
        column_top_from(b, col, y - 1, low)
    }
}

/// The highest `y` in 0..=top with a block at `col` of a section.
pub open spec fn column_top(b: Seq<u8>, col: int, top: int) -> Option<int> {
    column_top_from(b, col, top, 0)
}

/// The spawn height for a Console world from the Java chunk at the spawn:
/// one above the height map (byte or int) where it is positive, else one
/// above the highest block of the column (flat `Blocks`, from 127 down to
/// 1; else the highest of the 16-high sections 0 to 7 of `Sections` or
/// `sections`), else the source spawn height; always limited to 1..=127.
pub open spec fn spawn_height(root: CompoundModel, spawn_x: i32, spawn_z: i32, source_y: i32) -> int {
    let level = level_of(root);
    let lx = (spawn_x as int) % 16;
    let lz = (spawn_z as int) % 16;
    let idx = lx + lz * 16;
    let byte_h: Option<int> = match lookup(level.tags, "HeightMap"@) {
        Some(NbtTag::ByteArray(hm)) => if hm.len() >= 256 && hm[idx] > 0 {
            Some(hm[idx] as int)
        } else {
            None
        },
        _ => None,
    };
    let int_h: Option<int> = match lookup(level.tags, "HeightMap"@) {
        Some(NbtTag::IntArray(hm)) => if hm.len() >= 256 && hm[idx] > 0 {
            Some(hm[idx] as int)
        } else {
            None
        },
        _ => None,
    };
    let flat: Option<int> = match lookup(level.tags, "Blocks"@) {
        Some(NbtTag::ByteArray(b)) => if b.len() >= 32768 {
            column_top_from(b, idx, 127, 1)
        } else {
            None
        },
        _ => None,
    };
    let secs: Option<Seq<NbtTag>> = match lookup(level.tags, "Sections"@) {
        Some(NbtTag::List(l)) => Some(l),
        _ => match lookup(level.tags, "sections"@) {
            Some(NbtTag::List(l)) => Some(l),
            _ => None,
        },
    };
    let sec_top: int = match secs {
        Some(l) => sections_top(l, lx, lz, l.len() as int),
        None => -1,
    };
    match byte_h {
        Some(h) => clamp_y(h + 1),
        None => match int_h {
            Some(h) => clamp_y(h + 1),
            None => match flat {
                Some(y) => clamp_y(y + 1),
                None => if sec_top >= 0 {
                    clamp_y(sec_top + 1)
                } else {
                    clamp_y(source_y as int)
                },
            },
        },
    }
}

fn column_top_exec(b: &[u8], col: usize, top: usize, low: usize) -> (r: Option<usize>)
    requires
        col < 256,
        top < 128,
        low <= top + 1,
        (top + 1) * 256 <= b@.len(),
    ensures
        match r {
            Some(y) => column_top_from(b@, col as int, top as int, low as int) == Some(y as int) && y <= top,
            None => column_top_from(b@, col as int, top as int, low as int) is None,
        },
{
    let mut y: usize = top + 1;
    while y > low
        invariant
            low <= y <= top + 1,
            top < 128,
            col < 256,
            (top + 1) * 256 <= b@.len(),
            column_top_from(b@, col as int, top as int, low as int) == column_top_from(b@, col as int, y - 1, low as int),
        decreases y,
    {
        if b[(y - 1) * 256 + col] != 0 {
            return Some(y - 1);
        }
        y -= 1;
    }
    None
}

/// Estimates the spawn height from the Java chunk at the spawn (see
/// `spawn_height`).
pub fn estimate_spawn_y_from_chunk(root: &NbtCompound, spawn_x: i32, spawn_z: i32, source_y: i32) -> (r: i32)
    ensures
        r as int == spawn_height(root@, spawn_x, spawn_z, source_y),
{
    let level: &NbtCompound = match root.compound("Level") {
        Some(l) => l,
        None => root,
    };
    let lx = ((spawn_x % 16) + 16) % 16;
    let lz = ((spawn_z % 16) + 16) % 16;
    assert(lx as int == (spawn_x as int) % 16 && lz as int == (spawn_z as int) % 16) by (nonlinear_arith)
        requires
            lx == ((spawn_x % 16) + 16) % 16,
            lz == ((spawn_z % 16) + 16) % 16,
    ;
    let idx = (lx + lz * 16) as usize;
    if let Some(hm) = level.byte_array("HeightMap") {
        if hm.len() >= 256 && hm[idx] > 0 {
            return clamp_height(hm[idx] as i64 + 1);
        }
    }
    if let Some(hm) = level.int_array("HeightMap") {
        if hm.len() >= 256 && hm[idx] > 0 {
            return clamp_height(hm[idx] as i64 + 1);
        }
    }
    if let Some(b) = level.byte_array("Blocks") {
        if b.len() >= 32768 {
            if let Some(y) = column_top_exec(b, idx, 127, 1) {
                return clamp_height(y as i64 + 1);
            }
        }
    }
    let secs: Option<&[NbtValue]> = match level.list("Sections") {
        Some(l) => Some(l),
        None => level.list("sections"),
    };
    if let Some(l) = secs {
        let ghost m = crate::nbt::values_model(l@);
        proof {
            crate::nbt::lemma_values_model(l@);
        }
        let mut max_y: i64 = -1;
        let mut k: usize = 0;
        while k < l.len()
            invariant
                k <= l@.len(),
                m == crate::nbt::values_model(l@),
                m.len() == l@.len(),
                forall|j: int| 0 <= j < l@.len() ==> #[trigger] m[j] == l@[j]@,
                idx as int == lx + lz * 16,
                0 <= lx < 16,
                0 <= lz < 16,
                max_y as int == sections_top(m, lx as int, lz as int, k as int),
                -1 <= max_y <= 127,
            decreases l@.len() - k,
        {
            let mut t: i64 = -1;
            if let NbtValue::Compound(section) = &l[k] {
                assert(m[k as int] == NbtTag::Compound(section@));
                match read_section_y(section) {
                    Some(sy) => {
                        if 0 <= sy && sy <= 7 {
                            if let Some(b) = section.byte_array("Blocks") {
                                if b.len() >= 4096 {
                                    if let Some(y) = column_top_exec(b, idx, 15, 0) {
                                        t = sy as i64 * 16 + y as i64;
                                    }
                                }
                            }
                        }
                    },
                    None => {},
                }
            }
            if t > max_y {
                max_y = t;
            }
            k += 1;
        }
        assert(m.len() == l@.len());
        if max_y >= 0 {
            return clamp_height(max_y + 1);
        }
    }
    clamp_height(source_y as i64)
}

// ---------------------------------------------------------------------
// Windows 64 save files.
// ---------------------------------------------------------------------

/// The `n` little-endian code units at `d[off..]`.
pub open spec fn units_le_at(d: Seq<u8>, off: int, n: nat) -> Seq<u16> {
    Seq::new(n, |j: int| le_u16_at(d, off + 2 * j))
}

/// The files of an uncompressed Windows 64 save from table record `i` on:
/// 144-byte records at the footer offset with a UTF-16LE name (to the
/// first zero, surrogates dropped), a length and a start; kept where the
/// name is not empty, the length positive and the range within the data;
/// reading stops at a record past the end.
pub open spec fn save_files_from(d: Seq<u8>, fo: int, count: int, i: int) -> Seq<(Seq<char>, Seq<u8>)>
    decreases count - i,
{
    if i < 0 || i >= count || fo + i * 144 + 144 > d.len() {
        seq![]
    } else {
        let base = fo + i * 144;
        let name = units_text(units_le_at(d, base, 64));
        let length = le_u32_at(d, base + 128) as int;
        let start = le_u32_at(d, base + 132) as int;
        let rest = save_files_from(d, fo, count, i + 1);
        if name.len() > 0 && length > 0 && start + length <= d.len() {
            seq![(name, d.subrange(start, start + length))] + rest
        } else {
            rest
        }
    }
}

/// The files of an uncompressed Windows 64 save; `None` where the data is
/// shorter than its 8-byte header.
pub open spec fn save_files(d: Seq<u8>) -> Option<Seq<(Seq<char>, Seq<u8>)>> {
    if d.len() < 8 {
        None
    } else {
        Some(save_files_from(d, le_u32_at(d, 0) as int, le_u32_at(d, 4) as int, 0))
    }
}

/// The text pairs of a list of files.
pub open spec fn files_view(v: Seq<(String, Vec<u8>)>) -> Seq<(Seq<char>, Seq<u8>)> {
    Seq::new(v.len(), |i: int| (v[i].0@, v[i].1@))
}

fn utf16_le_text(d: &[u8], off: usize, n: usize) -> (r: String)
    requires
        off + 2 * n <= d@.len(),
    ensures
        r@ == units_text(units_le_at(d@, off as int, n as nat)),
{
    let mut be: Vec<u8> = Vec::new();
    let mut k: usize = 0;
    let dl = d.len();
    while k < n
        invariant
            off + 2 * n <= dl,
            dl == d@.len(),
            k <= n,
            be@.len() == 2 * k,
            forall|j: int| 0 <= j < 2 * k ==> #[trigger] be@[j] == (if j % 2 == 0 { d@[off + j + 1] } else { d@[off + j - 1] }),
        decreases n - k,
    {
        be.push(d[off + 2 * k + 1]);
        be.push(d[off + 2 * k]);
        k += 1;
    }
    let t = crate::console::utf16_be_text(be.as_slice(), 0, n);
    assert(crate::console::units_be_at(be@, 0, n as nat) =~= units_le_at(d@, off as int, n as nat)) by {
        assert forall|j: int| 0 <= j < n implies crate::console::units_be_at(be@, 0, n as nat)[j] == units_le_at(d@, off as int, n as nat)[j] by {
            assert((2 * j) % 2 == 0 && (2 * j + 1) % 2 == 1);
            assert(be@[2 * j] == d@[off + 2 * j + 1]);
            assert(be@[2 * j + 1] == d@[off + 2 * j]);
            let hi = d@[off + 2 * j + 1];
            let lo = d@[off + 2 * j];
            assert((((hi as u16) << 8u16) | (lo as u16)) == ((lo as u16) | ((hi as u16) << 8u16))) by (bit_vector);
        }
    }
    t
}

/// Reads the files of an uncompressed Windows 64 save (see `save_files`).
pub fn parse_save_files(d: &[u8]) -> (r: Option<Vec<(String, Vec<u8>)>>)
    ensures
        match r {
            Some(v) => save_files(d@) == Some(files_view(v@)),
            None => save_files(d@) is None,
        },
{
    let len = d.len();
    if len < 8 {
        return None;
    }
    let fo = get_u32_le(d, 0) as u64;
    let count = get_u32_le(d, 4) as u64;
    let ghost all = save_files_from(d@, fo as int, count as int, 0);
    let mut out: Vec<(String, Vec<u8>)> = Vec::new();
    let mut i: u64 = 0;
    assert(files_view(out@) + all =~= all);
    while i < count
        invariant
            len == d@.len(),
            count <= 0xFFFF_FFFF,
            fo <= 0xFFFF_FFFF,
            i <= count,
            all == save_files_from(d@, fo as int, count as int, 0),
            files_view(out@) + save_files_from(d@, fo as int, count as int, i as int) == all,
        ensures
            files_view(out@) == all,
        decreases count - i,
    {
        let base = fo + i * 144;
        if base + 144 > len as u64 {
            assert(files_view(out@) + Seq::<(Seq<char>, Seq<u8>)>::empty() =~= files_view(out@));
            break;
        }
        let b = base as usize;
        let name = utf16_le_text(d, b, 64);
        let length = get_u32_le(d, b + 128) as u64;
        let start = get_u32_le(d, b + 132) as u64;
        let ghost rest = save_files_from(d@, fo as int, count as int, i + 1);
        if !name.as_str().is_empty() && length > 0 && start + length <= len as u64 {
            let mut data: Vec<u8> = Vec::new();
            let piece = slice_range(d, start as usize, (start + length) as usize);
            let mut k: usize = 0;
            while k < piece.len()
                invariant
                    k <= piece@.len(),
                    data@ == piece@.take(k as int),
                decreases piece@.len() - k,
            {
                data.push(piece[k]);
                k += 1;
                assert(data@ =~= piece@.take(k as int));
            }
            assert(piece@.take(k as int) =~= piece@);
            let ghost before = files_view(out@);
            let ghost e = (name@, data@);
            out.push((name, data));
            assert(files_view(out@) =~= before.push(e));
            assert(before + (seq![e] + rest) =~= files_view(out@) + rest);
        }
        i += 1;
    }
    Some(out)
}

/// The region coordinates in a Console region file name `x.rx.rz.ext`: the
/// second and third dot-separated parts where there are at least four
/// parts (0 where one does not parse), else (0, 0).
pub open spec fn name_region_coords(name: Seq<char>) -> (i32, i32) {
    let b = encode_utf8(name);
    let parts = split_ranges(b, 46);
    if parts.len() < 4 {
        (0, 0)
    } else {
        (
            match spec_parse_i32(b.subrange(parts[1].0, parts[1].1)) {
                Some(v) => v,
                None => 0,
            },
            match spec_parse_i32(b.subrange(parts[2].0, parts[2].1)) {
                Some(v) => v,
                None => 0,
            },
        )
    }
}

/// The region coordinates in a Console region file name.
pub fn region_coords_from_name(name: &str) -> (r: (i32, i32))
    ensures
        r == name_region_coords(name@),
{
    let bytes = text_bytes(name);
    let parts = split_at_byte(bytes.as_slice(), 46);
    if parts.len() < 4 {
        return (0, 0);
    }
    let (a0, a1) = parts[1];
    let (b0, b1) = parts[2];
    let x = match parse_i32(slice_range(bytes.as_slice(), a0, a1)) {
        Some(v) => v,
        None => 0,
    };
    let z = match parse_i32(slice_range(bytes.as_slice(), b0, b1)) {
        Some(v) => v,
        None => 0,
    };
    (x, z)
}

/// The Java chunk that an LCE chunk at `(region_x, region_z, local_x,
/// local_z)` becomes: its world chunk coordinates, target region and local
/// position, and the modern chunk NBT; `None` where the payload holds no
/// legacy chunk.
pub open spec fn java_chunk_of(data: Seq<u8>, region_x: i32, region_z: i32, local_x: i32, local_z: i32) -> Option<(i32, i32, i32, i32, Seq<u8>)> {
    match crate::payload::legacy_nbt_of(data) {
        None => None,
        Some(legacy) => {
            let root = match spec_read_nbt(legacy) {
                Some(c) => c,
                None => CompoundModel { name: ""@, tags: seq![] },
            };
            let cx = region_x.wrapping_mul(32).wrapping_add(local_x);
            let cz = region_z.wrapping_mul(32).wrapping_add(local_z);
            let modern = crate::anvil::modern_anvil_level(level_of(root), cx, cz);
            Some((cx >> 5u32, cz >> 5u32, cx & 31, cz & 31, spec_write_nbt(modern)))
        },
    }
}

/// Converts one LCE chunk payload to a modern Java chunk (see
/// `java_chunk_of`).
pub fn convert_lce_chunk(data: &[u8], region_x: i32, region_z: i32, local_x: i32, local_z: i32) -> (r: Option<(i32, i32, i32, i32, Vec<u8>)>)
    ensures
        match r {
            Some((a, b, c, e, v)) => java_chunk_of(data@, region_x, region_z, local_x, local_z) == Some((a, b, c, e, v@)),
            None => java_chunk_of(data@, region_x, region_z, local_x, local_z) is None,
        },
{
    let legacy = match crate::payload::try_decode_to_legacy_nbt(data) {
        Some(l) => l,
        None => return None,
    };
    let root = match read_nbt(legacy.as_slice()) {
        Ok(c) => c,
        Err(_) => NbtCompound::new(""),
    };
    assert(root@ == match spec_read_nbt(legacy@) {
        Some(c) => c,
        None => CompoundModel { name: ""@, tags: seq![] },
    });
    let level: &NbtCompound = match root.compound("Level") {
        Some(l) => l,
        None => &root,
    };
    let cx = region_x.wrapping_mul(32).wrapping_add(local_x);
    let cz = region_z.wrapping_mul(32).wrapping_add(local_z);
    let modern = crate::anvil::build_modern_anvil_level(level, cx, cz);
    let bytes = write_nbt(&modern);
    Some((cx >> 5u32, cz >> 5u32, cx & 31, cz & 31, bytes))
}

// ---------------------------------------------------------------------
// Whole saves and regions.
// ---------------------------------------------------------------------

/// The files of a Windows 64 `saveData.ms` (an 8-byte prefix, then a zlib
/// stream of the save): `None` where the stream does not inflate or the
/// save is shorter than its header.
pub open spec fn container_files(ms: Seq<u8>) -> Option<Seq<(Seq<char>, Seq<u8>)>> {
    match crate::compress::zlib_inflated(ms.skip(8)) {
        None => None,
        Some(b) => save_files(b),
    }
}

/// Reads the files of a Windows 64 `saveData.ms` (see `container_files`);
/// the error says whether decompression failed or the save is too short.
pub fn save_container_files(ms: &[u8]) -> (r: Result<Vec<(String, Vec<u8>)>, String>)
    requires
        ms@.len() >= 8,
    ensures
        match container_files(ms@) {
            Some(f) => r matches Ok(v) && files_view(v@) == f,
            None => r is Err,
        },
{
    let n = ms.len();
    let body = slice_range(ms, 8, n);
    assert(body@ =~= ms@.skip(8));
    match crate::region::decompress_zlib(body) {
        Ok(blob) => match parse_save_files(blob.as_slice()) {
            Some(files) => Ok(files),
            None => Err(crate::anvil::owned("Save data is shorter than its header")),
        },
        Err(e) => {
            let mut msg = crate::anvil::owned("Failed to decompress save data: ");
            crate::workshop::push_text(&mut msg, e.as_str());
            Err(msg)
        },
    }
}

/// A converted chunk: its Java region, its slot there, its NBT bytes.
pub type ModernChunk = (i32, i32, i32, i32, Seq<u8>);

/// The slots of an LCE region file from 0 to `k`, in order (`z` outer,
/// `x` inner): each slot with a stored chunk that inflates and decodes
/// gives its converted modern chunk.
pub open spec fn region_chunks_upto(rx: i32, rz: i32, data: Seq<u8>, k: nat) -> Seq<ModernChunk>
    decreases k,
{
    if k == 0 {
        seq![]
    } else {
        let prev = region_chunks_upto(rx, rz, data, (k - 1) as nat);
        let slot = k - 1;
        let e = crate::java_region::header_words(data, 0)[slot];
        if e == 0 {
            prev
        } else {
            match crate::java_region::inflated_stream(crate::java_region::stored_stream(data, e)) {
                Some(Some(v)) => match java_chunk_of(v, rx, rz, (slot % 32) as i32, (slot / 32) as i32) {
                    Some(t) => prev.push(t),
                    None => prev,
                },
                _ => prev,
            }
        }
    }
}

/// The slots (`x`, `z`) from 0 to `k` whose stored chunk fails to inflate.
pub open spec fn region_failures_upto(data: Seq<u8>, k: nat) -> Seq<(i32, i32)>
    decreases k,
{
    if k == 0 {
        seq![]
    } else {
        let prev = region_failures_upto(data, (k - 1) as nat);
        let slot = k - 1;
        let e = crate::java_region::header_words(data, 0)[slot];
        if e != 0 && crate::java_region::inflated_stream(crate::java_region::stored_stream(data, e)) is None {
            prev.push(((slot % 32) as i32, (slot / 32) as i32))
        } else {
            prev
        }
    }
}

/// The values of a list of converted chunks.
pub open spec fn chunks_view(v: Seq<(i32, i32, i32, i32, Vec<u8>)>) -> Seq<ModernChunk> {
    Seq::new(v.len(), |i: int| (v[i].0, v[i].1, v[i].2, v[i].3, v[i].4@))
}

/// Converts every chunk of an LCE region file called `name` (its region
/// coordinates read from the name) to modern Java chunks (see
/// `region_chunks_upto`), and lists the slots whose chunk failed to
/// inflate with the decompressor's message.
pub fn lce_region_chunks(name: &str, data: &[u8]) -> (r: (Vec<(i32, i32, i32, i32, Vec<u8>)>, Vec<(i32, i32, String)>))
    ensures
        chunks_view(r.0@) == region_chunks_upto(name_region_coords(name@).0, name_region_coords(name@).1, data@, 1024),
        Seq::new(r.1@.len(), |i: int| (r.1@[i].0, r.1@[i].1)) == region_failures_upto(data@, 1024),
{
    let (rx, rz) = region_coords_from_name(name);
    let mut reader = crate::java_region::JavaRegionReader::open_from_bytes(data);
    let mut out: Vec<(i32, i32, i32, i32, Vec<u8>)> = Vec::new();
    let mut errs: Vec<(i32, i32, String)> = Vec::new();
    let mut k: usize = 0;
    while k < 1024
        invariant
            k <= 1024,
            reader.data@ == data@,
            reader.offsets@ == crate::java_region::header_words(data@, 0),
            (rx, rz) == name_region_coords(name@),
            chunks_view(out@) == region_chunks_upto(rx, rz, data@, k as nat),
            Seq::new(errs@.len(), |i: int| (errs@[i].0, errs@[i].1)) == region_failures_upto(data@, k as nat),
        decreases 1024 - k,
    {
        let lx = (k % 32) as i32;
        let lz = (k / 32) as i32;
        let ghost before = chunks_view(out@);
        let ghost ebefore = Seq::new(errs@.len(), |i: int| (errs@[i].0, errs@[i].1));
        if reader.offsets[k] != 0 {
            assert(crate::java_region::slot_index(lx, lz) == k) by {
                crate::bytes::lemma_low5(lx);
                crate::bytes::lemma_low5(lz);
            }
            match reader.read_chunk(lx, lz) {
                Ok(Some(d)) => {
                    match convert_lce_chunk(d.as_slice(), rx, rz, lx, lz) {
                        Some(t) => {
                            let ghost tv = (t.0, t.1, t.2, t.3, t.4@);
                            out.push(t);
                            assert(chunks_view(out@) =~= before.push(tv));
                        },
                        None => {},
                    }
                },
                Ok(None) => {},
                Err(e) => {
                    errs.push((lx, lz, e));
                    assert(Seq::new(errs@.len(), |i: int| (errs@[i].0, errs@[i].1)) =~= ebefore.push((lx, lz)));
                },
            }
        }
        k += 1;
    }
    (out, errs)
}

// ---------------------------------------------------------------------
// Planning a dimension's conversion.
// ---------------------------------------------------------------------

/// Where one console chunk of a converted dimension comes from and goes.
#[derive(Clone, Copy, Debug, PartialEq, Eq, Structural)]
pub struct ChunkMove {
    pub lce_x: i32,
    pub lce_z: i32,
    pub java_region_x: i32,
    pub java_region_z: i32,
    pub java_local_x: i32,
    pub java_local_z: i32,
    pub lce_region_x: i32,
    pub lce_region_z: i32,
    pub lce_local_x: i32,
    pub lce_local_z: i32,
}

/// The move of console chunk (`lcx`, `lcz`): the Java chunk at the offset,
/// its region and slot, and the console region and slot.
pub open spec fn chunk_move(lcx: int, lcz: int, ox: int, oz: int) -> ChunkMove {
    let jx = lcx + ox;
    let jz = lcz + oz;
    ChunkMove {
        lce_x: lcx as i32,
        lce_z: lcz as i32,
        java_region_x: floor_div_spec(jx, 32) as i32,
        java_region_z: floor_div_spec(jz, 32) as i32,
        java_local_x: (jx % 32) as i32,
        java_local_z: (jz % 32) as i32,
        lce_region_x: floor_div_spec(lcx, 32) as i32,
        lce_region_z: floor_div_spec(lcz, 32) as i32,
        lce_local_x: (lcx % 32) as i32,
        lce_local_z: (lcz % 32) as i32,
    }
}

/// The moves of a dimension: console chunks `-half..half` in both
/// directions, `x` outer and `z` inner, each taken from the Java chunk at
/// the offset.
pub open spec fn dimension_moves(half: int, ox: int, oz: int) -> Seq<ChunkMove> {
    let w = if half > 0 { 2 * half } else { 0 };
    Seq::new((w * w) as nat, |k: int| chunk_move(-half + k / w, -half + k % w, ox, oz))
}

fn mod32(v: i32) -> (r: i32)
    ensures
        r as int == (v as int) % 32,
{
    let r = ((v % 32) + 32) % 32;
    assert(r as int == (v as int) % 32) by (nonlinear_arith)
        requires
            r == ((v % 32) + 32) % 32,
    ;
    r
}

fn move_of(lcx: i32, lcz: i32, ox: i32, oz: i32) -> (r: ChunkMove)
    requires
        i32::MIN <= lcx + ox <= i32::MAX,
        i32::MIN <= lcz + oz <= i32::MAX,
    ensures
        r == chunk_move(lcx as int, lcz as int, ox as int, oz as int),
{
    let jx = lcx + ox;
    let jz = lcz + oz;
    ChunkMove {
        lce_x: lcx,
        lce_z: lcz,
        java_region_x: floor_div(jx, 32),
        java_region_z: floor_div(jz, 32),
        java_local_x: mod32(jx),
        java_local_z: mod32(jz),
        lce_region_x: floor_div(lcx, 32),
        lce_region_z: floor_div(lcz, 32),
        lce_local_x: mod32(lcx),
        lce_local_z: mod32(lcz),
    }
}

/// The moves that convert a dimension (see `dimension_moves`).
pub fn dimension_plan(half_size: i32, offset_chunk_x: i32, offset_chunk_z: i32) -> (r: Vec<ChunkMove>)
    requires
        half_size > 0 ==> i32::MIN <= offset_chunk_x - half_size && offset_chunk_x + half_size <= i32::MAX + 1,
        half_size > 0 ==> i32::MIN <= offset_chunk_z - half_size && offset_chunk_z + half_size <= i32::MAX + 1,
    ensures
        r@ == dimension_moves(half_size as int, offset_chunk_x as int, offset_chunk_z as int),
{
    let mut out: Vec<ChunkMove> = Vec::new();
    if half_size <= 0 {
        assert(out@ =~= dimension_moves(half_size as int, offset_chunk_x as int, offset_chunk_z as int));
        return out;
    }
    let ghost h = half_size as int;
    let ghost w = 2 * h;
    let ghost all = dimension_moves(h, offset_chunk_x as int, offset_chunk_z as int);
    let mut lcx: i32 = -half_size;
    while lcx < half_size
        invariant
            half_size > 0,
            h == half_size,
            w == 2 * h,
            all == dimension_moves(h, offset_chunk_x as int, offset_chunk_z as int),
            i32::MIN <= offset_chunk_x - half_size && offset_chunk_x + half_size <= i32::MAX + 1,
            i32::MIN <= offset_chunk_z - half_size && offset_chunk_z + half_size <= i32::MAX + 1,
            -half_size <= lcx <= half_size,
            out@ == all.take((lcx + h) * w),
        decreases half_size - lcx,
    {
        let mut lcz: i32 = -half_size;
        while lcz < half_size
            invariant
                half_size > 0,
                h == half_size,
                w == 2 * h,
                all == dimension_moves(h, offset_chunk_x as int, offset_chunk_z as int),
                i32::MIN <= offset_chunk_x - half_size && offset_chunk_x + half_size <= i32::MAX + 1,
                i32::MIN <= offset_chunk_z - half_size && offset_chunk_z + half_size <= i32::MAX + 1,
                -half_size <= lcx < half_size,
                -half_size <= lcz <= half_size,
                out@ == all.take((lcx + h) * w + (lcz + h)),
            decreases half_size - lcz,
        {
            let m = move_of(lcx, lcz, offset_chunk_x, offset_chunk_z);
            proof {
                let k = (lcx + h) * w + (lcz + h);
                assert(0 <= lcx + h < w && 0 <= lcz + h < w);
                assert(k < w * w) by (nonlinear_arith)
                    requires
                        k == (lcx + h) * w + (lcz + h),
                        0 <= lcx + h < w,
                        0 <= lcz + h < w,
                ;
                assert(k / w == lcx + h && k % w == lcz + h) by (nonlinear_arith)
                    requires
                        k == (lcx + h) * w + (lcz + h),
                        0 <= lcz + h < w,
                        0 <= lcx + h,
                ;
                assert(all[k] == m);
                assert(all.take(k + 1) =~= all.take(k).push(m));
            }
            out.push(m);
            lcz += 1;
        }
        proof {
            assert((lcx + h) * w + w == (lcx + 1 + h) * w) by (nonlinear_arith);
        }
        lcx += 1;
    }
    proof {
        assert(w * w == (lcx + h) * w);
        assert(all.take(w * w) =~= all);
    }
    out
}

/// The file name of console region (`x`, `z`) of a dimension (`DIM-1` for
/// the Nether, `DIM1` for the End, anything else for the overworld).
pub open spec fn lce_region_file_name(dimension: Seq<char>, x: i32, z: i32) -> Seq<char> {
    let prefix = if dimension == "DIM-1"@ {
        "DIM-1"@
    } else if dimension == "DIM1"@ {
        "DIM1/"@
    } else {
        ""@
    };
    prefix + "r."@ + signed_decimal(x as int) + "."@ + signed_decimal(z as int) + ".mcr"@
}

/// `v` in decimal, with a minus sign where it is negative.
pub open spec fn signed_decimal(v: int) -> Seq<char> {
    if v < 0 {
        seq!['-'] + crate::anvil::decimal((-v) as nat)
    } else {
        crate::anvil::decimal(v as nat)
    }
}

fn push_signed(out: &mut String, v: i32)
    ensures
        final(out)@ == old(out)@ + signed_decimal(v as int),
{
    let mag: u64 = if v < 0 {
        (-(v as i64)) as u64
    } else {
        v as u64
    };
    if v < 0 {
        push_char(out, '-');
    }
    let ghost mid = out@;
    let d = crate::workshop::decimal_usize(mag as usize);
    crate::workshop::push_text(out, d.as_str());
    proof {
        if v < 0 {
            assert(out@ =~= old(out)@ + (seq!['-'] + crate::anvil::decimal((-v) as nat)));
        }
    }
}

/// The file name of a console region (see `lce_region_file_name`).
pub fn lce_region_name(dimension: &str, x: i32, z: i32) -> (r: String)
    ensures
        r@ == lce_region_file_name(dimension@, x, z),
{
    proof {
        reveal_strlit("DIM-1");
        reveal_strlit("DIM1");
        reveal_strlit("DIM1/");
        reveal_strlit("");
    }
    let mut s = if crate::text::same_text(dimension, "DIM-1") {
        crate::anvil::owned("DIM-1")
    } else if crate::text::same_text(dimension, "DIM1") {
        crate::anvil::owned("DIM1/")
    } else {
        String::new()
    };
    crate::workshop::push_text(&mut s, "r.");
    push_signed(&mut s, x);
    crate::workshop::push_text(&mut s, ".");
    push_signed(&mut s, z);
    crate::workshop::push_text(&mut s, ".mcr");
    s
}

/// The file name of Java region (`x`, `z`): `r.{x}.{z}.mca`.
pub open spec fn java_region_file_name(x: i32, z: i32) -> Seq<char> {
    "r."@ + signed_decimal(x as int) + "."@ + signed_decimal(z as int) + ".mca"@
}

/// The file name of a Java region (see `java_region_file_name`).
pub fn java_region_name(x: i32, z: i32) -> (r: String)
    ensures
        r@ == java_region_file_name(x, z),
{
    let mut s = String::new();
    crate::workshop::push_text(&mut s, "r.");
    push_signed(&mut s, x);
    crate::workshop::push_text(&mut s, ".");
    push_signed(&mut s, z);
    crate::workshop::push_text(&mut s, ".mca");
    s
}

/// Whether a file name ends in `.mcr` or `.mca` in any letter case.
pub open spec fn is_region_file_name(name: Seq<char>) -> bool {
    let n = name.len();
    &&& n >= 4
    &&& name[n - 4] == '.'
    &&& (name[n - 3] == 'm' || name[n - 3] == 'M')
    &&& (name[n - 2] == 'c' || name[n - 2] == 'C')
    &&& (name[n - 1] == 'r' || name[n - 1] == 'R' || name[n - 1] == 'a' || name[n - 1] == 'A')
}

/// The coordinates of a Java world's region file `r.X.Z.mca` (or `.mcr`):
/// exactly four dot-separated parts, the first `r`, the middle two
/// decimal numbers; `None` for any other name.
pub open spec fn world_region_coords(name: Seq<char>) -> Option<(i32, i32)> {
    let b = encode_utf8(name);
    let parts = split_ranges(b, 46);
    if is_region_file_name(name) && parts.len() == 4 && b.subrange(parts[0].0, parts[0].1) == seq![114u8] {
        match (spec_parse_i32(b.subrange(parts[1].0, parts[1].1)), spec_parse_i32(b.subrange(parts[2].0, parts[2].1))) {
            (Some(x), Some(z)) => Some((x, z)),
            _ => None,
        }
    } else {
        None
    }
}

/// The coordinates of a Java world's region file (see
/// `world_region_coords`).
pub fn region_file_coords(name: &str) -> (r: Option<(i32, i32)>)
    ensures
        r == world_region_coords(name@),
{
    let cs = crate::sign_text::chars_of(name);
    let n = cs.len();
    if n < 4 {
        return None;
    }
    let ok = cs[n - 4] == '.' && (cs[n - 3] == 'm' || cs[n - 3] == 'M') && (cs[n - 2] == 'c' || cs[n - 2] == 'C')
        && (cs[n - 1] == 'r' || cs[n - 1] == 'R' || cs[n - 1] == 'a' || cs[n - 1] == 'A');
    if !ok {
        return None;
    }
    let bytes = text_bytes(name);
    let parts = split_at_byte(bytes.as_slice(), 46);
    if parts.len() != 4 {
        return None;
    }
    let (p0, p1) = parts[0];
    if !(p1 - p0 == 1 && bytes[p0] == 114) {
        proof {
            let sub = bytes@.subrange(p0 as int, p1 as int);
            if sub == seq![114u8] {
                assert(sub.len() == 1 && sub[0] == 114u8);
            }
        }
        return None;
    }
    assert(bytes@.subrange(p0 as int, p1 as int) =~= seq![114u8]);
    let (a0, a1) = parts[1];
    let (b0, b1) = parts[2];
    match (parse_i32(slice_range(bytes.as_slice(), a0, a1)), parse_i32(slice_range(bytes.as_slice(), b0, b1))) {
        (Some(x), Some(z)) => Some((x, z)),
        _ => None,
    }
}

// ---------------------------------------------------------------------
// Reading back a saved container.
// ---------------------------------------------------------------------

/// A file name that the file table carries unchanged: at most 63
/// characters, none of them NUL and all in the Basic Multilingual Plane.
pub open spec fn table_name_ok(n: Seq<char>) -> bool {
    n.len() <= 63 && forall|i: int|
        0 <= i < n.len() ==> (0 < (#[trigger] n[i] as u32) < 0xD800 || 0xE000 <= (n[i] as u32) < 0x10000)
}

proof fn lemma_units_text_plain(u: Seq<u16>, k: int)
    requires
        0 <= k < u.len(),
        u[k] == 0,
        forall|j: int| 0 <= j < k ==> #[trigger] u[j] != 0 && !(0xD800 <= u[j] <= 0xDFFF),
    ensures
        units_text(u) == Seq::new(k as nat, |j: int| u[j] as char),
    decreases k,
{
    if k == 0 {
        assert(Seq::new(0, |j: int| u[j] as char) =~= Seq::<char>::empty());
    } else {
        let t = u.drop_first();
        assert forall|j: int| 0 <= j < k - 1 implies #[trigger] t[j] != 0 && !(0xD800 <= t[j] <= 0xDFFF) by {
            assert(t[j] == u[j + 1]);
        }
        lemma_units_text_plain(t, k - 1);
        assert(units_text(u) == seq![u[0] as char] + units_text(t));
        assert(Seq::new(k as nat, |j: int| u[j] as char) =~= seq![u[0] as char] + Seq::new(
            (k - 1) as nat,
            |j: int| t[j] as char,
        ));
    }
}

proof fn lemma_utf16_bmp(n: Seq<char>)
    requires
        forall|i: int| 0 <= i < n.len() ==> (#[trigger] n[i] as u32) < 0x10000,
    ensures
        crate::text::utf16_units(n) == Seq::new(n.len(), |i: int| n[i] as u32 as u16),
    decreases n.len(),
{
    if n.len() > 0 {
        let p = n.drop_last();
        assert forall|i: int| 0 <= i < p.len() implies (#[trigger] p[i] as u32) < 0x10000 by {
            assert(p[i] == n[i]);
        }
        lemma_utf16_bmp(p);
        assert(crate::text::utf16_of(n.last()) == seq![n.last() as u32 as u16]);
        assert(Seq::new(n.len(), |i: int| n[i] as u32 as u16) =~= Seq::new(p.len(), |i: int| p[i] as u32 as u16).push(
            n.last() as u32 as u16,
        ));
    }
}

proof fn lemma_units_le_at(u: Seq<u16>, i: int)
    ensures
        crate::region::units_le(u).len() == 2 * u.len(),
        0 <= i < u.len() ==> crate::region::units_le(u).subrange(2 * i, 2 * i + 2) == crate::bytes::u16_le(u[i]),
    decreases u.len(),
{
    if u.len() > 0 {
        lemma_units_le_at(u.drop_last(), i);
        let b = crate::region::units_le(u);
        let a = crate::region::units_le(u.drop_last());
        if 0 <= i < u.len() - 1 {
            assert(b.subrange(2 * i, 2 * i + 2) =~= a.subrange(2 * i, 2 * i + 2));
            assert(u.drop_last()[i] == u[i]);
        } else if i == u.len() - 1 {
            assert(b.subrange(2 * i, 2 * i + 2) =~= crate::bytes::u16_le(u.last()));
        }
    }
}

proof fn lemma_bmp_char(c: char)
    requires
        0 < (c as u32) < 0xD800 || 0xE000 <= (c as u32) < 0x10000,
    ensures
        ((c as u32 as u16) as char) == c,
{
    let v = c as u32;
    assert((v as u16) as u32 == v) by (bit_vector)
        requires
            v < 0x10000,
    ;
    let u = v as u16;
    assert(u as int == c as int);
}

proof fn lemma_bmp_chars(n: Seq<char>)
    requires
        table_name_ok(n),
    ensures
        Seq::new(n.len(), |j: int| (n[j] as u32 as u16) as char) == n,
{
    assert forall|j: int| 0 <= j < n.len() implies #[trigger] ((n[j] as u32 as u16) as char) == n[j] by {
        lemma_bmp_char(n[j]);
    }
    assert(Seq::new(n.len(), |j: int| (n[j] as u32 as u16) as char) =~= n);
}

proof fn lemma_field_unit(d: Seq<u8>, base: int, n: Seq<char>, j: int)
    requires
        table_name_ok(n),
        0 <= base,
        base + 128 <= d.len(),
        d.subrange(base, base + 128) == crate::region::name_field(n),
        0 <= j < 64,
    ensures
        le_u16_at(d, base + 2 * j) == (if j < n.len() { n[j] as u32 as u16 } else { 0u16 }),
{
    lemma_utf16_bmp(n);
    let u = crate::text::utf16_units(n);
    let b = crate::region::units_le(u);
    lemma_units_le_at(u, j);
    let f = crate::region::name_field(n);
    assert(f =~= b + Seq::new((128 - b.len()) as nat, |_i: int| 0u8));
    assert(d[base + 2 * j] == f[2 * j]);
    assert(d[base + 2 * j + 1] == f[2 * j + 1]);
    if j < n.len() {
        assert(f[2 * j] == b[2 * j] && f[2 * j + 1] == b[2 * j + 1]);
        assert(b[2 * j] == b.subrange(2 * j, 2 * j + 2)[0]);
        assert(b[2 * j + 1] == b.subrange(2 * j, 2 * j + 2)[1]);
        assert(d.subrange(base + 2 * j, base + 2 * j + 2) =~= b.subrange(2 * j, 2 * j + 2));
        crate::bytes::lemma_le_u16_roundtrip(d, base + 2 * j, u[j]);
    } else {
        let x = d[base + 2 * j];
        let y = d[base + 2 * j + 1];
        assert(x == 0u8 && y == 0u8);
        assert((x as u16) | ((y as u16) << 8u16) == 0u16) by (bit_vector)
            requires
                x == 0u8,
                y == 0u8,
        ;
    }
}

proof fn lemma_name_field_decodes(d: Seq<u8>, base: int, n: Seq<char>)
    requires
        table_name_ok(n),
        0 <= base,
        base + 128 <= d.len(),
        d.subrange(base, base + 128) == crate::region::name_field(n),
    ensures
        units_text(units_le_at(d, base, 64)) == n,
{
    let w = units_le_at(d, base, 64);
    assert forall|j: int| 0 <= j < 64 implies #[trigger] w[j] == (if j < n.len() { n[j] as u32 as u16 } else { 0u16 }) by {
        lemma_field_unit(d, base, n, j);
    }
    assert forall|j: int| 0 <= j < n.len() implies #[trigger] w[j] != 0 && !(0xD800 <= w[j] <= 0xDFFF) by {
        let c = n[j];
        assert(0 < (c as u32) < 0xD800 || 0xE000 <= (c as u32) < 0x10000);
    }
    lemma_units_text_plain(w, n.len() as int);
    lemma_bmp_chars(n);
    assert(Seq::new(n.len(), |j: int| w[j] as char) =~= Seq::new(n.len(), |j: int| (n[j] as u32 as u16) as char));
}

proof fn lemma_name_field_len(n: Seq<char>)
    ensures
        crate::region::name_field(n).len() == 128,
{
}

proof fn lemma_footer_at(es: Seq<crate::region::EntryModel>, mods: Seq<i64>, order: Seq<int>, k: int)
    requires
        forall|j: int| 0 <= j < order.len() ==> 0 <= #[trigger] order[j] < es.len() && order[j] < mods.len(),
    ensures
        crate::region::footer(es, mods, order).len() == 144 * order.len(),
        0 <= k < order.len() ==> crate::region::footer(es, mods, order).subrange(144 * k, 144 * k + 144)
            == crate::region::entry_record(es[order[k]], mods[order[k]]),
    decreases order.len(),
{
    if order.len() > 0 {
        let o = order.drop_last();
        assert forall|j: int| 0 <= j < o.len() implies 0 <= #[trigger] o[j] < es.len() && o[j] < mods.len() by {
            assert(o[j] == order[j]);
        }
        lemma_footer_at(es, mods, o, k);
        let last = order.last();
        lemma_name_field_len(es[last].name);
        let rec = crate::region::entry_record(es[last], mods[last]);
        assert(rec.len() == 144);
        let f = crate::region::footer(es, mods, order);
        let f0 = crate::region::footer(es, mods, o);
        assert(f == f0 + rec);
        if 0 <= k < o.len() {
            assert(f.subrange(144 * k, 144 * k + 144) =~= f0.subrange(144 * k, 144 * k + 144));
            assert(o[k] == order[k]);
        } else if k == o.len() {
            assert(f.subrange(144 * k, 144 * k + 144) =~= rec);
        }
    }
}

/// The files of a container as its file table lists them in `order`, from
/// position `i` on: each with a name and data, its bytes read from the
/// container's data.
pub open spec fn listed_from(
    es: Seq<crate::region::EntryModel>,
    blob: Seq<u8>,
    order: Seq<int>,
    i: int,
) -> Seq<(Seq<char>, Seq<u8>)>
    decreases order.len() - i,
{
    if i < 0 || i >= order.len() {
        seq![]
    } else {
        let e = es[order[i]];
        let rest = listed_from(es, blob, order, i + 1);
        if e.name.len() > 0 && e.length > 0 {
            seq![(e.name, blob.subrange(e.start_offset as int, e.start_offset + e.length))] + rest
        } else {
            rest
        }
    }
}

proof fn lemma_files_from(
    img: Seq<u8>,
    es: Seq<crate::region::EntryModel>,
    mods: Seq<i64>,
    blob: Seq<u8>,
    order: Seq<int>,
    fo: int,
    i: int,
)
    requires
        12 <= fo <= blob.len(),
        order.len() <= u32::MAX,
        img.len() == fo + 144 * order.len(),
        0 <= i <= order.len(),
        forall|j: int| 0 <= j < order.len() ==> 0 <= #[trigger] order[j] < es.len() && order[j] < mods.len(),
        forall|k: int|
            0 <= k < es.len() ==> table_name_ok(#[trigger] es[k].name) && es[k].start_offset >= 12
                && es[k].start_offset + es[k].length <= fo,
        forall|k: int|
            0 <= k < order.len() ==> #[trigger] img.subrange(fo + 144 * k, fo + 144 * k + 144)
                == crate::region::entry_record(es[order[k]], mods[order[k]]),
        forall|p: int| 12 <= p < fo ==> #[trigger] img[p] == blob[p],
    ensures
        save_files_from(img, fo, order.len() as int, i) == listed_from(es, blob, order, i),
    decreases order.len() - i,
{
    let n = order.len() as int;
    if i < n {
        lemma_files_from(img, es, mods, blob, order, fo, i + 1);
        let base = fo + 144 * i;
        assert(base == fo + i * 144);
        let e = es[order[i]];
        let rec = crate::region::entry_record(e, mods[order[i]]);
        lemma_name_field_len(e.name);
        assert(img.subrange(base, base + 144) == rec);
        assert(img.subrange(base, base + 128) =~= rec.subrange(0, 128));
        assert(rec.subrange(0, 128) =~= crate::region::name_field(e.name));
        lemma_name_field_decodes(img, base, e.name);
        assert(img.subrange(base + 128, base + 132) =~= rec.subrange(128, 132));
        assert(rec.subrange(128, 132) =~= crate::bytes::u32_le(e.length));
        crate::bytes::lemma_le_u32_roundtrip(img, base + 128, e.length);
        assert(img.subrange(base + 132, base + 136) =~= rec.subrange(132, 136));
        assert(rec.subrange(132, 136) =~= crate::bytes::u32_le(e.start_offset));
        crate::bytes::lemma_le_u32_roundtrip(img, base + 132, e.start_offset);
        let st = e.start_offset as int;
        let ln = e.length as int;
        assert(img.subrange(st, st + ln) =~= blob.subrange(st, st + ln)) by {
            assert forall|q: int| 0 <= q < ln implies #[trigger] img.subrange(st, st + ln)[q] == blob.subrange(st, st + ln)[q] by {
                assert(img[st + q] == blob[st + q]);
            }
        }
    }
}

/// A saved container lists, in its file table's order, every file that has
/// a name and data, with the bytes written to it: reading the uncompressed
/// image of a container gives its files back. This holds where each name
/// is at most 63 characters of the Basic Multilingual Plane without NUL
/// (the table's name field holds 63 UTF-16 units) and each file starts
/// after the header, as every file the container creates does.
pub proof fn lemma_saved_container_files(m: crate::region::ContainerModel, mods: Seq<i64>)
    requires
        crate::region::container_wf(m),
        mods.len() == m.entries.len(),
        m.entries.len() <= u32::MAX,
        forall|k: int|
            0 <= k < m.entries.len() ==> table_name_ok(#[trigger] m.entries[k].name) && m.entries[k].start_offset >= 12,
    ensures
        save_files(crate::region::container_image(m, mods)) == Some(
            listed_from(m.entries, m.blob, crate::region::order_upto(m.entries, m.entries.len()), 0),
        ),
{
    let es = m.entries;
    let n = es.len();
    let order = crate::region::order_upto(es, n);
    crate::region::lemma_order_upto(es, n);
    assert forall|j: int| 0 <= j < order.len() implies 0 <= #[trigger] order[j] < es.len() && order[j] < mods.len() by {}
    let fo = m.data_end as int;
    let head = crate::region::container_header(m);
    let mid = m.blob.subrange(12, fo);
    let foot = crate::region::footer(es, mods, order);
    lemma_footer_at(es, mods, order, 0);
    let img = crate::region::container_image(m, mods);
    assert(head.len() == 12);
    assert(img == head + mid + foot);
    assert(img.len() == fo + 144 * n);
    assert forall|k: int| 0 <= k < order.len() implies #[trigger] img.subrange(fo + 144 * k, fo + 144 * k + 144)
        == crate::region::entry_record(es[order[k]], mods[order[k]]) by {
        lemma_footer_at(es, mods, order, k);
        assert(img.subrange(fo + 144 * k, fo + 144 * k + 144) =~= foot.subrange(144 * k, 144 * k + 144));
    }
    assert forall|p: int| 12 <= p < fo implies #[trigger] img[p] == m.blob[p] by {
        assert(img[p] == mid[p - 12]);
    }
    assert forall|k: int| 0 <= k < es.len() implies table_name_ok(#[trigger] es[k].name) && es[k].start_offset >= 12
        && es[k].start_offset + es[k].length <= fo by {}
    assert(img.subrange(0, 4) =~= crate::bytes::u32_le(m.data_end as u32));
    crate::bytes::lemma_le_u32_roundtrip(img, 0, m.data_end as u32);
    assert(img.subrange(4, 8) =~= crate::bytes::u32_le(n as u32));
    crate::bytes::lemma_le_u32_roundtrip(img, 4, n as u32);
    lemma_files_from(img, es, mods, m.blob, order, fo, 0);
}

/// Reading a saved container file gives its files back (see
/// `lemma_saved_container_files`), where the compressed image inflates to
/// the image, as the compressor's contract states of every stream it makes.
pub proof fn lemma_saved_container_file(m: crate::region::ContainerModel, mods: Seq<i64>)
    requires
        crate::region::container_wf(m),
        mods.len() == m.entries.len(),
        m.entries.len() <= u32::MAX,
        forall|k: int|
            0 <= k < m.entries.len() ==> table_name_ok(#[trigger] m.entries[k].name) && m.entries[k].start_offset >= 12,
        crate::compress::zlib_inflated(crate::compress::zlib_compressed(crate::region::container_image(m, mods), 9))
            == Some(crate::region::container_image(m, mods)),
    ensures
        container_files(crate::region::container_file(m, mods)) == Some(
            listed_from(m.entries, m.blob, crate::region::order_upto(m.entries, m.entries.len()), 0),
        ),
{
    let img = crate::region::container_image(m, mods);
    let f = crate::region::container_file(m, mods);
    assert(f.skip(8) =~= crate::compress::zlib_compressed(img, 9));
    lemma_saved_container_files(m, mods);
}

} // verus!
