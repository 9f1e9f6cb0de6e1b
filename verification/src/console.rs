//! Console (Xbox 360 and PS3) save conversion: the big-endian 4J save
//! layout, byte-signature patches in `level.dat` and player files, empty
//! chunk payloads and safe spawn search.
use vstd::prelude::*;
use crate::bytes::{be_u16_at, be_u32_at, be_u64_at, get_u16_be, get_u32_be, get_u64_be, u32_be, u64_be, u16_be, push_u32_be, push_u64_be, push_u16_be};
use crate::rle::{rle_encode, spec_rle_encode};
use crate::text::{push_char, encode_utf16, utf16_units, parse_i32, spec_parse_i32, lossy_text, text_from_bytes_lossy};
use crate::bytes::{le_u16_at, le_u32_at, get_u16_le, get_u32_le};
use crate::block_mapping::{lit, lit_of, lowercased, to_lowercase, starts_with, ends_with};
use vstd::utf8::encode_utf8;
use crate::bytes::{u32_le, u16_le, u64_le, push_u32_le, push_u16_le, push_u64_le};
use crate::region::units_le;
use crate::compress::{zlib_compress, zlib_compressed, deflate_decompress, deflate_inflated};
use crate::region::slice_range;
use crate::sign_text::{chars_of, string_of, trim_by, drop_front, drop_back, lemma_drop_front, lemma_drop_back, char_width, utf8_len};

verus! {

/// Size of a file-table entry in a 4J save.
pub const FILE_ENTRY_SIZE: usize = 144;

// ---------------------------------------------------------------------
// Byte signatures.
// ---------------------------------------------------------------------

/// Whether `sig` occurs in `d` at `i`.
pub open spec fn occurs_at(d: Seq<u8>, sig: Seq<u8>, i: int) -> bool {
    0 <= i && i + sig.len() <= d.len() && d.subrange(i, i + sig.len()) == sig
}

/// The first position at or after `i` where `sig` occurs in `d`.
pub open spec fn find_from(d: Seq<u8>, sig: Seq<u8>, i: int) -> Option<int>
    decreases d.len() - i,
{
    if i < 0 || i + sig.len() > d.len() || i >= d.len() {
        None
    } else if occurs_at(d, sig, i) {
        Some(i)
    } else {
        find_from(d, sig, i + 1)
    }
}

/// The first position where `sig` occurs in `d`.
pub open spec fn find_sig(d: Seq<u8>, sig: Seq<u8>) -> Option<int> {
    find_from(d, sig, 0)
}

proof fn lemma_find_from_bound(d: Seq<u8>, sig: Seq<u8>, i: int)
    ensures
        find_from(d, sig, i) matches Some(j) ==> i <= j && occurs_at(d, sig, j),
    decreases d.len() - i,
{
    if !(i < 0 || i + sig.len() > d.len() || i >= d.len()) && !occurs_at(d, sig, i) {
        lemma_find_from_bound(d, sig, i + 1);
    }
}

proof fn lemma_found(d: Seq<u8>, sig: Seq<u8>, j: int)
    requires
        find_sig(d, sig) == Some(j),
    ensures
        occurs_at(d, sig, j),
        j + sig.len() <= d.len(),
{
    lemma_find_from_bound(d, sig, 0);
}

fn same_bytes_at(d: &[u8], from: usize, sig: &[u8]) -> (r: bool)
    requires
        from + sig@.len() <= d@.len(),
    ensures
        r == (d@.subrange(from as int, from + sig@.len()) == sig@),
{
    let n = sig.len();
    let len = d.len();
    let mut i: usize = 0;
    while i < n
        invariant
            n == sig@.len(),
            len == d@.len(),
            from + n <= len,
            i <= n,
            forall|j: int| 0 <= j < i ==> d@[from + j] == sig@[j],
        decreases n - i,
    {
        if d[from + i] != sig[i] {
            proof {
                assert(d@.subrange(from as int, from + n)[i as int] != sig@[i as int]);
            }
            return false;
        }
        i += 1;
    }
    assert(d@.subrange(from as int, from + n) =~= sig@);
    true
}

/// The first position of `sig` in `d`.
pub fn find_bytes(d: &[u8], sig: &[u8]) -> (r: Option<usize>)
    requires
        sig@.len() > 0,
    ensures
        match r {
            Some(i) => find_sig(d@, sig@) == Some(i as int),
            None => find_sig(d@, sig@) is None,
        },
{
    let n = sig.len();
    if n > d.len() {
        return None;
    }
    let last = d.len() - n;
    let mut i: usize = 0;
    while i <= last
        invariant
            n == sig@.len(),
            n > 0,
            n <= d@.len(),
            last == d@.len() - n,
            last < d.len(),
            i <= last + 1,
            find_sig(d@, sig@) == find_from(d@, sig@, i as int),
        decreases d@.len() - i,
    {
        if same_bytes_at(d, i, sig) {
            return Some(i);
        }
        i += 1;
    }
    None
}

/// The signature that precedes `SpawnX`, `SpawnY` or `SpawnZ`'s value in an
/// NBT document: an Int tag id and the name.
pub open spec fn spawn_sig(axis: u8) -> Seq<u8> {
    seq![0x03u8, 0x00, 0x06, 0x53, 0x70, 0x61, 0x77, 0x6E, axis]
}

fn spawn_sig_bytes(axis: u8) -> (r: Vec<u8>)
    ensures
        r@ == spawn_sig(axis),
{
    let r: Vec<u8> = vec![0x03u8, 0x00, 0x06, 0x53, 0x70, 0x61, 0x77, 0x6E, axis];
    assert(r@ =~= spawn_sig(axis));
    r
}

/// The Int that follows the spawn signature of `axis` in `d`, if it is
/// there in full.
pub open spec fn spawn_value(d: Seq<u8>, axis: u8) -> Option<i32> {
    match find_sig(d, spawn_sig(axis)) {
        Some(i) => if d.len() >= 13 && i <= d.len() - 13 {
            Some(be_u32_at(d, i + 9) as i32)
        } else {
            None
        },
        None => None,
    }
}

fn read_spawn_axis(d: &[u8], axis: u8) -> (r: Option<i32>)
    ensures
        r == spawn_value(d@, axis),
{
    let sig = spawn_sig_bytes(axis);
    match find_bytes(d, sig.as_slice()) {
        Some(i) => {
            proof {
                lemma_find_from_bound(d@, sig@, 0);
            }
            if d.len() >= 13 && i <= d.len() - 13 {
                Some(get_u32_be(d, i + 9) as i32)
            } else {
                None
            }
        },
        None => None,
    }
}

/// The spawn point written in raw `level.dat` bytes, found by signature.
pub open spec fn raw_spawn(d: Seq<u8>) -> Option<(i32, i32, i32)> {
    match (spawn_value(d, 0x58), spawn_value(d, 0x59), spawn_value(d, 0x5A)) {
        (Some(x), Some(y), Some(z)) => Some((x, y, z)),
        _ => None,
    }
}

/// Reads the spawn point from raw `level.dat` bytes.
pub fn read_spawn(level_dat: &[u8]) -> (r: Option<(i32, i32, i32)>)
    ensures
        r == raw_spawn(level_dat@),
{
    let x = read_spawn_axis(level_dat, 0x58);
    if x.is_none() {
        return None;
    }
    let y = read_spawn_axis(level_dat, 0x59);
    if y.is_none() {
        return None;
    }
    let z = read_spawn_axis(level_dat, 0x5A);
    match (x, y, z) {
        (Some(x), Some(y), Some(z)) => Some((x, y, z)),
        _ => None,
    }
}

/// `d` with the 4 bytes after the spawn signature of `axis` set to `v`
/// (big-endian), where the signature and the value are there.
pub open spec fn patched_axis(d: Seq<u8>, axis: u8, v: i32) -> Seq<u8> {
    match find_sig(d, spawn_sig(axis)) {
        Some(i) => if d.len() >= 13 && i <= d.len() - 13 {
            d.subrange(0, i + 9) + u32_be(v as u32) + d.subrange(i + 13, d.len() as int)
        } else {
            d
        },
        None => d,
    }
}

/// `d` with its spawn X, Y and Z values set, in that order.
pub open spec fn patched_spawn(d: Seq<u8>, x: i32, y: i32, z: i32) -> Seq<u8> {
    patched_axis(patched_axis(patched_axis(d, 0x58, x), 0x59, y), 0x5A, z)
}

fn put_u32_be_at(d: &mut [u8], off: usize, v: u32)
    requires
        off + 4 <= old(d)@.len(),
    ensures
        final(d)@ == old(d)@.subrange(0, off as int) + u32_be(v) + old(d)@.subrange(off + 4, old(d)@.len() as int),
{
    d[off] = (v >> 24u32) as u8;
    d[off + 1] = (v >> 16u32) as u8;
    d[off + 2] = (v >> 8u32) as u8;
    d[off + 3] = v as u8;
    assert(d@ =~= old(d)@.subrange(0, off as int) + u32_be(v) + old(d)@.subrange(off + 4, old(d)@.len() as int));
}

fn patch_spawn_axis(d: &mut [u8], axis: u8, v: i32)
    ensures
        final(d)@ == patched_axis(old(d)@, axis, v),
{
    let sig = spawn_sig_bytes(axis);
    if let Some(i) = find_bytes(d, sig.as_slice()) {
        proof {
            lemma_find_from_bound(old(d)@, sig@, 0);
        }
        if d.len() >= 13 && i <= d.len() - 13 {
            put_u32_be_at(d, i + 9, v as u32);
        }
    }
}

/// Sets the spawn point in raw `level.dat` bytes, by signature.
pub fn patch_spawn(level_dat: &mut [u8], x: i32, y: i32, z: i32)
    ensures
        final(level_dat)@ == patched_spawn(old(level_dat)@, x, y, z),
{
    patch_spawn_axis(level_dat, 0x58, x);
    patch_spawn_axis(level_dat, 0x59, y);
    patch_spawn_axis(level_dat, 0x5A, z);
}

/// The signature that precedes a player's position: a List tag `Pos` of
/// three Doubles.
pub open spec fn player_pos_sig() -> Seq<u8> {
    seq![0x09u8, 0x00, 0x03, 0x50, 0x6F, 0x73, 0x06, 0x00, 0x00, 0x00, 0x03]
}

fn player_pos_sig_bytes() -> (r: Vec<u8>)
    ensures
        r@ == player_pos_sig(),
{
    let r: Vec<u8> = vec![0x09u8, 0x00, 0x03, 0x50, 0x6F, 0x73, 0x06, 0x00, 0x00, 0x00, 0x03];
    assert(r@ =~= player_pos_sig());
    r
}

/// The bit patterns of the three Doubles of a player's position in raw
/// player bytes, if the signature and the values are there.
pub open spec fn raw_player_pos(d: Seq<u8>) -> Option<(u64, u64, u64)> {
    match find_sig(d, player_pos_sig()) {
        Some(i) => if i + 11 + 24 <= d.len() {
            Some((be_u64_at(d, i + 11), be_u64_at(d, i + 19), be_u64_at(d, i + 27)))
        } else {
            None
        },
        None => None,
    }
}

/// Reads the bit patterns of a player's position from raw player bytes.
pub fn read_player_pos(player_dat: &[u8]) -> (r: Option<(u64, u64, u64)>)
    ensures
        r == raw_player_pos(player_dat@),
{
    let sig = player_pos_sig_bytes();
    match find_bytes(player_dat, sig.as_slice()) {
        Some(i) => {
            proof {
                lemma_find_from_bound(player_dat@, sig@, 0);
            }
            if player_dat.len() >= 35 && i <= player_dat.len() - 35 {
                let p = i + 11;
                Some((get_u64_be(player_dat, p), get_u64_be(player_dat, p + 8), get_u64_be(player_dat, p + 16)))
            } else {
                None
            }
        },
        None => None,
    }
}

/// `d` with the player's position set to the given Double bit patterns,
/// where the signature and the values are there.
pub open spec fn patched_player_pos(d: Seq<u8>, x: u64, y: u64, z: u64) -> Seq<u8> {
    match find_sig(d, player_pos_sig()) {
        Some(i) => if i + 11 + 24 <= d.len() {
            d.subrange(0, i + 11) + u64_be(x) + u64_be(y) + u64_be(z) + d.subrange(i + 35, d.len() as int)
        } else {
            d
        },
        None => d,
    }
}

fn put_u64_be_at(d: &mut [u8], off: usize, v: u64)
    requires
        off + 8 <= old(d)@.len(),
    ensures
        final(d)@ == old(d)@.subrange(0, off as int) + u64_be(v) + old(d)@.subrange(off + 8, old(d)@.len() as int),
{
    d[off] = (v >> 56u64) as u8;
    d[off + 1] = (v >> 48u64) as u8;
    d[off + 2] = (v >> 40u64) as u8;
    d[off + 3] = (v >> 32u64) as u8;
    d[off + 4] = (v >> 24u64) as u8;
    d[off + 5] = (v >> 16u64) as u8;
    d[off + 6] = (v >> 8u64) as u8;
    d[off + 7] = v as u8;
    assert(d@ =~= old(d)@.subrange(0, off as int) + u64_be(v) + old(d)@.subrange(off + 8, old(d)@.len() as int));
}

/// Sets a player's position (Double bit patterns) in raw player bytes.
pub fn patch_player_pos(player_dat: &mut [u8], x: u64, y: u64, z: u64)
    ensures
        final(player_dat)@ == patched_player_pos(old(player_dat)@, x, y, z),
{
    let sig = player_pos_sig_bytes();
    if let Some(i) = find_bytes(player_dat, sig.as_slice()) {
        proof {
            lemma_find_from_bound(old(player_dat)@, sig@, 0);
        }
        if player_dat.len() >= 35 && i <= player_dat.len() - 35 {
            let p = i + 11;
            put_u64_be_at(player_dat, p, x);
            put_u64_be_at(player_dat, p + 8, y);
            put_u64_be_at(player_dat, p + 16, z);
            assert(player_dat@ =~= patched_player_pos(old(player_dat)@, x, y, z));
        }
    }
}

// ---------------------------------------------------------------------
// The 4J save header and file table.
// ---------------------------------------------------------------------

/// Reverses the 4 bytes at `o` (a big-endian word becomes little-endian).
pub fn s32(buf: &mut [u8], o: usize)
    requires
        o + 4 <= old(buf)@.len(),
    ensures
        final(buf)@ == old(buf)@.subrange(0, o as int) + old(buf)@.subrange(o as int, o + 4).reverse()
            + old(buf)@.subrange(o + 4, old(buf)@.len() as int),
{
    let a = buf[o];
    let b = buf[o + 1];
    let c = buf[o + 2];
    let d = buf[o + 3];
    buf[o] = d;
    buf[o + 1] = c;
    buf[o + 2] = b;
    buf[o + 3] = a;
    assert(buf@ =~= old(buf)@.subrange(0, o as int) + old(buf)@.subrange(o as int, o + 4).reverse()
        + old(buf)@.subrange(o + 4, old(buf)@.len() as int));
}

/// The big-endian 4J header: file-table offset, entry count, original and
/// current version.
pub open spec fn header_be(d: Seq<u8>) -> (u32, u32, i16, i16) {
    (be_u32_at(d, 0), be_u32_at(d, 4), be_u16_at(d, 8) as i16, be_u16_at(d, 10) as i16)
}

/// Reads the big-endian 4J header.
pub fn read_hdr_be(data: &[u8]) -> (r: (u32, u32, i16, i16))
    requires
        data@.len() >= 12,
    ensures
        r == header_be(data@),
{
    (get_u32_be(data, 0), get_u32_be(data, 4), get_u16_be(data, 8) as i16, get_u16_be(data, 10) as i16)
}

/// The current version written to a converted Windows save: the source's
/// version, held at 9 at most.
pub fn output_save_version(cv: i16) -> (r: i16)
    ensures
        r == if cv <= 9 { cv } else { 9 },
{
    if cv <= 9 {
        cv
    } else {
        9
    }
}

/// Whether bytes look like an uncompressed big-endian 4J save: a header
/// whose file table ends the data, with 1 to 4096 entries and a current
/// version from 0 to 20.
pub open spec fn is_4j_header(d: Seq<u8>) -> bool {
    let (ho, ne, _ov, cv) = header_be(d);
    &&& d.len() >= 12
    &&& ho >= 12 && ho < d.len()
    &&& d.len() - ho == ne * 144
    &&& ne != 0 && ne <= 4096
    &&& 0 <= cv <= 20
}

/// Whether bytes look like an uncompressed big-endian 4J save.
pub fn looks_like_4j_header(data: &[u8]) -> (r: bool)
    ensures
        r == is_4j_header(data@),
{
    if data.len() < 12 {
        return false;
    }
    let (ho, ne, _ov, cv) = read_hdr_be(data);
    if ho < 12 || ho as usize >= data.len() {
        return false;
    }
    if ne == 0 || ne > 4096 {
        return false;
    }
    if data.len() - ho as usize != ne as usize * FILE_ENTRY_SIZE {
        return false;
    }
    if cv < 0 || cv > 20 {
        return false;
    }
    true
}

/// Calls `char::from_u32` on a UTF-16 code unit. Claimed, as std documents:
/// `None` for a surrogate, otherwise the character with that code point.
#[verifier::external_body]
fn unit_char(c: u16) -> (r: Option<char>)
    ensures
        (0xD800 <= c <= 0xDFFF) ==> r is None,
        !(0xD800 <= c <= 0xDFFF) ==> r == Some(c as char),
{
    char::from_u32(c as u32)
}

/// The characters of UTF-16 code units taken one by one, up to the first
/// zero, with surrogates dropped.
pub open spec fn units_text(u: Seq<u16>) -> Seq<char>
    decreases u.len(),
{
    if u.len() == 0 || u[0] == 0 {
        seq![]
    } else if 0xD800 <= u[0] <= 0xDFFF {
        units_text(u.drop_first())
    } else {
        seq![u[0] as char] + units_text(u.drop_first())
    }
}

/// The `n` big-endian code units at `d[off..]`.
pub open spec fn units_be_at(d: Seq<u8>, off: int, n: nat) -> Seq<u16> {
    Seq::new(n, |j: int| be_u16_at(d, off + 2 * j))
}

proof fn lemma_units_text_step(u: Seq<u16>, i: int)
    requires
        0 <= i < u.len(),
        forall|j: int| 0 <= j < i ==> u[j] != 0,
    ensures
        units_text(u) == units_text(u.take(i)) + (if u[i] == 0 {
            seq![]
        } else if 0xD800 <= u[i] <= 0xDFFF {
            units_text(u.skip(i + 1))
        } else {
            seq![u[i] as char] + units_text(u.skip(i + 1))
        }),
    decreases i,
{
    if i == 0 {
        assert(u.take(0) =~= Seq::<u16>::empty());
        assert(u.skip(1) =~= u.drop_first());
    } else {
        lemma_units_text_step(u.drop_first(), i - 1);
        assert(u.drop_first().take(i - 1) =~= u.take(i).drop_first());
        assert(u.drop_first().skip(i) =~= u.skip(i + 1));
    }
}

/// Decodes the text of `n` big-endian UTF-16 code units at `d[off..]`.
pub fn utf16_be_text(d: &[u8], off: usize, n: usize) -> (r: String)
    requires
        off + 2 * n <= d@.len(),
    ensures
        r@ == units_text(units_be_at(d@, off as int, n as nat)),
{
    let ghost u = units_be_at(d@, off as int, n as nat);
    let mut s = String::new();
    assert(u.skip(0) =~= u);
    assert(s@ + units_text(u.skip(0)) =~= units_text(u));
    let len = d.len();
    let mut i: usize = 0;
    while i < n
        invariant
            off + 2 * n <= len,
            len == d@.len(),
            u == units_be_at(d@, off as int, n as nat),
            i <= n,
            forall|j: int| 0 <= j < i ==> u[j] != 0,
            units_text(u) == s@ + units_text(u.skip(i as int)),
        decreases n - i,
    {
        let c = get_u16_be(d, off + 2 * i);
        assert(c == u[i as int]);
        proof {
            lemma_units_text_step(u.skip(i as int), 0);
            assert(u.skip(i as int).skip(1) =~= u.skip(i + 1));
            assert(u.skip(i as int)[0] == c);
        }
        if c == 0 {
            assert(units_text(u.skip(i as int)) == Seq::<char>::empty());
            assert(s@ + Seq::<char>::empty() =~= s@);
            return s;
        }
        let ghost before = s@;
        match unit_char(c) {
            Some(ch) => {
                push_char(&mut s, ch);
                assert(units_text(u.skip(i as int)) == seq![ch] + units_text(u.skip(i + 1)));
                assert(before + (seq![ch] + units_text(u.skip(i + 1))) =~= s@ + units_text(u.skip(i + 1)));
            },
            None => {},
        }
        i += 1;
    }
    assert(u.skip(n as int) =~= Seq::<u16>::empty());
    assert(s@ + Seq::<char>::empty() =~= s@);
    s
}

/// The PNG signature.
pub open spec fn png_magic() -> Seq<u8> {
    seq![0x89u8, 0x50, 0x4E, 0x47, 0x0D, 0x0A, 0x1A, 0x0A]
}

/// The `IEND` chunk type of a PNG.
pub open spec fn iend_sig() -> Seq<u8> {
    seq![0x49u8, 0x45, 0x4E, 0x44]
}

/// The thumbnail of a package: from the first PNG signature at or after
/// offset 0x171A to 12 bytes past the first `IEND` after it (or the end of
/// the data); `None` where either is missing or the data is shorter than
/// the offset.
pub open spec fn thumbnail_of(raw: Seq<u8>) -> Option<Seq<u8>> {
    if raw.len() < 0x171A {
        None
    } else {
        match find_sig(raw.skip(0x171A), png_magic()) {
            None => None,
            Some(i) => {
                let a = 0x171A + i;
                match find_sig(raw.skip(a), iend_sig()) {
                    None => None,
                    Some(j) => {
                        let e = a + j + 12;
                        Some(raw.subrange(a, if e < raw.len() { e } else { raw.len() as int }))
                    },
                }
            },
        }
    }
}

/// A file of a 4J save: its name, length, start and modification time.
pub struct FileEntry {
    pub filename: String,
    pub length: u32,
    pub start_offset: u32,
    pub last_mod: i64,
}

/// A file entry as a value.
pub type FileEntryModel = (Seq<char>, u32, u32, i64);

impl View for FileEntry {
    type V = FileEntryModel;

    open spec fn view(&self) -> FileEntryModel {
        (self.filename@, self.length, self.start_offset, self.last_mod)
    }
}

/// The values of a sequence of file entries.
pub open spec fn entries_view(v: Seq<FileEntry>) -> Seq<FileEntryModel> {
    Seq::new(v.len(), |i: int| v[i]@)
}

/// The big-endian file-table record at `base`.
pub open spec fn entry_be_at(d: Seq<u8>, base: int) -> FileEntryModel {
    (
        units_text(units_be_at(d, base, 64)),
        be_u32_at(d, base + 128),
        be_u32_at(d, base + 132),
        be_u64_at(d, base + 136) as i64,
    )
}

/// The file entries from record `i` of a big-endian table at `ho` with
/// `ne` records: reading stops at the first record that runs past the end
/// of the data, and records with an empty name or zero length are skipped.
pub open spec fn table_from(d: Seq<u8>, ho: u32, ne: u32, i: int) -> Seq<FileEntryModel>
    decreases ne - i,
{
    if i < 0 || i >= ne {
        seq![]
    } else {
        let base = ho + i * 144;
        if base + 144 > d.len() {
            seq![]
        } else {
            let e = entry_be_at(d, base);
            let rest = table_from(d, ho, ne, i + 1);
            if e.0.len() > 0 && e.1 > 0 {
                seq![e] + rest
            } else {
                rest
            }
        }
    }
}

/// Parses a big-endian 4J file table.
pub fn parse_ftable_be(data: &[u8], ho: u32, ne: u32) -> (r: Vec<FileEntry>)
    ensures
        entries_view(r@) == table_from(data@, ho, ne, 0),
{
    let mut out: Vec<FileEntry> = Vec::new();
    let len = data.len();
    let mut i: u32 = 0;
    while i < ne
        invariant
            len == data@.len(),
            i <= ne,
            table_from(data@, ho, ne, 0) == entries_view(out@) + table_from(data@, ho, ne, i as int),
        decreases ne - i,
    {
        let base: u64 = ho as u64 + i as u64 * 144;
        if base + 144 > len as u64 {
            assert(table_from(data@, ho, ne, i as int) == Seq::<FileEntryModel>::empty());
            assert(entries_view(out@) + Seq::<FileEntryModel>::empty() =~= entries_view(out@));
            return out;
        }
        let b = base as usize;
        let name = utf16_be_text(data, b, 64);
        let length = get_u32_be(data, b + 128);
        let start_offset = get_u32_be(data, b + 132);
        let last_mod = get_u64_be(data, b + 136) as i64;
        let ghost prev = out@;
        let ghost rest = table_from(data@, ho, ne, i + 1);
        if !name.as_str().is_empty() && length > 0 {
            out.push(FileEntry { filename: name, length, start_offset, last_mod });
            assert(entries_view(out@) =~= entries_view(prev).push(out@[prev.len() as int]@));
            assert(entries_view(out@) + rest =~= entries_view(prev) + (seq![entry_be_at(data@, base as int)] + rest));
        }
        i += 1;
    }
    assert(table_from(data@, ho, ne, i as int) == Seq::<FileEntryModel>::empty());
    assert(entries_view(out@) + Seq::<FileEntryModel>::empty() =~= entries_view(out@));
    out
}

// ---------------------------------------------------------------------
// Windows 64 save files.
// ---------------------------------------------------------------------

/// A file name as a Windows 64 save table stores it: at most 64 UTF-16
/// code units, little-endian, zero-padded to 128 bytes.
pub open spec fn name_field64(name: Seq<char>) -> Seq<u8> {
    let u = utf16_units(name);
    let t = if u.len() > 64 {
        u.take(64)
    } else {
        u
    };
    units_le(t) + Seq::new((128 - 2 * t.len()) as nat, |_i: int| 0u8)
}

/// The bytes of the blobs one after another.
pub open spec fn concat_blobs(b: Seq<Seq<u8>>) -> Seq<u8>
    decreases b.len(),
{
    if b.len() == 0 {
        seq![]
    } else {
        concat_blobs(b.drop_last()) + b.last()
    }
}

/// The contents of a sequence of byte vectors.
pub open spec fn blobs_view(b: Seq<Vec<u8>>) -> Seq<Seq<u8>> {
    Seq::new(b.len(), |i: int| b[i]@)
}

/// The little-endian table records of the first `n` files: name, length,
/// start (after the 12-byte header and the blobs before it) and
/// modification time.
pub open spec fn table_le(es: Seq<FileEntryModel>, b: Seq<Seq<u8>>, n: nat) -> Seq<u8>
    decreases n,
{
    if n == 0 {
        seq![]
    } else {
        let i = n - 1;
        table_le(es, b, (n - 1) as nat) + name_field64(es[i].0) + u32_le(b[i].len() as u32) + u32_le(
            (12 + concat_blobs(b.take(i)).len()) as u32,
        ) + u64_le(es[i].3 as u64)
    }
}

/// The uncompressed Windows 64 save: a little-endian header (table offset,
/// `count`, versions), the blobs, and the table.
pub open spec fn win64_raw(es: Seq<FileEntryModel>, b: Seq<Seq<u8>>, count: u32, ov: i16, cv: i16) -> Seq<u8> {
    let body = concat_blobs(b);
    u32_le((12 + body.len()) as u32) + u32_le(count) + u16_le(ov as u16) + u16_le(cv as u16) + body
        + table_le(es, b, es.len())
}

/// A Windows 64 `saveData.ms`: a zero word, the uncompressed length, and
/// the zlib stream (level 6) of the save.
pub open spec fn win64_file(raw: Seq<u8>) -> Seq<u8> {
    u32_le(0) + u32_le(raw.len() as u32) + zlib_compressed(raw, 6)
}

fn push_name_field64(out: &mut Vec<u8>, name: &str)
    ensures
        final(out)@ == old(out)@ + name_field64(name@),
{
    let units = encode_utf16(name);
    let n: usize = if units.len() > 64 {
        64
    } else {
        units.len()
    };
    let ghost t = if units@.len() > 64 {
        units@.take(64)
    } else {
        units@
    };
    assert(t.len() == n);
    let ghost start = out@;
    let mut i: usize = 0;
    while i < n
        invariant
            n <= units@.len(),
            n <= 64,
            t.len() == n,
            forall|j: int| 0 <= j < n ==> t[j] == units@[j],
            i <= n,
            out@ == start + units_le(t.take(i as int)),
        decreases n - i,
    {
        assert(t.take(i + 1).drop_last() =~= t.take(i as int));
        push_u16_le(out, units[i]);
        i += 1;
    }
    assert(t.take(n as int) =~= t);
    let ghost mid = out@;
    let mut k: usize = 2 * n;
    while k < 128
        invariant
            2 * n <= k <= 128,
            out@ == mid + Seq::new((k - 2 * n) as nat, |_i: int| 0u8),
        decreases 128 - k,
    {
        out.push(0);
        k += 1;
        assert(out@ =~= mid + Seq::new((k - 2 * n) as nat, |_i: int| 0u8));
    }
    assert(out@ =~= start + name_field64(name@));
}

proof fn lemma_units_le_len(u: Seq<u16>)
    ensures
        units_le(u).len() == 2 * u.len(),
    decreases u.len(),
{
    if u.len() > 0 {
        lemma_units_le_len(u.drop_last());
    }
}

proof fn lemma_name_field64_len(name: Seq<char>)
    ensures
        name_field64(name).len() == 128,
{
    let u = utf16_units(name);
    let t = if u.len() > 64 {
        u.take(64)
    } else {
        u
    };
    lemma_units_le_len(t);
}

proof fn lemma_concat_blobs_step(b: Seq<Seq<u8>>, i: int)
    requires
        0 <= i < b.len(),
    ensures
        concat_blobs(b.take(i + 1)) == concat_blobs(b.take(i)) + b[i],
{
    assert(b.take(i + 1).drop_last() =~= b.take(i));
}

/// The uncompressed Windows 64 save made from file entries and their
/// (converted) contents.
pub fn win64_raw_bytes(entries: &[FileEntry], blobs: &[Vec<u8>], count: u32, ov: i16, cv: i16) -> (r: Vec<u8>)
    requires
        entries@.len() == blobs@.len(),
        12 + concat_blobs(blobs_view(blobs@)).len() + 144 * entries@.len() <= usize::MAX,
    ensures
        r@ == win64_raw(entries_view(entries@), blobs_view(blobs@), count, ov, cv),
{
    let ghost es = entries_view(entries@);
    let ghost bs = blobs_view(blobs@);
    let n = entries.len();
    let mut body: Vec<u8> = Vec::new();
    let mut table: Vec<u8> = Vec::new();
    let mut i: usize = 0;
    while i < n
        invariant
            n == entries@.len(),
            n == blobs@.len(),
            es == entries_view(entries@),
            bs == blobs_view(blobs@),
            12 + concat_blobs(bs).len() + 144 * n <= usize::MAX,
            i <= n,
            body@ == concat_blobs(bs.take(i as int)),
            table@ == table_le(es, bs, i as nat),
            table@.len() == 144 * i,
        decreases n - i,
    {
        proof {
            lemma_concat_blobs_step(bs, i as int);
            lemma_concat_prefix_len(bs, i + 1);
            lemma_name_field64_len(entries@[i as int].filename@);
        }
        let cursor = 12 + body.len();
        push_name_field64(&mut table, entries[i].filename.as_str());
        push_u32_le(&mut table, blobs[i].len() as u32);
        push_u32_le(&mut table, cursor as u32);
        push_u64_le(&mut table, entries[i].last_mod as u64);
        let mut j: usize = 0;
        let ghost before = body@;
        while j < blobs[i].len()
            invariant
                i < n,
                n == blobs@.len(),
                j <= blobs@[i as int]@.len(),
                body@ == before + blobs@[i as int]@.take(j as int),
                before.len() + blobs@[i as int]@.len() <= usize::MAX,
            decreases blobs@[i as int]@.len() - j,
        {
            body.push(blobs[i][j]);
            j += 1;
            assert(body@ =~= before + blobs@[i as int]@.take(j as int));
        }
        assert(blobs@[i as int]@.take(j as int) =~= bs[i as int]);
        assert(table@ =~= table_le(es, bs, (i + 1) as nat));
        i += 1;
    }
    assert(bs.take(n as int) =~= bs);
    let mut out: Vec<u8> = Vec::new();
    push_u32_le(&mut out, (12 + body.len()) as u32);
    push_u32_le(&mut out, count);
    push_u16_le(&mut out, ov as u16);
    push_u16_le(&mut out, cv as u16);
    let mut k: usize = 0;
    let ghost h = out@;
    while k < body.len()
        invariant
            k <= body@.len(),
            out@ == h + body@.take(k as int),
            h.len() + body@.len() + table@.len() <= usize::MAX,
        decreases body@.len() - k,
    {
        out.push(body[k]);
        k += 1;
        assert(out@ =~= h + body@.take(k as int));
    }
    let mut k2: usize = 0;
    let ghost h2 = out@;
    while k2 < table.len()
        invariant
            k2 <= table@.len(),
            out@ == h2 + table@.take(k2 as int),
            h2.len() + table@.len() <= usize::MAX,
        decreases table@.len() - k2,
    {
        out.push(table[k2]);
        k2 += 1;
        assert(out@ =~= h2 + table@.take(k2 as int));
    }
    assert(body@.take(body@.len() as int) =~= body@);
    assert(table@.take(table@.len() as int) =~= table@);
    assert(out@ =~= win64_raw(es, bs, count, ov, cv));
    out
}

/// The lengths of the blobs before `i` add up to at most those of all.
pub proof fn lemma_concat_prefix_len(b: Seq<Seq<u8>>, i: int)
    requires
        0 <= i <= b.len(),
    ensures
        concat_blobs(b.take(i)).len() <= concat_blobs(b).len(),
    decreases b.len() - i,
{
    if i < b.len() {
        lemma_concat_prefix_len(b, i + 1);
        lemma_concat_blobs_step(b, i);
    } else {
        assert(b.take(i) =~= b);
    }
}

/// A Windows 64 `saveData.ms` holding an uncompressed save.
pub fn win64_file_bytes(raw: &[u8]) -> (r: Vec<u8>)
    ensures
        r@ == win64_file(raw@),
{
    let compressed = zlib_compress(raw, 6);
    let mut out: Vec<u8> = Vec::new();
    push_u32_le(&mut out, 0);
    push_u32_le(&mut out, raw.len() as u32);
    let ghost h = out@;
    let mut k: usize = 0;
    while k < compressed.len()
        invariant
            k <= compressed@.len(),
            out@ == h + compressed@.take(k as int),
            h.len() == 8,
        decreases compressed@.len() - k,
    {
        out.push(compressed[k]);
        k += 1;
        assert(out@ =~= h + compressed@.take(k as int));
    }
    assert(compressed@.take(k as int) =~= compressed@);
    out
}

// ---------------------------------------------------------------------
// Chunk payloads.
// ---------------------------------------------------------------------

/// Run-length encodes chunk data as the Console region format stores it.
pub fn compress_rle(data: &[u8]) -> (r: Vec<u8>)
    ensures
        r@ == spec_rle_encode(data@),
{
    rle_encode(data)
}

fn push_all<T: Copy>(out: &mut Vec<T>, b: &[T])
    ensures
        final(out)@ == old(out)@ + b@,
{
    let ghost start = out@;
    let mut i: usize = 0;
    while i < b.len()
        invariant
            i <= b@.len(),
            out@ == start + b@.take(i as int),
        decreases b@.len() - i,
    {
        out.push(b[i]);
        i += 1;
        assert(out@ =~= start + b@.take(i as int));
    }
    assert(b@.take(i as int) =~= b@);
}

fn push_repeat(out: &mut Vec<u8>, v: u8, n: usize)
    ensures
        final(out)@ == old(out)@ + Seq::new(n as nat, |_i: int| v),
{
    let ghost start = out@;
    let mut i: usize = 0;
    while i < n
        invariant
            i <= n,
            out@ == start + Seq::new(i as nat, |_i: int| v),
        decreases n - i,
    {
        out.push(v);
        i += 1;
        assert(out@ =~= start + Seq::new(i as nat, |_i: int| v));
    }
}

/// The NBT document of an empty legacy chunk at `(chunk_x, chunk_z)`: air
/// blocks, full sky light, zero height map, terrain populated, no entities.
pub open spec fn empty_chunk_nbt(chunk_x: i32, chunk_z: i32) -> Seq<u8> {
    seq![0x0au8, 0x00, 0x00, 0x0a, 0x00, 0x05, 0x4c, 0x65, 0x76, 0x65, 0x6c, 0x07, 0x00, 0x06, 0x42, 0x6c, 0x6f, 0x63, 0x6b, 0x73]
        + u32_be(32768u32)
        + Seq::new(32768, |_i: int| 0x00u8)
        + seq![0x07u8, 0x00, 0x04, 0x44, 0x61, 0x74, 0x61]
        + u32_be(16384u32)
        + Seq::new(16384, |_i: int| 0x00u8)
        + seq![0x07u8, 0x00, 0x08, 0x53, 0x6b, 0x79, 0x4c, 0x69, 0x67, 0x68, 0x74]
        + u32_be(16384u32)
        + Seq::new(16384, |_i: int| 0xffu8)
        + seq![0x07u8, 0x00, 0x0a, 0x42, 0x6c, 0x6f, 0x63, 0x6b, 0x4c, 0x69, 0x67, 0x68, 0x74]
        + u32_be(16384u32)
        + Seq::new(16384, |_i: int| 0x00u8)
        + seq![0x07u8, 0x00, 0x09, 0x48, 0x65, 0x69, 0x67, 0x68, 0x74, 0x4d, 0x61, 0x70]
        + u32_be(256u32)
        + Seq::new(256, |_i: int| 0x00u8)
        + seq![0x03u8, 0x00, 0x04, 0x78, 0x50, 0x6f, 0x73]
        + u32_be(chunk_x as u32)
        + seq![0x03u8, 0x00, 0x04, 0x7a, 0x50, 0x6f, 0x73]
        + u32_be(chunk_z as u32)
        + seq![0x04u8, 0x00, 0x0a, 0x4c, 0x61, 0x73, 0x74, 0x55, 0x70, 0x64, 0x61, 0x74, 0x65, 0x00, 0x00, 0x00, 0x00, 0x00, 0x00, 0x00, 0x00, 0x01, 0x00, 0x10, 0x54, 0x65, 0x72, 0x72, 0x61, 0x69, 0x6e, 0x50, 0x6f, 0x70, 0x75, 0x6c, 0x61, 0x74, 0x65, 0x64, 0x01, 0x09, 0x00, 0x08, 0x45, 0x6e, 0x74, 0x69, 0x74, 0x69, 0x65, 0x73, 0x0a, 0x00, 0x00, 0x00, 0x00, 0x09, 0x00, 0x0c, 0x54, 0x69, 0x6c, 0x65, 0x45, 0x6e, 0x74, 0x69, 0x74, 0x69, 0x65, 0x73, 0x0a, 0x00, 0x00, 0x00, 0x00, 0x00, 0x00]
}

/// Builds the NBT document of an empty legacy chunk.
pub fn build_empty_chunk_nbt(chunk_x: i32, chunk_z: i32) -> (r: Vec<u8>)
    ensures
        r@ == empty_chunk_nbt(chunk_x, chunk_z),
{
    let mut out: Vec<u8> = Vec::new();
    push_all(&mut out, vec![0x0au8, 0x00, 0x00, 0x0a, 0x00, 0x05, 0x4c, 0x65, 0x76, 0x65, 0x6c, 0x07, 0x00, 0x06, 0x42, 0x6c, 0x6f, 0x63, 0x6b, 0x73].as_slice());
    push_u32_be(&mut out, 32768);
    push_repeat(&mut out, 0x00, 32768);
    push_all(&mut out, vec![0x07u8, 0x00, 0x04, 0x44, 0x61, 0x74, 0x61].as_slice());
    push_u32_be(&mut out, 16384);
    push_repeat(&mut out, 0x00, 16384);
    push_all(&mut out, vec![0x07u8, 0x00, 0x08, 0x53, 0x6b, 0x79, 0x4c, 0x69, 0x67, 0x68, 0x74].as_slice());
    push_u32_be(&mut out, 16384);
    push_repeat(&mut out, 0xff, 16384);
    push_all(&mut out, vec![0x07u8, 0x00, 0x0a, 0x42, 0x6c, 0x6f, 0x63, 0x6b, 0x4c, 0x69, 0x67, 0x68, 0x74].as_slice());
    push_u32_be(&mut out, 16384);
    push_repeat(&mut out, 0x00, 16384);
    push_all(&mut out, vec![0x07u8, 0x00, 0x09, 0x48, 0x65, 0x69, 0x67, 0x68, 0x74, 0x4d, 0x61, 0x70].as_slice());
    push_u32_be(&mut out, 256);
    push_repeat(&mut out, 0x00, 256);
    push_all(&mut out, vec![0x03u8, 0x00, 0x04, 0x78, 0x50, 0x6f, 0x73].as_slice());
    push_u32_be(&mut out, chunk_x as u32);
    push_all(&mut out, vec![0x03u8, 0x00, 0x04, 0x7a, 0x50, 0x6f, 0x73].as_slice());
    push_u32_be(&mut out, chunk_z as u32);
    push_all(&mut out, vec![0x04u8, 0x00, 0x0a, 0x4c, 0x61, 0x73, 0x74, 0x55, 0x70, 0x64, 0x61, 0x74, 0x65, 0x00, 0x00, 0x00, 0x00, 0x00, 0x00, 0x00, 0x00, 0x01, 0x00, 0x10, 0x54, 0x65, 0x72, 0x72, 0x61, 0x69, 0x6e, 0x50, 0x6f, 0x70, 0x75, 0x6c, 0x61, 0x74, 0x65, 0x64, 0x01, 0x09, 0x00, 0x08, 0x45, 0x6e, 0x74, 0x69, 0x74, 0x69, 0x65, 0x73, 0x0a, 0x00, 0x00, 0x00, 0x00, 0x09, 0x00, 0x0c, 0x54, 0x69, 0x6c, 0x65, 0x45, 0x6e, 0x74, 0x69, 0x74, 0x69, 0x65, 0x73, 0x0a, 0x00, 0x00, 0x00, 0x00, 0x00, 0x00].as_slice());
    assert(out@ =~= empty_chunk_nbt(chunk_x, chunk_z));
    out
}

// ---------------------------------------------------------------------
// Level names and region file names.
// ---------------------------------------------------------------------

/// The signature of the `LevelName` String tag.
pub open spec fn level_name_sig() -> Seq<u8> {
    seq![0x08u8, 0x00, 0x09, 0x4c, 0x65, 0x76, 0x65, 0x6c, 0x4e, 0x61, 0x6d, 0x65]
}

/// Raw `level.dat` bytes with the `LevelName` value replaced by `name`
/// (its UTF-8, cut to 65535 bytes); unchanged where the tag is not found
/// or its length does not fit.
pub open spec fn patched_level_name(d: Seq<u8>, name: Seq<char>) -> Seq<u8> {
    match find_sig(d, level_name_sig()) {
        None => d,
        Some(idx) => {
            let so = idx + 12;
            if so + 2 > d.len() {
                d
            } else {
                let end = so + 2 + be_u16_at(d, so);
                let b = encode_utf8(name);
                let v = if b.len() > 0xFFFF {
                    b.take(0xFFFF)
                } else {
                    b
                };
                d.take(so) + u16_be(v.len() as u16) + v + (if end < d.len() {
                    d.skip(end)
                } else {
                    seq![]
                })
            }
        },
    }
}

/// Replaces the `LevelName` value in raw `level.dat` bytes.
pub fn patch_level_name(nbt: &[u8], new_name: &str) -> (r: Vec<u8>)
    ensures
        r@ == patched_level_name(nbt@, new_name@),
{
    let sig: Vec<u8> = vec![0x08u8, 0x00, 0x09, 0x4c, 0x65, 0x76, 0x65, 0x6c, 0x4e, 0x61, 0x6d, 0x65];
    assert(sig@ =~= level_name_sig());
    let idx = match find_bytes(nbt, sig.as_slice()) {
        Some(i) => i,
        None => {
            let mut out: Vec<u8> = Vec::new();
            push_all(&mut out, nbt);
            return out;
        },
    };
    proof {
        lemma_found(nbt@, sig@, idx as int);
    }
    let nlen = nbt.len();
    if nlen < 14 || idx > nlen - 14 {
        let mut out: Vec<u8> = Vec::new();
        push_all(&mut out, nbt);
        return out;
    }
    let so = idx + 12;
    let old_len = get_u16_be(nbt, so) as usize;
    let b = new_name.as_bytes();
    let vlen: usize = if b.len() > 0xFFFF {
        0xFFFF
    } else {
        b.len()
    };
    let mut out: Vec<u8> = Vec::new();
    push_all(&mut out, slice_range(nbt, 0, so));
    push_u16_be(&mut out, vlen as u16);
    push_all(&mut out, slice_range(b, 0, vlen));
    let tail_from = nlen - (so + 2);
    let ghost end = so + 2 + old_len;
    if old_len < tail_from {
        let e = so + 2 + old_len;
        push_all(&mut out, slice_range(nbt, e, nbt.len()));
    }
    proof {
        assert(nbt@.subrange(0, so as int) =~= nbt@.take(so as int));
        assert(b@.subrange(0, vlen as int) =~= (if b@.len() > 0xFFFF { b@.take(0xFFFF) } else { b@ }));
        if end < nbt@.len() {
            assert(nbt@.subrange(end as int, nbt@.len() as int) =~= nbt@.skip(end as int));
        }
    }
    assert(out@ =~= patched_level_name(nbt@, new_name@));
    out
}

/// The position of the first `c` in `s`.
pub open spec fn first_byte(s: Seq<u8>, c: u8) -> Option<int>
    decreases s.len(),
{
    if s.len() == 0 {
        None
    } else if s[0] == c {
        Some(0)
    } else {
        match first_byte(s.drop_first(), c) {
            Some(i) => Some(i + 1),
            None => None,
        }
    }
}

fn find_byte(s: &[u8], c: u8) -> (r: Option<usize>)
    ensures
        match r {
            Some(i) => first_byte(s@, c) == Some(i as int),
            None => first_byte(s@, c) is None,
        },
{
    assert(s@.skip(0) =~= s@);
    let mut i: usize = 0;
    while i < s.len()
        invariant
            i <= s@.len(),
            first_byte(s@, c) == (match first_byte(s@.skip(i as int), c) {
                Some(j) => Some(j + i),
                None => None,
            }),
        decreases s@.len() - i,
    {
        assert(s@.skip(i as int).drop_first() =~= s@.skip(i + 1));
        if s[i] == c {
            return Some(i);
        }
        i += 1;
    }
    assert(s@.skip(i as int).len() == 0);
    None
}

/// The chunk-region coordinates `x.z` of a region file name.
pub open spec fn coords_of(c: Seq<u8>) -> Option<(i32, i32)> {
    match first_byte(c, 0x2E) {
        None => None,
        Some(d) => match (spec_parse_i32(c.take(d)), spec_parse_i32(c.skip(d + 1))) {
            (Some(x), Some(z)) => Some((x, z)),
            _ => None,
        },
    }
}

/// A file name's UTF-8 bytes, lower-cased, with backslashes made slashes.
pub open spec fn normalized_name(name: Seq<char>) -> Seq<u8> {
    let b = encode_utf8(lowercased(name));
    Seq::new(b.len(), |i: int| if b[i] == 0x5C { 0x2Fu8 } else { b[i] })
}

/// The bytes of `.mcr`.
pub open spec fn mcr_suffix() -> Seq<u8> {
    seq![0x2Eu8, 0x6D, 0x63, 0x72]
}

/// The middle of `n` between `prefix` and the suffix `.mcr`, if `n` has both.
pub open spec fn region_middle(n: Seq<u8>, prefix: Seq<u8>) -> Option<Seq<u8>> {
    if starts_with(n, prefix) && ends_with(n.skip(prefix.len() as int), mcr_suffix()) {
        Some(n.subrange(prefix.len() as int, n.len() - 4))
    } else {
        None
    }
}

/// `dim1/r.`
pub open spec fn end_prefix() -> Seq<u8> {
    seq![0x64u8, 0x69, 0x6D, 0x31, 0x2F, 0x72, 0x2E]
}

/// `dim-1r.`
pub open spec fn nether_prefix() -> Seq<u8> {
    seq![0x64u8, 0x69, 0x6D, 0x2D, 0x31, 0x72, 0x2E]
}

/// `r.`
pub open spec fn overworld_prefix() -> Seq<u8> {
    seq![0x72u8, 0x2E]
}

/// The dimension and region coordinates named by a Console region file
/// name: `DIM1/r.x.z.mcr` (end), `DIM-1r.x.z.mcr` (nether) or `r.x.z.mcr`
/// (overworld), in any letter case and with either slash.
pub open spec fn region_file_info(name: Seq<char>) -> Option<(Seq<char>, i32, i32)> {
    let n = normalized_name(name);
    let pick = |dim: Seq<char>, m: Seq<u8>|
        match coords_of(m) {
            Some((x, z)) => Some((dim, x, z)),
            None => None,
        };
    match region_middle(n, end_prefix()) {
        Some(m) => pick("end"@, m),
        None => match region_middle(n, nether_prefix()) {
            Some(m) => pick("nether"@, m),
            None => match region_middle(n, overworld_prefix()) {
                Some(m) => pick("overworld"@, m),
                None => None,
            },
        },
    }
}

fn middle_of(n: &[u8], prefix: &[u8]) -> (r: Option<(usize, usize)>)
    ensures
        match r {
            Some((a, b)) => a <= b <= n@.len() && region_middle(n@, prefix@) == Some(n@.subrange(a as int, b as int)),
            None => region_middle(n@, prefix@) is None,
        },
{
    let p = prefix.len();
    if p > n.len() || !same_bytes_at(n, 0, prefix) {
        return None;
    }
    let rest_len = n.len() - p;
    let suffix: Vec<u8> = vec![0x2Eu8, 0x6D, 0x63, 0x72];
    assert(suffix@ =~= mcr_suffix());
    if rest_len < 4 || !same_bytes_at(n, n.len() - 4, suffix.as_slice()) {
        proof {
            let rest = n@.skip(p as int);
            if rest_len >= 4 {
                assert(rest.subrange(rest.len() - 4, rest.len() as int) =~= n@.subrange(n@.len() - 4, n@.len() as int));
            }
        }
        return None;
    }
    proof {
        let rest = n@.skip(p as int);
        assert(rest.subrange(rest.len() - 4, rest.len() as int) =~= n@.subrange(n@.len() - 4, n@.len() as int));
    }
    Some((p, n.len() - 4))
}

fn coords_in(m: &[u8]) -> (r: Option<(i32, i32)>)
    ensures
        r == coords_of(m@),
{
    match find_byte(m, 0x2E) {
        None => None,
        Some(d) => {
            proof {
                lemma_first_byte_bound(m@, 0x2E, d as int);
            }
            let ml = m.len();
            assert(d < ml);
            let x = parse_i32(slice_range(m, 0, d));
            let z = parse_i32(slice_range(m, d + 1, m.len()));
            assert(m@.subrange(0, d as int) =~= m@.take(d as int));
            assert(m@.subrange(d + 1, m@.len() as int) =~= m@.skip(d + 1));
            match (x, z) {
                (Some(x), Some(z)) => Some((x, z)),
                _ => None,
            }
        },
    }
}

proof fn lemma_first_byte_bound(s: Seq<u8>, c: u8, i: int)
    requires
        first_byte(s, c) == Some(i),
    ensures
        0 <= i < s.len(),
        s[i] == c,
    decreases s.len(),
{
    if s.len() > 0 && s[0] != c {
        lemma_first_byte_bound(s.drop_first(), c, i - 1);
    }
}

/// The dimension and region coordinates of a Console region file name.
pub fn parse_region_filename(name: &str) -> (r: Option<(&'static str, i32, i32)>)
    ensures
        match r {
            Some((d, x, z)) => region_file_info(name@) == Some((d@, x, z)),
            None => region_file_info(name@) is None,
        },
{
    let lower = to_lowercase(name);
    let b = lower.as_str().as_bytes();
    let mut n: Vec<u8> = Vec::new();
    let mut i: usize = 0;
    while i < b.len()
        invariant
            i <= b@.len(),
            n@ == Seq::new(i as nat, |k: int| if b@[k] == 0x5C { 0x2Fu8 } else { b@[k] }),
        decreases b@.len() - i,
    {
        n.push(if b[i] == 0x5C { 0x2F } else { b[i] });
        i += 1;
        assert(n@ =~= Seq::new(i as nat, |k: int| if b@[k] == 0x5C { 0x2Fu8 } else { b@[k] }));
    }
    assert(n@ =~= normalized_name(name@));
    let p_end: Vec<u8> = vec![0x64u8, 0x69, 0x6D, 0x31, 0x2F, 0x72, 0x2E];
    let p_nether: Vec<u8> = vec![0x64u8, 0x69, 0x6D, 0x2D, 0x31, 0x72, 0x2E];
    let p_over: Vec<u8> = vec![0x72u8, 0x2E];
    assert(p_end@ =~= end_prefix());
    assert(p_nether@ =~= nether_prefix());
    assert(p_over@ =~= overworld_prefix());
    if let Some((a, e)) = middle_of(n.as_slice(), p_end.as_slice()) {
        return match coords_in(slice_range(n.as_slice(), a, e)) {
            Some((x, z)) => Some(("end", x, z)),
            None => None,
        };
    }
    if let Some((a, e)) = middle_of(n.as_slice(), p_nether.as_slice()) {
        return match coords_in(slice_range(n.as_slice(), a, e)) {
            Some((x, z)) => Some(("nether", x, z)),
            None => None,
        };
    }
    if let Some((a, e)) = middle_of(n.as_slice(), p_over.as_slice()) {
        return match coords_in(slice_range(n.as_slice(), a, e)) {
            Some((x, z)) => Some(("overworld", x, z)),
            None => None,
        };
    }
    None
}

// ---------------------------------------------------------------------
// Folder names.
// ---------------------------------------------------------------------

/// Characters that a folder name cannot hold: controls and `<>:"/\|?*`.
pub open spec fn unsafe_char(c: char) -> bool {
    let v = c as u32;
    v <= 0x1F || (0x7F <= v && v <= 0x9F) || c == '<' || c == '>' || c == ':' || c == '"' || c == '/'
        || c == '\\' || c == '|' || c == '?' || c == '*'
}

/// `cs` with unsafe characters made `_` and each run of `_` cut to one;
/// `prev` tells whether the text before ended in `_`.
pub open spec fn collapse(cs: Seq<char>, prev: bool) -> Seq<char>
    decreases cs.len(),
{
    if cs.len() == 0 {
        seq![]
    } else {
        let c = if unsafe_char(cs[0]) {
            '_'
        } else {
            cs[0]
        };
        if c == '_' {
            if prev {
                collapse(cs.drop_first(), true)
            } else {
                seq!['_'] + collapse(cs.drop_first(), true)
            }
        } else {
            seq![c] + collapse(cs.drop_first(), false)
        }
    }
}

/// Characters trimmed from the ends of a folder name.
pub open spec fn name_trim(c: char) -> bool {
    c == '_' || c == '.' || c == ' '
}

/// The first characters of `s` whose UTF-8 takes exactly `budget` bytes,
/// or all of `s` when it takes fewer; `None` where no character boundary
/// falls at `budget` bytes.
pub open spec fn cut_at(s: Seq<char>, budget: int) -> Option<Seq<char>>
    decreases s.len(),
{
    if budget <= 0 || s.len() == 0 {
        Some(seq![])
    } else if char_width(s[0]) > budget {
        None
    } else {
        match cut_at(s.drop_first(), budget - char_width(s[0])) {
            Some(t) => Some(seq![s[0]] + t),
            None => None,
        }
    }
}

/// The folder name made from a save title: unsafe characters replaced,
/// runs of `_` collapsed, `_`, `.` and space trimmed, cut to 64 bytes, and
/// `MinecraftSave` where nothing is left; `None` where the cut at 64 bytes
/// would split a character.
pub open spec fn sanitised(name: Seq<char>) -> Option<Seq<char>> {
    let t = trim_by(collapse(name, false), |c: char| name_trim(c));
    let cut = if utf8_len(t) > 64 {
        cut_at(t, 64)
    } else {
        Some(t)
    };
    match cut {
        Some(c) => Some(if c.len() == 0 { "MinecraftSave"@ } else { c }),
        None => None,
    }
}

proof fn lemma_collapse_step(cs: Seq<char>, i: int, prev: bool, acc: Seq<char>)
    requires
        0 <= i < cs.len(),
    ensures
        collapse(cs.skip(i), prev) == ({
            let c = if unsafe_char(cs[i]) { '_' } else { cs[i] };
            if c == '_' {
                if prev {
                    collapse(cs.skip(i + 1), true)
                } else {
                    seq!['_'] + collapse(cs.skip(i + 1), true)
                }
            } else {
                seq![c] + collapse(cs.skip(i + 1), false)
            }
        }),
{
    assert(cs.skip(i).drop_first() =~= cs.skip(i + 1));
}

fn unsafe_char_exec(c: char) -> (r: bool)
    ensures
        r == unsafe_char(c),
{
    let v = c as u32;
    v <= 0x1F || (0x7F <= v && v <= 0x9F) || c == '<' || c == '>' || c == ':' || c == '"' || c == '/'
        || c == '\\' || c == '|' || c == '?' || c == '*'
}

fn width_of(c: char) -> (r: usize)
    ensures
        r == char_width(c),
{
    let v = c as u32;
    if v < 0x80 {
        1
    } else if v < 0x800 {
        2
    } else if v < 0x10000 {
        3
    } else {
        4
    }
}

proof fn lemma_utf8_len_take(s: Seq<char>, k: int)
    requires
        0 <= k < s.len(),
    ensures
        utf8_len(s.take(k + 1)) == utf8_len(s.take(k)) + char_width(s[k]),
{
    assert(s.take(k + 1).drop_last() =~= s.take(k));
}

proof fn lemma_cut_prefix(s: Seq<char>, budget: int, k: int)
    requires
        0 <= k <= s.len(),
        utf8_len(s.take(k)) <= budget,
    ensures
        cut_at(s, budget) == (match cut_at(s.skip(k), budget - utf8_len(s.take(k))) {
            Some(t) => Some(s.take(k) + t),
            None => None,
        }),
    decreases k,
{
    if k == 0 {
        assert(s.skip(0) =~= s);
        assert(s.take(0) =~= Seq::<char>::empty());
        match cut_at(s, budget) {
            Some(t) => { assert(Seq::<char>::empty() + t =~= t); },
            None => {},
        }
    } else {
        lemma_utf8_len_take(s, k - 1);
        lemma_utf8_len_nonneg(s.take(k - 1));
        lemma_cut_prefix(s, budget, k - 1);
        let b1 = budget - utf8_len(s.take(k - 1));
        let r1 = s.skip(k - 1);
        assert(r1[0] == s[k - 1]);
        assert(r1.drop_first() =~= s.skip(k));
        assert(b1 > 0);
        assert(char_width(r1[0]) <= b1);
        assert(s.take(k - 1).push(s[k - 1]) =~= s.take(k));
        match cut_at(s.skip(k), b1 - char_width(s[k - 1])) {
            Some(t) => {
                assert(s.take(k - 1) + (seq![s[k - 1]] + t) =~= s.take(k) + t);
            },
            None => {},
        }
    }
}

proof fn lemma_utf8_len_nonneg(s: Seq<char>)
    ensures
        utf8_len(s) >= 0,
{
}

fn collapse_chars(name: &str) -> (r: Vec<char>)
    ensures
        r@ == collapse(name@, false),
{
    let cs = chars_of(name);
    let mut col: Vec<char> = Vec::new();
    let mut prev = false;
    let mut i: usize = 0;
    assert(cs@.skip(0) =~= cs@);
    while i < cs.len()
        invariant
            i <= cs@.len(),
            cs@ == name@,
            collapse(name@, false) == col@ + collapse(cs@.skip(i as int), prev),
        decreases cs@.len() - i,
    {
        proof {
            lemma_collapse_step(cs@, i as int, prev, col@);
        }
        let c = if unsafe_char_exec(cs[i]) {
            '_'
        } else {
            cs[i]
        };
        let ghost before = col@;
        if c == '_' {
            if !prev {
                col.push('_');
                assert(before + (seq!['_'] + collapse(cs@.skip(i + 1), true)) =~= col@ + collapse(cs@.skip(i + 1), true));
            }
            prev = true;
        } else {
            col.push(c);
            assert(before + (seq![c] + collapse(cs@.skip(i + 1), false)) =~= col@ + collapse(cs@.skip(i + 1), false));
            prev = false;
        }
        i += 1;
    }
    assert(cs@.skip(i as int) =~= Seq::<char>::empty());
    assert(col@ + Seq::<char>::empty() =~= col@);
    col
}

fn trim_range(col: &Vec<char>) -> (r: (usize, usize))
    ensures
        r.0 <= r.1 <= col@.len(),
        col@.subrange(r.0 as int, r.1 as int) == trim_by(col@, |c: char| name_trim(c)),
{
    let ghost p = |c: char| name_trim(c);
    let n = col.len();
    let mut a: usize = 0;
    while a < n && (col[a] == '_' || col[a] == '.' || col[a] == ' ')
        invariant
            a <= n == col@.len(),
            p == (|c: char| name_trim(c)),
            forall|k: int| 0 <= k < a ==> #[trigger] p(col@[k]),
        decreases n - a,
    {
        a += 1;
    }
    let mut b: usize = n;
    while b > a && (col[b - 1] == '_' || col[b - 1] == '.' || col[b - 1] == ' ')
        invariant
            a <= b <= n == col@.len(),
            p == (|c: char| name_trim(c)),
            forall|k: int| b <= k < n ==> #[trigger] p(col@[k]),
        decreases b - a,
    {
        b -= 1;
    }
    proof {
        lemma_drop_front(col@, p, a as int);
        let f = col@.skip(a as int);
        assert forall|k: int| (b - a) <= k < f.len() implies p(f[k]) by {
            assert(f[k] == col@[k + a]);
        }
        lemma_drop_back(f, p, (b - a) as int);
        assert(f.take((b - a) as int) =~= col@.subrange(a as int, b as int));
    }
    (a, b)
}

/// The folder name made from a save title (see `sanitised`).
pub fn sanitise(name: &str) -> (r: Option<String>)
    ensures
        match r {
            Some(s) => sanitised(name@) == Some(s@),
            None => sanitised(name@) is None,
        },
{
    let col = collapse_chars(name);
    let (a, b) = trim_range(&col);
    let ghost t = col@.subrange(a as int, b as int);
    let mut total: usize = 0;
    let mut k: usize = a;
    assert(t.take(0) =~= Seq::<char>::empty());
    while k < b && total + width_of(col[k]) <= 64
        invariant
            a <= k <= b <= col@.len(),
            t == col@.subrange(a as int, b as int),
            total == utf8_len(t.take(k - a)),
            total <= 64,
        decreases b - k,
    {
        proof {
            lemma_utf8_len_take(t, (k - a) as int);
        }
        total = total + width_of(col[k]);
        k += 1;
    }
    let mut res_end = b;
    if k < b {
        proof {
            lemma_utf8_len_take(t, (k - a) as int);
            lemma_utf8_len_prefix_le(t, (k - a + 1) as int);
            lemma_cut_prefix(t, 64, (k - a) as int);
            assert(t.skip((k - a) as int)[0] == col@[k as int]);
        }
        if total < 64 {
            return None;
        }
        res_end = k;
        proof {
            assert(t.take((k - a) as int) + Seq::<char>::empty() =~= t.take((k - a) as int));
            assert(t.take((k - a) as int) =~= col@.subrange(a as int, k as int));
        }
    } else {
        proof {
            assert(t.take((b - a) as int) =~= t);
        }
    }
    if res_end == a {
        return Some(crate::anvil::owned("MinecraftSave"));
    }
    Some(string_of(&col, a, res_end))
}

proof fn lemma_utf8_len_prefix_le(s: Seq<char>, k: int)
    requires
        0 <= k <= s.len(),
    ensures
        utf8_len(s.take(k)) <= utf8_len(s),
    decreases s.len() - k,
{
    if k < s.len() {
        lemma_utf8_len_prefix_le(s, k + 1);
        lemma_utf8_len_take(s, k);
    } else {
        assert(s.take(k) =~= s);
    }
}

// ---------------------------------------------------------------------
// STFS (Xbox 360 CON) packages.
// ---------------------------------------------------------------------

/// The file offset of STFS data block `b`: blocks sit after the 0xA000-byte
/// header, with hash blocks before each group of 170.
pub open spec fn stfs_offset(b: int, shift: int) -> int {
    let g = b / 170;
    let hash_before = if g == 0 {
        2
    } else {
        3 + 2 * g + shift
    };
    0xA000 + (b + hash_before) * 0x1000
}

fn stfs_block_offset(b: u64, shift: u64) -> (r: u64)
    requires
        b <= 0x1_0000_0000,
        shift <= 1,
    ensures
        r == stfs_offset(b as int, shift as int),
{
    let g = b / 170;
    let hash_before: u64 = if g == 0 {
        2
    } else {
        3 + 2 * g + shift
    };
    0xA000 + (b + hash_before) * 0x1000
}

/// The 24-bit big-endian value at `d[i..i + 3]`.
pub open spec fn be24_at(d: Seq<u8>, i: int) -> int {
    d[i] * 0x10000 + d[i + 1] * 0x100 + d[i + 2]
}

/// The next block of STFS block `b` from the hash tables, trying the table
/// two blocks before the group and then one block before; `None` where
/// neither is there or both say "none" (0xFFFFFF).
pub open spec fn stfs_next(raw: Seq<u8>, b: int, shift: int) -> Option<int> {
    let first = stfs_offset((b / 170) * 170, shift);
    let idx = (b % 170) * 0x18;
    let at = |gap: int| first - 0x1000 * gap + idx;
    let e2 = at(2);
    let e1 = at(1);
    if e2 + 0x18 <= raw.len() && be24_at(raw, e2 + 0x15) != 0xFFFFFF {
        Some(be24_at(raw, e2 + 0x15))
    } else if e1 + 0x18 <= raw.len() && be24_at(raw, e1 + 0x15) != 0xFFFFFF {
        Some(be24_at(raw, e1 + 0x15))
    } else {
        None
    }
}

fn stfs_get_hash_entry(raw: &[u8], b: u64, shift: u64) -> (r: Option<u64>)
    requires
        b <= 0x1_0000_0000,
        shift <= 1,
    ensures
        match r {
            Some(v) => stfs_next(raw@, b as int, shift as int) == Some(v as int),
            None => stfs_next(raw@, b as int, shift as int) is None,
        },
{
    let first = stfs_block_offset((b / 170) * 170, shift);
    let idx = (b % 170) * 0x18;
    let len = raw.len() as u64;
    let e2 = first - 0x2000 + idx;
    if e2 + 0x18 <= len {
        let p = e2 as usize + 0x15;
        let v = (raw[p] as u64) * 0x10000 + (raw[p + 1] as u64) * 0x100 + raw[p + 2] as u64;
        if v != 0xFFFFFF {
            return Some(v);
        }
    }
    let e1 = first - 0x1000 + idx;
    if e1 + 0x18 <= len {
        let p = e1 as usize + 0x15;
        let v = (raw[p] as u64) * 0x10000 + (raw[p + 1] as u64) * 0x100 + raw[p + 2] as u64;
        if v != 0xFFFFFF {
            return Some(v);
        }
    }
    None
}

/// The last block number that the data can hold, exclusive.
pub open spec fn stfs_max_block(raw: Seq<u8>) -> int {
    if raw.len() < 0xA000 {
        0
    } else {
        (raw.len() - 0xA000) / 0x1000
    }
}

/// The bytes of an STFS file of `rem` more bytes from block `b`: each block
/// gives up to 0x1000 bytes, the hash tables name the next block (taken
/// when it lies in 1 up to the last block), otherwise the next number is
/// taken; reading stops at the end of the data.
pub open spec fn stfs_read(raw: Seq<u8>, b: int, rem: int, shift: int) -> Seq<u8>
    decreases rem,
{
    if rem <= 0 || b < 0 || b > 0x1_0000_0000 {
        seq![]
    } else {
        let off = stfs_offset(b, shift);
        if off >= raw.len() {
            seq![]
        } else {
            let end = if off + 0x1000 < raw.len() {
                off + 0x1000
            } else {
                raw.len() as int
            };
            let take = if rem < end - off {
                rem
            } else {
                end - off
            };
            let next = match stfs_next(raw, b, shift) {
                Some(n) => if 0 < n && n < stfs_max_block(raw) {
                    n
                } else {
                    b + 1
                },
                None => b + 1,
            };
            raw.subrange(off, off + take) + stfs_read(raw, next, rem - take, shift)
        }
    }
}

/// Reads an STFS file of `size` bytes starting at block `start`.
pub fn stfs_read_file(raw: &[u8], start: u64, size: u64, shift: u64) -> (r: Vec<u8>)
    requires
        shift <= 1,
    ensures
        r@ == stfs_read(raw@, start as int, size as int, shift as int),
{
    let len = raw.len() as u64;
    let max_block: u64 = if len < 0xA000 {
        0
    } else {
        (len - 0xA000) / 0x1000
    };
    let mut out: Vec<u8> = Vec::new();
    let mut blk = start;
    let mut rem = size;
    let ghost total = stfs_read(raw@, start as int, size as int, shift as int);
    assert(out@ + stfs_read(raw@, blk as int, rem as int, shift as int) =~= total);
    while rem > 0
        invariant
            len == raw@.len(),
            raw@.len() <= usize::MAX,
            shift <= 1,
            max_block == stfs_max_block(raw@),
            total == stfs_read(raw@, start as int, size as int, shift as int),
            out@ + stfs_read(raw@, blk as int, rem as int, shift as int) == total,
        decreases rem,
    {
        if blk > 0x1_0000_0000 {
            assert(stfs_read(raw@, blk as int, rem as int, shift as int) == Seq::<u8>::empty());
            assert(out@ + Seq::<u8>::empty() =~= out@);
            assert(out@ == total);
            return out;
        }
        let off = stfs_block_offset(blk, shift);
        if off >= len {
            assert(stfs_read(raw@, blk as int, rem as int, shift as int) == Seq::<u8>::empty());
            assert(out@ + Seq::<u8>::empty() =~= out@);
            assert(out@ == total);
            return out;
        }
        let end = if off + 0x1000 < len {
            off + 0x1000
        } else {
            len
        };
        let take = if rem < end - off {
            rem
        } else {
            end - off
        };
        let ghost before = out@;
        assert(off + take <= len);
        let a: usize = off as usize;
        let z: usize = (off + take) as usize;
        assert(a as int == off as int && z as int == off + take);
        push_all(&mut out, slice_range(raw, a, z));
        let next = match stfs_get_hash_entry(raw, blk, shift) {
            Some(n) => if 0 < n && n < max_block {
                n
            } else {
                blk + 1
            },
            None => blk + 1,
        };
        proof {
            let piece = raw@.subrange(off as int, off + take);
            assert(stfs_read(raw@, blk as int, rem as int, shift as int) == piece + stfs_read(raw@, next as int, rem - take, shift as int));
            assert(before + (piece + stfs_read(raw@, next as int, rem - take, shift as int)) =~= out@ + stfs_read(raw@, next as int, rem - take, shift as int));
        }
        blk = next;
        rem = rem - take;
    }
    assert(out@ + Seq::<u8>::empty() =~= out@);
    out
}

/// A file of an STFS package: name, first block and size.
pub struct StfsEntry {
    pub name: String,
    pub start_block: u64,
    pub size: u64,
}

/// An STFS entry as a value.
pub type StfsEntryModel = (Seq<char>, int, int);

/// The values of a sequence of STFS entries.
pub open spec fn stfs_entries_view(v: Seq<StfsEntry>) -> Seq<StfsEntryModel> {
    Seq::new(v.len(), |i: int| (v[i].name@, v[i].start_block as int, v[i].size as int))
}

/// An Xbox 360 STFS (CON) package.
pub struct StfsPackage {
    pub raw: Vec<u8>,
    pub table_shift: u64,
}

/// `"CON "`.
pub open spec fn stfs_magic() -> Seq<u8> {
    seq![0x43u8, 0x4F, 0x4E, 0x20]
}

/// The decimal texts of bytes, separated by `", "`.
pub open spec fn byte_list_text(b: Seq<u8>) -> Seq<char>
    decreases b.len(),
{
    if b.len() == 0 {
        seq![]
    } else if b.len() == 1 {
        crate::anvil::decimal(b[0] as nat)
    } else {
        byte_list_text(b.drop_last()) + ", "@ + crate::anvil::decimal(b.last() as nat)
    }
}

/// The error for data that is not an STFS package, listing its first
/// bytes (at most 4).
pub open spec fn not_stfs_message(raw: Seq<u8>) -> Seq<char> {
    let head = if raw.len() < 4 {
        raw
    } else {
        raw.take(4)
    };
    "Not an STFS CON file (magic=["@ + byte_list_text(head) + "])"@
}

fn push_text(s: &mut String, t: &str)
    ensures
        final(s)@ == old(s)@ + t@,
{
    let ghost start = s@;
    for c in it: t.chars()
        invariant
            it.seq() == t@,
            s@ == start + t@.take(it.index() as int),
    {
        let ghost k = it.index();
        push_char(s, c);
        assert(s@ =~= start + t@.take(k + 1));
    }
    assert(t@.take(t@.len() as int) =~= t@);
}

fn not_stfs_error(raw: &Vec<u8>) -> (r: String)
    ensures
        r@ == not_stfs_message(raw@),
{
    let mut s = crate::anvil::owned("Not an STFS CON file (magic=[");
    let n: usize = if raw.len() < 4 {
        raw.len()
    } else {
        4
    };
    let ghost head = if raw@.len() < 4 {
        raw@
    } else {
        raw@.take(4)
    };
    let ghost pre = s@;
    let mut i: usize = 0;
    assert(head.take(0) =~= Seq::<u8>::empty());
    while i < n
        invariant
            n <= raw@.len(),
            n == head.len(),
            forall|k: int| 0 <= k < n ==> head[k] == raw@[k],
            i <= n,
            s@ == pre + byte_list_text(head.take(i as int)),
        decreases n - i,
    {
        assert(head.take(i + 1).drop_last() =~= head.take(i as int));
        if i > 0 {
            push_text(&mut s, ", ");
        }
        let d = crate::anvil::decimal_text(raw[i]);
        push_text(&mut s, d.as_str());
        proof {
            if i == 0 {
                assert(head.take(1).len() == 1);
            }
        }
        assert(s@ =~= pre + byte_list_text(head.take(i + 1)));
        i += 1;
    }
    assert(head.take(n as int) =~= head);
    push_text(&mut s, "])");
    s
}

/// The block of the file table named in the package header.
pub open spec fn table_block(raw: Seq<u8>) -> int {
    raw[0x37E] + raw[0x37F] * 0x100 + raw[0x380] * 0x10000
}

/// The bytes of STFS block `b` (up to 0x1000, fewer at the end of the data).
pub open spec fn stfs_block(raw: Seq<u8>, b: int, shift: int) -> Seq<u8> {
    let off = stfs_offset(b, shift);
    let end = if off + 0x1000 < raw.len() {
        off + 0x1000
    } else {
        raw.len() as int
    };
    raw.subrange(off, end)
}

/// The files listed in an STFS file-table block from record `i` on:
/// 64-byte records with a name length in the low 6 bits of byte 0x28 (0
/// skips the record), a directory flag (skipped), a 24-bit little-endian
/// first block at 0x2F and a big-endian size at 0x34 (0 skips).
pub open spec fn stfs_records(blk: Seq<u8>, i: int) -> Seq<StfsEntryModel>
    decreases 64 - i,
{
    if i < 0 || i >= 64 || i * 64 + 64 > blk.len() {
        seq![]
    } else {
        let e = blk.subrange(i * 64, i * 64 + 64);
        let rest = stfs_records(blk, i + 1);
        let nl = e[0x28] & 0x3Fu8;
        if nl == 0 || ((e[0x28] >> 6u8) & 2u8) != 0 {
            rest
        } else {
            let name = Seq::new(nl as nat, |k: int| e[k] as char);
            let sb = e[0x2F] + e[0x30] * 0x100 + e[0x31] * 0x10000;
            let size = be_u32_at(e, 0x34) as int;
            if size > 0 {
                seq![(name, sb, size)] + rest
            } else {
                rest
            }
        }
    }
}

/// The file table of a package, or `None` where the header or the table
/// block lies past the end of the data.
pub open spec fn stfs_table(raw: Seq<u8>, shift: int) -> Option<Seq<StfsEntryModel>> {
    if raw.len() <= 0x380 || stfs_offset(table_block(raw), shift) > raw.len() {
        None
    } else {
        Some(stfs_records(stfs_block(raw, table_block(raw), shift), 0))
    }
}

/// The position of the first entry whose lower-cased name is that of `n`.
pub open spec fn entry_named(es: Seq<StfsEntryModel>, n: Seq<char>) -> Option<int>
    decreases es.len(),
{
    if es.len() == 0 {
        None
    } else if lowercased(es[0].0) == lowercased(n) {
        Some(0)
    } else {
        match entry_named(es.drop_first(), n) {
            Some(i) => Some(i + 1),
            None => None,
        }
    }
}

/// The `savegame.dat` of a package: the first file named so in any case.
pub open spec fn stfs_savegame(raw: Seq<u8>, shift: int) -> Option<Seq<u8>> {
    match stfs_table(raw, shift) {
        None => None,
        Some(es) => match entry_named(es, "savegame.dat"@) {
            Some(i) => Some(stfs_read(raw, es[i].1, es[i].2, shift)),
            None => match entry_named(es, "SAVEGAME.DAT"@) {
                Some(i) => Some(stfs_read(raw, es[i].1, es[i].2, shift)),
                None => None,
            },
        },
    }
}

/// The display name of a package: UTF-16BE text at 0x411 (up to 128 code
/// units, to the first zero), `Unknown` where it is empty; `None` where the
/// data is shorter than 0x411 bytes.
pub open spec fn stfs_display_name(raw: Seq<u8>) -> Option<Seq<char>> {
    if raw.len() < 0x411 {
        None
    } else {
        let end: int = if 0x411 + 256 < raw.len() {
            0x511int
        } else {
            raw.len() as int
        };
        let t = units_text(units_be_at(raw, 0x411, ((end - 0x411) / 2) as nat));
        Some(if t.len() == 0 { "Unknown"@ } else { t })
    }
}

fn find_entry(es: &Vec<StfsEntry>, n: &str) -> (r: Option<usize>)
    ensures
        match r {
            Some(i) => entry_named(stfs_entries_view(es@), n@) == Some(i as int) && i < es@.len(),
            None => entry_named(stfs_entries_view(es@), n@) is None,
        },
{
    let ghost v = stfs_entries_view(es@);
    let target = to_lowercase(n);
    let mut i: usize = 0;
    assert(v.skip(0) =~= v);
    while i < es.len()
        invariant
            i <= es@.len(),
            v == stfs_entries_view(es@),
            target@ == lowercased(n@),
            entry_named(v, n@) == (match entry_named(v.skip(i as int), n@) {
                Some(j) => Some(j + i),
                None => None,
            }),
        decreases es@.len() - i,
    {
        assert(v.skip(i as int).drop_first() =~= v.skip(i + 1));
        assert(v.skip(i as int)[0].0 == es@[i as int].name@);
        let l = to_lowercase(es[i].name.as_str());
        if crate::text::same_text(l.as_str(), target.as_str()) {
            return Some(i);
        }
        i += 1;
    }
    assert(v.skip(i as int).len() == 0);
    None
}

impl StfsPackage {
    /// Opens a package; `Err` (naming its first bytes) where the data does
    /// not start with `CON `.
    pub fn new(raw: Vec<u8>) -> (r: Result<StfsPackage, String>)
        ensures
            match r {
                Ok(p) => raw@.len() >= 4 && raw@.take(4) == stfs_magic() && p.raw@ == raw@ && p.table_shift == 1,
                Err(e) => !(raw@.len() >= 4 && raw@.take(4) == stfs_magic()) && e@ == not_stfs_message(raw@),
            },
    {
        let magic: Vec<u8> = vec![0x43u8, 0x4F, 0x4E, 0x20];
        assert(magic@ =~= stfs_magic());
        if raw.len() < 4 || !same_bytes_at(raw.as_slice(), 0, magic.as_slice()) {
            proof {
                if raw@.len() >= 4 {
                    assert(raw@.subrange(0, 4) =~= raw@.take(4));
                }
            }
            return Err(not_stfs_error(&raw));
        }
        assert(raw@.subrange(0, 4) =~= raw@.take(4));
        Ok(StfsPackage { raw, table_shift: 1 })
    }

    /// The display name of the package (see `stfs_display_name`).
    pub fn display_name(&self) -> (r: Option<String>)
        ensures
            match r {
                Some(s) => stfs_display_name(self.raw@) == Some(s@),
                None => stfs_display_name(self.raw@) is None,
            },
    {
        let len = self.raw.len();
        if len < 0x411 {
            return None;
        }
        let end: usize = if 0x411 + 256 < len {
            0x411 + 256
        } else {
            len
        };
        let t = utf16_be_text(self.raw.as_slice(), 0x411, (end - 0x411) / 2);
        if t.as_str().is_empty() {
            return Some(crate::anvil::owned("Unknown"));
        }
        Some(t)
    }

    /// The file table (see `stfs_table`).
    pub fn file_table(&self) -> (r: Option<Vec<StfsEntry>>)
        requires
            self.table_shift <= 1,
        ensures
            match r {
                Some(v) => stfs_table(self.raw@, self.table_shift as int) == Some(stfs_entries_view(v@)),
                None => stfs_table(self.raw@, self.table_shift as int) is None,
            },
    {
        let raw = self.raw.as_slice();
        let len = raw.len();
        if len <= 0x380 {
            return None;
        }
        let ftb: u64 = raw[0x37E] as u64 + (raw[0x37F] as u64) * 0x100 + (raw[0x380] as u64) * 0x10000;
        let off = stfs_block_offset(ftb, self.table_shift);
        if off > len as u64 {
            return None;
        }
        let end: u64 = if off + 0x1000 < len as u64 {
            off + 0x1000
        } else {
            len as u64
        };
        let blk = slice_range(raw, off as usize, end as usize);
        let ghost b = blk@;
        assert(b == stfs_block(raw@, table_block(raw@), self.table_shift as int));
        let mut out: Vec<StfsEntry> = Vec::new();
        let mut i: usize = 0;
        assert(stfs_entries_view(out@) + stfs_records(b, 0) =~= stfs_records(b, 0));
        while i < 64
            invariant
                b == blk@,
                blk@.len() <= usize::MAX,
                i <= 64,
                stfs_entries_view(out@) + stfs_records(b, i as int) == stfs_records(b, 0),
            decreases 64 - i,
        {
            let base = i * 64;
            if base + 64 > blk.len() {
                assert(stfs_records(b, i as int) == Seq::<StfsEntryModel>::empty());
                assert(stfs_entries_view(out@) + Seq::<StfsEntryModel>::empty() =~= stfs_entries_view(out@));
                assert(stfs_records(b, 64) == Seq::<StfsEntryModel>::empty());
                i = 64;
                continue;
            }
            let ghost e = b.subrange(base as int, base + 64);
            let flags = blk[base + 0x28];
            assert(flags & 0x3F <= 63u8) by (bit_vector);
            let nl = (flags & 0x3F) as usize;
            if nl == 0 || ((flags >> 6) & 2) != 0 {
                i += 1;
                continue;
            }
            let mut name = String::new();
            let mut k: usize = 0;
            while k < nl
                invariant
                    b == blk@,
                    base + 64 <= blk@.len(),
                    blk@.len() <= usize::MAX,
                    nl < 64,
                    k <= nl,
                    e == b.subrange(base as int, base + 64),
                    name@ == Seq::new(k as nat, |j: int| e[j] as char),
                decreases nl - k,
            {
                push_char(&mut name, blk[base + k] as char);
                k += 1;
                assert(name@ =~= Seq::new(k as nat, |j: int| e[j] as char));
            }
            let sb: u64 = blk[base + 0x2F] as u64 + (blk[base + 0x30] as u64) * 0x100 + (blk[base + 0x31] as u64) * 0x10000;
            let size = get_u32_be(blk, base + 0x34) as u64;
            proof {
                assert(be_u32_at(e, 0x34) == be_u32_at(b, base + 0x34));
            }
            let ghost before = out@;
            if size > 0 {
                out.push(StfsEntry { name, start_block: sb, size });
                assert(stfs_entries_view(out@) =~= stfs_entries_view(before).push(
                    (Seq::new(nl as nat, |j: int| e[j] as char), sb as int, size as int),
                ));
                assert(stfs_entries_view(before) + (seq![(Seq::new(nl as nat, |j: int| e[j] as char), sb as int, size as int)] + stfs_records(b, i + 1))
                    =~= stfs_entries_view(out@) + stfs_records(b, i + 1));
            }
            i += 1;
        }
        assert(stfs_records(b, 64) == Seq::<StfsEntryModel>::empty());
        assert(stfs_entries_view(out@) + Seq::<StfsEntryModel>::empty() =~= stfs_entries_view(out@));
        Some(out)
    }

    /// The package's PNG thumbnail (see `thumbnail_of`).
    pub fn thumbnail(&self) -> (r: Option<Vec<u8>>)
        ensures
            match thumbnail_of(self.raw@) {
                Some(t) => r matches Some(v) && v@ == t,
                None => r is None,
            },
    {
        let n = self.raw.len();
        if n < 0x171A {
            return None;
        }
        let tail = crate::region::slice_range(self.raw.as_slice(), 0x171A, n);
        assert(tail@ =~= self.raw@.skip(0x171A));
        let magic: Vec<u8> = vec![0x89u8, 0x50, 0x4E, 0x47, 0x0D, 0x0A, 0x1A, 0x0A];
        assert(magic@ =~= png_magic());
        let i = match find_bytes(tail, magic.as_slice()) {
            Some(i) => i,
            None => return None,
        };
        proof {
            lemma_found(self.raw@.skip(0x171A), png_magic(), i as int);
        }
        let a = 0x171A + i;
        let rest = crate::region::slice_range(self.raw.as_slice(), a, n);
        assert(rest@ =~= self.raw@.skip(a as int));
        let iend: Vec<u8> = vec![0x49u8, 0x45, 0x4E, 0x44];
        assert(iend@ =~= iend_sig());
        let j = match find_bytes(rest, iend.as_slice()) {
            Some(j) => j,
            None => return None,
        };
        proof {
            lemma_found(self.raw@.skip(a as int), iend_sig(), j as int);
        }
        let e = if n - a - j > 12 { a + j + 12 } else { n };
        let part = crate::region::slice_range(self.raw.as_slice(), a, e);
        let mut out: Vec<u8> = Vec::new();
        out.extend_from_slice(part);
        assert(out@ =~= part@);
        Some(out)
    }

    /// The `savegame.dat` of the package (see `stfs_savegame`); `None`
    /// also where the file table cannot be read.
    pub fn extract_savegame_dat(&self) -> (r: Option<Vec<u8>>)
        requires
            self.table_shift <= 1,
        ensures
            match r {
                Some(v) => stfs_savegame(self.raw@, self.table_shift as int) == Some(v@),
                None => stfs_savegame(self.raw@, self.table_shift as int) is None,
            },
    {
        let table = match self.file_table() {
            Some(t) => t,
            None => return None,
        };
        let found = match find_entry(&table, "savegame.dat") {
            Some(i) => Some(i),
            None => find_entry(&table, "SAVEGAME.DAT"),
        };
        match found {
            Some(i) => Some(stfs_read_file(self.raw.as_slice(), table[i].start_block, table[i].size, self.table_shift)),
            None => None,
        }
    }
}

// ---------------------------------------------------------------------
// LZX (XMemCompress) decoding.
// ---------------------------------------------------------------------

/// The LZX window sizes used by Xbox 360 saves.
#[derive(Clone, Copy, Debug, PartialEq, Eq, Structural)]
pub enum LzxWindow {
    KB32,
    KB64,
    KB128,
    KB256,
    KB512,
    MB1,
    MB2,
}

/// The window of `bits` address bits (15 to 21).
pub open spec fn window_of_bits(bits: usize) -> Option<LzxWindow> {
    if bits == 15 {
        Some(LzxWindow::KB32)
    } else if bits == 16 {
        Some(LzxWindow::KB64)
    } else if bits == 17 {
        Some(LzxWindow::KB128)
    } else if bits == 18 {
        Some(LzxWindow::KB256)
    } else if bits == 19 {
        Some(LzxWindow::KB512)
    } else if bits == 20 {
        Some(LzxWindow::MB1)
    } else if bits == 21 {
        Some(LzxWindow::MB2)
    } else {
        None
    }
}

/// The window of `bits` address bits.
pub fn lzxd_window_from_bits(bits: usize) -> (r: Option<LzxWindow>)
    ensures
        r == window_of_bits(bits),
{
    match bits {
        15 => Some(LzxWindow::KB32),
        16 => Some(LzxWindow::KB64),
        17 => Some(LzxWindow::KB128),
        18 => Some(LzxWindow::KB256),
        19 => Some(LzxWindow::KB512),
        20 => Some(LzxWindow::MB1),
        21 => Some(LzxWindow::MB2),
        _ => None,
    }
}

/// An LZX decoder. The library frames the chunks and decides what is done
/// with each outcome; the decoding itself is the implementor's (the
/// application runs `lzxd` there, where a panic on crafted data can be
/// caught). Nothing is assumed of the outcomes: the library calls a decoder
/// through an `LzxSession`, which records each call and its answer, and its
/// contracts are stated over that record.
pub trait LzxDecoder {
    /// Decodes `chunk` into `out_len` bytes with a new decoder of the given
    /// window, or `None` when it cannot be decoded.
    fn decode_fresh(&mut self, chunk: &[u8], out_len: usize, window: LzxWindow) -> Option<Vec<u8>>;

    /// Starts a new stream with a 128 KB window.
    fn start_stream(&mut self);

    /// Decodes the next chunk of the current stream into `out_len` bytes, or
    /// gives the decoder's error text.
    fn decode_next(&mut self, chunk: &[u8], out_len: usize) -> Result<Vec<u8>, String>;
}

/// A decoding outcome as values.
pub open spec fn outcome_view(r: Result<Vec<u8>, String>) -> Result<Seq<u8>, Seq<char>> {
    match r {
        Ok(v) => Ok(v@),
        Err(e) => Err(e@),
    }
}

/// Decoding outcomes as values.
pub open spec fn outcomes_view(o: Seq<Result<Vec<u8>, String>>) -> Seq<Result<Seq<u8>, Seq<char>>> {
    Seq::new(o.len(), |i: int| outcome_view(o[i]))
}

/// Optional decodings as values.
pub open spec fn tries_view(t: Seq<Option<Vec<u8>>>) -> Seq<Option<Seq<u8>>> {
    Seq::new(
        t.len(),
        |i: int|
            match t[i] {
                Some(v) => Some(v@),
                None => None,
            },
    )
}

/// One call of `decode_fresh`: the chunk, the output size and window asked
/// for, and the answer.
pub type FreshCall = (Seq<u8>, usize, LzxWindow, Option<Seq<u8>>);

/// One call of `decode_next`: the chunk and output size asked for, and the
/// answer.
pub type StreamCall = (Seq<u8>, usize, Result<Seq<u8>, Seq<char>>);

/// An optional decoding as a value.
pub open spec fn opt_view(r: Option<Vec<u8>>) -> Option<Seq<u8>> {
    match r {
        Some(v) => Some(v@),
        None => None,
    }
}

/// An LZX decoder and the record of the calls made to it through the
/// session: every fresh decoding, and the calls of the stream begun last.
pub struct LzxSession<D> {
    pub decoder: D,
    fresh: Ghost<Seq<FreshCall>>,
    stream: Ghost<Seq<StreamCall>>,
    starts: Ghost<nat>,
}

impl<D> LzxSession<D> {
    /// The fresh decodings asked so far, in order, with their answers.
    pub closed spec fn fresh_calls(&self) -> Seq<FreshCall> {
        self.fresh@
    }

    /// The calls of the stream begun last, in order, with their answers.
    pub closed spec fn stream_calls(&self) -> Seq<StreamCall> {
        self.stream@
    }

    /// How many streams have been begun.
    pub closed spec fn stream_starts(&self) -> nat {
        self.starts@
    }
}

impl<D: LzxDecoder> LzxSession<D> {
    /// A session with nothing asked yet.
    pub fn new(decoder: D) -> (r: Self)
        ensures
            r.fresh_calls() == Seq::<FreshCall>::empty(),
            r.stream_calls() == Seq::<StreamCall>::empty(),
            r.stream_starts() == 0,
    {
        LzxSession { decoder, fresh: Ghost(Seq::empty()), stream: Ghost(Seq::empty()), starts: Ghost(0) }
    }

    /// Asks the decoder for a fresh decoding and records it.
    pub fn fresh(&mut self, chunk: &[u8], out_len: usize, window: LzxWindow) -> (r: Option<Vec<u8>>)
        ensures
            final(self).fresh_calls() == old(self).fresh_calls().push((chunk@, out_len, window, opt_view(r))),
            final(self).stream_calls() == old(self).stream_calls(),
            final(self).stream_starts() == old(self).stream_starts(),
    {
        let r = self.decoder.decode_fresh(chunk, out_len, window);
        proof {
            self.fresh@ = self.fresh@.push((chunk@, out_len, window, opt_view(r)));
        }
        r
    }

    /// Starts a new stream.
    pub fn start(&mut self)
        ensures
            final(self).fresh_calls() == old(self).fresh_calls(),
            final(self).stream_calls() == Seq::<StreamCall>::empty(),
            final(self).stream_starts() == old(self).stream_starts() + 1,
    {
        self.decoder.start_stream();
        proof {
            self.stream@ = Seq::empty();
            self.starts@ = self.starts@ + 1;
        }
    }

    /// Asks the decoder for the next chunk of the stream and records it.
    pub fn next(&mut self, chunk: &[u8], out_len: usize) -> (r: Result<Vec<u8>, String>)
        ensures
            final(self).fresh_calls() == old(self).fresh_calls(),
            final(self).stream_calls() == old(self).stream_calls().push((chunk@, out_len, outcome_view(r))),
            final(self).stream_starts() == old(self).stream_starts(),
    {
        let r = self.decoder.decode_next(chunk, out_len);
        proof {
            self.stream@ = self.stream@.push((chunk@, out_len, outcome_view(r)));
        }
        r
    }
}

/// The 16-bit big-endian value at `d[i..i + 2]`.
pub open spec fn be16(d: Seq<u8>, i: int) -> int {
    d[i] * 0x100 + d[i + 1]
}

/// The output size and LZX bytes of a compressed region chunk: a 5-byte
/// header (0xFF, output size, source size) or a 2-byte one (source size;
/// output 0x8000), the source cut at the end of the data; `None` where the
/// header itself is cut short.
pub open spec fn region_chunk_frame(d: Seq<u8>) -> Option<(usize, Seq<u8>)> {
    if d.len() == 0 {
        None
    } else if d[0] == 0xFF {
        if d.len() < 5 {
            None
        } else {
            let src = be16(d, 3);
            let end = if 5 + src < d.len() {
                5 + src
            } else {
                d.len() as int
            };
            Some((be16(d, 1) as usize, d.subrange(5, end)))
        }
    } else if d.len() < 2 {
        None
    } else {
        let src = be16(d, 0);
        let end = if 2 + src < d.len() {
            2 + src
        } else {
            d.len() as int
        };
        Some((0x8000usize, d.subrange(2, end)))
    }
}

/// The outcome of decoding a compressed region chunk, given what the
/// decoder made of its LZX bytes with each window in turn (128 KB, 64 KB,
/// 32 KB, 256 KB, 512 KB, 1 MB, 2 MB): the first decoding, or an error when
/// the header is cut short or no window decoded it.
pub open spec fn region_chunk_decoded(d: Seq<u8>, tries: Seq<Option<Seq<u8>>>) -> Result<Seq<u8>, Seq<char>> {
    match region_chunk_frame(d) {
        None => Err("LZX chunk header cut short"@),
        Some(_) => first_decoding(tries),
    }
}

/// The first of `tries` that decoded.
pub open spec fn first_decoding(tries: Seq<Option<Seq<u8>>>) -> Result<Seq<u8>, Seq<char>>
    decreases tries.len(),
{
    if tries.len() == 0 {
        Err("LZX decode failed (all window sizes rejected the chunk)"@)
    } else {
        match tries[0] {
            Some(v) => Ok(v),
            None => first_decoding(tries.drop_first()),
        }
    }
}

/// The output size and LZX bytes of a compressed region chunk (see
/// `region_chunk_frame`), or the error for a header cut short.
pub fn region_chunk_parts(xbox_data: &[u8]) -> (r: Result<(usize, Vec<u8>), String>)
    ensures
        match region_chunk_frame(xbox_data@) {
            Some((out, raw)) => r matches Ok((o, v)) && o == out && v@ == raw,
            None => r matches Err(e) && e@ == "LZX chunk header cut short"@,
        },
{
    let len = xbox_data.len();
    if len == 0 {
        return Err(crate::anvil::owned("LZX chunk header cut short"));
    }
    let hi = xbox_data[0];
    let (out, a, e): (usize, usize, usize) = if hi == 0xFF {
        if len < 5 {
            return Err(crate::anvil::owned("LZX chunk header cut short"));
        }
        let out = (xbox_data[1] as usize) * 0x100 + xbox_data[2] as usize;
        let src = (xbox_data[3] as usize) * 0x100 + xbox_data[4] as usize;
        let e = if src < len - 5 {
            5 + src
        } else {
            len
        };
        (out, 5, e)
    } else {
        if len < 2 {
            return Err(crate::anvil::owned("LZX chunk header cut short"));
        }
        let src = (hi as usize) * 0x100 + xbox_data[1] as usize;
        let e = if src < len - 2 {
            2 + src
        } else {
            len
        };
        (0x8000, 2, e)
    };
    let mut raw: Vec<u8> = Vec::new();
    push_all(&mut raw, slice_range(xbox_data, a, e));
    assert(raw@ =~= xbox_data@.subrange(a as int, e as int));
    Ok((out, raw))
}

/// Decodes a compressed region chunk from what the decoder made of it with
/// each window in turn (see `region_chunk_decoded`).
pub fn region_chunk_from_tries(xbox_data: &[u8], tries: &[Option<Vec<u8>>]) -> (r: Result<Vec<u8>, String>)
    ensures
        outcome_view(r) == region_chunk_decoded(xbox_data@, tries_view(tries@)),
{
    if let Err(e) = region_chunk_parts(xbox_data) {
        return Err(e);
    }
    let ghost t = tries_view(tries@);
    let mut i: usize = 0;
    assert(t.skip(0) =~= t);
    while i < tries.len()
        invariant
            i <= tries@.len(),
            t == tries_view(tries@),
            region_chunk_frame(xbox_data@) is Some,
            first_decoding(t) == first_decoding(t.skip(i as int)),
        decreases tries@.len() - i,
    {
        assert(t.skip(i as int).drop_first() =~= t.skip(i + 1));
        assert(t.skip(i as int)[0] == t[i as int]);
        match &tries[i] {
            Some(v) => {
                let mut out: Vec<u8> = Vec::new();
                push_all(&mut out, v.as_slice());
                assert(t[i as int] == Some(v@));
                assert(out@ =~= v@);
                return Ok(out);
            },
            None => {},
        }
        i += 1;
    }
    assert(t.skip(i as int).len() == 0);
    Err(crate::anvil::owned("LZX decode failed (all window sizes rejected the chunk)"))
}

/// The `k`-th window tried on a region chunk: 128 KB, 64 KB, 32 KB,
/// 256 KB, 512 KB, 1 MB, then 2 MB.
pub open spec fn region_window(k: int) -> LzxWindow {
    if k == 0 {
        LzxWindow::KB128
    } else if k == 1 {
        LzxWindow::KB64
    } else if k == 2 {
        LzxWindow::KB32
    } else if k == 3 {
        LzxWindow::KB256
    } else if k == 4 {
        LzxWindow::KB512
    } else if k == 5 {
        LzxWindow::MB1
    } else {
        LzxWindow::MB2
    }
}

/// Whether `calls` are the tries on LZX bytes `raw` for `out` bytes: the
/// windows in order, each asked only after the ones before failed, ending
/// at the first success or after the seventh window.
pub open spec fn window_attempts(raw: Seq<u8>, out: usize, calls: Seq<FreshCall>) -> bool {
    &&& calls.len() <= 7
    &&& forall|k: int|
        0 <= k < calls.len() ==> (#[trigger] calls[k]).0 == raw && calls[k].1 == out && calls[k].2
            == region_window(k)
    &&& forall|k: int| 0 <= k < calls.len() - 1 ==> (#[trigger] calls[k]).3 is None
    &&& calls.len() < 7 ==> calls.len() > 0 && calls[calls.len() - 1].3 is Some
}

/// Whether `calls` are the tries that decoding the region chunk `d` makes:
/// none when its header is cut short, else `window_attempts` on its LZX
/// bytes and output size.
pub open spec fn chunk_attempts(d: Seq<u8>, calls: Seq<FreshCall>) -> bool {
    match region_chunk_frame(d) {
        None => calls.len() == 0,
        Some((out, raw)) => window_attempts(raw, out, calls),
    }
}

/// The answers of fresh decoding calls.
pub open spec fn answers(calls: Seq<FreshCall>) -> Seq<Option<Seq<u8>>> {
    Seq::new(calls.len(), |k: int| calls[k].3)
}

/// Decodes a compressed Xbox 360 region chunk: its LZX bytes and output
/// size (see `region_chunk_frame`) are handed to the decoder with each
/// window in turn (see `region_window`) until one decodes them, and the
/// result is the first decoding (see `region_chunk_decoded`). The calls
/// added to the session are exactly those tries.
pub fn decompress_region_chunk<D: LzxDecoder>(xbox_data: &[u8], dec: &mut LzxSession<D>) -> (r: Result<
    Vec<u8>,
    String,
>)
    ensures
        final(dec).stream_calls() == old(dec).stream_calls(),
        final(dec).stream_starts() == old(dec).stream_starts(),
        exists|seg: Seq<FreshCall>|
            {
                &&& final(dec).fresh_calls() == old(dec).fresh_calls() + seg
                &&& chunk_attempts(xbox_data@, seg)
                &&& outcome_view(r) == #[trigger] region_chunk_decoded(xbox_data@, answers(seg))
            },
{
    let ghost f0 = dec.fresh_calls();
    let mut tries: Vec<Option<Vec<u8>>> = Vec::new();
    let parts = region_chunk_parts(xbox_data);
    if let Ok((out, raw)) = parts {
        let windows: Vec<LzxWindow> = vec![
            LzxWindow::KB128,
            LzxWindow::KB64,
            LzxWindow::KB32,
            LzxWindow::KB256,
            LzxWindow::KB512,
            LzxWindow::MB1,
            LzxWindow::MB2,
        ];
        assert(forall|k: int| 0 <= k < 7 ==> windows@[k] == region_window(k));
        let mut i: usize = 0;
        while i < 7
            invariant_except_break
                forall|k: int| 0 <= k < i ==> (#[trigger] tries@[k]) is None,
            invariant
                windows@.len() == 7,
                forall|k: int| 0 <= k < 7 ==> windows@[k] == region_window(k),
                i <= 7,
                tries@.len() == i,
                dec.fresh_calls().len() == f0.len() + i,
                dec.fresh_calls().take(f0.len() as int) == f0,
                dec.stream_calls() == old(dec).stream_calls(),
                dec.stream_starts() == old(dec).stream_starts(),
                f0 == old(dec).fresh_calls(),
                forall|k: int|
                    0 <= k < i ==> {
                        let c = #[trigger] dec.fresh_calls()[f0.len() + k];
                        c.0 == raw@ && c.1 == out && c.2 == region_window(k) && c.3 == opt_view(tries@[k])
                    },
            ensures
                forall|k: int| 0 <= k < i - 1 ==> (#[trigger] tries@[k]) is None,
                i < 7 ==> i > 0 && tries@[i - 1] is Some,
            decreases 7 - i,
        {
            let ghost before = dec.fresh_calls();
            let got = dec.fresh(raw.as_slice(), out, windows[i]);
            let done = got.is_some();
            tries.push(got);
            proof {
                assert(dec.fresh_calls().take(f0.len() as int) =~= before.take(f0.len() as int));
                assert forall|k: int| 0 <= k < i + 1 implies {
                    let c = #[trigger] dec.fresh_calls()[f0.len() + k];
                    c.0 == raw@ && c.1 == out && c.2 == region_window(k) && c.3 == opt_view(tries@[k])
                } by {
                    if k < i {
                        assert(dec.fresh_calls()[f0.len() + k] == before[f0.len() + k]);
                    }
                }
            }
            i += 1;
            if done {
                break;
            }
        }
        let ghost seg = dec.fresh_calls().skip(f0.len() as int);
        proof {
            assert(dec.fresh_calls() =~= f0 + seg);
            assert(answers(seg) =~= tries_view(tries@)) by {
                assert forall|k: int| 0 <= k < seg.len() implies answers(seg)[k] == tries_view(tries@)[k] by {
                    assert(seg[k] == dec.fresh_calls()[f0.len() + k]);
                }
            }
            assert forall|k: int| 0 <= k < seg.len() implies (#[trigger] seg[k]).0 == raw@ && seg[k].1 == out
                && seg[k].2 == region_window(k) by {
                assert(seg[k] == dec.fresh_calls()[f0.len() + k]);
            }
            assert forall|k: int| 0 <= k < seg.len() - 1 implies (#[trigger] seg[k]).3 is None by {
                assert(seg[k] == dec.fresh_calls()[f0.len() + k]);
                assert(tries@[k] is None);
            }
            if seg.len() < 7 {
                assert(seg[seg.len() - 1] == dec.fresh_calls()[f0.len() + (seg.len() - 1)]);
            }
            assert(chunk_attempts(xbox_data@, seg));
        }
    } else {
        proof {
            assert(dec.fresh_calls() =~= f0 + Seq::<FreshCall>::empty());
            assert(answers(Seq::<FreshCall>::empty()) =~= tries_view(tries@));
        }
    }
    let r = region_chunk_from_tries(xbox_data, tries.as_slice());
    r
}

/// The LZX chunk calls that decoding an XMemCompress stream `s` makes from
/// `pos` on, having produced `produced` of `total` bytes: for each chunk
/// header (5 bytes with 0xFF: output and source size; else 2 bytes: source
/// size, output 0x8000), the position of its data, its size and the
/// output asked for (the output size, at most what is still missing).
/// Decoding stops at the end of the stream, once `total` bytes are made,
/// at a header cut short, at a zero size, or at data cut short.
pub open spec fn xmem_calls(s: Seq<u8>, pos: int, produced: int, total: int) -> Seq<(int, int, int)>
    decreases s.len() - pos,
{
    if pos < 0 || pos >= s.len() || produced >= total {
        seq![]
    } else {
        let hi = s[pos];
        let short = if hi == 0xFF {
            pos + 5 > s.len()
        } else {
            pos + 2 > s.len()
        };
        if short {
            seq![]
        } else {
            let (src, dst, hl) = if hi == 0xFF {
                (be16(s, pos + 3), be16(s, pos + 1), 5int)
            } else {
                (be16(s, pos), 0x8000int, 2int)
            };
            let p = pos + hl;
            if src == 0 || dst == 0 || p + src > s.len() {
                seq![]
            } else {
                let o = if dst < total - produced {
                    dst
                } else {
                    total - produced
                };
                seq![(p, src, o)] + xmem_calls(s, p + src, produced + o, total)
            }
        }
    }
}

/// The LZX stream of a `savegame.dat`: the bytes from 8 up to the metadata
/// offset in its first word, or the error for a too short file or a bad
/// offset.
pub open spec fn xmem_stream(d: Seq<u8>) -> Result<Seq<u8>, Seq<char>> {
    if d.len() < 8 {
        Err("savegame.dat too small"@)
    } else {
        let m = be_u32_at(d, 0) as int;
        if m > d.len() || m < 8 {
            Err("invalid metadata offset"@)
        } else if m - 8 < 4 {
            Err("LZX stream too small"@)
        } else {
            Ok(d.subrange(8, m))
        }
    }
}

/// The error message for a chunk that fails to decode at `pos`.
pub open spec fn lzx_failure(pos: int, detail: Seq<char>) -> Seq<char> {
    "LZX decompression failed at offset "@ + crate::anvil::decimal(pos as nat) + ": "@ + detail
}

fn decimal_usize(n: usize) -> (r: String)
    ensures
        r@ == crate::anvil::decimal(n as nat),
    decreases n,
{
    if n < 10 {
        let mut s = String::new();
        push_char(&mut s, ((48 + n) as u8) as char);
        assert(s@ =~= crate::anvil::decimal(n as nat));
        s
    } else {
        let mut s = decimal_usize(n / 10);
        push_char(&mut s, ((48 + n % 10) as u8) as char);
        s
    }
}

/// What the decoder's outcomes for `calls` (one for each call, in order,
/// until one fails) make of the stream: the outputs one after another, or
/// the failure of the first call that failed, named by its offset. It ends
/// where the outcomes end.
pub open spec fn xmem_decoded(calls: Seq<(int, int, int)>, outs: Seq<Result<Seq<u8>, Seq<char>>>) -> Result<Seq<u8>, Seq<char>>
    decreases calls.len(),
{
    if calls.len() == 0 || outs.len() == 0 {
        Ok(Seq::empty())
    } else {
        match outs[0] {
            Err(t) => Err(lzx_failure(calls[0].0, t)),
            Ok(v) => match xmem_decoded(calls.drop_first(), outs.drop_first()) {
                Ok(rest) => Ok(v + rest),
                Err(e) => Err(e),
            },
        }
    }
}

/// `r` with `out` in front of its output.
pub open spec fn after_output(out: Seq<u8>, r: Result<Seq<u8>, Seq<char>>) -> Result<Seq<u8>, Seq<char>> {
    match r {
        Ok(rest) => Ok(out + rest),
        Err(e) => Err(e),
    }
}

/// The outcome of decompressing an Xbox 360 `savegame.dat` whose LZX calls
/// (see `xmem_calls`) had the outcomes `outs`: the framing error, or
/// `xmem_decoded`.
pub open spec fn xmem_result(dat: Seq<u8>, outs: Seq<Result<Seq<u8>, Seq<char>>>) -> Result<Seq<u8>, Seq<char>> {
    match xmem_stream(dat) {
        Err(e) => Err(e),
        Ok(s) => xmem_decoded(xmem_calls(s, 4, 0, be_u32_at(s, 0) as int), outs),
    }
}

/// Decompresses an Xbox 360 `savegame.dat` from the outcomes of its LZX
/// calls (see `xmem_result`).
pub fn xmem_from_outcomes(dat: &[u8], outs: &[Result<Vec<u8>, String>]) -> (r: Result<Vec<u8>, String>)
    ensures
        outcome_view(r) == xmem_result(dat@, outcomes_view(outs@)),
{
    if dat.len() < 8 {
        return Err(crate::anvil::owned("savegame.dat too small"));
    }
    let meta = get_u32_be(dat, 0) as u64;
    if meta > dat.len() as u64 || meta < 8 {
        return Err(crate::anvil::owned("invalid metadata offset"));
    }
    if meta - 8 < 4 {
        return Err(crate::anvil::owned("LZX stream too small"));
    }
    let stream = slice_range(dat, 8, meta as usize);
    let ghost s = stream@;
    let ghost o = outcomes_view(outs@);
    let total = get_u32_be(stream, 0) as usize;
    let ghost all = xmem_calls(s, 4, 0, total as int);
    assert(xmem_stream(dat@) == Ok::<Seq<u8>, Seq<char>>(s));
    assert(all.skip(0) =~= all);
    assert(o.skip(0) =~= o);
    let mut output: Vec<u8> = Vec::new();
    let len = stream.len();
    let mut pos: usize = 4;
    let mut produced: usize = 0;
    let mut k: usize = 0;
    assert(output@ + Seq::<u8>::empty() =~= output@);
    while pos < len && produced < total && k < outs.len()
        invariant
            len == s.len(),
            s == stream@,
            o == outcomes_view(outs@),
            xmem_stream(dat@) == Ok::<Seq<u8>, Seq<char>>(s),
            total as int == be_u32_at(s, 0) as int,
            all == xmem_calls(s, 4, 0, total as int),
            produced <= total,
            k <= outs@.len(),
            k <= all.len(),
            xmem_calls(s, pos as int, produced as int, total as int) == all.skip(k as int),
            xmem_decoded(all, o) == after_output(output@, xmem_decoded(all.skip(k as int), o.skip(k as int))),
        ensures
            xmem_calls(s, pos as int, produced as int, total as int) == Seq::<(int, int, int)>::empty() || k
                >= outs@.len(),
        decreases len - pos,
    {
        let hi = stream[pos];
        let (src, dst, hl): (usize, usize, usize) = if hi == 0xFF {
            if len - pos < 5 {
                break;
            }
            let dst = (stream[pos + 1] as usize) * 0x100 + stream[pos + 2] as usize;
            let src = (stream[pos + 3] as usize) * 0x100 + stream[pos + 4] as usize;
            (src, dst, 5)
        } else {
            if len - pos < 2 {
                break;
            }
            let src = (hi as usize) * 0x100 + stream[pos + 1] as usize;
            (src, 0x8000, 2)
        };
        let p = pos + hl;
        if src == 0 || dst == 0 || src > len - p {
            break;
        }
        let remaining = total - produced;
        let sz = if dst < remaining {
            dst
        } else {
            remaining
        };
        let ghost rest = all.skip(k as int);
        let ghost orest = o.skip(k as int);
        proof {
            assert(rest[0] == (p as int, src as int, sz as int));
            assert(rest.drop_first() =~= all.skip(k + 1));
            assert(orest.drop_first() =~= o.skip(k + 1));
            assert(orest[0] == o[k as int]);
        }
        match &outs[k] {
            Ok(d) => {
                let ghost before = output@;
                push_all(&mut output, d.as_slice());
                proof {
                    let tail = xmem_decoded(all.skip(k + 1), o.skip(k + 1));
                    match tail {
                        Ok(t2) => {
                            assert(before + (d@ + t2) =~= output@ + t2);
                        },
                        Err(_) => {},
                    }
                }
            },
            Err(e) => {
                let mut msg = crate::anvil::owned("LZX decompression failed at offset ");
                let num = decimal_usize(p);
                push_text(&mut msg, num.as_str());
                push_text(&mut msg, ": ");
                push_text(&mut msg, e.as_str());
                proof {
                    assert(msg@ =~= lzx_failure(p as int, e@));
                }
                return Err(msg);
            },
        }
        pos = p + src;
        produced = produced + sz;
        k += 1;
    }
    proof {
        if k >= outs@.len() {
            assert(o.skip(k as int).len() == 0);
        }
        assert(xmem_decoded(all.skip(k as int), o.skip(k as int)) == Ok::<Seq<u8>, Seq<char>>(Seq::empty()));
        assert(output@ + Seq::<u8>::empty() =~= output@);
    }
    Ok(output)
}

/// Whether `log` holds the calls that decoding the framed chunks `calls`
/// of stream `s` makes: the chunks in order, each with the output size that
/// the framing asks for, each asked only after the ones before succeeded,
/// ending at the first failure or after the last chunk.
pub open spec fn stream_attempts(s: Seq<u8>, calls: Seq<(int, int, int)>, log: Seq<StreamCall>) -> bool {
    &&& log.len() <= calls.len()
    &&& forall|k: int|
        0 <= k < log.len() ==> (#[trigger] log[k]).0 == s.subrange(calls[k].0, calls[k].0 + calls[k].1)
            && log[k].1 == calls[k].2 as usize
    &&& forall|k: int| 0 <= k < log.len() - 1 ==> (#[trigger] log[k]).2 is Ok
    &&& log.len() < calls.len() ==> log.len() > 0 && log[log.len() - 1].2 is Err
}

/// The answers of stream calls.
pub open spec fn stream_answers(log: Seq<StreamCall>) -> Seq<Result<Seq<u8>, Seq<char>>> {
    Seq::new(log.len(), |k: int| log[k].2)
}

/// Decompresses an Xbox 360 `savegame.dat` (XMemCompress framing around
/// LZX chunks, one stream with a 128 KB window). On a framing error nothing
/// is asked of the decoder. Otherwise a new stream is begun, each framed
/// chunk is handed to it in turn with the output size the framing asks for
/// (see `xmem_calls`) until one fails, and the result is `xmem_result` of
/// the answers: the outputs one after another, or the failure named by
/// the offset of its chunk.
pub fn decompress_xmemcompress<D: LzxDecoder>(dat: &[u8], dec: &mut LzxSession<D>) -> (r: Result<Vec<u8>, String>)
    ensures
        final(dec).fresh_calls() == old(dec).fresh_calls(),
        match xmem_stream(dat@) {
            Err(e) => outcome_view(r) == Err::<Seq<u8>, Seq<char>>(e) && final(dec).stream_calls() == old(
                dec,
            ).stream_calls() && final(dec).stream_starts() == old(dec).stream_starts(),
            Ok(s) => {
                &&& final(dec).stream_starts() == old(dec).stream_starts() + 1
                &&& stream_attempts(s, xmem_calls(s, 4, 0, be_u32_at(s, 0) as int), final(dec).stream_calls())
                &&& outcome_view(r) == xmem_result(dat@, stream_answers(final(dec).stream_calls()))
            },
        },
{
    let mut outs: Vec<Result<Vec<u8>, String>> = Vec::new();
    if dat.len() >= 8 {
        let meta = get_u32_be(dat, 0) as u64;
        if meta <= dat.len() as u64 && meta >= 12 {
            let stream = slice_range(dat, 8, meta as usize);
            let ghost s = stream@;
            assert(xmem_stream(dat@) == Ok::<Seq<u8>, Seq<char>>(s));
            let total = get_u32_be(stream, 0) as usize;
            let ghost all = xmem_calls(s, 4, 0, total as int);
            assert(all.skip(0) =~= all);
            let len = stream.len();
            let mut pos: usize = 4;
            let mut produced: usize = 0;
            dec.start();
            let mut k: usize = 0;
            while pos < len && produced < total
                invariant_except_break
                    forall|j: int| 0 <= j < k ==> (#[trigger] dec.stream_calls()[j]).2 is Ok,
                    xmem_calls(s, pos as int, produced as int, total as int) == all.skip(k as int),
                    k < pos,
                invariant
                    k <= pos,
                    len == s.len(),
                    s == stream@,
                    len >= 4,
                    produced <= total,
                    total as int == be_u32_at(s, 0) as int,
                    all == xmem_calls(s, 4, 0, total as int),
                    k <= all.len(),
                    all.skip(k as int).len() == all.len() - k,
                    dec.fresh_calls() == old(dec).fresh_calls(),
                    dec.stream_starts() == old(dec).stream_starts() + 1,
                    dec.stream_calls().len() == k,
                    outs@.len() == k,
                    forall|j: int| 0 <= j < k ==> outcome_view(#[trigger] outs@[j]) == dec.stream_calls()[j].2,
                    forall|j: int|
                        0 <= j < k ==> (#[trigger] dec.stream_calls()[j]).0 == s.subrange(all[j].0, all[j].0 + all[j].1)
                            && dec.stream_calls()[j].1 == all[j].2 as usize,
                ensures
                    forall|j: int| 0 <= j < k - 1 ==> (#[trigger] dec.stream_calls()[j]).2 is Ok,
                    k < all.len() ==> k > 0 && dec.stream_calls()[k - 1].2 is Err,
                decreases len - pos,
            {
                let hi = stream[pos];
                let (src, dst, hl): (usize, usize, usize) = if hi == 0xFF {
                    if len - pos < 5 {
                        break;
                    }
                    let dst = (stream[pos + 1] as usize) * 0x100 + stream[pos + 2] as usize;
                    let src = (stream[pos + 3] as usize) * 0x100 + stream[pos + 4] as usize;
                    (src, dst, 5)
                } else {
                    if len - pos < 2 {
                        break;
                    }
                    let src = (hi as usize) * 0x100 + stream[pos + 1] as usize;
                    (src, 0x8000, 2)
                };
                let p = pos + hl;
                if src == 0 || dst == 0 || src > len - p {
                    break;
                }
                let remaining = total - produced;
                let sz = if dst < remaining {
                    dst
                } else {
                    remaining
                };
                let ghost rest = all.skip(k as int);
                proof {
                    assert(rest[0] == (p as int, src as int, sz as int));
                    assert(rest.drop_first() =~= all.skip(k + 1));
                    assert(all[k as int] == rest[0]);
                }
                let ghost before = dec.stream_calls();
                let chunk = slice_range(stream, p, p + src);
                let got = dec.next(chunk, sz);
                let failed = got.is_err();
                outs.push(got);
                proof {
                    assert forall|j: int| 0 <= j < k + 1 implies outcome_view(#[trigger] outs@[j])
                        == dec.stream_calls()[j].2 by {
                        if j < k {
                            assert(dec.stream_calls()[j] == before[j]);
                        }
                    }
                    assert forall|j: int| 0 <= j < k + 1 implies (#[trigger] dec.stream_calls()[j]).0 == s.subrange(
                        all[j].0,
                        all[j].0 + all[j].1,
                    ) && dec.stream_calls()[j].1 == all[j].2 as usize by {
                        if j < k {
                            assert(dec.stream_calls()[j] == before[j]);
                        }
                    }
                }
                k += 1;
                if failed {
                    break;
                }
                proof {
                    assert forall|j: int| 0 <= j < k implies (#[trigger] dec.stream_calls()[j]).2 is Ok by {
                        if j < k - 1 {
                            assert(dec.stream_calls()[j] == before[j]);
                        }
                    }
                }
                pos = p + src;
                produced = produced + sz;
            }
            proof {
                let log = dec.stream_calls();
                assert(stream_answers(log) =~= outcomes_view(outs@));
                assert(stream_attempts(s, all, log));
            }
        }
    }
    let r = xmem_from_outcomes(dat, outs.as_slice());
    proof {
        if xmem_stream(dat@) is Err {
            assert(dec.stream_calls() == old(dec).stream_calls());
            assert(dec.stream_starts() == old(dec).stream_starts());
        }
    }
    r
}

// ---------------------------------------------------------------------
// Console region files.
// ---------------------------------------------------------------------

/// A region file with each of the first 2048 words that it holds in full
/// byte-reversed (big-endian offsets and timestamps made little-endian).
pub open spec fn swapped_table(d: Seq<u8>) -> Seq<u8> {
    Seq::new(
        d.len(),
        |k: int|
            if k < 8192 && (k / 4 + 1) * 4 <= d.len() {
                d[(k / 4) * 4 + 3 - k % 4]
            } else {
                d[k]
            },
    )
}

fn swap_table(data: &[u8]) -> (r: Vec<u8>)
    ensures
        r@ == swapped_table(data@),
{
    let mut buf: Vec<u8> = Vec::new();
    push_all(&mut buf, data);
    let len = buf.len();
    let mut i: usize = 0;
    while i < 2048
        invariant
            len == buf@.len(),
            len == data@.len(),
            i <= 2048,
            forall|k: int|
                0 <= k < len ==> #[trigger] buf@[k] == (if k < 4 * i && (k / 4 + 1) * 4 <= len {
                    data@[(k / 4) * 4 + 3 - k % 4]
                } else {
                    data@[k]
                }),
        decreases 2048 - i,
    {
        if i < len / 4 {
            let o = i * 4;
            let a = buf[o];
            let b = buf[o + 1];
            let c = buf[o + 2];
            let d = buf[o + 3];
            buf.set(o, d);
            buf.set(o + 1, c);
            buf.set(o + 2, b);
            buf.set(o + 3, a);
        }
        i += 1;
    }
    assert(buf@ =~= swapped_table(data@));
    buf
}

/// The chunk start (sector times 4096) that slot `slot` of a swapped table
/// names, if it names one: a nonzero entry whose sector is at least 2 and
/// whose 8-byte chunk header lies within the data.
pub open spec fn slot_chunk(buf: Seq<u8>, data_len: int, slot: int) -> Option<int> {
    if (slot + 1) * 4 > buf.len() {
        None
    } else {
        let off = crate::bytes::le_u32_at(buf, slot * 4);
        let sn = ((off >> 8u32) & 0xFFFFFFu32) as int;
        if off == 0 || sn < 2 || sn * 4096 + 8 > data_len {
            None
        } else {
            Some(sn * 4096)
        }
    }
}

/// The smallest chunk start above `prev` named by slots below `n`.
pub open spec fn min_above(buf: Seq<u8>, data_len: int, prev: int, n: int) -> Option<int>
    decreases n,
{
    if n <= 0 {
        None
    } else {
        let m = min_above(buf, data_len, prev, n - 1);
        match slot_chunk(buf, data_len, n - 1) {
            Some(f) => if f > prev && (m is None || f < m->0) {
                Some(f)
            } else {
                m
            },
            None => m,
        }
    }
}

/// The last slot below `n` naming chunk start `fo` (the one a map keyed by
/// start keeps), or -1.
pub open spec fn last_slot(buf: Seq<u8>, data_len: int, fo: int, n: int) -> int
    decreases n,
{
    if n <= 0 {
        -1
    } else if slot_chunk(buf, data_len, n - 1) == Some(fo) {
        n - 1
    } else {
        last_slot(buf, data_len, fo, n - 1)
    }
}

/// The chunks in order of their start above `prev`: each start once, with
/// the last slot naming it.
pub open spec fn chunk_order(buf: Seq<u8>, data_len: int, prev: int, fuel: nat) -> Seq<(int, int)>
    decreases fuel,
{
    if fuel == 0 {
        seq![]
    } else {
        match min_above(buf, data_len, prev, 1024) {
            None => seq![],
            Some(f) => seq![(f, last_slot(buf, data_len, f, 1024))] + chunk_order(buf, data_len, f, (fuel - 1) as nat),
        }
    }
}

fn slot_chunk_at(buf: &Vec<u8>, data_len: usize, slot: usize) -> (r: Option<usize>)
    requires
        slot < 1024,
    ensures
        match r {
            Some(f) => slot_chunk(buf@, data_len as int, slot as int) == Some(f as int),
            None => slot_chunk(buf@, data_len as int, slot as int) is None,
        },
{
    if (slot + 1) * 4 > buf.len() {
        return None;
    }
    let off = crate::bytes::get_u32_le(buf.as_slice(), slot * 4);
    let sn = ((off >> 8u32) & 0xFFFFFFu32) as u64;
    if off == 0 || sn < 2 || sn * 4096 + 8 > data_len as u64 {
        return None;
    }
    Some((sn * 4096) as usize)
}

fn find_min_above(buf: &Vec<u8>, data_len: usize, prev: Option<usize>) -> (r: Option<usize>)
    ensures
        match r {
            Some(f) => min_above(buf@, data_len as int, match prev { Some(p) => p as int, None => -1 }, 1024) == Some(f as int),
            None => min_above(buf@, data_len as int, match prev { Some(p) => p as int, None => -1 }, 1024) is None,
        },
{
    let ghost pv: int = match prev {
        Some(p) => p as int,
        None => -1,
    };
    let mut best: Option<usize> = None;
    let mut n: usize = 0;
    while n < 1024
        invariant
            n <= 1024,
            pv == (match prev { Some(p) => p as int, None => -1 }),
            match best {
                Some(f) => min_above(buf@, data_len as int, pv, n as int) == Some(f as int),
                None => min_above(buf@, data_len as int, pv, n as int) is None,
            },
        decreases 1024 - n,
    {
        match slot_chunk_at(buf, data_len, n) {
            Some(f) => {
                let above = match prev {
                    Some(p) => f > p,
                    None => true,
                };
                let better = match best {
                    Some(b) => f < b,
                    None => true,
                };
                if above && better {
                    best = Some(f);
                }
            },
            None => {},
        }
        n += 1;
    }
    best
}

fn find_last_slot(buf: &Vec<u8>, data_len: usize, fo: usize) -> (r: usize)
    requires
        exists|s: int| 0 <= s < 1024 && slot_chunk(buf@, data_len as int, s) == Some(fo as int),
    ensures
        r as int == last_slot(buf@, data_len as int, fo as int, 1024),
        r < 1024,
{
    let mut n: usize = 1024;
    while n > 0
        invariant
            n <= 1024,
            last_slot(buf@, data_len as int, fo as int, 1024) == last_slot(buf@, data_len as int, fo as int, n as int),
            forall|s: int| n <= s < 1024 ==> slot_chunk(buf@, data_len as int, s) != Some(fo as int),
        decreases n,
    {
        match slot_chunk_at(buf, data_len, n - 1) {
            Some(f) => {
                if f == fo {
                    return n - 1;
                }
            },
            None => {},
        }
        n -= 1;
    }
    assert(false);
    0
}

/// `n` zero bytes.
pub open spec fn zeros_n(n: nat) -> Seq<u8> {
    Seq::new(n, |_i: int| 0u8)
}

/// `buf` grown by 4096-byte blocks of zeros until it holds `need` bytes.
pub open spec fn grow_to(buf: Seq<u8>, need: int) -> Seq<u8> {
    if buf.len() >= need {
        buf
    } else {
        buf + zeros_n((4096 * ((need - buf.len() + 4095) / 4096)) as nat)
    }
}

/// `b` with `bytes` written at `off`.
pub open spec fn overwrite(b: Seq<u8>, off: int, bytes: Seq<u8>) -> Seq<u8> {
    b.take(off) + bytes + b.skip(off + bytes.len())
}

/// The sectors that a chunk of `len` bytes with its 8-byte header takes.
pub open spec fn sectors_for(len: int) -> int {
    (8 + len + 4095) / 4096
}

/// The offset-table word for a chunk at sector `ns` taking `needed` sectors.
pub open spec fn table_word(ns: int, needed: int) -> u32 {
    (((ns as u128) << 8u128) | (needed as u128)) as u32
}

/// `b` with a chunk placed at sector `ns`: grown to hold it, its header
/// (flagged length and decompressed length) and payload written, and slot
/// `slot` of the offset table pointing at it.
pub open spec fn place(b: Seq<u8>, ns: int, slot: int, payload: Seq<u8>, flag: u32, decomp: u32) -> Seq<u8> {
    let dest = ns * 4096;
    let g = grow_to(b, dest + 8 + payload.len());
    let g = overwrite(g, dest, u32_le(flag) + u32_le(decomp) + payload);
    overwrite(g, slot * 4, u32_le(table_word(ns, sectors_for(payload.len() as int))))
}

proof fn lemma_grow_to(buf: Seq<u8>, need: int)
    ensures
        grow_to(buf, need).len() >= need,
        grow_to(buf, need).len() >= buf.len(),
{
    if buf.len() < need {
        let d = need - buf.len();
        assert(4096 * ((d + 4095) / 4096) >= d) by (nonlinear_arith)
            requires
                d > 0,
        ;
    }
}

fn overwrite_at(buf: &mut Vec<u8>, off: usize, bytes: &[u8])
    requires
        off + bytes@.len() <= old(buf)@.len(),
    ensures
        final(buf)@ == overwrite(old(buf)@, off as int, bytes@),
{
    let n = bytes.len();
    let blen = buf.len();
    let mut i: usize = 0;
    while i < n
        invariant
            n == bytes@.len(),
            blen == buf@.len(),
            off + n <= buf@.len(),
            buf@.len() == old(buf)@.len(),
            i <= n,
            forall|k: int| 0 <= k < buf@.len() ==> #[trigger] buf@[k] == (if off <= k < off + i {
                bytes@[k - off]
            } else {
                old(buf)@[k]
            }),
        decreases n - i,
    {
        buf.set(off + i, bytes[i]);
        i += 1;
    }
    assert(buf@ =~= overwrite(old(buf)@, off as int, bytes@));
}

fn place_chunk(buf: &mut Vec<u8>, ns: u64, slot: usize, payload: &[u8], flag: u32, decomp: u32) -> (needed: u64)
    requires
        slot < 1024,
        old(buf)@.len() >= 4096,
        ns >= 2,
    ensures
        final(buf)@.len() >= 4096,
        final(buf)@ == place(old(buf)@, ns as int, slot as int, payload@, flag, decomp),
        needed as int == sectors_for(payload@.len() as int),
{
    let dest: u128 = ns as u128 * 4096;
    let need: u128 = dest + 8 + payload.len() as u128;
    let ghost start = buf@;
    proof {
        lemma_grow_to(start, need as int);
    }
    let ghost mut k: int = 0;
    while (buf.len() as u128) < need
        invariant
            k >= 0,
            buf@ == start + zeros_n((4096 * k) as nat),
            k == 0 || start.len() + 4096 * (k - 1) < need,
        decreases need as int + 4096 - buf@.len(),
    {
        push_repeat(buf, 0, 4096);
        proof {
            assert(buf@ =~= start + zeros_n((4096 * (k + 1)) as nat));
            k = k + 1;
        }
    }
    proof {
        if k == 0 {
            assert(start + zeros_n(0) =~= start);
            assert(grow_to(start, need as int) == buf@);
        } else {
            let d = need as int - start.len();
            assert(k == (d + 4095) / 4096) by (nonlinear_arith)
                requires
                    d > 4096 * (k - 1),
                    d <= 4096 * k,
                    k >= 1,
            ;
            assert(grow_to(start, need as int) == buf@);
        }
    }
    let mut chunk: Vec<u8> = Vec::new();
    push_u32_le(&mut chunk, flag);
    push_u32_le(&mut chunk, decomp);
    push_all(&mut chunk, payload);
    overwrite_at(buf, dest as usize, chunk.as_slice());
    let needed: u64 = ((8 + payload.len() as u128 + 4095) / 4096) as u64;
    let word: u32 = (((ns as u128) << 8u128) | (needed as u128)) as u32;
    let mut w: Vec<u8> = Vec::new();
    push_u32_le(&mut w, word);
    proof {
        lemma_grow_to(start, need as int);
    }
    overwrite_at(buf, slot * 4, w.as_slice());
    needed
}

/// A region being laid out again: its bytes, the next free sector and the
/// slots of chunks that could not be decoded.
pub type LayoutState = (Seq<u8>, int, Seq<usize>);

/// The Xbox 360 chunk at `fo` (for slot `slot`) moved into the layout:
/// decoded from LZX (its outcome is `slot_outcome(outs, slot)`),
/// recompressed with zlib (level 6), and placed at the
/// next free sector keeping its RLE flag and decompressed length. A chunk
/// that does not decode is recorded as dropped; with region coordinates it
/// is replaced by an empty chunk, otherwise its table entry is cleared. A
/// chunk whose length is zero or runs past the data is skipped.
pub open spec fn xbox_step(
    data: Seq<u8>,
    coords: Option<(i32, i32)>,
    outs: Seq<Result<Seq<u8>, Seq<char>>>,
    st: LayoutState,
    fo: int,
    slot: int,
) -> LayoutState {
    let raw = be_u32_at(data, fo);
    let decomp = be_u32_at(data, fo + 4);
    let cl = (raw & 0x7FFF_FFFFu32) as int;
    if cl == 0 || fo + 8 + cl > data.len() {
        st
    } else {
        match slot_outcome(outs, slot) {
            Ok(d) => {
                let z = zlib_compressed(d, 6);
                let flag = if raw & 0x8000_0000u32 != 0 {
                    (z.len() as u32) | 0x8000_0000u32
                } else {
                    z.len() as u32
                };
                (place(st.0, st.1, slot, z, flag, decomp), st.1 + sectors_for(z.len() as int), st.2)
            },
            Err(_) => {
                let dropped = st.2.push(slot as usize);
                match coords {
                    Some((rx, rz)) => {
                        let cx = rx.wrapping_mul(32).wrapping_add((slot % 32) as i32);
                        let cz = rz.wrapping_mul(32).wrapping_add((slot / 32) as i32);
                        let nbt = empty_chunk_nbt(cx, cz);
                        let z = zlib_compressed(spec_rle_encode(nbt), 6);
                        (
                            place(st.0, st.1, slot, z, (z.len() as u32) | 0x8000_0000u32, nbt.len() as u32),
                            st.1 + sectors_for(z.len() as int),
                            dropped,
                        )
                    },
                    None => (overwrite(st.0, slot * 4, u32_le(0)), st.1, dropped),
                }
            },
        }
    }
}

/// What decoding the chunk of `slot` gave: its entry of `outs`, a failure
/// where there is none.
pub open spec fn slot_outcome(outs: Seq<Result<Seq<u8>, Seq<char>>>, slot: int) -> Result<Seq<u8>, Seq<char>> {
    if 0 <= slot < outs.len() {
        outs[slot]
    } else {
        Err(Seq::empty())
    }
}

/// The layout after moving each chunk of `order` in turn.
pub open spec fn xbox_fold(
    data: Seq<u8>,
    coords: Option<(i32, i32)>,
    outs: Seq<Result<Seq<u8>, Seq<char>>>,
    st: LayoutState,
    order: Seq<(int, int)>,
) -> LayoutState
    decreases order.len(),
{
    if order.len() == 0 {
        st
    } else {
        xbox_fold(data, coords, outs, xbox_step(data, coords, outs, st, order[0].0, order[0].1), order.drop_first())
    }
}

/// The layout a region starts from: the data's length in zeros, with the
/// (swapped) first two sectors copied.
pub open spec fn initial_layout(buf: Seq<u8>) -> Seq<u8> {
    let c = if buf.len() < 8192 {
        buf.len() as int
    } else {
        8192
    };
    buf.take(c) + zeros_n((buf.len() - c) as nat)
}

/// An Xbox 360 region converted for Windows 64, given the decoding outcome
/// of each slot's chunk, and the slots of the chunks that could not be
/// decoded: the offset table made little-endian and the
/// chunks moved, in order of their position, to consecutive sectors
/// (see `xbox_step`), the file cut after the last sector used.
pub open spec fn converted_region(
    data: Seq<u8>,
    coords: Option<(i32, i32)>,
    outs: Seq<Result<Seq<u8>, Seq<char>>>,
) -> (Seq<u8>, Seq<usize>) {
    let buf = swapped_table(data);
    let order = chunk_order(buf, data.len() as int, -1, 1024);
    if order.len() == 0 {
        (buf, seq![])
    } else {
        let st = xbox_fold(data, coords, outs, (initial_layout(buf), 2, seq![]), order);
        let end = if st.1 * 4096 < st.0.len() {
            st.1 * 4096
        } else {
            st.0.len() as int
        };
        (st.0.take(end), st.2)
    }
}

proof fn lemma_min_above_witness(buf: Seq<u8>, data_len: int, prev: int, n: int, f: int)
    requires
        min_above(buf, data_len, prev, n) == Some(f),
    ensures
        exists|s: int| 0 <= s < n && slot_chunk(buf, data_len, s) == Some(f),
        f > prev,
    decreases n,
{
    if n > 0 {
        let m = min_above(buf, data_len, prev, n - 1);
        if m == Some(f) {
            lemma_min_above_witness(buf, data_len, prev, n - 1, f);
        } else {
            assert(slot_chunk(buf, data_len, n - 1) == Some(f));
        }
    }
}

fn xbox_chunk_step(
    data: &[u8],
    coords: Option<(i32, i32)>,
    outs: &[Result<Vec<u8>, String>],
    buf: &mut Vec<u8>,
    next: &mut u64,
    dropped: &mut Vec<usize>,
    fo: usize,
    slot: usize,
)
    requires
        slot < 1024,
        fo + 8 <= data@.len(),
        old(buf)@.len() >= 4096,
        *old(next) >= 2,
        *old(next) < 0x8000_0000_0000_0000,
    ensures
        final(buf)@.len() >= 4096,
        *final(next) >= *old(next),
        *final(next) <= *old(next) + 0x10_0000_0000_0002,
        (final(buf)@, *final(next) as int, final(dropped)@) == xbox_step(
            data@,
            coords,
            outcomes_view(outs@),
            (old(buf)@, *old(next) as int, old(dropped)@),
            fo as int,
            slot as int,
        ),
{
    let dl = data.len();
    assert(fo + 8 <= dl);
    let raw = get_u32_be(data, fo);
    let decomp = get_u32_be(data, fo + 4);
    let cl = (raw & 0x7FFF_FFFF) as usize;
    if cl == 0 || cl > data.len() - (fo + 8) {
        return;
    }
    let decoded: Option<&Vec<u8>> = if slot < outs.len() {
        match &outs[slot] {
            Ok(d) => Some(d),
            Err(_) => None,
        }
    } else {
        None
    };
    match decoded {
        Some(d) => {
            let z = zlib_compress(d.as_slice(), 6);
            let flag: u32 = if raw & 0x8000_0000 != 0 {
                (z.len() as u32) | 0x8000_0000
            } else {
                z.len() as u32
            };
            let needed = place_chunk(buf, *next, slot, z.as_slice(), flag, decomp);
            assert(needed <= 0x10_0000_0000_0002) by (nonlinear_arith)
                requires
                    needed as int == (8 + z@.len() + 4095) / 4096,
                    z@.len() <= 0xFFFF_FFFF_FFFF_FFFF,
            ;
            *next = *next + needed;
        },
        None => {
            dropped.push(slot);
            match coords {
                Some((rx, rz)) => {
                    let cx = rx.wrapping_mul(32).wrapping_add((slot % 32) as i32);
                    let cz = rz.wrapping_mul(32).wrapping_add((slot / 32) as i32);
                    let nbt = build_empty_chunk_nbt(cx, cz);
                    let rle = compress_rle(nbt.as_slice());
                    let z = zlib_compress(rle.as_slice(), 6);
                    let needed = place_chunk(buf, *next, slot, z.as_slice(), (z.len() as u32) | 0x8000_0000, nbt.len() as u32);
                    assert(needed <= 0x10_0000_0000_0002) by (nonlinear_arith)
                        requires
                            needed as int == (8 + z@.len() + 4095) / 4096,
                            z@.len() <= 0xFFFF_FFFF_FFFF_FFFF,
                    ;
                    *next = *next + needed;
                },
                None => {
                    let mut w: Vec<u8> = Vec::new();
                    push_u32_le(&mut w, 0);
                    overwrite_at(buf, slot * 4, w.as_slice());
                },
            }
        },
    }
}

/// Converts an Xbox 360 region for Windows 64 given the decoding outcome
/// of each slot's chunk (see `converted_region`); the slots of chunks that
/// could not be decoded are appended to `dropped_slots`.
pub fn convert_region_from_outcomes(
    data: &[u8],
    dropped_slots: &mut Vec<usize>,
    region_coords: Option<(i32, i32)>,
    outs: &[Result<Vec<u8>, String>],
) -> (r: Result<Vec<u8>, String>)
    ensures
        r matches Ok(v) && v@ == converted_region(data@, region_coords, outcomes_view(outs@)).0,
        final(dropped_slots)@ == old(dropped_slots)@ + converted_region(data@, region_coords, outcomes_view(outs@)).1,
{
    let ghost o = outcomes_view(outs@);
    let buf = swap_table(data);
    let len = data.len();
    let ghost order = chunk_order(buf@, len as int, -1, 1024);
    let first = find_min_above(&buf, len, None);
    if first.is_none() {
        assert(order.len() == 0);
        assert(old(dropped_slots)@ + Seq::<usize>::empty() =~= old(dropped_slots)@);
        return Ok(buf);
    }
    let c: usize = if len < 8192 {
        len
    } else {
        8192
    };
    let mut out: Vec<u8> = Vec::new();
    push_all(&mut out, slice_range(buf.as_slice(), 0, c));
    push_repeat(&mut out, 0, len - c);
    assert(out@ =~= initial_layout(buf@));
    proof {
        let f = first->0;
        lemma_min_above_witness(buf@, len as int, -1, 1024, f as int);
    }
    let mut next: u64 = 2;
    let mut dropped: Vec<usize> = Vec::new();
    let ghost init: LayoutState = (initial_layout(buf@), 2, seq![]);
    let mut prev: Option<usize> = None;
    let mut fuel: usize = 1024;
    assert(dropped@ =~= Seq::<usize>::empty());
    while fuel > 0
        invariant
            fuel <= 1024,
            len == data@.len(),
            buf@ == swapped_table(data@),
            order == chunk_order(buf@, len as int, -1, 1024),
            out@.len() >= 4096,
            next >= 2,
            next <= 2 + (1024 - fuel) * 0x10_0000_0000_0002,
            o == outcomes_view(outs@),
            xbox_fold(data@, region_coords, o, init, order) == xbox_fold(
                data@,
                region_coords,
                o,
                (out@, next as int, dropped@),
                chunk_order(buf@, len as int, match prev { Some(p) => p as int, None => -1 }, fuel as nat),
            ),
        ensures
            out@.len() >= 4096,
            xbox_fold(data@, region_coords, o, init, order) == (out@, next as int, dropped@),
        decreases fuel,
    {
        let ghost pv: int = match prev {
            Some(p) => p as int,
            None => -1,
        };
        let ghost co = chunk_order(buf@, len as int, pv, fuel as nat);
        let f = match find_min_above(&buf, len, prev) {
            Some(f) => f,
            None => {
                assert(co == Seq::<(int, int)>::empty());
                break;
            },
        };
        proof {
            lemma_min_above_witness(buf@, len as int, match prev { Some(p) => p as int, None => -1 }, 1024, f as int);
        }
        let slot = find_last_slot(&buf, len, f);
        proof {
            let s = last_slot(buf@, len as int, f as int, 1024);
            lemma_last_slot_names(buf@, len as int, f as int, 1024);
        }
        let ghost before: LayoutState = (out@, next as int, dropped@);
        assert(co[0] == (f as int, slot as int));
        assert(co.drop_first() =~= chunk_order(buf@, len as int, f as int, (fuel - 1) as nat));
        assert(f + 8 <= len) by {
            assert(slot_chunk(buf@, len as int, slot as int) == Some(f as int));
        }
        xbox_chunk_step(data, region_coords, outs, &mut out, &mut next, &mut dropped, f, slot);
        assert(xbox_fold(data@, region_coords, o, before, co) == xbox_fold(
            data@,
            region_coords,
            o,
            (out@, next as int, dropped@),
            chunk_order(buf@, len as int, f as int, (fuel - 1) as nat),
        ));
        prev = Some(f);
        fuel -= 1;
    }
    let total = next as u128 * 4096;
    let end: usize = if total < out.len() as u128 {
        total as usize
    } else {
        out.len()
    };
    let mut res: Vec<u8> = Vec::new();
    push_all(&mut res, slice_range(out.as_slice(), 0, end));
    assert(out@.subrange(0, end as int) =~= out@.take(end as int));
    push_all(dropped_slots, dropped.as_slice());
    Ok(res)
}

/// The compressed chunk of slot `s` of an Xbox 360 region: the bytes after
/// the 8-byte prefix at the slot's offset, their length taken from the
/// prefix; `None` for an empty slot or a chunk that runs past the data.
pub open spec fn slot_payload(data: Seq<u8>, s: int) -> Option<Seq<u8>> {
    match slot_chunk(swapped_table(data), data.len() as int, s) {
        None => None,
        Some(f) => {
            let cl = (be_u32_at(data, f) & 0x7FFF_FFFFu32) as int;
            if cl == 0 || f + 8 + cl > data.len() {
                None
            } else {
                Some(data.subrange(f + 8, f + 8 + cl))
            }
        },
    }
}

/// Whether `segs` are the decoding tries made for the chunk of each slot
/// of region `data`, slot by slot (none for a slot without a chunk).
pub open spec fn slot_attempts(data: Seq<u8>, segs: Seq<Seq<FreshCall>>) -> bool {
    &&& segs.len() == 1024
    &&& forall|s: int|
        0 <= s < 1024 ==> match slot_payload(data, s) {
            Some(x) => chunk_attempts(x, #[trigger] segs[s]),
            None => segs[s].len() == 0,
        }
}

/// What decoding gave for the chunk of each slot, from the tries made for
/// it (a failure for a slot without a chunk).
pub open spec fn slot_outcomes(data: Seq<u8>, segs: Seq<Seq<FreshCall>>) -> Seq<Result<Seq<u8>, Seq<char>>> {
    Seq::new(
        segs.len(),
        |s: int|
            match slot_payload(data, s) {
                Some(x) => region_chunk_decoded(x, answers(segs[s])),
                None => Err(Seq::empty()),
            },
    )
}

/// Calls one after another.
pub open spec fn joined_calls(segs: Seq<Seq<FreshCall>>) -> Seq<FreshCall>
    decreases segs.len(),
{
    if segs.len() == 0 {
        Seq::empty()
    } else {
        joined_calls(segs.drop_last()) + segs.last()
    }
}

/// Decodes the chunk of each slot of an Xbox 360 region in turn (see
/// `decompress_region_chunk`), a failure for a slot without a chunk.
fn region_outcomes<D: LzxDecoder>(data: &[u8], dec: &mut LzxSession<D>) -> (r: Vec<Result<Vec<u8>, String>>)
    ensures
        final(dec).stream_calls() == old(dec).stream_calls(),
        exists|segs: Seq<Seq<FreshCall>>|
            {
                &&& slot_attempts(data@, segs)
                &&& final(dec).fresh_calls() == old(dec).fresh_calls() + joined_calls(segs)
                &&& outcomes_view(r@) == #[trigger] slot_outcomes(data@, segs)
            },
{
    let buf = swap_table(data);
    let len = data.len();
    let mut outs: Vec<Result<Vec<u8>, String>> = Vec::new();
    let ghost f0 = dec.fresh_calls();
    let ghost mut segs: Seq<Seq<FreshCall>> = Seq::empty();
    let mut s: usize = 0;
    while s < 1024
        invariant
            s <= 1024,
            len == data@.len(),
            buf@ == swapped_table(data@),
            segs.len() == s,
            outs@.len() == s,
            dec.stream_calls() == old(dec).stream_calls(),
            f0 == old(dec).fresh_calls(),
            dec.fresh_calls() == f0 + joined_calls(segs),
            forall|t: int|
                0 <= t < s ==> match slot_payload(data@, t) {
                    Some(x) => chunk_attempts(x, #[trigger] segs[t]),
                    None => segs[t].len() == 0,
                },
            forall|t: int|
                0 <= t < s ==> outcome_view(#[trigger] outs@[t]) == match slot_payload(data@, t) {
                    Some(x) => region_chunk_decoded(x, answers(segs[t])),
                    None => Err(Seq::empty()),
                },
        decreases 1024 - s,
    {
        let ghost before = dec.fresh_calls();
        let mut got: Result<Vec<u8>, String> = Err(String::new());
        let ghost mut seg: Seq<FreshCall> = Seq::empty();
        assert(outcome_view(got) == Err::<Seq<u8>, Seq<char>>(Seq::empty()));
        if let Some(f) = slot_chunk_at(&buf, len, s) {
            if f <= len && len - f >= 8 {
                let raw = get_u32_be(data, f);
                let cl = (raw & 0x7FFF_FFFF) as usize;
                if cl != 0 && cl <= len - (f + 8) {
                    let x = slice_range(data, f + 8, f + 8 + cl);
                    got = decompress_region_chunk(x, dec);
                    proof {
                        seg = choose|seg: Seq<FreshCall>|
                            {
                                &&& dec.fresh_calls() == before + seg
                                &&& chunk_attempts(x@, seg)
                                &&& outcome_view(got) == #[trigger] region_chunk_decoded(x@, answers(seg))
                            };
                    }
                    assert(slot_payload(data@, s as int) == Some(x@));
                } else {
                    assert(slot_payload(data@, s as int) is None);
                }
            } else {
                assert(slot_payload(data@, s as int) is None);
            }
        } else {
            assert(slot_payload(data@, s as int) is None);
        }
        proof {
            if slot_payload(data@, s as int) is None {
                assert(dec.fresh_calls() =~= before + seg);
            }
            let segs2 = segs.push(seg);
            assert(segs2.drop_last() =~= segs);
            assert(joined_calls(segs2) == joined_calls(segs) + seg);
            assert(dec.fresh_calls() =~= f0 + joined_calls(segs2));
            segs = segs2;
        }
        outs.push(got);
        s += 1;
    }
    proof {
        assert(outcomes_view(outs@) =~= slot_outcomes(data@, segs));
    }
    outs
}

/// Converts an Xbox 360 region for Windows 64: the chunk of each slot is
/// decoded through `dec` (see `decompress_region_chunk`; the tries added to
/// the session are those of each slot in turn), and the region is
/// `converted_region` of those outcomes; the slots of chunks that could not
/// be decoded are appended to `dropped_slots`.
pub fn convert_region<D: LzxDecoder>(
    data: &[u8],
    dropped_slots: &mut Vec<usize>,
    region_coords: Option<(i32, i32)>,
    dec: &mut LzxSession<D>,
) -> (r: Result<Vec<u8>, String>)
    ensures
        final(dec).stream_calls() == old(dec).stream_calls(),
        exists|segs: Seq<Seq<FreshCall>>|
            {
                &&& slot_attempts(data@, segs)
                &&& final(dec).fresh_calls() == old(dec).fresh_calls() + joined_calls(segs)
                &&& r matches Ok(v) && v@ == converted_region(data@, region_coords, slot_outcomes(data@, segs)).0
                &&& final(dropped_slots)@ == old(dropped_slots)@ + converted_region(
                    data@,
                    region_coords,
                    #[trigger] slot_outcomes(data@, segs),
                ).1
            },
{
    let outs = region_outcomes(data, dec);
    convert_region_from_outcomes(data, dropped_slots, region_coords, outs.as_slice())
}

proof fn lemma_last_slot_names(buf: Seq<u8>, data_len: int, fo: int, n: int)
    requires
        last_slot(buf, data_len, fo, n) >= 0,
    ensures
        slot_chunk(buf, data_len, last_slot(buf, data_len, fo, n)) == Some(fo),
        last_slot(buf, data_len, fo, n) < n,
    decreases n,
{
    if n > 0 && slot_chunk(buf, data_len, n - 1) != Some(fo) {
        lemma_last_slot_names(buf, data_len, fo, n - 1);
    }
}

/// The PS3 chunk at `fo` (for slot `slot`) moved into the layout: its body
/// after a 4-byte prefix inflated as raw deflate, recompressed with zlib
/// (level 6) and placed at the next free sector keeping its RLE flag and
/// decompressed length; a body shorter than 5 bytes or one that does not
/// inflate has its table entry cleared. A chunk whose length is zero or
/// runs past the data is skipped.
pub open spec fn ps3_step(data: Seq<u8>, st: (Seq<u8>, int), fo: int, slot: int) -> (Seq<u8>, int) {
    let raw = be_u32_at(data, fo);
    let decomp = be_u32_at(data, fo + 4);
    let cl = (raw & 0x7FFF_FFFFu32) as int;
    if cl == 0 || fo + 8 + cl > data.len() {
        st
    } else {
        let body = data.subrange(fo + 8, fo + 8 + cl);
        let cleared = (overwrite(st.0, slot * 4, u32_le(0)), st.1);
        if body.len() < 5 {
            cleared
        } else {
            match deflate_inflated(body.skip(4)) {
                None => cleared,
                Some(d) => {
                    let z = zlib_compressed(d, 6);
                    let flag = if raw & 0x8000_0000u32 != 0 {
                        (z.len() as u32) | 0x8000_0000u32
                    } else {
                        z.len() as u32
                    };
                    (place(st.0, st.1, slot, z, flag, decomp), st.1 + sectors_for(z.len() as int))
                },
            }
        }
    }
}

/// The layout after moving each PS3 chunk of `order` in turn.
pub open spec fn ps3_fold(data: Seq<u8>, st: (Seq<u8>, int), order: Seq<(int, int)>) -> (Seq<u8>, int)
    decreases order.len(),
{
    if order.len() == 0 {
        st
    } else {
        ps3_fold(data, ps3_step(data, st, order[0].0, order[0].1), order.drop_first())
    }
}

/// A PS3 region converted for Windows 64: the offset table made
/// little-endian and the chunks moved, in order of their position, to
/// consecutive sectors (see `ps3_step`), the file cut after the last
/// sector used.
pub open spec fn converted_region_ps3(data: Seq<u8>) -> Seq<u8> {
    let buf = swapped_table(data);
    let order = chunk_order(buf, data.len() as int, -1, 1024);
    if order.len() == 0 {
        buf
    } else {
        let st = ps3_fold(data, (initial_layout(buf), 2), order);
        let end = if st.1 * 4096 < st.0.len() {
            st.1 * 4096
        } else {
            st.0.len() as int
        };
        st.0.take(end)
    }
}

fn ps3_chunk_step(data: &[u8], buf: &mut Vec<u8>, next: &mut u64, fo: usize, slot: usize)
    requires
        slot < 1024,
        fo + 8 <= data@.len(),
        old(buf)@.len() >= 4096,
        *old(next) >= 2,
        *old(next) < 0x8000_0000_0000_0000,
    ensures
        final(buf)@.len() >= 4096,
        *final(next) >= *old(next),
        *final(next) <= *old(next) + 0x10_0000_0000_0002,
        (final(buf)@, *final(next) as int) == ps3_step(data@, (old(buf)@, *old(next) as int), fo as int, slot as int),
{
    let dl = data.len();
    assert(fo + 8 <= dl);
    let raw = get_u32_be(data, fo);
    let decomp = get_u32_be(data, fo + 4);
    let cl = (raw & 0x7FFF_FFFF) as usize;
    if cl == 0 || cl > data.len() - (fo + 8) {
        return;
    }
    let body = slice_range(data, fo + 8, fo + 8 + cl);
    let inflated = if body.len() < 5 {
        None
    } else {
        let rest = slice_range(body, 4, body.len());
        assert(rest@ =~= body@.skip(4));
        match deflate_decompress(rest) {
            Ok(d) => Some(d),
            Err(_) => None,
        }
    };
    match inflated {
        Some(d) => {
            let z = zlib_compress(d.as_slice(), 6);
            let flag: u32 = if raw & 0x8000_0000 != 0 {
                (z.len() as u32) | 0x8000_0000
            } else {
                z.len() as u32
            };
            let needed = place_chunk(buf, *next, slot, z.as_slice(), flag, decomp);
            assert(needed <= 0x10_0000_0000_0002) by (nonlinear_arith)
                requires
                    needed as int == (8 + z@.len() + 4095) / 4096,
                    z@.len() <= 0xFFFF_FFFF_FFFF_FFFF,
            ;
            *next = *next + needed;
        },
        None => {
            let mut w: Vec<u8> = Vec::new();
            push_u32_le(&mut w, 0);
            overwrite_at(buf, slot * 4, w.as_slice());
        },
    }
}

/// Converts a PS3 region for Windows 64 (see `converted_region_ps3`).
pub fn convert_region_ps3(data: &[u8]) -> (r: Result<Vec<u8>, String>)
    ensures
        r matches Ok(v) && v@ == converted_region_ps3(data@),
{
    let buf = swap_table(data);
    let len = data.len();
    let ghost order = chunk_order(buf@, len as int, -1, 1024);
    let first = find_min_above(&buf, len, None);
    if first.is_none() {
        assert(order.len() == 0);
        return Ok(buf);
    }
    let c: usize = if len < 8192 {
        len
    } else {
        8192
    };
    let mut out: Vec<u8> = Vec::new();
    push_all(&mut out, slice_range(buf.as_slice(), 0, c));
    push_repeat(&mut out, 0, len - c);
    assert(out@ =~= initial_layout(buf@));
    proof {
        let f = first->0;
        lemma_min_above_witness(buf@, len as int, -1, 1024, f as int);
    }
    let mut next: u64 = 2;
    let ghost init: (Seq<u8>, int) = (initial_layout(buf@), 2);
    let mut prev: Option<usize> = None;
    let mut fuel: usize = 1024;
    while fuel > 0
        invariant
            fuel <= 1024,
            len == data@.len(),
            buf@ == swapped_table(data@),
            order == chunk_order(buf@, len as int, -1, 1024),
            out@.len() >= 4096,
            next >= 2,
            next <= 2 + (1024 - fuel) * 0x10_0000_0000_0002,
            ps3_fold(data@, init, order) == ps3_fold(
                data@,
                (out@, next as int),
                chunk_order(buf@, len as int, match prev { Some(p) => p as int, None => -1 }, fuel as nat),
            ),
        ensures
            out@.len() >= 4096,
            ps3_fold(data@, init, order) == (out@, next as int),
        decreases fuel,
    {
        let ghost pv: int = match prev {
            Some(p) => p as int,
            None => -1,
        };
        let ghost co = chunk_order(buf@, len as int, pv, fuel as nat);
        let f = match find_min_above(&buf, len, prev) {
            Some(f) => f,
            None => {
                assert(co == Seq::<(int, int)>::empty());
                break;
            },
        };
        proof {
            lemma_min_above_witness(buf@, len as int, pv, 1024, f as int);
        }
        let slot = find_last_slot(&buf, len, f);
        proof {
            lemma_last_slot_names(buf@, len as int, f as int, 1024);
        }
        let ghost before: (Seq<u8>, int) = (out@, next as int);
        assert(co[0] == (f as int, slot as int));
        assert(co.drop_first() =~= chunk_order(buf@, len as int, f as int, (fuel - 1) as nat));
        assert(f + 8 <= len) by {
            assert(slot_chunk(buf@, len as int, slot as int) == Some(f as int));
        }
        ps3_chunk_step(data, &mut out, &mut next, f, slot);
        assert(ps3_fold(data@, before, co) == ps3_fold(
            data@,
            (out@, next as int),
            chunk_order(buf@, len as int, f as int, (fuel - 1) as nat),
        ));
        prev = Some(f);
        fuel -= 1;
    }
    let total = next as u128 * 4096;
    let end: usize = if total < out.len() as u128 {
        total as usize
    } else {
        out.len()
    };
    let mut res: Vec<u8> = Vec::new();
    push_all(&mut res, slice_range(out.as_slice(), 0, end));
    assert(out@.subrange(0, end as int) =~= out@.take(end as int));
    Ok(res)
}

// ---------------------------------------------------------------------
// Safe spawn search around dropped chunks.
// ---------------------------------------------------------------------

/// `|v|`.
pub open spec fn abs_int(v: int) -> int {
    if v < 0 {
        -v
    } else {
        v
    }
}

/// Whether chunk `(cx, cz)` lies within 11 chunks (Chebyshev distance) of
/// a dropped chunk.
pub open spec fn near_dropped(dropped: Seq<(i32, i32)>, cx: int, cz: int) -> bool {
    exists|k: int|
        0 <= k < dropped.len() && #[trigger] chebyshev(cx, cz, dropped[k].0 as int, dropped[k].1 as int) < 12
}

/// The Chebyshev distance of two chunks.
pub open spec fn chebyshev(ax: int, az: int, bx: int, bz: int) -> int {
    let dx = abs_int(ax - bx);
    let dz = abs_int(az - bz);
    if dx > dz {
        dx
    } else {
        dz
    }
}

/// Whether chunk `(cx, cz)` lies within 11 chunks of a dropped chunk.
pub fn too_close(dropped: &[(i32, i32)], cx: i64, cz: i64) -> (r: bool)
    requires
        -0x1_0000_0000 <= cx <= 0x1_0000_0000,
        -0x1_0000_0000 <= cz <= 0x1_0000_0000,
    ensures
        r == near_dropped(dropped@, cx as int, cz as int),
{
    let mut k: usize = 0;
    while k < dropped.len()
        invariant
            k <= dropped@.len(),
            -0x1_0000_0000 <= cx <= 0x1_0000_0000,
            -0x1_0000_0000 <= cz <= 0x1_0000_0000,
            forall|j: int| 0 <= j < k ==> #[trigger] chebyshev(cx as int, cz as int, dropped@[j].0 as int, dropped@[j].1 as int) >= 12,
        decreases dropped@.len() - k,
    {
        let (dx, dz) = dropped[k];
        let ax = cx - dx as i64;
        let az = cz - dz as i64;
        let ax = if ax < 0 {
            -ax
        } else {
            ax
        };
        let az = if az < 0 {
            -az
        } else {
            az
        };
        let m = if ax > az {
            ax
        } else {
            az
        };
        if m < 12 {
            assert(chebyshev(cx as int, cz as int, dropped@[k as int].0 as int, dropped@[k as int].1 as int) < 12);
            return true;
        }
        k += 1;
    }
    false
}

/// The first chunk, going out ring by ring (radius 1 to 199; within a ring
/// by row, then column), that is not near a dropped chunk, from state
/// `(r, dz, dx)` on.
pub open spec fn ring_search(d: Seq<(i32, i32)>, scx: int, scz: int, r: int, dz: int, dx: int) -> Option<(int, int)>
    decreases 200 - r, r + 2 - dz, r + 2 - dx,
{
    if r >= 200 || r < 1 || dz < -r || dx < -r {
        None
    } else if dz > r {
        ring_search(d, scx, scz, r + 1, -(r + 1), -(r + 1))
    } else if dx > r {
        ring_search(d, scx, scz, r, dz + 1, -r)
    } else if (if abs_int(dx) > abs_int(dz) { abs_int(dx) } else { abs_int(dz) }) == r && !near_dropped(d, scx + dx, scz + dz) {
        Some((scx + dx, scz + dz))
    } else {
        ring_search(d, scx, scz, r, dz, dx + 1)
    }
}

/// A spawn point away from dropped chunks: `None` where nothing was dropped
/// or the spawn chunk is already far enough; otherwise the centre of the
/// first far-enough chunk of `ring_search` around the spawn chunk, at the
/// same height (`None` where none lies within 199 rings).
pub open spec fn safe_spawn(dropped: Seq<(i32, i32)>, orig: (i32, i32, i32)) -> Option<(i32, i32, i32)> {
    let scx = (orig.0 as int) / 16;
    let scz = (orig.2 as int) / 16;
    if dropped.len() == 0 || !near_dropped(dropped, scx, scz) {
        None
    } else {
        match ring_search(dropped, scx, scz, 1, -1, -1) {
            Some((cx, cz)) => Some(((cx * 16 + 8) as i32, orig.1, (cz * 16 + 8) as i32)),
            None => None,
        }
    }
}

fn floor16(v: i64) -> (r: i64)
    requires
        -0x1_0000_0000 <= v <= 0x1_0000_0000,
    ensures
        r as int == (v as int) / 16,
        -0x1000_0000 <= r <= 0x1000_0000,
{
    if v >= 0 {
        v / 16
    } else {
        let r = -((-v + 15) / 16);
        assert(r as int == (v as int) / 16) by (nonlinear_arith)
            requires
                v < 0,
                r == -((-v + 15) / 16),
        ;
        r
    }
}

/// Finds a spawn point away from dropped chunks (see `safe_spawn`).
pub fn find_safe_spawn(dropped: &[(i32, i32)], orig: (i32, i32, i32)) -> (r: Option<(i32, i32, i32)>)
    ensures
        r == safe_spawn(dropped@, orig),
{
    if dropped.len() == 0 {
        return None;
    }
    let scx = floor16(orig.0 as i64);
    let scz = floor16(orig.2 as i64);
    if !too_close(dropped, scx, scz) {
        return None;
    }
    let mut r: i64 = 1;
    let mut dz: i64 = -1;
    let mut dx: i64 = -1;
    while r < 200
        invariant
            1 <= r <= 200,
            -r <= dz <= r + 1,
            -r <= dx <= r + 1,
            -0x1000_0000 <= scx <= 0x1000_0000,
            -0x1000_0000 <= scz <= 0x1000_0000,
            scx as int == (orig.0 as int) / 16,
            scz as int == (orig.2 as int) / 16,
            dropped@.len() > 0,
            near_dropped(dropped@, scx as int, scz as int),
            ring_search(dropped@, scx as int, scz as int, 1, -1, -1) == ring_search(
                dropped@,
                scx as int,
                scz as int,
                r as int,
                dz as int,
                dx as int,
            ),
        decreases 200 - r, r + 2 - dz, r + 2 - dx,
    {
        if dz > r {
            r = r + 1;
            dz = -r;
            dx = -r;
        } else if dx > r {
            dz = dz + 1;
            dx = -r;
        } else {
            let adx = if dx < 0 {
                -dx
            } else {
                dx
            };
            let adz = if dz < 0 {
                -dz
            } else {
                dz
            };
            let m = if adx > adz {
                adx
            } else {
                adz
            };
            if m == r && !too_close(dropped, scx + dx, scz + dz) {
                let x = ((scx + dx) * 16 + 8) as i32;
                let z = ((scz + dz) * 16 + 8) as i32;
                return Some((x, orig.1, z));
            }
            dx = dx + 1;
        }
    }
    None
}

// ---------------------------------------------------------------------
// PS3 PARAM.SFO.
// ---------------------------------------------------------------------

/// `l` with `k` set to `v`: replaced in place where present, else appended.
pub open spec fn assoc_put(l: Seq<(Seq<char>, Seq<char>)>, k: Seq<char>, v: Seq<char>) -> Seq<(Seq<char>, Seq<char>)>
    decreases l.len(),
{
    if l.len() == 0 {
        seq![(k, v)]
    } else if l[0].0 == k {
        seq![(k, v)] + l.drop_first()
    } else {
        seq![l[0]] + assoc_put(l.drop_first(), k, v)
    }
}

/// The bytes of `s` before its first zero.
pub open spec fn before_zero(s: Seq<u8>) -> Seq<u8> {
    match first_byte(s, 0) {
        Some(i) => s.take(i),
        None => s,
    }
}

/// The key and value of PARAM.SFO record `i`, if it has a usable one: the
/// key is the NUL-terminated text at the key table plus its offset; a UTF-8
/// value (format 0x0004 or 0x0204) is the text before its first NUL, a
/// 32-bit value (0x0404) its decimal text. `None` for a record with another
/// format, a value past the end, or a key offset past the end.
pub open spec fn sfo_record(d: Seq<u8>, i: int) -> Option<(Seq<char>, Seq<char>)> {
    let e = 0x14 + i * 16;
    let key_off = le_u16_at(d, e) as int;
    let fmt = le_u16_at(d, e + 2);
    let dlen = le_u16_at(d, e + 4) as int;
    let doff = le_u32_at(d, e + 8) as int;
    let ka = le_u32_at(d, 8) as int + key_off;
    let da = le_u32_at(d, 12) as int + doff;
    if ka > d.len() {
        None
    } else {
        let key = lossy_text(before_zero(d.skip(ka)));
        if (fmt == 0x0004 || fmt == 0x0204) && da + dlen <= d.len() {
            Some((key, lossy_text(before_zero(d.subrange(da, da + dlen)))))
        } else if fmt == 0x0404 && da + 4 <= d.len() {
            Some((key, crate::anvil::decimal(le_u32_at(d, da) as nat)))
        } else {
            None
        }
    }
}

/// The records of a PARAM.SFO from record `i` on, set into `acc` in turn;
/// reading stops at the count in the header or at a record past the end.
pub open spec fn sfo_fold(d: Seq<u8>, i: int, acc: Seq<(Seq<char>, Seq<char>)>) -> Seq<(Seq<char>, Seq<char>)>
    decreases le_u32_at(d, 16) - i,
{
    if i < 0 || i >= le_u32_at(d, 16) || 0x14 + i * 16 + 16 > d.len() {
        acc
    } else {
        let next = match sfo_record(d, i) {
            Some((k, v)) => assoc_put(acc, k, v),
            None => acc,
        };
        sfo_fold(d, i + 1, next)
    }
}

/// The key-value pairs of a PARAM.SFO file, empty where it lacks the
/// `\0PSF` magic or a full header.
pub open spec fn sfo_pairs(d: Seq<u8>) -> Seq<(Seq<char>, Seq<char>)> {
    if d.len() < 0x14 || d.take(4) != seq![0x00u8, 0x50, 0x53, 0x46] {
        seq![]
    } else {
        sfo_fold(d, 0, seq![])
    }
}

fn put_pair(l: &mut Vec<(String, String)>, k: String, v: String)
    ensures
        pairs_view(final(l)@) == assoc_put(pairs_view(old(l)@), k@, v@),
{
    let n = l.len();
    let mut i: usize = 0;
    let ghost orig = pairs_view(l@);
    assert(orig.skip(0) =~= orig);
    assert(orig.take(0) + assoc_put(orig.skip(0), k@, v@) =~= assoc_put(orig, k@, v@));
    while i < n
        invariant
            n == l@.len(),
            i <= n,
            l@ == old(l)@,
            orig == pairs_view(l@),
            assoc_put(orig, k@, v@) == orig.take(i as int) + assoc_put(orig.skip(i as int), k@, v@),
            forall|j: int| 0 <= j < i ==> orig[j].0 != k@,
        decreases n - i,
    {
        assert(orig.skip(i as int).drop_first() =~= orig.skip(i + 1));
        assert(orig.skip(i as int)[0] == orig[i as int]);
        if crate::text::same_text(l[i].0.as_str(), k.as_str()) {
            assert(orig.skip(i as int)[0].0 == k@);
            l.set(i, (k, v));
            assert(pairs_view(l@) =~= orig.take(i as int) + (seq![(k@, v@)] + orig.skip(i as int).drop_first()));
            return;
        }
        assert(orig.take(i + 1) =~= orig.take(i as int).push(orig[i as int]));
        assert(orig.take(i as int) + (seq![orig[i as int]] + assoc_put(orig.skip(i + 1), k@, v@)) =~= orig.take(i + 1) + assoc_put(orig.skip(i + 1), k@, v@));
        i += 1;
    }
    assert(orig.skip(n as int) =~= Seq::<(Seq<char>, Seq<char>)>::empty());
    assert(orig.take(n as int) =~= orig);
    l.push((k, v));
    assert(pairs_view(l@) =~= orig + seq![(k@, v@)]);
}

/// The text pairs of a list.
pub open spec fn pairs_view(l: Seq<(String, String)>) -> Seq<(Seq<char>, Seq<char>)> {
    Seq::new(l.len(), |i: int| (l[i].0@, l[i].1@))
}

fn text_before_zero(s: &[u8]) -> (r: String)
    ensures
        r@ == lossy_text(before_zero(s@)),
{
    match find_byte(s, 0) {
        Some(i) => {
            proof {
                lemma_first_byte_bound(s@, 0, i as int);
            }
            let t = slice_range(s, 0, i);
            assert(t@ =~= s@.take(i as int));
            text_from_bytes_lossy(t)
        },
        None => text_from_bytes_lossy(s),
    }
}

/// Parses a PARAM.SFO file (see `sfo_pairs`).
pub fn parse_param_sfo(data: &[u8]) -> (r: Vec<(String, String)>)
    ensures
        pairs_view(r@) == sfo_pairs(data@),
{
    let mut out: Vec<(String, String)> = Vec::new();
    let len = data.len();
    if len < 0x14 || data[0] != 0 || data[1] != 0x50 || data[2] != 0x53 || data[3] != 0x46 {
        proof {
            if len >= 0x14 {
                assert(data@.take(4)[0] == data@[0]);
                assert(data@.take(4)[1] == data@[1]);
                assert(data@.take(4)[2] == data@[2]);
                assert(data@.take(4)[3] == data@[3]);
            }
        }
        assert(pairs_view(out@) =~= Seq::<(Seq<char>, Seq<char>)>::empty());
        return out;
    }
    assert(data@.take(4) =~= seq![0x00u8, 0x50, 0x53, 0x46]);
    let key_tbl = get_u32_le(data, 8) as u64;
    let data_tbl = get_u32_le(data, 12) as u64;
    let count = get_u32_le(data, 16);
    let mut i: u32 = 0;
    assert(pairs_view(out@) =~= Seq::<(Seq<char>, Seq<char>)>::empty());
    while i < count
        invariant
            len == data@.len(),
            len >= 0x14,
            key_tbl == le_u32_at(data@, 8),
            data_tbl == le_u32_at(data@, 12),
            count == le_u32_at(data@, 16),
            sfo_fold(data@, 0, seq![]) == sfo_fold(data@, i as int, pairs_view(out@)),
        ensures
            sfo_fold(data@, 0, seq![]) == pairs_view(out@),
        decreases count - i,
    {
        let e: u64 = 0x14 + i as u64 * 16;
        if e + 16 > len as u64 {
            break;
        }
        let eu = e as usize;
        let key_off = get_u16_le(data, eu) as u64;
        let fmt = get_u16_le(data, eu + 2);
        let dlen = get_u16_le(data, eu + 4) as u64;
        let doff = get_u32_le(data, eu + 8) as u64;
        let ka = key_tbl + key_off;
        let da = data_tbl + doff;
        let ghost prev = pairs_view(out@);
        if ka <= len as u64 {
            let ks = slice_range(data, ka as usize, len);
            assert(ks@ =~= data@.skip(ka as int));
            let key = text_before_zero(ks);
            if (fmt == 0x0004 || fmt == 0x0204) && da + dlen <= len as u64 {
                let val = text_before_zero(slice_range(data, da as usize, (da + dlen) as usize));
                put_pair(&mut out, key, val);
            } else if fmt == 0x0404 && da + 4 <= len as u64 {
                let v = get_u32_le(data, da as usize);
                let val = decimal_usize(v as usize);
                put_pair(&mut out, key, val);
            }
        }
        i += 1;
    }
    out
}

/// The value of `key` in a list of pairs, if any.
pub open spec fn assoc_get(l: Seq<(Seq<char>, Seq<char>)>, key: Seq<char>) -> Option<Seq<char>>
    decreases l.len(),
{
    if l.len() == 0 {
        None
    } else if l[0].0 == key {
        Some(l[0].1)
    } else {
        assoc_get(l.drop_first(), key)
    }
}

/// The value of `key` among parsed PARAM.SFO pairs.
pub fn sfo_get(l: &Vec<(String, String)>, key: &str) -> (r: Option<String>)
    ensures
        match r {
            Some(v) => assoc_get(pairs_view(l@), key@) == Some(v@),
            None => assoc_get(pairs_view(l@), key@) is None,
        },
{
    let ghost p = pairs_view(l@);
    let mut i: usize = 0;
    assert(p.skip(0) =~= p);
    while i < l.len()
        invariant
            i <= l@.len(),
            p == pairs_view(l@),
            assoc_get(p, key@) == assoc_get(p.skip(i as int), key@),
        decreases l@.len() - i,
    {
        assert(p.skip(i as int).drop_first() =~= p.skip(i + 1));
        assert(p.skip(i as int)[0] == p[i as int]);
        if crate::text::same_text(l[i].0.as_str(), key) {
            return Some(crate::anvil::owned(l[i].1.as_str()));
        }
        i += 1;
    }
    None
}

// ---------------------------------------------------------------------
// Converting the files of a save.
// ---------------------------------------------------------------------

/// The bytes of a file of a save: its range of the data, or nothing where
/// the range runs past the end.
pub open spec fn entry_blob(d: Seq<u8>, e: FileEntryModel) -> Seq<u8> {
    let st = e.2 as int;
    let l = e.1 as int;
    if st + l <= d.len() {
        d.subrange(st, st + l)
    } else {
        seq![]
    }
}

/// Whether a file name ends in `.mcr` in any letter case.
pub open spec fn is_region_name(n: Seq<char>) -> bool {
    ends_with(encode_utf8(lowercased(n)), mcr_suffix())
}

/// The chunks of region `(rx, rz)` in `slots`.
pub open spec fn slot_chunks(rx: i32, rz: i32, slots: Seq<usize>) -> Seq<(i32, i32)> {
    Seq::new(
        slots.len(),
        |k: int|
            (
                rx.wrapping_mul(32).wrapping_add((slots[k] % 32) as i32),
                rz.wrapping_mul(32).wrapping_add((slots[k] / 32) as i32),
            ),
    )
}

/// The slot outcomes given for entry `i`, or none.
pub open spec fn entry_outcomes(
    outs: Seq<Seq<Result<Seq<u8>, Seq<char>>>>,
    i: int,
) -> Seq<Result<Seq<u8>, Seq<char>>> {
    if 0 <= i < outs.len() {
        outs[i]
    } else {
        Seq::empty()
    }
}

/// Per-entry slot outcomes as values.
pub open spec fn entry_outcomes_view(o: Seq<Vec<Result<Vec<u8>, String>>>) -> Seq<Seq<Result<Seq<u8>, Seq<char>>>> {
    Seq::new(o.len(), |i: int| outcomes_view(o[i]@))
}

/// The files of an Xbox 360 save converted for Windows 64, given the
/// decoding outcomes of the chunks of each entry, and the overworld chunks
/// that had to be dropped: region files (`.mcr`, not empty) are converted
/// with their coordinates, others kept.
pub open spec fn bin_files(
    d: Seq<u8>,
    es: Seq<FileEntryModel>,
    outs: Seq<Seq<Result<Seq<u8>, Seq<char>>>>,
) -> (Seq<Seq<u8>>, Seq<(i32, i32)>)
    decreases es.len(),
{
    if es.len() == 0 {
        (seq![], seq![])
    } else {
        let (b, dr) = bin_files(d, es.drop_last(), outs);
        let e = es.last();
        let raw = entry_blob(d, e);
        if is_region_name(e.0) && raw.len() > 0 {
            let info = region_file_info(e.0);
            let xy = match info {
                Some((_dim, x, z)) => Some((x, z)),
                None => None,
            };
            let (conv, slots) = converted_region(raw, xy, entry_outcomes(outs, es.len() - 1));
            let dr2 = match info {
                Some((dim, rx, rz)) => if dim == "overworld"@ {
                    dr + slot_chunks(rx, rz, slots)
                } else {
                    dr
                },
                None => dr,
            };
            (b.push(conv), dr2)
        } else {
            (b.push(raw), dr)
        }
    }
}

fn entry_bytes(d: &[u8], e: &FileEntry) -> (r: Vec<u8>)
    ensures
        r@ == entry_blob(d@, e@),
{
    let st = e.start_offset as u64;
    let l = e.length as u64;
    let mut out: Vec<u8> = Vec::new();
    if st + l <= d.len() as u64 {
        push_all(&mut out, slice_range(d, st as usize, (st + l) as usize));
    }
    out
}

fn is_region_file(name: &str) -> (r: bool)
    ensures
        r == is_region_name(name@),
{
    let lower = to_lowercase(name);
    let b = lower.as_str().as_bytes();
    let suffix: Vec<u8> = vec![0x2Eu8, 0x6D, 0x63, 0x72];
    assert(suffix@ =~= mcr_suffix());
    if b.len() < 4 {
        return false;
    }
    let r = same_bytes_at(b, b.len() - 4, suffix.as_slice());
    r
}

/// Converts the files of an Xbox 360 save given the decoding outcomes of
/// the chunks of each entry (see `bin_files`).
pub fn convert_bin_files_from_outcomes(
    d: &[u8],
    entries: &[FileEntry],
    outs: &[Vec<Result<Vec<u8>, String>>],
) -> (r: (Vec<Vec<u8>>, Vec<(i32, i32)>))
    ensures
        (blobs_view(r.0@), r.1@) == bin_files(d@, entries_view(entries@), entry_outcomes_view(outs@)),
{
    let ghost es = entries_view(entries@);
    let ghost o = entry_outcomes_view(outs@);
    let mut blobs: Vec<Vec<u8>> = Vec::new();
    let mut dropped: Vec<(i32, i32)> = Vec::new();
    let mut i: usize = 0;
    assert(es.take(0) =~= Seq::<FileEntryModel>::empty());
    assert(blobs_view(blobs@) =~= Seq::<Seq<u8>>::empty());
    while i < entries.len()
        invariant
            i <= entries@.len(),
            es == entries_view(entries@),
            o == entry_outcomes_view(outs@),
            (blobs_view(blobs@), dropped@) == bin_files(d@, es.take(i as int), o),
        decreases entries@.len() - i,
    {
        assert(es.take(i + 1).drop_last() =~= es.take(i as int));
        assert(es.take(i + 1).last() == entries@[i as int]@);
        let e = &entries[i];
        let raw = entry_bytes(d, e);
        let ghost before_b = blobs_view(blobs@);
        if is_region_file(e.filename.as_str()) && raw.len() > 0 {
            let info = parse_region_filename(e.filename.as_str());
            let xy = match info {
                Some((_dim, x, z)) => Some((x, z)),
                None => None,
            };
            let mut slots: Vec<usize> = Vec::new();
            let empty: Vec<Result<Vec<u8>, String>> = Vec::new();
            let eo: &[Result<Vec<u8>, String>] = if i < outs.len() {
                outs[i].as_slice()
            } else {
                empty.as_slice()
            };
            assert(outcomes_view(eo@) =~= entry_outcomes(o, i as int));
            let conv = match convert_region_from_outcomes(raw.as_slice(), &mut slots, xy, eo) {
                Ok(v) => v,
                Err(_) => Vec::new(),
            };
            assert(slots@ =~= converted_region(raw@, xy, entry_outcomes(o, i as int)).1);
            match info {
                Some((dim, rx, rz)) => {
                    if crate::text::same_text(dim, "overworld") {
                        let ghost before_d = dropped@;
                        let mut k: usize = 0;
                        while k < slots.len()
                            invariant
                                k <= slots@.len(),
                                dropped@ == before_d + slot_chunks(rx, rz, slots@.take(k as int)),
                            decreases slots@.len() - k,
                        {
                            let sl = slots[k];
                            dropped.push((rx.wrapping_mul(32).wrapping_add((sl % 32) as i32), rz.wrapping_mul(32).wrapping_add((sl / 32) as i32)));
                            k += 1;
                            assert(dropped@ =~= before_d + slot_chunks(rx, rz, slots@.take(k as int)));
                        }
                        assert(slots@.take(k as int) =~= slots@);
                    }
                },
                None => {},
            }
            blobs.push(conv);
            assert(blobs_view(blobs@) =~= before_b.push(conv@));
        } else {
            blobs.push(raw);
            assert(blobs_view(blobs@) =~= before_b.push(raw@));
        }
        i += 1;
    }
    assert(es.take(i as int) =~= es);
    (blobs, dropped)
}

/// Whether entry `e` of save `d` is a region file to convert: named
/// `.mcr` and not empty.
pub open spec fn bin_region(d: Seq<u8>, e: FileEntryModel) -> bool {
    is_region_name(e.0) && entry_blob(d, e).len() > 0
}

/// Whether `esegs` are the decoding tries made for each entry of save `d`:
/// those of its region (see `slot_attempts`) for a region file, none for
/// another file.
pub open spec fn entry_attempts(d: Seq<u8>, es: Seq<FileEntryModel>, esegs: Seq<Seq<Seq<FreshCall>>>) -> bool {
    &&& esegs.len() == es.len()
    &&& forall|i: int|
        0 <= i < es.len() ==> if bin_region(d, es[i]) {
            slot_attempts(entry_blob(d, es[i]), #[trigger] esegs[i])
        } else {
            esegs[i].len() == 0
        }
}

/// What decoding gave for the chunks of each entry, from the tries made.
pub open spec fn entry_results(
    d: Seq<u8>,
    es: Seq<FileEntryModel>,
    esegs: Seq<Seq<Seq<FreshCall>>>,
) -> Seq<Seq<Result<Seq<u8>, Seq<char>>>> {
    Seq::new(
        es.len(),
        |i: int|
            if bin_region(d, es[i]) {
                slot_outcomes(entry_blob(d, es[i]), esegs[i])
            } else {
                Seq::empty()
            },
    )
}

/// The tries of all entries one after another.
pub open spec fn entry_calls(esegs: Seq<Seq<Seq<FreshCall>>>) -> Seq<FreshCall>
    decreases esegs.len(),
{
    if esegs.len() == 0 {
        Seq::empty()
    } else {
        entry_calls(esegs.drop_last()) + joined_calls(esegs.last())
    }
}

/// Converts the files of an Xbox 360 save for Windows 64: the chunks of
/// each region file are decoded through `dec` (see `convert_region`; the
/// tries added to the session are those of each region file in turn), and
/// the files are `bin_files` of those outcomes.
pub fn convert_bin_files<D: LzxDecoder>(d: &[u8], entries: &[FileEntry], dec: &mut LzxSession<D>) -> (r: (
    Vec<Vec<u8>>,
    Vec<(i32, i32)>,
))
    ensures
        final(dec).stream_calls() == old(dec).stream_calls(),
        exists|esegs: Seq<Seq<Seq<FreshCall>>>|
            {
                &&& entry_attempts(d@, entries_view(entries@), esegs)
                &&& final(dec).fresh_calls() == old(dec).fresh_calls() + entry_calls(esegs)
                &&& (blobs_view(r.0@), r.1@) == bin_files(
                    d@,
                    entries_view(entries@),
                    #[trigger] entry_results(d@, entries_view(entries@), esegs),
                )
            },
{
    let ghost es = entries_view(entries@);
    let ghost f0 = dec.fresh_calls();
    let ghost mut esegs: Seq<Seq<Seq<FreshCall>>> = Seq::empty();
    let mut outs: Vec<Vec<Result<Vec<u8>, String>>> = Vec::new();
    let mut i: usize = 0;
    while i < entries.len()
        invariant
            i <= entries@.len(),
            es == entries_view(entries@),
            esegs.len() == i,
            outs@.len() == i,
            f0 == old(dec).fresh_calls(),
            dec.stream_calls() == old(dec).stream_calls(),
            dec.fresh_calls() == f0 + entry_calls(esegs),
            forall|k: int|
                0 <= k < i ==> if bin_region(d@, es[k]) {
                    slot_attempts(entry_blob(d@, es[k]), #[trigger] esegs[k])
                } else {
                    esegs[k].len() == 0
                },
            forall|k: int|
                0 <= k < i ==> outcomes_view((#[trigger] outs@[k])@) == if bin_region(d@, es[k]) {
                    slot_outcomes(entry_blob(d@, es[k]), esegs[k])
                } else {
                    Seq::empty()
                },
        decreases entries@.len() - i,
    {
        let e = &entries[i];
        let raw = entry_bytes(d, e);
        let ghost before = dec.fresh_calls();
        let ghost mut segs: Seq<Seq<FreshCall>> = Seq::empty();
        assert(es[i as int] == entries@[i as int]@);
        if is_region_file(e.filename.as_str()) && raw.len() > 0 {
            let o = region_outcomes(raw.as_slice(), dec);
            proof {
                segs = choose|segs: Seq<Seq<FreshCall>>|
                    {
                        &&& slot_attempts(raw@, segs)
                        &&& dec.fresh_calls() == before + joined_calls(segs)
                        &&& outcomes_view(o@) == #[trigger] slot_outcomes(raw@, segs)
                    };
            }
            outs.push(o);
        } else {
            let o: Vec<Result<Vec<u8>, String>> = Vec::new();
            proof {
                assert(joined_calls(segs) == Seq::<FreshCall>::empty());
                assert(dec.fresh_calls() =~= before + joined_calls(segs));
                assert(outcomes_view(o@) =~= Seq::<Result<Seq<u8>, Seq<char>>>::empty());
            }
            outs.push(o);
        }
        proof {
            let e2 = esegs.push(segs);
            assert(e2.drop_last() =~= esegs);
            assert(dec.fresh_calls() =~= f0 + entry_calls(e2));
            assert(outs@[i as int] == outs@.last());
            esegs = e2;
        }
        i += 1;
    }
    proof {
        assert(entry_outcomes_view(outs@) =~= entry_results(d@, es, esegs));
    }
    convert_bin_files_from_outcomes(d, entries, outs.as_slice())
}

/// The files of a PS3 save converted for Windows 64: region files
/// converted, `level.dat` renamed to the save title where there is one,
/// others kept.
pub open spec fn ps3_files(d: Seq<u8>, es: Seq<FileEntryModel>, title: Seq<char>) -> Seq<Seq<u8>>
    decreases es.len(),
{
    if es.len() == 0 {
        seq![]
    } else {
        let b = ps3_files(d, es.drop_last(), title);
        let e = es.last();
        let raw = entry_blob(d, e);
        if is_region_name(e.0) && raw.len() > 0 {
            b.push(converted_region_ps3(raw))
        } else if lowercased(e.0) == "level.dat"@ && title.len() > 0 && raw.len() > 0 {
            b.push(patched_level_name(raw, title))
        } else {
            b.push(raw)
        }
    }
}

/// Converts the files of a PS3 save (see `ps3_files`).
pub fn convert_ps3_files(d: &[u8], entries: &[FileEntry], save_title: &str) -> (r: Vec<Vec<u8>>)
    ensures
        blobs_view(r@) == ps3_files(d@, entries_view(entries@), save_title@),
{
    let ghost es = entries_view(entries@);
    let mut blobs: Vec<Vec<u8>> = Vec::new();
    let mut i: usize = 0;
    assert(es.take(0) =~= Seq::<FileEntryModel>::empty());
    assert(blobs_view(blobs@) =~= Seq::<Seq<u8>>::empty());
    while i < entries.len()
        invariant
            i <= entries@.len(),
            es == entries_view(entries@),
            blobs_view(blobs@) == ps3_files(d@, es.take(i as int), save_title@),
        decreases entries@.len() - i,
    {
        assert(es.take(i + 1).drop_last() =~= es.take(i as int));
        assert(es.take(i + 1).last() == entries@[i as int]@);
        let e = &entries[i];
        let raw = entry_bytes(d, e);
        let ghost before_b = blobs_view(blobs@);
        let blob = if is_region_file(e.filename.as_str()) && raw.len() > 0 {
            match convert_region_ps3(raw.as_slice()) {
                Ok(v) => v,
                Err(_) => Vec::new(),
            }
        } else {
            let lower = to_lowercase(e.filename.as_str());
            if crate::text::same_text(lower.as_str(), "level.dat") && !save_title.is_empty() && raw.len() > 0 {
                patch_level_name(raw.as_slice(), save_title)
            } else {
                raw
            }
        };
        let ghost bv = blob@;
        blobs.push(blob);
        assert(blobs_view(blobs@) =~= before_b.push(bv));
        i += 1;
    }
    assert(es.take(i as int) =~= es);
    blobs
}

/// The index of the first file named `level.dat` in any letter case.
pub open spec fn level_dat_index(es: Seq<FileEntryModel>) -> Option<int>
    decreases es.len(),
{
    if es.len() == 0 {
        None
    } else {
        match level_dat_index(es.drop_last()) {
            Some(i) => Some(i),
            None => if lowercased(es.last().0) == "level.dat"@ {
                Some(es.len() - 1)
            } else {
                None
            },
        }
    }
}

/// The spawn point of a converted save after moving it away from dropped
/// chunks: read from the first `level.dat`; where a safe spawn is found
/// it is written there and returned, otherwise the old one is returned.
pub open spec fn relocated_spawn(blobs: Seq<Seq<u8>>, es: Seq<FileEntryModel>, dropped: Seq<(i32, i32)>) -> (Seq<Seq<u8>>, Option<(i32, i32, i32)>) {
    if dropped.len() == 0 {
        (blobs, None)
    } else {
        match level_dat_index(es) {
            None => (blobs, None),
            Some(i) => match raw_spawn(blobs[i]) {
                None => (blobs, None),
                Some(sp) => match safe_spawn(dropped, sp) {
                    Some(ns) => (blobs.update(i, patched_spawn(blobs[i], ns.0, ns.1, ns.2)), Some(ns)),
                    None => (blobs, Some(sp)),
                },
            },
        }
    }
}

/// Moves the spawn of a converted save away from dropped chunks (see
/// `relocated_spawn`) and returns the spawn to use.
pub fn relocate_spawn(blobs: &mut Vec<Vec<u8>>, entries: &[FileEntry], dropped: &[(i32, i32)]) -> (r: Option<(i32, i32, i32)>)
    requires
        old(blobs)@.len() == entries@.len(),
    ensures
        (blobs_view(final(blobs)@), r) == relocated_spawn(blobs_view(old(blobs)@), entries_view(entries@), dropped@),
{
    if dropped.len() == 0 {
        return None;
    }
    let ghost es = entries_view(entries@);
    let mut i: usize = 0;
    assert(es.take(0) =~= Seq::<FileEntryModel>::empty());
    while i < entries.len()
        invariant
            i <= entries@.len(),
            es == entries_view(entries@),
            blobs@.len() == entries@.len(),
            blobs@ == old(blobs)@,
            dropped@.len() > 0,
            level_dat_index(es.take(i as int)) is None,
        decreases entries@.len() - i,
    {
        assert(es.take(i + 1).drop_last() =~= es.take(i as int));
        assert(es.take(i + 1).last() == entries@[i as int]@);
        let lower = to_lowercase(entries[i].filename.as_str());
        if crate::text::same_text(lower.as_str(), "level.dat") {
            proof {
                lemma_level_dat_index_prefix(es, (i + 1) as int);
            }
            let sp = read_spawn(blobs[i].as_slice());
            match sp {
                None => return None,
                Some(s) => match find_safe_spawn(dropped, s) {
                    Some(ns) => {
                        let mut b: Vec<u8> = Vec::new();
                        push_all(&mut b, blobs[i].as_slice());
                        patch_spawn(b.as_mut_slice(), ns.0, ns.1, ns.2);
                        let ghost patched = b@;
                        assert(patched == patched_spawn(blobs_view(old(blobs)@)[i as int], ns.0, ns.1, ns.2));
                        blobs.set(i, b);
                        assert(blobs_view(blobs@) =~= blobs_view(old(blobs)@).update(i as int, patched));
                        return Some(ns);
                    },
                    None => return Some(s),
                },
            }
        }
        i += 1;
    }
    assert(es.take(i as int) =~= es);
    None
}

proof fn lemma_level_dat_index_prefix(es: Seq<FileEntryModel>, n: int)
    requires
        0 < n <= es.len(),
        level_dat_index(es.take(n - 1)) is None,
        lowercased(es[n - 1].0) == "level.dat"@,
    ensures
        level_dat_index(es) == Some(n - 1),
    decreases es.len() - n,
{
    if n < es.len() {
        assert(es.drop_last().take(n - 1) =~= es.take(n - 1));
        lemma_level_dat_index_prefix(es.drop_last(), n);
    } else {
        assert(es.take(n - 1) =~= es.drop_last());
    }
}


/// A level.dat whose spawn fields are consecutive Int tags, `SpawnX` at
/// `i`, then `SpawnY` and `SpawnZ`, each the first of its name, as the
/// Console layout writes them.
pub open spec fn spawn_fields_at(d: Seq<u8>, i: int) -> bool {
    find_sig(d, spawn_sig(0x58)) == Some(i) && find_sig(d, spawn_sig(0x59)) == Some(i + 13)
        && find_sig(d, spawn_sig(0x5A)) == Some(i + 26) && i + 39 <= d.len()
}

/// `d` with the big-endian bytes of `v` at `p..p + 4`.
pub open spec fn with_value(d: Seq<u8>, p: int, v: i32) -> Seq<u8> {
    d.subrange(0, p) + u32_be(v as u32) + d.subrange(p + 4, d.len() as int)
}

proof fn lemma_first_occurrence(d: Seq<u8>, sig: Seq<u8>, i: int, j: int)
    requires
        0 <= i <= j,
        sig.len() > 0,
        occurs_at(d, sig, j),
        forall|k: int| i <= k < j ==> !occurs_at(d, sig, k),
    ensures
        find_from(d, sig, i) == Some(j),
    decreases j - i,
{
    if i < j {
        lemma_first_occurrence(d, sig, i + 1, j);
    }
}

proof fn lemma_before_first(d: Seq<u8>, sig: Seq<u8>, i: int, j: int, k: int)
    requires
        find_from(d, sig, i) == Some(j),
        i <= k < j,
    ensures
        !occurs_at(d, sig, k),
    decreases d.len() - i,
{
    if k > i {
        lemma_before_first(d, sig, i + 1, j, k);
    }
}

/// Two spawn signatures never overlap: the first byte of one occurs
/// nowhere else in the other.
proof fn lemma_spawn_sigs_apart(d: Seq<u8>, a: u8, b: u8, k: int, q: int)
    requires
        a == 0x58 || a == 0x59 || a == 0x5A,
        b == 0x58 || b == 0x59 || b == 0x5A,
        occurs_at(d, spawn_sig(a), k),
        occurs_at(d, spawn_sig(b), q),
        k <= q,
        !(k == q && a == b),
    ensures
        q >= k + 9,
{
    if q < k + 9 {
        assert(d.subrange(k, k + 9)[q - k] == spawn_sig(a)[q - k]);
        assert(d.subrange(q, q + 9)[0] == spawn_sig(b)[0]);
        if k == q {
            assert(d.subrange(k, k + 9)[8] == spawn_sig(a)[8]);
            assert(d.subrange(q, q + 9)[8] == spawn_sig(b)[8]);
        }
    }
}

proof fn lemma_no_earlier_sig(d: Seq<u8>, i: int, p: int, v: i32, a: u8, ia: int)
    requires
        spawn_fields_at(d, i),
        p == i + 9 || p == i + 22 || p == i + 35,
        a == 0x58 && ia == i || a == 0x59 && ia == i + 13 || a == 0x5A && ia == i + 26,
        occurs_at(with_value(d, p, v), spawn_sig(0x58), i),
        occurs_at(with_value(d, p, v), spawn_sig(0x59), i + 13),
        occurs_at(with_value(d, p, v), spawn_sig(0x5A), i + 26),
        forall|m: int| 0 <= m < d.len() && !(p <= m < p + 4) ==> #[trigger] with_value(d, p, v)[m] == d[m],
        with_value(d, p, v).len() == d.len(),
    ensures
        forall|k: int| 0 <= k < ia ==> !occurs_at(with_value(d, p, v), spawn_sig(a), k),
{
    let w = with_value(d, p, v);
    assert forall|k: int| 0 <= k < ia implies !occurs_at(w, spawn_sig(a), k) by {
        if occurs_at(w, spawn_sig(a), k) {
            if k + 9 <= p || k >= p + 4 {
                assert(w.subrange(k, k + 9) =~= d.subrange(k, k + 9));
                lemma_before_first(d, spawn_sig(a), 0, ia, k);
            } else if k <= i + 8 {
                lemma_spawn_sigs_apart(w, 0x58, a, i, k);
            } else if k <= i + 13 {
                lemma_spawn_sigs_apart(w, a, 0x59, k, i + 13);
            } else if k <= i + 21 {
                lemma_spawn_sigs_apart(w, 0x59, a, i + 13, k);
            } else {
                lemma_spawn_sigs_apart(w, a, 0x5A, k, i + 26);
            }
        }
    }
}

proof fn lemma_write_keeps_fields(d: Seq<u8>, i: int, p: int, v: i32)
    requires
        spawn_fields_at(d, i),
        p == i + 9 || p == i + 22 || p == i + 35,
    ensures
        spawn_fields_at(with_value(d, p, v), i),
        with_value(d, p, v).len() == d.len(),
        with_value(d, p, v).subrange(p, p + 4) == u32_be(v as u32),
        forall|m: int| 0 <= m < d.len() && !(p <= m < p + 4) ==> #[trigger] with_value(d, p, v)[m] == d[m],
{
    let w = with_value(d, p, v);
    lemma_find_from_bound(d, spawn_sig(0x58), 0);
    lemma_find_from_bound(d, spawn_sig(0x59), 0);
    lemma_find_from_bound(d, spawn_sig(0x5A), 0);
    assert(w.subrange(p, p + 4) =~= u32_be(v as u32));
    assert forall|m: int| 0 <= m < d.len() && !(p <= m < p + 4) implies #[trigger] w[m] == d[m] by {
        if m < p {
            assert(w[m] == d.subrange(0, p)[m]);
        } else {
            assert(w[m] == d.subrange(p + 4, d.len() as int)[m - p - 4]);
        }
    }
    assert(w.subrange(i, i + 9) =~= d.subrange(i, i + 9));
    assert(w.subrange(i + 13, i + 22) =~= d.subrange(i + 13, i + 22));
    assert(w.subrange(i + 26, i + 35) =~= d.subrange(i + 26, i + 35));
    assert(occurs_at(w, spawn_sig(0x58), i));
    assert(occurs_at(w, spawn_sig(0x59), i + 13));
    assert(occurs_at(w, spawn_sig(0x5A), i + 26));
    lemma_no_earlier_sig(d, i, p, v, 0x58, i);
    lemma_no_earlier_sig(d, i, p, v, 0x59, i + 13);
    lemma_no_earlier_sig(d, i, p, v, 0x5A, i + 26);
    lemma_first_occurrence(w, spawn_sig(0x58), 0, i);
    lemma_first_occurrence(w, spawn_sig(0x59), 0, i + 13);
    lemma_first_occurrence(w, spawn_sig(0x5A), 0, i + 26);
}

/// Where the spawn fields are laid out as the Console writes them, reading
/// the spawn back after patching it gives the patched values.
pub proof fn lemma_patched_spawn_reads_back(d: Seq<u8>, i: int, x: i32, y: i32, z: i32)
    requires
        spawn_fields_at(d, i),
    ensures
        raw_spawn(patched_spawn(d, x, y, z)) == Some((x, y, z)),
{
    lemma_find_from_bound(d, spawn_sig(0x58), 0);
    let d1 = with_value(d, i + 9, x);
    assert(patched_axis(d, 0x58, x) == d1);
    lemma_write_keeps_fields(d, i, i + 9, x);
    let d2 = with_value(d1, i + 22, y);
    assert(patched_axis(d1, 0x59, y) == d2);
    lemma_write_keeps_fields(d1, i, i + 22, y);
    let d3 = with_value(d2, i + 35, z);
    assert(patched_axis(d2, 0x5A, z) == d3);
    lemma_write_keeps_fields(d2, i, i + 35, z);
    assert(patched_spawn(d, x, y, z) == d3);
    assert(d3.subrange(i + 9, i + 13) =~= d1.subrange(i + 9, i + 13));
    assert(d3.subrange(i + 22, i + 26) =~= d2.subrange(i + 22, i + 26));
    crate::bytes::lemma_be_u32_roundtrip(d3, i + 9, x as u32);
    crate::bytes::lemma_be_u32_roundtrip(d3, i + 22, y as u32);
    crate::bytes::lemma_be_u32_roundtrip(d3, i + 35, z as u32);
    crate::bytes::lemma_i32_bits(x);
    crate::bytes::lemma_i32_bits(y);
    crate::bytes::lemma_i32_bits(z);
}

proof fn lemma_level_dat_index_bound(es: Seq<FileEntryModel>)
    ensures
        level_dat_index(es) matches Some(i) ==> 0 <= i < es.len(),
    decreases es.len(),
{
    if es.len() > 0 {
        lemma_level_dat_index_bound(es.drop_last());
    }
}

/// Whatever spawn relocation returns is the spawn that the save's
/// `level.dat` then holds, where its spawn fields are laid out as the
/// Console writes them.
pub proof fn lemma_relocated_spawn_reads_back(
    blobs: Seq<Seq<u8>>,
    es: Seq<FileEntryModel>,
    dropped: Seq<(i32, i32)>,
    i: int,
    at: int,
)
    requires
        blobs.len() == es.len(),
        level_dat_index(es) == Some(i),
        spawn_fields_at(blobs[i], at),
    ensures
        relocated_spawn(blobs, es, dropped).1 matches Some(p) ==> raw_spawn(relocated_spawn(blobs, es, dropped).0[i]) == Some(p),
{
    lemma_level_dat_index_bound(es);
    let b = blobs[i];
    match raw_spawn(b) {
        Some(sp) => match safe_spawn(dropped, sp) {
            Some(ns) => {
                lemma_patched_spawn_reads_back(b, at, ns.0, ns.1, ns.2);
            },
            None => {},
        },
        None => {},
    }
}

} // verus!
