use crate::bytes::{le_u32_at, push_u16_le, push_u32_be, push_u32_le, push_u64_le, u16_le, u32_le, u64_le};
use crate::compress::{zlib_compress, zlib_compressed, zlib_decompress, zlib_inflated};
use crate::nbt::{
    lookup, read_nbt, spec_read_nbt, spec_write_nbt, without_name, write_nbt, CompoundModel,
    NbtCompound, NbtTag, NbtValue,
};
use crate::rle::{rle_decode, spec_rle_decode, spec_rle_encode};
use crate::text::{encode_utf16, parse_i32, spec_parse_i32, split_at_byte, split_ranges, text_bytes, utf16_units};
use vstd::prelude::*;
use vstd::utf8::*;

verus! {

/// Bytes in one region sector.
pub const SECTOR_BYTES: usize = 4096;

// ---------------------------------------------------------------------
// Compression helpers.
// ---------------------------------------------------------------------

/// Zlib-compresses at the best level.
pub fn compress_zlib(data: &[u8]) -> (r: Vec<u8>)
    ensures
        r@ == zlib_compressed(data@, 9),
        zlib_inflated(r@) == Some(data@),
        r@.len() >= 6,
{
    zlib_compress(data, 9)
}

/// The chunk compression of LCE region files: zlib at the best level.
pub fn compress_zlib_only(data: &[u8]) -> (r: Vec<u8>)
    ensures
        r@ == zlib_compressed(data@, 9),
        zlib_inflated(r@) == Some(data@),
{
    compress_zlib(data)
}

/// Inflates a zlib stream.
pub fn decompress_zlib(data: &[u8]) -> (r: Result<Vec<u8>, String>)
    ensures
        match zlib_inflated(data@) {
            Some(v) => r matches Ok(x) && x@ == v,
            None => r is Err,
        },
{
    zlib_decompress(data)
}

/// Inflates a zlib stream, then undoes the console run-length encoding
/// into `decompressed_size` bytes.
pub fn decompress_rle_zlib(data: &[u8], decompressed_size: usize) -> (r: Result<Vec<u8>, String>)
    ensures
        match zlib_inflated(data@) {
            Some(v) => r matches Ok(x) && x@ == spec_rle_decode(v, decompressed_size as int),
            None => r is Err,
        },
{
    match decompress_zlib(data) {
        Ok(rle_data) => Ok(rle_decode(rle_data.as_slice(), decompressed_size)),
        Err(e) => Err(e),
    }
}

/// Round trip of the chunk compression: a zlib stream that inflates to the
/// run-length encoding of `d` (as every stream that `compress_zlib_only`
/// makes of that encoding does) decodes to `d` again through
/// `decompress_rle_zlib` with `d`'s length.
pub proof fn lemma_rle_zlib_roundtrip(d: Seq<u8>, stream: Seq<u8>)
    requires
        zlib_inflated(stream) == Some(spec_rle_encode(d)),
    ensures
        zlib_inflated(stream) matches Some(v) && spec_rle_decode(v, d.len() as int) == d,
{
    crate::rle::lemma_rle_roundtrip(d);
}

// ---------------------------------------------------------------------
// Region file names.
// ---------------------------------------------------------------------

/// The coordinates that a file stem such as `r.-1.2` names: the last two
/// dot-separated parts as decimal numbers (0 where one does not parse), or
/// (0, 0) when there are fewer than three parts.
pub open spec fn stem_coordinates(stem: Seq<u8>) -> (i32, i32) {
    let parts = split_ranges(stem, 46);
    if parts.len() < 3 {
        (0, 0)
    } else {
        let a = parts[parts.len() - 2];
        let b = parts[parts.len() - 1];
        (
            match spec_parse_i32(stem.subrange(a.0, a.1)) {
                Some(v) => v,
                None => 0,
            },
            match spec_parse_i32(stem.subrange(b.0, b.1)) {
                Some(v) => v,
                None => 0,
            },
        )
    }
}

/// Reads the region coordinates out of a file stem.
pub fn region_coordinates_from_stem(stem: &str) -> (r: (i32, i32))
    ensures
        r == stem_coordinates(encode_utf8(stem@)),
{
    let bytes = text_bytes(stem);
    let parts = split_at_byte(bytes.as_slice(), 46);
    let n = parts.len();
    if n < 3 {
        return (0, 0);
    }
    let (a0, a1) = parts[n - 2];
    let (b0, b1) = parts[n - 1];
    let rx = match parse_i32(slice_range(bytes.as_slice(), a0, a1)) {
        Some(v) => v,
        None => 0,
    };
    let rz = match parse_i32(slice_range(bytes.as_slice(), b0, b1)) {
        Some(v) => v,
        None => 0,
    };
    (rx, rz)
}

/// `s[from..to]`.
pub fn slice_range(s: &[u8], from: usize, to: usize) -> (r: &[u8])
    requires
        from <= to <= s@.len(),
    ensures
        r@ == s@.subrange(from as int, to as int),
{
    let (head, _) = s.split_at(to);
    let (_, tail) = head.split_at(from);
    assert(tail@ =~= s@.subrange(from as int, to as int));
    tail
}

/// The stem that `Path::file_stem` finds in a path (its last component
/// without the extension), or empty when it finds none.
pub uninterp spec fn path_file_stem(path: Seq<char>) -> Seq<char>;

/// Calls `Path::file_stem` and converts the stem to a `String` (empty when
/// there is none). Claimed: the stem is a function of the path, which holds
/// for a given target (its separators are fixed when the crate is built).
#[verifier::external_body]
fn file_stem_of(path: &str) -> (r: String)
    ensures
        r@ == path_file_stem(path@),
{
    std::path::Path::new(path).file_stem().unwrap_or_default().to_string_lossy().to_string()
}

/// The region coordinates that a region file name carries in its stem.
pub fn parse_region_coordinates(filename: &str) -> (r: (i32, i32))
    ensures
        r == stem_coordinates(encode_utf8(path_file_stem(filename@))),
{
    let stem = file_stem_of(filename);
    region_coordinates_from_stem(stem.as_str())
}

// ---------------------------------------------------------------------
// Rewriting the coordinates inside a chunk payload.
// ---------------------------------------------------------------------

/// `c` with `xPos` and `zPos` set: inside its `Level` compound when its
/// first `Level` tag is one, at its top when it has no `Level` tag, and not
/// at all when `Level` is something else.
pub open spec fn with_level_coordinates(c: CompoundModel, x: i32, z: i32) -> CompoundModel {
    let i = crate::nbt::name_index(c.tags, "Level"@);
    if i == -1 {
        CompoundModel {
            name: c.name,
            tags: without_name(without_name(c.tags, "xPos"@).push(("xPos"@, NbtTag::Int(x))), "zPos"@).push(
                ("zPos"@, NbtTag::Int(z)),
            ),
        }
    } else {
        match c.tags[i].1 {
            NbtTag::Compound(l) => CompoundModel {
                name: c.name,
                tags: c.tags.update(
                    i,
                    (
                        c.tags[i].0,
                        NbtTag::Compound(
                            CompoundModel {
                                name: l.name,
                                tags: without_name(
                                    without_name(l.tags, "xPos"@).push(("xPos"@, NbtTag::Int(x))),
                                    "zPos"@,
                                ).push(("zPos"@, NbtTag::Int(z))),
                            },
                        ),
                    ),
                ),
            },
            _ => c,
        }
    }
}

/// `d` with the big-endian `x` and `z` written over bytes 2..10.
pub open spec fn patch_coordinates(d: Seq<u8>, x: i32, z: i32) -> Seq<u8> {
    d.subrange(0, 2) + crate::bytes::u32_be(x as u32) + crate::bytes::u32_be(z as u32) + d.subrange(
        10,
        d.len() as int,
    )
}

/// Whether `d` starts like a compressed chunk of save version 8 or 9.
pub open spec fn versioned_chunk_header(d: Seq<u8>) -> bool {
    d.len() >= 10 && (crate::bytes::be_u16_at(d, 0) == 8 || crate::bytes::be_u16_at(d, 0) == 9)
}

/// What the region writer makes of a chunk payload before storing it: an
/// NBT document is re-rooted under a `Level` tag with its coordinates set;
/// a compressed chunk of version 8 or 9 has its coordinate bytes patched;
/// anything else is dropped (empty).
pub open spec fn region_forced_payload(d: Seq<u8>, x: i32, z: i32) -> Seq<u8> {
    if d.len() == 0 {
        Seq::empty()
    } else {
        match spec_read_nbt(d) {
            Some(c) => spec_write_nbt(
                CompoundModel {
                    name: ""@,
                    tags: seq![("Level"@, NbtTag::Compound(with_level_coordinates(c, x, z)))],
                },
            ),
            None => if versioned_chunk_header(d) {
                patch_coordinates(d, x, z)
            } else {
                Seq::empty()
            },
        }
    }
}

/// Copies `data`, overwriting bytes 2..10 with the big-endian `x` and `z`.
pub(crate) fn patched_coordinates(data: &[u8], x: i32, z: i32) -> (r: Vec<u8>)
    requires
        data@.len() >= 10,
    ensures
        r@ == patch_coordinates(data@, x, z),
{
    let mut out: Vec<u8> = Vec::new();
    out.push(data[0]);
    out.push(data[1]);
    push_u32_be(&mut out, x as u32);
    push_u32_be(&mut out, z as u32);
    let mut i: usize = 10;
    while i < data.len()
        invariant
            10 <= i <= data@.len(),
            out@ == data@.subrange(0, 2) + crate::bytes::u32_be(x as u32) + crate::bytes::u32_be(
                z as u32,
            ) + data@.subrange(10, i as int),
        decreases data@.len() - i,
    {
        out.push(data[i]);
        i += 1;
        assert(out@ =~= data@.subrange(0, 2) + crate::bytes::u32_be(x as u32) + crate::bytes::u32_be(
            z as u32,
        ) + data@.subrange(10, i as int));
    }
    out
}

/// Sets `xPos` and `zPos` in a chunk payload for a region file (see
/// `region_forced_payload`).
pub fn force_chunk_coordinates(data: &[u8], expected_x: i32, expected_z: i32) -> (r: Vec<u8>)
    ensures
        r@ == region_forced_payload(data@, expected_x, expected_z),
{
    if data.len() == 0 {
        return Vec::new();
    }
    match read_nbt(data) {
        Ok(mut compound) => {
            let ghost c0 = compound@;
            let ghost t0 = compound.tags@;
            proof {
                crate::nbt::lemma_tags_model(t0);
                crate::nbt::lemma_name_index(c0.tags, "Level"@);
            }
            let has_level = compound.get("Level").is_some();
            if has_level {
                let ghost i = crate::nbt::name_index(c0.tags, "Level"@);
                match compound.get_mut("Level") {
                    Some(NbtValue::Compound(c)) => {
                        let ghost l0 = c@;
                        c.insert("xPos", NbtValue::Int(expected_x));
                        c.insert("zPos", NbtValue::Int(expected_z));
                        assert(c@.name == l0.name);
                    },
                    _ => {},
                }
                proof {
                    crate::nbt::lemma_tags_model(compound.tags@);
                    assert(compound@.tags =~= with_level_coordinates(c0, expected_x, expected_z).tags);
                }
            } else {
                compound.insert("xPos", NbtValue::Int(expected_x));
                compound.insert("zPos", NbtValue::Int(expected_z));
            }
            assert(compound@ == with_level_coordinates(c0, expected_x, expected_z));
            let mut root = NbtCompound::new("");
            root.insert("Level", NbtValue::Compound(compound));
            assert(root@.tags =~= seq![("Level"@, NbtTag::Compound(with_level_coordinates(c0, expected_x, expected_z)))]);
            write_nbt(&root)
        },
        Err(_) => {
            if data.len() >= 10 {
                let version = crate::bytes::get_u16_be(data, 0);
                if version == 8 || version == 9 {
                    return patched_coordinates(data, expected_x, expected_z);
                }
            }
            Vec::new()
        },
    }
}


// ---------------------------------------------------------------------
// The clock.
// ---------------------------------------------------------------------

/// Calls `SystemTime::now` and gives the whole seconds since the Unix epoch,
/// truncated to `i32` (0 before the epoch). Nothing is claimed of the value.
#[verifier::external_body]
pub(crate) fn now_unix_secs() -> i32 {
    std::time::SystemTime::now().duration_since(std::time::UNIX_EPOCH).unwrap_or_default().as_secs() as i32
}

/// Calls `SystemTime::now` and gives the milliseconds since the Unix epoch,
/// truncated to `i64` (0 before the epoch). Nothing is claimed of the value.
#[verifier::external_body]
pub(crate) fn now_unix_millis() -> i64 {
    std::time::SystemTime::now().duration_since(std::time::UNIX_EPOCH).unwrap_or_default().as_millis() as i64
}

/// `n` zeros.
pub fn zeros<T: Copy>(n: usize, zero: T) -> (r: Vec<T>)
    ensures
        r@ == Seq::new(n as nat, |_i: int| zero),
{
    let mut r: Vec<T> = Vec::new();
    while r.len() < n
        invariant
            r@.len() <= n,
            r@ == Seq::new(r@.len(), |_i: int| zero),
        decreases n - r@.len(),
    {
        r.push(zero);
        assert(r@ =~= Seq::new(r@.len(), |_i: int| zero));
    }
    r
}

// ---------------------------------------------------------------------
// LCE region files.
// ---------------------------------------------------------------------

/// An LCE region file being assembled: 1024 chunk slots, each an offset
/// entry (sector << 8 | sector count) and a timestamp, and the sector data.
pub struct LceRegionFile {
    filename: String,
    data: Vec<u8>,
    offsets: Vec<i32>,
    timestamps: Vec<i32>,
    region_x: i32,
    region_z: i32,
    sector_count: usize,
}

/// The state of an `LceRegionFile`, timestamps aside.
pub struct LceRegionModel {
    pub filename: Seq<char>,
    pub data: Seq<u8>,
    pub offsets: Seq<i32>,
    pub region_x: i32,
    pub region_z: i32,
    pub sector_count: nat,
}

impl View for LceRegionFile {
    type V = LceRegionModel;

    closed spec fn view(&self) -> LceRegionModel {
        LceRegionModel {
            filename: self.filename@,
            data: self.data@,
            offsets: self.offsets@,
            region_x: self.region_x,
            region_z: self.region_z,
            sector_count: self.sector_count as nat,
        }
    }
}

/// The shape every region file keeps: 1024 slots, at least the two header
/// sectors, and exactly as many data bytes as sectors.
pub open spec fn region_wf(m: LceRegionModel, timestamps: Seq<i32>) -> bool {
    &&& m.offsets.len() == 1024
    &&& timestamps.len() == 1024
    &&& m.sector_count >= 2
    &&& m.data.len() == m.sector_count * 4096
}

/// The offset-table entry of a chunk stored from `start` over `count` sectors.
pub open spec fn offset_entry(start: nat, count: nat) -> i32 {
    (((start as u32) << 8u32) | (count as u32)) as i32
}

/// The bytes a chunk occupies in its sectors: compressed length and
/// uncompressed length (little-endian), the zlib stream, then zero padding
/// to whole sectors.
pub open spec fn lce_chunk_block(payload: Seq<u8>, compressed: Seq<u8>) -> Seq<u8> {
    let total = 8 + compressed.len();
    let need = (total + 4095) / 4096;
    u32_le(compressed.len() as u32) + u32_le(payload.len() as u32) + compressed + Seq::new(
        (need * 4096 - total) as nat,
        |_i: int| 0u8,
    )
}

/// The region file after storing `payload` at slot (`x`, `z`): nothing
/// changes for a slot outside 0..32, an empty payload, a payload that
/// `region_forced_payload` drops, one that needs 256 sectors or more, or one
/// that would take the sector count past what memory can address.
/// Otherwise the chunk is appended in new sectors and its slot points there.
pub open spec fn region_after_write(m: LceRegionModel, x: i32, z: i32, payload: Seq<u8>) -> LceRegionModel {
    if x < 0 || x >= 32 || z < 0 || z >= 32 || payload.len() == 0 {
        m
    } else {
        let forced = region_forced_payload(
            payload,
            m.region_x.wrapping_mul(32).wrapping_add(x),
            m.region_z.wrapping_mul(32).wrapping_add(z),
        );
        let compressed = zlib_compressed(forced, 9);
        let need = (8 + compressed.len() + 4095) / 4096;
        if forced.len() == 0 || need >= 256 || m.sector_count + need > usize::MAX / 4096 {
            m
        } else {
            LceRegionModel {
                data: m.data + lce_chunk_block(forced, compressed),
                offsets: m.offsets.update(x + z * 32, offset_entry(m.sector_count, need as nat)),
                sector_count: m.sector_count + need as nat,
                ..m
            }
        }
    }
}

/// The timestamp table with slot `i` free to change.
pub open spec fn same_except(a: Seq<i32>, b: Seq<i32>, i: int) -> bool {
    a.len() == b.len() && forall|j: int| 0 <= j < a.len() && j != i ==> a[j] == b[j]
}

impl LceRegionFile {
    /// The timestamp table.
    pub closed spec fn times(&self) -> Seq<i32> {
        self.timestamps@
    }

    /// The size of the region file's data in bytes.
    pub fn byte_len(&self) -> (r: usize)
        ensures
            r == self@.data.len(),
    {
        self.data.len()
    }

    /// An empty region file called `filename`, with the region coordinates
    /// its stem carries.
    pub fn new(filename: &str) -> (r: LceRegionFile)
        ensures
            r@.filename == filename@,
            r@.data == Seq::new(8192, |_i: int| 0u8),
            r@.offsets == Seq::new(1024, |_i: int| 0i32),
            r.times() == Seq::new(1024, |_i: int| 0i32),
            r@.sector_count == 2,
            (r@.region_x, r@.region_z) == stem_coordinates(encode_utf8(path_file_stem(filename@))),
            region_wf(r@, r.times()),
    {
        let (region_x, region_z) = parse_region_coordinates(filename);
        let name = filename.to_string();
        proof {
            vstd::string::to_string_from_display_ensures_for_str(filename, name);
        }
        LceRegionFile {
            filename: name,
            data: zeros(SECTOR_BYTES * 2, 0u8),
            offsets: zeros(1024, 0i32),
            timestamps: zeros(1024, 0i32),
            region_x,
            region_z,
            sector_count: 2,
        }
    }

    /// Stores a chunk payload at slot (`x`, `z`) (see `region_after_write`);
    /// the slot's timestamp becomes the current time.
    pub fn write_chunk(&mut self, x: i32, z: i32, uncompressed_data: Vec<u8>)
        requires
            region_wf(old(self)@, old(self).times()),
        ensures
            final(self)@ == region_after_write(old(self)@, x, z, uncompressed_data@),
            region_wf(final(self)@, final(self).times()),
            final(self)@ == old(self)@ ==> final(self).times() == old(self).times(),
            same_except(final(self).times(), old(self).times(), x + z * 32),
    {
        if x < 0 || x >= 32 || z < 0 || z >= 32 {
            return;
        }
        if uncompressed_data.len() == 0 {
            return;
        }
        let forced = force_chunk_coordinates(
            uncompressed_data.as_slice(),
            self.region_x.wrapping_mul(32).wrapping_add(x),
            self.region_z.wrapping_mul(32).wrapping_add(z),
        );
        if forced.len() == 0 {
            return;
        }
        let compressed = compress_zlib_only(forced.as_slice());
        let clen = compressed.len();
        if clen > usize::MAX - 8 - 4095 {
            assert((8 + clen + 4095) / 4096 >= 256);
            return;
        }
        let total_size = 8 + clen;
        let sectors_needed = (total_size + 4095) / 4096;
        if sectors_needed >= 256 {
            return;
        }
        if self.sector_count > usize::MAX / 4096 - sectors_needed {
            return;
        }
        let ghost d0 = self.data@;
        let sector_number = self.sector_count;
        push_u32_le(&mut self.data, clen as u32);
        push_u32_le(&mut self.data, forced.len() as u32);
        let mut i: usize = 0;
        while i < clen
            invariant
                i <= clen,
                clen == compressed@.len(),
                self.offsets@ == old(self).offsets@,
                self.timestamps@ == old(self).timestamps@,
                self.filename@ == old(self).filename@,
                self.region_x == old(self).region_x,
                self.region_z == old(self).region_z,
                self.sector_count == old(self).sector_count,
                self.data@ == d0 + u32_le(clen as u32) + u32_le(forced@.len() as u32)
                    + compressed@.take(i as int),
            decreases clen - i,
        {
            self.data.push(compressed[i]);
            i += 1;
            assert(self.data@ =~= d0 + u32_le(clen as u32) + u32_le(forced@.len() as u32)
                + compressed@.take(i as int));
        }
        let padding = sectors_needed * SECTOR_BYTES - total_size;
        let ghost d1 = self.data@;
        let mut k: usize = 0;
        while k < padding
            invariant
                k <= padding,
                self.offsets@ == old(self).offsets@,
                self.timestamps@ == old(self).timestamps@,
                self.filename@ == old(self).filename@,
                self.region_x == old(self).region_x,
                self.region_z == old(self).region_z,
                self.sector_count == old(self).sector_count,
                self.data@ == d1 + Seq::new(k as nat, |_i: int| 0u8),
            decreases padding - k,
        {
            self.data.push(0);
            k += 1;
            assert(self.data@ =~= d1 + Seq::new(k as nat, |_i: int| 0u8));
        }
        assert(compressed@.take(clen as int) =~= compressed@);
        assert(self.data@ =~= d0 + lce_chunk_block(forced@, compressed@));
        self.sector_count = sector_number + sectors_needed;
        assert(0 <= x + z * 32 < 1024) by (nonlinear_arith)
            requires
                0 <= x < 32,
                0 <= z < 32,
        ;
        let offset_index = (x + z * 32) as usize;
        #[verifier::truncate]
        let entry = (((sector_number as u32) << 8u32) | (sectors_needed as u32)) as i32;
        self.offsets.set(offset_index, entry);
        let now = now_unix_secs();
        self.timestamps.set(offset_index, now);
    }
}


// ---------------------------------------------------------------------
// The save-data container.
// ---------------------------------------------------------------------

/// Bytes of one entry in the container's file table.
pub const FILE_ENTRY_SIZE: usize = 144;

/// One file of a save-data container.
pub struct SaveFileEntry {
    pub name: String,
    pub length: u32,
    pub start_offset: u32,
    pub last_mod: i64,
    pub current_pointer: u32,
}

/// A container file entry, its modification time aside.
pub struct EntryModel {
    pub name: Seq<char>,
    pub length: u32,
    pub start_offset: u32,
    pub current_pointer: u32,
}

pub open spec fn entry_model(e: SaveFileEntry) -> EntryModel {
    EntryModel {
        name: e.name@,
        length: e.length,
        start_offset: e.start_offset,
        current_pointer: e.current_pointer,
    }
}

/// The LCE save-data container: a blob holding the files back to back after
/// a 12-byte header, and a table of its files.
pub struct SaveDataContainer {
    original_save_version: i16,
    current_save_version: i16,
    entries: Vec<SaveFileEntry>,
    blob: Vec<u8>,
    data_end: usize,
}

/// The state of a `SaveDataContainer`, modification times aside.
pub struct ContainerModel {
    pub original_save_version: i16,
    pub current_save_version: i16,
    pub entries: Seq<EntryModel>,
    pub blob: Seq<u8>,
    pub data_end: nat,
}

impl View for SaveDataContainer {
    type V = ContainerModel;

    closed spec fn view(&self) -> ContainerModel {
        ContainerModel {
            original_save_version: self.original_save_version,
            current_save_version: self.current_save_version,
            entries: self.entries@.map_values(|e: SaveFileEntry| entry_model(e)),
            blob: self.blob@,
            data_end: self.data_end as nat,
        }
    }
}

/// What a container keeps true: the data ends after the header, inside the
/// blob and within 32-bit offsets, and each file's write pointer lies in its
/// extent, which ends no later than the data.
pub open spec fn container_wf(m: ContainerModel) -> bool {
    &&& 12 <= m.data_end <= u32::MAX
    &&& m.data_end <= m.blob.len()
    &&& forall|i: int|
        0 <= i < m.entries.len() ==> #[trigger] m.entries[i].start_offset
            <= m.entries[i].current_pointer <= m.entries[i].start_offset + m.entries[i].length
            <= m.data_end
}

/// The index of the first file called `name`, or -1.
pub open spec fn first_entry(es: Seq<EntryModel>, name: Seq<char>) -> int
    decreases es.len(),
{
    if es.len() == 0 {
        -1
    } else {
        let p = first_entry(es.drop_last(), name);
        if p != -1 {
            p
        } else if es.last().name == name {
            es.len() - 1
        } else {
            -1
        }
    }
}

proof fn lemma_first_entry(es: Seq<EntryModel>, name: Seq<char>, i: int)
    requires
        0 <= i <= es.len(),
        forall|j: int| 0 <= j < i ==> es[j].name != name,
    ensures
        i < es.len() && es[i].name == name ==> first_entry(es, name) == i,
        i == es.len() ==> first_entry(es, name) == -1,
    decreases es.len(),
{
    if es.len() > 0 {
        if i < es.len() {
            if i < es.len() - 1 {
                lemma_first_entry(es.drop_last(), name, i);
            } else {
                lemma_first_entry(es.drop_last(), name, i);
            }
        } else {
            lemma_first_entry(es.drop_last(), name, i - 1);
        }
    }
}

/// The blob size that doubling reaches from `len` until it holds `required`
/// bytes (or `required` itself, where doubling would leave the address
/// range).
pub open spec fn grown_len(len: nat, required: nat) -> nat
    decreases (if required > len { required - len } else { 0int }),
    when len > 0
{
    if required <= len {
        len
    } else if len > usize::MAX / 2 {
        required
    } else {
        grown_len(len * 2, required)
    }
}

/// `b` zero-extended to `grown_len(b.len(), required)` bytes.
pub open spec fn grown(b: Seq<u8>, required: nat) -> Seq<u8> {
    b + Seq::new((grown_len(b.len(), required) - b.len()) as nat, |_i: int| 0u8)
}

proof fn lemma_grown_len(len: nat, required: nat)
    requires
        len > 0,
    ensures
        grown_len(len, required) >= len,
        grown_len(len, required) >= required,
    decreases (if required > len { required - len } else { 0int }),
{
    if required > len && len <= usize::MAX / 2 {
        lemma_grown_len(len * 2, required);
    }
}

/// `b` with `d` written from `pos` on.
pub open spec fn splice(b: Seq<u8>, pos: int, d: Seq<u8>) -> Seq<u8> {
    b.subrange(0, pos) + d + b.subrange(pos + d.len(), b.len() as int)
}

/// The container after writing `d` to file `i`: a file never written to
/// (length 0) first moves to the end of the data; the bytes go at its write
/// pointer, which advances; its length covers what was written; the data
/// end covers the file.
pub open spec fn container_after_write(m: ContainerModel, i: int, d: Seq<u8>) -> ContainerModel {
    if d.len() == 0 {
        m
    } else {
        let e = m.entries[i];
        let e1 = if e.length == 0 {
            EntryModel { start_offset: m.data_end as u32, current_pointer: m.data_end as u32, ..e }
        } else {
            e
        };
        let pos = e1.current_pointer as int;
        let cp = pos + d.len();
        let written = cp - e1.start_offset;
        let length = if written > e1.length { written } else { e1.length as int };
        let entry_end = e1.start_offset + length;
        ContainerModel {
            entries: m.entries.update(
                i,
                EntryModel { length: length as u32, current_pointer: cp as u32, ..e1 },
            ),
            blob: splice(grown(m.blob, cp as nat), pos, d),
            data_end: if entry_end > m.data_end { entry_end as nat } else { m.data_end },
            ..m
        }
    }
}

/// The container after `create_file(name)`, and the index it returns.
pub open spec fn container_after_create(m: ContainerModel, name: Seq<char>) -> (ContainerModel, int) {
    let i = first_entry(m.entries, name);
    if i != -1 {
        (m, i)
    } else {
        (
            ContainerModel {
                entries: m.entries.push(
                    EntryModel {
                        name,
                        length: 0,
                        start_offset: m.data_end as u32,
                        current_pointer: m.data_end as u32,
                    },
                ),
                ..m
            },
            m.entries.len() as int,
        )
    }
}

impl SaveDataContainer {
    /// The modification times of the files, in table order.
    pub closed spec fn last_mods(&self) -> Seq<i64> {
        self.entries@.map_values(|e: SaveFileEntry| e.last_mod)
    }

    /// Where the file data ends (the next file starts there).
    pub fn data_len(&self) -> (r: usize)
        ensures
            r == self@.data_end,
    {
        self.data_end
    }

    /// How many files the container holds.
    pub fn file_count(&self) -> (r: usize)
        ensures
            r == self@.entries.len(),
    {
        self.entries.len()
    }

    /// An empty container with a 2 MiB blob.
    pub fn new(original_save_version: i16, current_save_version: i16) -> (r: SaveDataContainer)
        ensures
            r@ == (ContainerModel {
                original_save_version,
                current_save_version,
                entries: Seq::empty(),
                blob: Seq::new(2 * 1024 * 1024, |_i: int| 0u8),
                data_end: 12,
            }),
            r.last_mods() == Seq::<i64>::empty(),
            container_wf(r@),
    {
        let r = SaveDataContainer {
            original_save_version,
            current_save_version,
            entries: Vec::new(),
            blob: zeros(2 * 1024 * 1024, 0u8),
            data_end: 12,
        };
        assert(r@.entries =~= Seq::<EntryModel>::empty());
        assert(r.last_mods() =~= Seq::<i64>::empty());
        r
    }

    /// The index of the file called `name`, added empty at the end of the
    /// data when there is none.
    pub fn create_file(&mut self, name: &str) -> (r: usize)
        requires
            container_wf(old(self)@),
        ensures
            container_wf(final(self)@),
            first_entry(old(self)@.entries, name@) != -1 ==> r == first_entry(
                old(self)@.entries,
                name@,
            ) && final(self)@ == old(self)@ && final(self).last_mods() == old(self).last_mods(),
            first_entry(old(self)@.entries, name@) == -1 ==> r == old(self)@.entries.len()
                && final(self)@ == (ContainerModel {
                entries: old(self)@.entries.push(
                    EntryModel {
                        name: name@,
                        length: 0,
                        start_offset: old(self)@.data_end as u32,
                        current_pointer: old(self)@.data_end as u32,
                    },
                ),
                ..old(self)@
            }) && final(self).last_mods() == old(self).last_mods().push(0),
            r < final(self)@.entries.len(),
            (final(self)@, r as int) == container_after_create(old(self)@, name@),
    {
        let mut i: usize = 0;
        while i < self.entries.len()
            invariant
                i <= self.entries@.len(),
                self@ == old(self)@,
                container_wf(old(self)@),
                forall|j: int| 0 <= j < i ==> self@.entries[j].name != name@,
            decreases self.entries@.len() - i,
        {
            if crate::text::same_text(self.entries[i].name.as_str(), name) {
                proof {
                    lemma_first_entry(self@.entries, name@, i as int);
                }
                return i;
            }
            i += 1;
        }
        proof {
            lemma_first_entry(self@.entries, name@, i as int);
        }
        let key = name.to_string();
        proof {
            vstd::string::to_string_from_display_ensures_for_str(name, key);
        }
        let entry = SaveFileEntry {
            name: key,
            length: 0,
            start_offset: self.data_end as u32,
            last_mod: 0,
            current_pointer: self.data_end as u32,
        };
        self.entries.push(entry);
        assert(self@.entries =~= old(self)@.entries.push(entry_model(entry)));
        assert(self.last_mods() =~= old(self).last_mods().push(0));
        self.entries.len() - 1
    }

    /// Grows the blob by doubling until it holds `required` bytes.
    fn ensure_capacity(&mut self, required: usize)
        requires
            old(self).blob@.len() > 0,
        ensures
            final(self).blob@ == grown(old(self).blob@, required as nat),
            final(self).blob@.len() >= required,
            final(self).entries@ == old(self).entries@,
            final(self).data_end == old(self).data_end,
            final(self).original_save_version == old(self).original_save_version,
            final(self).current_save_version == old(self).current_save_version,
    {
        proof {
            lemma_grown_len(self.blob@.len(), required as nat);
        }
        if required <= self.blob.len() {
            assert(self.blob@ =~= grown(old(self).blob@, required as nat));
            return;
        }
        let mut new_size = self.blob.len();
        while new_size < required
            invariant
                0 < new_size,
                grown_len(new_size as nat, required as nat) == grown_len(
                    old(self).blob@.len(),
                    required as nat,
                ),
            decreases (if required > new_size { required - new_size } else { 0int }),
        {
            if new_size > usize::MAX / 2 {
                new_size = required;
            } else {
                new_size = new_size * 2;
            }
        }
        let ghost b0 = self.blob@;
        while self.blob.len() < new_size
            invariant
                b0 == old(self).blob@,
                b0.len() <= self.blob@.len() <= new_size,
                new_size == grown_len(b0.len(), required as nat),
                self.blob@ == b0 + Seq::new((self.blob@.len() - b0.len()) as nat, |_i: int| 0u8),
                self.entries@ == old(self).entries@,
                self.data_end == old(self).data_end,
                self.original_save_version == old(self).original_save_version,
                self.current_save_version == old(self).current_save_version,
            decreases new_size - self.blob@.len(),
        {
            self.blob.push(0);
            assert(self.blob@ =~= b0 + Seq::new((self.blob@.len() - b0.len()) as nat, |_i: int| 0u8));
        }
    }
}


impl SaveDataContainer {
    /// Writes `data` to file `index` (see `container_after_write`); the
    /// file's modification time becomes the current time.
    pub fn write_to_file(&mut self, index: usize, data: &[u8])
        requires
            container_wf(old(self)@),
            index < old(self)@.entries.len(),
            old(self)@.data_end + data@.len() <= u32::MAX,
        ensures
            final(self)@ == container_after_write(old(self)@, index as int, data@),
            container_wf(final(self)@),
            final(self).last_mods().len() == old(self).last_mods().len(),
            data@.len() == 0 ==> final(self).last_mods() == old(self).last_mods(),
            forall|j: int|
                0 <= j < old(self).last_mods().len() && j != index ==> final(self).last_mods()[j]
                    == old(self).last_mods()[j],
    {
        if data.len() == 0 {
            return;
        }
        let ghost m = self@;
        assert(m.entries[index as int] == entry_model(self.entries@[index as int]));
        let mut start = self.entries[index].start_offset;
        let mut cp = self.entries[index].current_pointer;
        let length = self.entries[index].length;
        if length == 0 {
            start = self.data_end as u32;
            cp = self.data_end as u32;
        }
        assert(start <= cp <= start + length <= self.data_end);
        let pos = cp as usize;
        let end_pos = pos + data.len();
        self.ensure_capacity(end_pos);
        proof {
            lemma_grown_len(m.blob.len(), end_pos as nat);
        }
        let ghost b0 = self.blob@;
        let mut k: usize = 0;
        while k < data.len()
            invariant
                k <= data@.len(),
                pos + data@.len() <= b0.len(),
                end_pos == pos + data@.len(),
                self.blob@ == b0.subrange(0, pos as int) + data@.take(k as int) + b0.subrange(
                    pos + k,
                    b0.len() as int,
                ),
                self.entries@ == old(self).entries@,
                self.data_end == old(self).data_end,
                self.original_save_version == old(self).original_save_version,
                self.current_save_version == old(self).current_save_version,
            decreases data@.len() - k,
        {
            self.blob.set(pos + k, data[k]);
            k += 1;
            assert(self.blob@ =~= b0.subrange(0, pos as int) + data@.take(k as int) + b0.subrange(
                pos + k,
                b0.len() as int,
            ));
        }
        assert(data@.take(k as int) =~= data@);
        let new_cp = cp + data.len() as u32;
        let written = new_cp - start;
        let new_length = if written > length { written } else { length };
        let entry_end = (start + new_length) as usize;
        if entry_end > self.data_end {
            self.data_end = entry_end;
        }
        let name = self.entries[index].name.clone();
        let now = now_unix_millis();
        let ghost old_entries = self.entries@;
        self.entries.set(
            index,
            SaveFileEntry {
                name,
                length: new_length,
                start_offset: start,
                last_mod: now,
                current_pointer: new_cp,
            },
        );
        assert(self@.entries =~= container_after_write(m, index as int, data@).entries);
        assert(self@.blob =~= container_after_write(m, index as int, data@).blob);
        assert(forall|j: int|
            0 <= j < self@.entries.len() && j != index ==> self@.entries[j] == m.entries[j]);
    }
}


// ---------------------------------------------------------------------
// The container's file image.
// ---------------------------------------------------------------------

/// UTF-16 code units as little-endian bytes.
pub open spec fn units_le(u: Seq<u16>) -> Seq<u8>
    decreases u.len(),
{
    if u.len() == 0 {
        Seq::empty()
    } else {
        units_le(u.drop_last()) + u16_le(u.last())
    }
}

/// A file name as the table stores it: UTF-16LE, cut to 126 bytes, padded
/// with zeros to 128.
pub open spec fn name_field(name: Seq<char>) -> Seq<u8> {
    let b = units_le(utf16_units(name));
    let t = if b.len() > 126 { b.take(126) } else { b };
    t + Seq::new((128 - t.len()) as nat, |_i: int| 0u8)
}

/// One file-table record: name, length, start offset and modification
/// time, little-endian.
pub open spec fn entry_record(e: EntryModel, last_mod: i64) -> Seq<u8> {
    name_field(e.name) + u32_le(e.length) + u32_le(e.start_offset) + u64_le(last_mod as u64)
}

/// Where a file starting at `key` goes in `order`: after every file that
/// starts no later, scanning from the back.
pub open spec fn insert_pos(order: Seq<int>, key: u32, es: Seq<EntryModel>) -> int
    decreases order.len(),
{
    if order.len() == 0 {
        0
    } else if es[order.last()].start_offset <= key {
        order.len() as int
    } else {
        insert_pos(order.drop_last(), key, es)
    }
}

/// The first `n` files in order of start offset, ties in table order (a
/// stable sort by start offset).
pub open spec fn order_upto(es: Seq<EntryModel>, n: nat) -> Seq<int>
    decreases n,
{
    if n == 0 {
        Seq::empty()
    } else {
        let o = order_upto(es, (n - 1) as nat);
        o.insert(insert_pos(o, es[n - 1].start_offset, es), n - 1)
    }
}

proof fn lemma_insert_pos(order: Seq<int>, key: u32, es: Seq<EntryModel>)
    ensures
        0 <= insert_pos(order, key, es) <= order.len(),
    decreases order.len(),
{
    if order.len() > 0 {
        lemma_insert_pos(order.drop_last(), key, es);
    }
}

pub(crate) proof fn lemma_order_upto(es: Seq<EntryModel>, n: nat)
    ensures
        order_upto(es, n).len() == n,
        forall|k: int| 0 <= k < n ==> 0 <= #[trigger] order_upto(es, n)[k] < n,
    decreases n,
{
    if n > 0 {
        let o = order_upto(es, (n - 1) as nat);
        lemma_order_upto(es, (n - 1) as nat);
        lemma_insert_pos(o, es[n - 1].start_offset, es);
        let p = insert_pos(o, es[n - 1].start_offset, es);
        assert forall|k: int| 0 <= k < n implies 0 <= #[trigger] order_upto(es, n)[k] < n by {
            if k < p {
                assert(order_upto(es, n)[k] == o[k]);
            } else if k > p {
                assert(order_upto(es, n)[k] == o[k - 1]);
            }
        }
    }
}

/// The file table: the records of the files in `order`.
pub open spec fn footer(es: Seq<EntryModel>, mods: Seq<i64>, order: Seq<int>) -> Seq<u8>
    decreases order.len(),
{
    if order.len() == 0 {
        Seq::empty()
    } else {
        footer(es, mods, order.drop_last()) + entry_record(es[order.last()], mods[order.last()])
    }
}

/// The container header: data end, file count, and the two save versions.
pub open spec fn container_header(m: ContainerModel) -> Seq<u8> {
    u32_le(m.data_end as u32) + u32_le(m.entries.len() as u32) + u16_le(
        m.original_save_version as u16,
    ) + u16_le(m.current_save_version as u16)
}

/// The uncompressed container image: header, file data, file table.
pub open spec fn container_image(m: ContainerModel, mods: Seq<i64>) -> Seq<u8> {
    container_header(m) + m.blob.subrange(12, m.data_end as int) + footer(
        m.entries,
        mods,
        order_upto(m.entries, m.entries.len()),
    )
}

/// The bytes of a saved container file: a zero word, the image size, and the
/// zlib-compressed image.
pub open spec fn container_file(m: ContainerModel, mods: Seq<i64>) -> Seq<u8> {
    let image = container_image(m, mods);
    u32_le(0) + u32_le(image.len() as u32) + zlib_compressed(image, 9)
}

/// The table name of a file.
fn encode_name_field(name: &str) -> (r: Vec<u8>)
    ensures
        r@ == name_field(name@),
{
    let units = encode_utf16(name);
    let mut enc: Vec<u8> = Vec::new();
    let mut i: usize = 0;
    while i < units.len()
        invariant
            i <= units@.len(),
            enc@ == units_le(units@.take(i as int)),
        decreases units@.len() - i,
    {
        push_u16_le(&mut enc, units[i]);
        assert(units@.take(i + 1).drop_last() =~= units@.take(i as int));
        i += 1;
    }
    assert(units@.take(i as int) =~= units@);
    let copy_len = if enc.len() > 126 { 126 } else { enc.len() };
    let mut out: Vec<u8> = Vec::new();
    let mut k: usize = 0;
    while k < copy_len
        invariant
            k <= copy_len <= enc@.len(),
            out@ == enc@.take(k as int),
        decreases copy_len - k,
    {
        out.push(enc[k]);
        k += 1;
        assert(out@ =~= enc@.take(k as int));
    }
    let ghost t = out@;
    while out.len() < 128
        invariant
            t.len() <= out@.len() <= 128,
            t.len() <= 126,
            out@ == t + Seq::new((out@.len() - t.len()) as nat, |_i: int| 0u8),
        decreases 128 - out@.len(),
    {
        out.push(0);
        assert(out@ =~= t + Seq::new((out@.len() - t.len()) as nat, |_i: int| 0u8));
    }
    assert(enc@.take(enc@.len() as int) =~= enc@);
    out
}

impl SaveDataContainer {
    /// The files in order of start offset, ties in table order.
    fn sorted_entry_order(&self) -> (r: Vec<usize>)
        ensures
            r@.len() == self@.entries.len(),
            forall|k: int|
                0 <= k < r@.len() ==> #[trigger] r@[k] as int == order_upto(
                    self@.entries,
                    self@.entries.len(),
                )[k],
    {
        let ghost es = self@.entries;
        let n = self.entries.len();
        let mut order: Vec<usize> = Vec::new();
        let mut i: usize = 0;
        while i < n
            invariant
                i <= n,
                n == es.len(),
                es == self@.entries,
                order@.len() == order_upto(es, i as nat).len(),
                forall|k: int|
                    0 <= k < order@.len() ==> #[trigger] order@[k] as int == order_upto(
                        es,
                        i as nat,
                    )[k],
            decreases n - i,
        {
            proof {
                lemma_order_upto(es, i as nat);
            }
            let ghost o = order_upto(es, i as nat);
            let key = self.entries[i].start_offset;
            assert(key == es[i as int].start_offset);
            let mut p = order.len();
            assert(o.take(p as int) =~= o);
            while p > 0 && self.entries[order[p - 1]].start_offset > key
                invariant
                    p <= order@.len(),
                    order@.len() == o.len(),
                    n == es.len(),
                    es == self@.entries,
                    forall|k: int| 0 <= k < o.len() ==> 0 <= #[trigger] o[k] < i,
                    i < n,
                    forall|k: int| 0 <= k < order@.len() ==> #[trigger] order@[k] as int == o[k],
                    insert_pos(o.take(p as int), key, es) == insert_pos(o, key, es),
                decreases p,
            {
                assert(o.take(p as int).drop_last() =~= o.take(p - 1));
                assert(es[o[p - 1]] == entry_model(self.entries@[o[p - 1]]));
                p -= 1;
            }
            proof {
                if p > 0 {
                    assert(es[o[p - 1]] == entry_model(self.entries@[o[p - 1]]));
                }
                assert(insert_pos(o.take(p as int), key, es) == p);
            }
            order.insert(p, i);
            i += 1;
            proof {
                lemma_insert_pos(o, key, es);
                assert(order_upto(es, i as nat) == o.insert(p as int, (i - 1) as int));
                assert forall|k: int| 0 <= k < order@.len() implies #[trigger] order@[k] as int
                    == order_upto(es, i as nat)[k] by {
                    if k < p {
                    } else if k > p {
                    }
                }
            }
        }
        proof {
            lemma_order_upto(es, n as nat);
        }
        order
    }
}


impl SaveDataContainer {
    /// The file table, records in order of start offset.
    fn footer_bytes(&self) -> (r: Vec<u8>)
        ensures
            r@ == footer(
                self@.entries,
                self.last_mods(),
                order_upto(self@.entries, self@.entries.len()),
            ),
    {
        let order = self.sorted_entry_order();
        let ghost es = self@.entries;
        let ghost o = order_upto(es, es.len());
        proof {
            lemma_order_upto(es, es.len());
        }
        let mut out: Vec<u8> = Vec::new();
        let mut k: usize = 0;
        while k < order.len()
            invariant
                k <= order@.len(),
                order@.len() == o.len(),
                o.len() == es.len(),
                es == self@.entries,
                forall|j: int| 0 <= j < order@.len() ==> #[trigger] order@[j] as int == o[j],
                forall|j: int| 0 <= j < o.len() ==> 0 <= #[trigger] o[j] < es.len(),
                out@ == footer(es, self.last_mods(), o.take(k as int)),
            decreases order@.len() - k,
        {
            let idx = order[k];
            let e = &self.entries[idx];
            assert(es[idx as int] == entry_model(*e));
            let name = encode_name_field(e.name.as_str());
            out.extend_from_slice(name.as_slice());
            push_u32_le(&mut out, e.length);
            push_u32_le(&mut out, e.start_offset);
            push_u64_le(&mut out, e.last_mod as u64);
            assert(o.take(k + 1).drop_last() =~= o.take(k as int));
            assert(self.last_mods()[idx as int] == e.last_mod);
            k += 1;
            assert(out@ =~= footer(es, self.last_mods(), o.take(k as int)));
        }
        assert(o.take(k as int) =~= o);
        out
    }

    /// The bytes of the saved container file (see `container_file`); the
    /// header and file table are also written into the blob.
    pub fn save_bytes(&mut self) -> (r: Vec<u8>)
        requires
            container_wf(old(self)@),
            old(self)@.data_end + old(self)@.entries.len() * 144 <= usize::MAX,
        ensures
            r@ == container_file(old(self)@, old(self).last_mods()),
            final(self)@.entries == old(self)@.entries,
            final(self).last_mods() == old(self).last_mods(),
            final(self)@.data_end == old(self)@.data_end,
            container_wf(final(self)@),
    {
        let ghost m = self@;
        let footer_data = self.footer_bytes();
        let n = self.entries.len();
        let de = self.data_end;
        proof {
            lemma_order_upto(m.entries, m.entries.len());
            lemma_footer_len(m.entries, self.last_mods(), order_upto(m.entries, m.entries.len()));
        }
        let mut header: Vec<u8> = Vec::new();
        push_u32_le(&mut header, de as u32);
        push_u32_le(&mut header, n as u32);
        push_u16_le(&mut header, self.original_save_version as u16);
        push_u16_le(&mut header, self.current_save_version as u16);
        assert(header@ == container_header(m));
        let mut k: usize = 0;
        while k < 12
            invariant
                k <= 12,
                header@.len() == 12,
                self.blob@.len() == m.blob.len(),
                m.blob.len() >= 12,
                self.blob@ == header@.take(k as int) + m.blob.subrange(k as int, m.blob.len() as int),
                self.entries@ == old(self).entries@,
                self.data_end == old(self).data_end,
                self.original_save_version == old(self).original_save_version,
                self.current_save_version == old(self).current_save_version,
            decreases 12 - k,
        {
            self.blob.set(k, header[k]);
            k += 1;
            assert(self.blob@ =~= header@.take(k as int) + m.blob.subrange(k as int, m.blob.len() as int));
        }
        let total_size = de + n * FILE_ENTRY_SIZE;
        self.ensure_capacity(total_size);
        proof {
            lemma_grown_len(m.blob.len(), total_size as nat);
        }
        let ghost b1 = self.blob@;
        let mut j: usize = 0;
        while j < footer_data.len()
            invariant
                j <= footer_data@.len(),
                footer_data@.len() == n * 144,
                total_size == de + n * 144,
                b1.len() >= total_size,
                self.blob@ == b1.subrange(0, de as int) + footer_data@.take(j as int) + b1.subrange(
                    de + j,
                    b1.len() as int,
                ),
                self.entries@ == old(self).entries@,
                self.data_end == old(self).data_end,
                self.original_save_version == old(self).original_save_version,
                self.current_save_version == old(self).current_save_version,
            decreases footer_data@.len() - j,
        {
            self.blob.set(de + j, footer_data[j]);
            j += 1;
            assert(self.blob@ =~= b1.subrange(0, de as int) + footer_data@.take(j as int) + b1.subrange(
                de + j,
                b1.len() as int,
            ));
        }
        assert(footer_data@.take(j as int) =~= footer_data@);
        let mut raw: Vec<u8> = Vec::new();
        let mut t: usize = 0;
        while t < total_size
            invariant
                t <= total_size <= self.blob@.len(),
                raw@ == self.blob@.take(t as int),
            decreases total_size - t,
        {
            raw.push(self.blob[t]);
            t += 1;
            assert(raw@ =~= self.blob@.take(t as int));
        }
        assert(raw@ =~= container_image(m, old(self).last_mods()));
        let compressed = zlib_compress(raw.as_slice(), 9);
        let mut out: Vec<u8> = Vec::new();
        push_u32_le(&mut out, 0);
        push_u32_le(&mut out, total_size as u32);
        out.extend_from_slice(compressed.as_slice());
        assert(out@ =~= container_file(m, old(self).last_mods()));
        out
    }
}

proof fn lemma_footer_len(es: Seq<EntryModel>, mods: Seq<i64>, order: Seq<int>)
    ensures
        footer(es, mods, order).len() == order.len() * 144,
    decreases order.len(),
{
    if order.len() > 0 {
        lemma_footer_len(es, mods, order.drop_last());
    }
}


/// A table of `i32` as little-endian words.
pub open spec fn ints_le(s: Seq<i32>) -> Seq<u8>
    decreases s.len(),
{
    if s.len() == 0 {
        Seq::empty()
    } else {
        ints_le(s.drop_last()) + u32_le(s.last() as u32)
    }
}

proof fn lemma_ints_le_len(s: Seq<i32>)
    ensures
        ints_le(s).len() == s.len() * 4,
    decreases s.len(),
{
    if s.len() > 0 {
        lemma_ints_le_len(s.drop_last());
    }
}

/// The bytes a region file contributes to a container: the offset table and
/// the timestamp table, little-endian, then its chunk sectors.
pub open spec fn region_image(m: LceRegionModel, times: Seq<i32>) -> Seq<u8> {
    ints_le(m.offsets) + ints_le(times) + m.data.subrange(8192, m.data.len() as int)
}

/// Writes `table` as little-endian words over `data[at..]`.
fn write_table_le(data: &mut Vec<u8>, at: usize, table: &Vec<i32>)
    requires
        at + table@.len() * 4 <= old(data)@.len(),
    ensures
        final(data)@ == old(data)@.subrange(0, at as int) + ints_le(table@) + old(data)@.subrange(
            at + table@.len() * 4,
            old(data)@.len() as int,
        ),
{
    let ghost d0 = data@;
    let len = data.len();
    assert(d0.len() <= usize::MAX);
    let mut i: usize = 0;
    while i < table.len()
        invariant
            i <= table@.len(),
            at + table@.len() * 4 <= d0.len(),
            d0.len() <= usize::MAX,
            data@.len() == d0.len(),
            data@ == d0.subrange(0, at as int) + ints_le(table@.take(i as int)) + d0.subrange(
                at + i * 4,
                d0.len() as int,
            ),
        decreases table@.len() - i,
    {
        proof {
            lemma_ints_le_len(table@.take(i as int));
            assert(table@.take(i + 1).drop_last() =~= table@.take(i as int));
        }
        assert(i * 4 + 4 <= table@.len() * 4) by (nonlinear_arith)
            requires
                i < table@.len(),
        ;
        let w = table[i] as u32;
        let pos = at + i * 4;
        data.set(pos, w as u8);
        data.set(pos + 1, (w >> 8u32) as u8);
        data.set(pos + 2, (w >> 16u32) as u8);
        data.set(pos + 3, (w >> 24u32) as u8);
        i += 1;
        assert(data@ =~= d0.subrange(0, at as int) + ints_le(table@.take(i as int)) + d0.subrange(
            at + i * 4,
            d0.len() as int,
        ));
    }
    assert(table@.take(i as int) =~= table@);
}

impl LceRegionFile {
    /// Writes the offset and timestamp tables into the header sectors and
    /// stores the whole region file in `container` under its file name.
    pub fn write_to_container(&mut self, container: &mut SaveDataContainer)
        requires
            region_wf(old(self)@, old(self).times()),
            container_wf(old(container)@),
            old(container)@.data_end + old(self)@.data.len() <= u32::MAX,
        ensures
            final(self)@ == (LceRegionModel {
                data: region_image(old(self)@, old(self).times()),
                ..old(self)@
            }),
            final(self).times() == old(self).times(),
            ({
                let (c1, idx) = container_after_create(old(container)@, old(self)@.filename);
                final(container)@ == container_after_write(
                    c1,
                    idx,
                    region_image(old(self)@, old(self).times()),
                )
            }),
            container_wf(final(container)@),
    {
        proof {
            lemma_ints_le_len(self.offsets@);
            lemma_ints_le_len(self.timestamps@);
        }
        write_table_le(&mut self.data, 0, &self.offsets);
        write_table_le(&mut self.data, SECTOR_BYTES, &self.timestamps);
        assert(self.data@ =~= region_image(old(self)@, old(self).times()));
        let total = self.sector_count * SECTOR_BYTES;
        let entry = container.create_file(self.filename.as_str());
        let region_bytes = slice_range(self.data.as_slice(), 0, total);
        assert(region_bytes@ =~= self.data@);
        container.write_to_file(entry, region_bytes);
    }
}

/// Writing to a file that has not been written yet places the bytes at the
/// end of the data: afterwards the file's extent in the blob holds exactly
/// what was written.
pub proof fn lemma_container_write_read(m: ContainerModel, i: int, d: Seq<u8>)
    requires
        container_wf(m),
        0 <= i < m.entries.len(),
        m.entries[i].length == 0,
        d.len() > 0,
        m.data_end + d.len() <= u32::MAX,
    ensures
        ({
            let m2 = container_after_write(m, i, d);
            let e = m2.entries[i];
            &&& e.length == d.len()
            &&& e.start_offset == m.data_end
            &&& m2.blob.subrange(e.start_offset as int, e.start_offset + e.length) == d
        }),
{
    let pos = m.data_end as int;
    let cp = pos + d.len();
    lemma_grown_len(m.blob.len(), cp as nat);
    let g = grown(m.blob, cp as nat);
    assert(g.len() >= cp);
    let m2 = container_after_write(m, i, d);
    assert(m2.blob == splice(g, pos, d));
    assert(m2.blob.subrange(pos, cp) =~= d);
}


proof fn lemma_ints_le_word(s: Seq<i32>, i: int)
    requires
        0 <= i < s.len(),
    ensures
        ints_le(s).len() == s.len() * 4,
        ints_le(s).subrange(4 * i, 4 * i + 4) == u32_le(s[i] as u32),
    decreases s.len(),
{
    lemma_ints_le_len(s);
    let p = s.drop_last();
    lemma_ints_le_len(p);
    if i < s.len() - 1 {
        lemma_ints_le_word(p, i);
        assert(ints_le(s).subrange(4 * i, 4 * i + 4) =~= ints_le(p).subrange(4 * i, 4 * i + 4));
    } else {
        assert(ints_le(s).subrange(4 * i, 4 * i + 4) =~= u32_le(s.last() as u32));
    }
}

/// The header of a region file as stored in a container: the image is the
/// file's whole length, word `i` of the first sector is slot `i`'s offset
/// entry (sector << 8 | sector count, zero for an empty slot) and word `i`
/// of the second its timestamp, both little-endian, and the chunk sectors
/// follow unchanged.
pub proof fn lemma_region_image_header(m: LceRegionModel, times: Seq<i32>, i: int)
    requires
        region_wf(m, times),
        0 <= i < 1024,
    ensures
        region_image(m, times).len() == m.sector_count * 4096,
        le_u32_at(region_image(m, times), 4 * i) == m.offsets[i] as u32,
        le_u32_at(region_image(m, times), 4096 + 4 * i) == times[i] as u32,
        region_image(m, times).subrange(8192, m.data.len() as int) == m.data.subrange(8192, m.data.len() as int),
{
    let r = region_image(m, times);
    let a = ints_le(m.offsets);
    let b = ints_le(times);
    lemma_ints_le_word(m.offsets, i);
    lemma_ints_le_word(times, i);
    assert(r.subrange(4 * i, 4 * i + 4) =~= a.subrange(4 * i, 4 * i + 4));
    crate::bytes::lemma_le_u32_roundtrip(r, 4 * i, m.offsets[i] as u32);
    assert(r.subrange(4096 + 4 * i, 4096 + 4 * i + 4) =~= b.subrange(4 * i, 4 * i + 4));
    crate::bytes::lemma_le_u32_roundtrip(r, 4096 + 4 * i, times[i] as u32);
    assert(r.subrange(8192, m.data.len() as int) =~= m.data.subrange(8192, m.data.len() as int));
}

proof fn lemma_first_entry_range(es: Seq<EntryModel>, name: Seq<char>)
    ensures
        first_entry(es, name) == -1 || (0 <= first_entry(es, name) < es.len() && es[first_entry(es, name)].name == name),
    decreases es.len(),
{
    if es.len() > 0 {
        lemma_first_entry_range(es.drop_last(), name);
    }
}

/// What `write_to_container` stores: when the container has no file of the
/// region's name, or only an empty one, that file afterwards spans exactly
/// the region image (see `lemma_region_image_header`) at the end of the
/// data.
pub proof fn lemma_region_in_container(c: ContainerModel, m: LceRegionModel, times: Seq<i32>)
    requires
        container_wf(c),
        region_wf(m, times),
        c.data_end + m.data.len() <= u32::MAX,
        first_entry(c.entries, m.filename) == -1 || c.entries[first_entry(c.entries, m.filename)].length == 0,
    ensures
        ({
            let (c1, idx) = container_after_create(c, m.filename);
            let c2 = container_after_write(c1, idx, region_image(m, times));
            let e = c2.entries[idx];
            &&& e.name == m.filename
            &&& e.length == m.sector_count * 4096
            &&& e.start_offset == c.data_end
            &&& c2.blob.subrange(e.start_offset as int, e.start_offset + e.length) == region_image(m, times)
        }),
{
    lemma_first_entry_range(c.entries, m.filename);
    let (c1, idx) = container_after_create(c, m.filename);
    lemma_ints_le_len(m.offsets);
    lemma_ints_le_len(times);
    let r = region_image(m, times);
    assert(r.len() == m.sector_count * 4096);
    assert(container_wf(c1)) by {
        if first_entry(c.entries, m.filename) == -1 {
            assert forall|j: int| 0 <= j < c1.entries.len() implies #[trigger] c1.entries[j].start_offset
                <= c1.entries[j].current_pointer <= c1.entries[j].start_offset + c1.entries[j].length
                <= c1.data_end by {
                if j < c.entries.len() {
                    assert(c1.entries[j] == c.entries[j]);
                }
            }
        }
    }
    assert(c1.entries[idx].length == 0);
    assert(c1.entries[idx].name == m.filename);
    lemma_container_write_read(c1, idx, r);
}

} // verus!
