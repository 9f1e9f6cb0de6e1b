use crate::bytes::{be_u32_at, get_u32_be, push_u32_be, u32_be};
use crate::compress::{gzip_decompress, gzip_inflated, zlib_compressed, zlib_decompress, zlib_inflated};
use crate::nbt::{read_nbt, spec_read_nbt, NbtCompound};
use crate::region::{compress_zlib, offset_entry, same_except, slice_range, splice, zeros, now_unix_secs};
use crate::text::same_text;
use vstd::prelude::*;

verus! {

// ---------------------------------------------------------------------
// Reading Java region files.
// ---------------------------------------------------------------------

/// The 1024 big-endian words of a region header starting at `base`; a word
/// past the end of the data reads as 0.
pub open spec fn header_words(d: Seq<u8>, base: int) -> Seq<u32> {
    Seq::new(
        1024,
        |i: int|
            if base + 4 * i + 4 <= d.len() {
                be_u32_at(d, base + 4 * i)
            } else {
                0u32
            },
    )
}

/// The slot of local chunk (`x`, `z`): both taken modulo 32.
pub open spec fn slot_index(x: i32, z: i32) -> int {
    (x & 31) + (z & 31) * 32
}

/// Computes `slot_index`.
pub fn slot_of(x: i32, z: i32) -> (r: usize)
    ensures
        r == slot_index(x, z),
        r < 1024,
{
    let a = x & 31;
    let b = z & 31;
    assert(0 <= a < 32 && 0 <= b < 32) by (bit_vector)
        requires
            a == x & 31,
            b == z & 31,
    ;
    assert(0 <= a + b * 32 < 1024) by (nonlinear_arith)
        requires
            0 <= a < 32,
            0 <= b < 32,
    ;
    (a + b * 32) as usize
}

/// The stored stream of a chunk whose offset entry is `entry`: its
/// compression type and compressed bytes, or `None` when the slot is empty,
/// the record lies past the data, or its length is 0 or 1.
pub open spec fn stored_stream(d: Seq<u8>, entry: u32) -> Option<(u8, Seq<u8>)> {
    if entry == 0 {
        None
    } else {
        let pos = (entry >> 8u32) as int * 4096;
        if pos + 5 > d.len() {
            None
        } else {
            let length = be_u32_at(d, pos);
            if length <= 1 {
                None
            } else {
                let clen = length - 1;
                if pos + 5 + clen > d.len() {
                    None
                } else {
                    Some((d[pos + 4], d.subrange(pos + 5, pos + 5 + clen)))
                }
            }
        }
    }
}

/// What a stored stream inflates to: gzip for type 1, zlib for type 2,
/// nothing (`Some(None)`) for other types or an empty result, and `None`
/// when decompression fails.
pub open spec fn inflated_stream(s: Option<(u8, Seq<u8>)>) -> Option<Option<Seq<u8>>> {
    match s {
        None => Some(None),
        Some((t, c)) => if t == 1 {
            match gzip_inflated(c) {
                Some(v) => Some(if v.len() == 0 { None } else { Some(v) }),
                None => None,
            }
        } else if t == 2 {
            match zlib_inflated(c) {
                Some(v) => Some(if v.len() == 0 { None } else { Some(v) }),
                None => None,
            }
        } else {
            Some(None)
        },
    }
}

/// Finds and inflates the chunk at `entry` in region data `d`.
fn read_stored_chunk(d: &[u8], entry: u32) -> (r: Result<Option<Vec<u8>>, String>)
    ensures
        match inflated_stream(stored_stream(d@, entry)) {
            None => r is Err,
            Some(None) => r matches Ok(None),
            Some(Some(v)) => r matches Ok(Some(x)) && x@ == v,
        },
{
    if entry == 0 {
        return Ok(None);
    }
    let sector = (entry >> 8u32) as u64;
    let pos64 = sector * 4096;
    let len = d.len() as u64;
    if pos64 + 5 > len {
        return Ok(None);
    }
    let pos = pos64 as usize;
    let length = get_u32_be(d, pos);
    let compression_type = d[pos + 4];
    if length <= 1 {
        return Ok(None);
    }
    let clen = (length - 1) as u64;
    if pos64 + 5 + clen > len {
        return Ok(None);
    }
    let compressed = slice_range(d, pos + 5, pos + 5 + clen as usize);
    let decompressed = if compression_type == 1 {
        match gzip_decompress(compressed) {
            Ok(v) => v,
            Err(e) => {
                return Err(e);
            },
        }
    } else if compression_type == 2 {
        match zlib_decompress(compressed) {
            Ok(v) => v,
            Err(e) => {
                return Err(e);
            },
        }
    } else {
        return Ok(None);
    };
    if decompressed.len() == 0 {
        return Ok(None);
    }
    Ok(Some(decompressed))
}

/// The 1024 header words of `d` from byte `base` on.
fn read_header_words(d: &[u8], base: usize) -> (r: Vec<u32>)
    requires
        base <= 4096,
    ensures
        r@ == header_words(d@, base as int),
{
    let mut r: Vec<u32> = Vec::new();
    let mut i: usize = 0;
    while i < 1024
        invariant
            i <= 1024,
            base <= 4096,
            r@ == header_words(d@, base as int).take(i as int),
        decreases 1024 - i,
    {
        let off = base + i * 4;
        if off <= d.len() && d.len() - off >= 4 {
            r.push(get_u32_be(d, off));
        } else {
            r.push(0);
        }
        i += 1;
        assert(r@ =~= header_words(d@, base as int).take(i as int));
    }
    r
}

/// A Java region file held in memory.
pub struct JavaRegionReader {
    pub data: Vec<u8>,
    pub offsets: Vec<u32>,
}

impl JavaRegionReader {
    /// A reader over a copy of `data`, its offset table read from the header.
    pub fn open_from_bytes(data: &[u8]) -> (r: JavaRegionReader)
        ensures
            r.data@ == data@,
            r.offsets@ == header_words(data@, 0),
    {
        let offsets = read_header_words(data, 0);
        let mut copy: Vec<u8> = Vec::new();
        copy.extend_from_slice(data);
        assert(copy@ =~= data@);
        JavaRegionReader { data: copy, offsets }
    }

    /// The inflated NBT bytes of local chunk (`local_x`, `local_z`) (see
    /// `inflated_stream`).
    pub fn read_chunk(&mut self, local_x: i32, local_z: i32) -> (r: Result<Option<Vec<u8>>, String>)
        requires
            old(self).offsets@.len() == 1024,
        ensures
            *final(self) == *old(self),
            match inflated_stream(
                stored_stream(old(self).data@, old(self).offsets@[slot_index(local_x, local_z)]),
            ) {
                None => r is Err,
                Some(None) => r matches Ok(None),
                Some(Some(v)) => r matches Ok(Some(x)) && x@ == v,
            },
    {
        let index = slot_of(local_x, local_z);
        let entry = self.offsets[index];
        read_stored_chunk(self.data.as_slice(), entry)
    }
}

// ---------------------------------------------------------------------
// Java worlds.
// ---------------------------------------------------------------------

/// The path that `Path::join` makes of `base` and `part`.
pub uninterp spec fn path_joined(base: Seq<char>, part: Seq<char>) -> Seq<char>;

/// Calls `Path::join` and converts the result to a `String`. Claimed: the
/// result is a function of the two paths, which holds for a given target
/// (its separators are fixed when the crate is built).
#[verifier::external_body]
fn join_path(base: &str, part: &str) -> (r: String)
    ensures
        r@ == path_joined(base@, part@),
{
    std::path::Path::new(base).join(part).to_string_lossy().to_string()
}

/// A Java world on disk, with the region files read so far.
pub struct JavaWorldReader {
    world_path: String,
    region_readers: Vec<(String, JavaRegionReader)>,
}

impl JavaWorldReader {
    /// The world's directory.
    pub closed spec fn path(&self) -> Seq<char> {
        self.world_path@
    }

    /// The region file read for `region_path`, if any.
    pub closed spec fn cached(&self, region_path: Seq<char>) -> Option<JavaRegionReader> {
        if exists|i: int|
            0 <= i < self.region_readers@.len() && #[trigger] self.region_readers@[i].0@
                == region_path {
            let i = choose|i: int|
                0 <= i < self.region_readers@.len() && #[trigger] self.region_readers@[i].0@
                    == region_path;
            Some(self.region_readers@[i].1)
        } else {
            None
        }
    }

    /// What every cached reader keeps: one per path, each with a full table.
    pub closed spec fn wf(&self) -> bool {
        &&& forall|i: int, j: int|
            0 <= i < j < self.region_readers@.len() ==> #[trigger] self.region_readers@[i].0@
                != #[trigger] self.region_readers@[j].0@
        &&& forall|i: int|
            0 <= i < self.region_readers@.len() ==> #[trigger] self.region_readers@[i].1.offsets@.len()
                == 1024
    }

    /// A reader for the world at `world_path`, with nothing read yet.
    pub fn new(world_path: &str) -> (r: JavaWorldReader)
        ensures
            r.path() == world_path@,
            forall|p: Seq<char>| r.cached(p) is None,
            r.wf(),
    {
        let path = world_path.to_string();
        proof {
            vstd::string::to_string_from_display_ensures_for_str(world_path, path);
        }
        JavaWorldReader { world_path: path, region_readers: Vec::new() }
    }

    /// The region directory of a dimension: `region` in the world, or in the
    /// dimension's directory when one is named.
    pub fn get_region_dir(&self, dimension: &str) -> (r: String)
        ensures
            dimension@.len() == 0 ==> r@ == path_joined(self.path(), "region"@),
            dimension@.len() != 0 ==> r@ == path_joined(
                path_joined(self.path(), dimension@),
                "region"@,
            ),
    {
        if dimension.is_empty() {
            join_path(self.world_path.as_str(), "region")
        } else {
            let dim = join_path(self.world_path.as_str(), dimension);
            join_path(dim.as_str(), "region")
        }
    }

    proof fn lemma_cached_at(&self, i: int)
        requires
            self.wf(),
            0 <= i < self.region_readers@.len(),
        ensures
            self.cached(self.region_readers@[i].0@) == Some(self.region_readers@[i].1),
    {
        let p = self.region_readers@[i].0@;
        let j = choose|j: int|
            0 <= j < self.region_readers@.len() && #[trigger] self.region_readers@[j].0@ == p;
        if j != i {
            if j < i {
                assert(self.region_readers@[j].0@ != self.region_readers@[i].0@);
            } else {
                assert(self.region_readers@[i].0@ != self.region_readers@[j].0@);
            }
        }
    }

    /// Position of the cached reader for `region_path`.
    fn reader_position(&self, region_path: &str) -> (r: Option<usize>)
        ensures
            r is None ==> self.cached(region_path@) is None,
            r matches Some(i) ==> i < self.region_readers@.len()
                && self.region_readers@[i as int].0@ == region_path@,
    {
        let mut i: usize = 0;
        while i < self.region_readers.len()
            invariant
                i <= self.region_readers@.len(),
                forall|j: int| 0 <= j < i ==> self.region_readers@[j].0@ != region_path@,
            decreases self.region_readers@.len() - i,
        {
            if same_text(self.region_readers[i].0.as_str(), region_path) {
                return Some(i);
            }
            i += 1;
        }
        None
    }

    /// Keeps the region file read from `region_path` (its bytes `data`),
    /// unless one is already kept for that path.
    pub fn cache_region(&mut self, region_path: &str, data: &[u8])
        requires
            old(self).wf(),
        ensures
            final(self).wf(),
            final(self).path() == old(self).path(),
            old(self).cached(region_path@) is Some ==> final(self).cached(region_path@) == old(
                self,
            ).cached(region_path@),
            old(self).cached(region_path@) is None ==> (final(self).cached(region_path@) matches Some(
                rd,
            ) && rd.data@ == data@ && rd.offsets@ == header_words(data@, 0)),
            forall|p: Seq<char>| p != region_path@ ==> final(self).cached(p) == old(self).cached(p),
    {
        if self.reader_position(region_path).is_some() {
            return;
        }
        let key = region_path.to_string();
        proof {
            vstd::string::to_string_from_display_ensures_for_str(region_path, key);
        }
        let reader = JavaRegionReader::open_from_bytes(data);
        let ghost old_readers = self.region_readers@;
        self.region_readers.push((key, reader));
        let ghost n = old_readers.len() as int;
        assert(self.region_readers@[n].0@ == region_path@);
        assert forall|p: Seq<char>| p != region_path@ implies self.cached(p) == old(self).cached(
            p,
        ) by {
            if exists|i: int| 0 <= i < old_readers.len() && #[trigger] old_readers[i].0@ == p {
                let i = choose|i: int| 0 <= i < old_readers.len() && #[trigger] old_readers[i].0@ == p;
                assert(self.region_readers@[i].0@ == p);
            }
        }
    }

    /// Whether local chunk (`local_x`, `local_z`) of the kept region file
    /// for `region_path` has an offset entry; false when no file is kept.
    pub fn has_chunk(&self, region_path: &str, local_x: i32, local_z: i32) -> (r: bool)
        requires
            self.wf(),
        ensures
            r == match self.cached(region_path@) {
                Some(rd) => rd.offsets@[slot_index(local_x, local_z)] != 0,
                None => false,
            },
    {
        match self.reader_position(region_path) {
            Some(i) => {
                proof {
                    self.lemma_cached_at(i as int);
                }
                let index = slot_of(local_x, local_z);
                self.region_readers[i].1.offsets[index] != 0
            },
            None => false,
        }
    }

    /// Decodes local chunk (`local_x`, `local_z`) of the kept region file for
    /// `region_path` as NBT; an error when no file is kept.
    pub fn read_chunk_nbt(&self, region_path: &str, local_x: i32, local_z: i32) -> (r: Result<
        Option<NbtCompound>,
        String,
    >)
        requires
            self.wf(),
        ensures
            match self.cached(region_path@) {
                None => r is Err,
                Some(rd) => match inflated_stream(
                    stored_stream(rd.data@, rd.offsets@[slot_index(local_x, local_z)]),
                ) {
                    None => r is Err,
                    Some(None) => r matches Ok(None),
                    Some(Some(v)) => match spec_read_nbt(v) {
                        Some(c) => r matches Ok(Some(x)) && x@ == c,
                        None => r is Err,
                    },
                },
            },
    {
        match self.reader_position(region_path) {
            Some(i) => {
                proof {
                    self.lemma_cached_at(i as int);
                }
                let index = slot_of(local_x, local_z);
                let rd = &self.region_readers[i].1;
                match read_stored_chunk(rd.data.as_slice(), rd.offsets[index]) {
                    Ok(Some(bytes)) => match read_nbt(bytes.as_slice()) {
                        Ok(c) => Ok(Some(c)),
                        Err(e) => Err(e),
                    },
                    Ok(None) => Ok(None),
                    Err(e) => Err(e),
                }
            },
            None => Err("Failed to read region file".to_string()),
        }
    }
}


// ---------------------------------------------------------------------
// Writing Java region files.
// ---------------------------------------------------------------------

/// A Java region file being written: its sectors in a buffer, the offset
/// and timestamp tables, and the next free sector.
pub struct JavaRegionFileWriter {
    path: String,
    buffer: Vec<u8>,
    offsets: Vec<i32>,
    timestamps: Vec<i32>,
    next_sector: usize,
}

/// The state of a `JavaRegionFileWriter`, timestamps aside.
pub struct JavaWriterModel {
    pub path: Seq<char>,
    pub buffer: Seq<u8>,
    pub offsets: Seq<i32>,
    pub next_sector: nat,
}

impl View for JavaRegionFileWriter {
    type V = JavaWriterModel;

    closed spec fn view(&self) -> JavaWriterModel {
        JavaWriterModel {
            path: self.path@,
            buffer: self.buffer@,
            offsets: self.offsets@,
            next_sector: self.next_sector as nat,
        }
    }
}

/// The buffer length after growing by whole sectors until it holds `need`
/// bytes.
pub open spec fn sector_grown_len(len: nat, need: nat) -> nat {
    if need <= len {
        len
    } else {
        (len + ((need - len + 4095) / 4096) * 4096) as nat
    }
}

/// The sectors a chunk occupies in a Java region file: the length of the
/// rest (big-endian), compression type 2, the zlib stream, zero padding.
pub open spec fn java_chunk_block(compressed: Seq<u8>) -> Seq<u8> {
    let total = 5 + compressed.len();
    let need = (total + 4095) / 4096;
    u32_be((1 + compressed.len()) as u32) + seq![2u8] + compressed + Seq::new(
        (need * 4096 - total) as nat,
        |_i: int| 0u8,
    )
}

/// The writer after storing `nbt` at local slot (`x`, `z`): nothing changes
/// for a slot outside 0..32, for a chunk needing 256 sectors or more, or one
/// that would take the buffer past what memory can address. Otherwise the
/// chunk goes into the next free sectors, the buffer growing by whole
/// sectors as needed, and its slot points there.
pub open spec fn java_after_write(m: JavaWriterModel, x: i32, z: i32, nbt: Seq<u8>) -> JavaWriterModel {
    let compressed = zlib_compressed(nbt, 9);
    let need = (5 + compressed.len() + 4095) / 4096;
    if x < 0 || x > 31 || z < 0 || z > 31 || need >= 256 || m.next_sector + need > usize::MAX
        / 4096 {
        m
    } else {
        let start = m.next_sector;
        let grown = m.buffer + Seq::new(
            (sector_grown_len(m.buffer.len(), (start + need) * 4096) - m.buffer.len()) as nat,
            |_i: int| 0u8,
        );
        JavaWriterModel {
            buffer: splice(grown, (start * 4096) as int, java_chunk_block(compressed)),
            offsets: m.offsets.update(x + z * 32, offset_entry(start, need as nat)),
            next_sector: start + need as nat,
            ..m
        }
    }
}

/// A table of `i32` as big-endian words.
pub open spec fn ints_be_table(s: Seq<i32>) -> Seq<u8>
    decreases s.len(),
{
    if s.len() == 0 {
        Seq::empty()
    } else {
        ints_be_table(s.drop_last()) + u32_be(s.last() as u32)
    }
}

proof fn lemma_ints_be_table_len(s: Seq<i32>)
    ensures
        ints_be_table(s).len() == s.len() * 4,
    decreases s.len(),
{
    if s.len() > 0 {
        lemma_ints_be_table_len(s.drop_last());
    }
}

/// The bytes that `save_bytes` gives for writer state `m` with timestamps
/// `times`: the buffer grown to the next free sector, the offset and
/// timestamp tables (big-endian) over its first two sectors, cut at the
/// next free sector.
pub open spec fn saved_region(m: JavaWriterModel, times: Seq<i32>) -> Seq<u8> {
    let total = m.next_sector * 4096;
    let grown = m.buffer + Seq::new(
        (sector_grown_len(m.buffer.len(), total) - m.buffer.len()) as nat,
        |_i: int| 0u8,
    );
    (ints_be_table(m.offsets) + ints_be_table(times) + grown.subrange(8192, grown.len() as int)).subrange(
        0,
        total as int,
    )
}

/// The highest sector end that a table of offset entries reaches, and at
/// least 2.
pub open spec fn max_sector_end(offsets: Seq<i32>) -> nat
    decreases offsets.len(),
{
    if offsets.len() == 0 {
        2
    } else {
        let prev = max_sector_end(offsets.drop_last());
        let off = offsets.last();
        let end = ((off >> 8i32) as usize).wrapping_add((off & 0xFF) as usize);
        if off != 0 && end > prev {
            end as nat
        } else {
            prev
        }
    }
}

impl JavaRegionFileWriter {
    /// The timestamp table.
    pub closed spec fn times(&self) -> Seq<i32> {
        self.timestamps@
    }

    /// What a writer keeps: full tables.
    pub closed spec fn wf(&self) -> bool {
        &&& self.offsets@.len() == 1024
        &&& self.timestamps@.len() == 1024
    }

    /// An empty region file to be written at `path`.
    pub fn new(path: &str) -> (r: JavaRegionFileWriter)
        ensures
            r@ == (JavaWriterModel {
                path: path@,
                buffer: Seq::new(8192, |_i: int| 0u8),
                offsets: Seq::new(1024, |_i: int| 0i32),
                next_sector: 2,
            }),
            r.times() == Seq::new(1024, |_i: int| 0i32),
            r.wf(),
    {
        let p = path.to_string();
        proof {
            vstd::string::to_string_from_display_ensures_for_str(path, p);
        }
        JavaRegionFileWriter {
            path: p,
            buffer: zeros(8192, 0u8),
            offsets: zeros(1024, 0i32),
            timestamps: zeros(1024, 0i32),
            next_sector: 2,
        }
    }

    /// A writer that continues the region file whose bytes are `data`: its
    /// tables are read from the header (a word past the end reads as 0), and
    /// new chunks go after the last sector any entry reaches.
    pub fn load_from_bytes(path: &str, data: &[u8]) -> (r: JavaRegionFileWriter)
        ensures
            r@.path == path@,
            r@.offsets == Seq::new(1024, |i: int| header_words(data@, 0)[i] as i32),
            r.times() == Seq::new(1024, |i: int| header_words(data@, 4096)[i] as i32),
            r@.next_sector == max_sector_end(r@.offsets),
            r@.buffer == data@,
            r.wf(),
    {
        let p = path.to_string();
        proof {
            vstd::string::to_string_from_display_ensures_for_str(path, p);
        }
        let words = read_header_words(data, 0);
        let times = read_header_words(data, 4096);
        let mut offsets: Vec<i32> = Vec::new();
        let mut timestamps: Vec<i32> = Vec::new();
        let mut max_sector: usize = 2;
        let mut i: usize = 0;
        while i < 1024
            invariant
                i <= 1024,
                words@ == header_words(data@, 0),
                times@ == header_words(data@, 4096),
                offsets@ == Seq::new(i as nat, |k: int| header_words(data@, 0)[k] as i32),
                timestamps@ == Seq::new(i as nat, |k: int| header_words(data@, 4096)[k] as i32),
                max_sector == max_sector_end(offsets@),
            decreases 1024 - i,
        {
            let off = words[i] as i32;
            let ghost prev = offsets@;
            offsets.push(off);
            timestamps.push(times[i] as i32);
            assert(offsets@.drop_last() =~= prev);
            if off != 0 {
                let end = ((off >> 8i32) as usize).wrapping_add((off & 0xFF) as usize);
                if end > max_sector {
                    max_sector = end;
                }
            }
            i += 1;
            assert(offsets@ =~= Seq::new(i as nat, |k: int| header_words(data@, 0)[k] as i32));
            assert(timestamps@ =~= Seq::new(i as nat, |k: int| header_words(data@, 4096)[k] as i32));
        }
        let mut buffer: Vec<u8> = Vec::new();
        buffer.extend_from_slice(data);
        assert(buffer@ =~= data@);
        JavaRegionFileWriter { path: p, buffer, offsets, timestamps, next_sector: max_sector }
    }
}


/// Writes `block` over `buffer[at..]`.
fn write_block(buffer: &mut Vec<u8>, at: usize, block: &Vec<u8>)
    requires
        at + block@.len() <= old(buffer)@.len(),
    ensures
        final(buffer)@ == splice(old(buffer)@, at as int, block@),
{
    let ghost b0 = buffer@;
    let blen = buffer.len();
    let mut k: usize = 0;
    while k < block.len()
        invariant
            k <= block@.len(),
            at + block@.len() <= b0.len(),
            b0.len() == blen,
            buffer@ == b0.subrange(0, at as int) + block@.take(k as int) + b0.subrange(
                at + k,
                b0.len() as int,
            ),
        decreases block@.len() - k,
    {
        buffer.set(at + k, block[k]);
        k += 1;
        assert(buffer@ =~= b0.subrange(0, at as int) + block@.take(k as int) + b0.subrange(
            at + k,
            b0.len() as int,
        ));
    }
    assert(block@.take(k as int) =~= block@);
}

impl JavaRegionFileWriter {
    /// Stores an NBT chunk at local slot (`local_x`, `local_z`) (see
    /// `java_after_write`); the slot's timestamp becomes the current time.
    pub fn write_chunk(&mut self, local_x: i32, local_z: i32, uncompressed_nbt: &[u8])
        requires
            old(self).wf(),
        ensures
            final(self).wf(),
            final(self)@ == java_after_write(old(self)@, local_x, local_z, uncompressed_nbt@),
            final(self)@ == old(self)@ ==> final(self).times() == old(self).times(),
            same_except(final(self).times(), old(self).times(), local_x + local_z * 32),
            0 <= local_x < 32 && 0 <= local_z < 32 ==> zlib_compressed(uncompressed_nbt@, 9).len() > 0,
    {
        if local_x < 0 || local_x > 31 || local_z < 0 || local_z > 31 {
            return;
        }
        let compressed = compress_zlib(uncompressed_nbt);
        let clen = compressed.len();
        if clen > usize::MAX - 5 - 4095 {
            return;
        }
        let total_length = 5 + clen;
        let sectors_needed = (total_length + 4095) / 4096;
        if sectors_needed >= 256 {
            return;
        }
        if self.next_sector > usize::MAX / 4096 - sectors_needed {
            return;
        }
        let sector_start = self.next_sector;
        self.next_sector = sector_start + sectors_needed;
        let need = (sector_start + sectors_needed) * 4096;
        let ghost b0 = self.buffer@;
        while self.buffer.len() < need
            invariant
                b0.len() <= self.buffer@.len(),
                need == (sector_start + sectors_needed) * 4096,
                (self.buffer@.len() - b0.len()) % 4096 == 0,
                b0.len() < need ==> self.buffer@.len() < need + 4096,
                self.buffer@ == b0 + Seq::new((self.buffer@.len() - b0.len()) as nat, |_i: int| 0u8),
                self.offsets@ == old(self).offsets@,
                self.timestamps@ == old(self).timestamps@,
                self.path@ == old(self).path@,
                self.next_sector == sector_start + sectors_needed,
                b0.len() >= need ==> self.buffer@.len() == b0.len(),
            decreases (if need > self.buffer@.len() { need - self.buffer@.len() } else { 0int }),
        {
            let mut k: usize = 0;
            let ghost b1 = self.buffer@;
            while k < 4096
                invariant
                    k <= 4096,
                    b1.len() < need,
                    self.buffer@ == b1 + Seq::new(k as nat, |_i: int| 0u8),
                    self.offsets@ == old(self).offsets@,
                    self.timestamps@ == old(self).timestamps@,
                    self.path@ == old(self).path@,
                    self.next_sector == sector_start + sectors_needed,
                decreases 4096 - k,
            {
                self.buffer.push(0);
                k += 1;
                assert(self.buffer@ =~= b1 + Seq::new(k as nat, |_i: int| 0u8));
            }
            assert(self.buffer@ =~= b0 + Seq::new((self.buffer@.len() - b0.len()) as nat, |_i: int| 0u8));
        }
        proof {
            let l = b0.len();
            let g = self.buffer@.len();
            if l < need {
                assert(g == sector_grown_len(l as nat, need as nat)) by (nonlinear_arith)
                    requires
                        l < need,
                        l <= g < need + 4096,
                        need <= g,
                        (g - l) % 4096 == 0,
                ;
            }
        }
        let mut block: Vec<u8> = Vec::new();
        push_u32_be(&mut block, (1 + clen) as u32);
        block.push(2);
        block.extend_from_slice(compressed.as_slice());
        let padding = sectors_needed * 4096 - total_length;
        let ghost bl = block@;
        let mut k: usize = 0;
        while k < padding
            invariant
                k <= padding,
                block@ == bl + Seq::new(k as nat, |_i: int| 0u8),
            decreases padding - k,
        {
            block.push(0);
            k += 1;
            assert(block@ =~= bl + Seq::new(k as nat, |_i: int| 0u8));
        }
        assert(block@ =~= java_chunk_block(compressed@));
        write_block(&mut self.buffer, sector_start * 4096, &block);
        assert(0 <= local_x + local_z * 32 < 1024) by (nonlinear_arith)
            requires
                0 <= local_x < 32,
                0 <= local_z < 32,
        ;
        let offset_index = (local_x + local_z * 32) as usize;
        #[verifier::truncate]
        let entry = (((sector_start as u32) << 8u32) | (sectors_needed as u32)) as i32;
        self.offsets.set(offset_index, entry);
        let now = now_unix_secs();
        self.timestamps.set(offset_index, now);
    }

    /// The bytes of the finished region file: the buffer grown to the next
    /// free sector, with the offset and timestamp tables (big-endian) over
    /// its first two sectors, cut at the next free sector. The buffer keeps
    /// the tables and growth.
    pub fn save_bytes(&mut self) -> (r: Vec<u8>)
        requires
            old(self).wf(),
            old(self)@.next_sector >= 2,
            old(self)@.next_sector * 4096 <= usize::MAX,
        ensures
            final(self).wf(),
            final(self)@.offsets == old(self)@.offsets,
            final(self).times() == old(self).times(),
            final(self)@.next_sector == old(self)@.next_sector,
            ({
                let m = old(self)@;
                let total = m.next_sector * 4096;
                let grown = m.buffer + Seq::new(
                    (sector_grown_len(m.buffer.len(), total) - m.buffer.len()) as nat,
                    |_i: int| 0u8,
                );
                &&& final(self)@.buffer == ints_be_table(m.offsets) + ints_be_table(old(self).times())
                    + grown.subrange(8192, grown.len() as int)
                &&& r@ == final(self)@.buffer.subrange(0, total as int)
            }),
            r@ == saved_region(old(self)@, old(self).times()),
    {
        let ghost b0 = self.buffer@;
        let need = self.next_sector * 4096;
        while self.buffer.len() < need
            invariant
                b0.len() <= self.buffer@.len(),
                need == self.next_sector * 4096,
                (self.buffer@.len() - b0.len()) % 4096 == 0,
                b0.len() < need ==> self.buffer@.len() < need + 4096,
                self.buffer@ == b0 + Seq::new((self.buffer@.len() - b0.len()) as nat, |_i: int| 0u8),
                self.offsets@ == old(self).offsets@,
                self.timestamps@ == old(self).timestamps@,
                self.path@ == old(self).path@,
                self.next_sector == old(self).next_sector,
                b0.len() >= need ==> self.buffer@.len() == b0.len(),
            decreases (if need > self.buffer@.len() { need - self.buffer@.len() } else { 0int }),
        {
            let mut k: usize = 0;
            let ghost b1 = self.buffer@;
            while k < 4096
                invariant
                    k <= 4096,
                    b1.len() < need,
                    self.buffer@ == b1 + Seq::new(k as nat, |_i: int| 0u8),
                    self.offsets@ == old(self).offsets@,
                    self.timestamps@ == old(self).timestamps@,
                    self.path@ == old(self).path@,
                    self.next_sector == old(self).next_sector,
                decreases 4096 - k,
            {
                self.buffer.push(0);
                k += 1;
                assert(self.buffer@ =~= b1 + Seq::new(k as nat, |_i: int| 0u8));
            }
            assert(self.buffer@ =~= b0 + Seq::new((self.buffer@.len() - b0.len()) as nat, |_i: int| 0u8));
        }
        proof {
            let l = b0.len();
            let g = self.buffer@.len();
            if l < need {
                assert(g == sector_grown_len(l as nat, need as nat)) by (nonlinear_arith)
                    requires
                        l < need,
                        l <= g < need + 4096,
                        need <= g,
                        (g - l) % 4096 == 0,
                ;
            }
            lemma_ints_be_table_len(self.offsets@);
            lemma_ints_be_table_len(self.timestamps@);
        }
        let ghost g0 = self.buffer@;
        let mut table: Vec<u8> = Vec::new();
        let mut i: usize = 0;
        while i < 1024
            invariant
                i <= 1024,
                self.offsets@.len() == 1024,
                table@ == ints_be_table(self.offsets@.take(i as int)),
            decreases 1024 - i,
        {
            push_u32_be(&mut table, self.offsets[i] as u32);
            assert(self.offsets@.take(i + 1).drop_last() =~= self.offsets@.take(i as int));
            i += 1;
        }
        assert(self.offsets@.take(1024) =~= self.offsets@);
        assert(self.timestamps@.take(0) =~= Seq::<i32>::empty());
        let mut i: usize = 0;
        while i < 1024
            invariant
                i <= 1024,
                self.timestamps@.len() == 1024,
                self.offsets@.len() == 1024,
                table@ == ints_be_table(self.offsets@) + ints_be_table(self.timestamps@.take(i as int)),
            decreases 1024 - i,
        {
            push_u32_be(&mut table, self.timestamps[i] as u32);
            assert(self.timestamps@.take(i + 1).drop_last() =~= self.timestamps@.take(i as int));
            i += 1;
        }
        assert(self.offsets@.take(1024) =~= self.offsets@);
        assert(self.timestamps@.take(1024) =~= self.timestamps@);
        write_block(&mut self.buffer, 0, &table);
        assert(self.buffer@ =~= ints_be_table(old(self)@.offsets) + ints_be_table(old(self).times())
            + g0.subrange(8192, g0.len() as int));
        let out = slice_range(self.buffer.as_slice(), 0, need);
        let mut r: Vec<u8> = Vec::new();
        r.extend_from_slice(out);
        assert(r@ =~= self.buffer@.subrange(0, need as int));
        r
    }
}

proof fn lemma_ints_be_table_at(t: Seq<i32>, i: int)
    requires
        0 <= i < t.len(),
    ensures
        ints_be_table(t).len() == 4 * t.len(),
        ints_be_table(t).subrange(4 * i, 4 * i + 4) == u32_be(t[i] as u32),
    decreases t.len(),
{
    lemma_ints_be_table_len(t);
    lemma_ints_be_table_len(t.drop_last());
    if i < t.len() - 1 {
        lemma_ints_be_table_at(t.drop_last(), i);
        assert(ints_be_table(t).subrange(4 * i, 4 * i + 4) =~= ints_be_table(t.drop_last()).subrange(4 * i, 4 * i + 4));
    } else {
        assert(ints_be_table(t).subrange(4 * i, 4 * i + 4) =~= u32_be(t.last() as u32));
    }
}

/// A chunk written to a Java region file is found again in the saved file:
/// the slot's offset entry leads to the zlib stream that was written, which
/// inflates to the chunk. This holds where the write is kept (the chunk
/// fits fewer than 256 sectors and the buffer stays addressable), its
/// sectors lie within reach of the 24-bit sector number and the chunk is
/// not empty. (Its zlib stream is never empty: `write_chunk` states so for
/// the chunks it writes.)
pub proof fn lemma_write_then_read(m: JavaWriterModel, times: Seq<i32>, x: i32, z: i32, nbt: Seq<u8>)
    requires
        m.offsets.len() == 1024,
        times.len() == 1024,
        m.next_sector >= 2,
        0 <= x < 32,
        0 <= z < 32,
        nbt.len() > 0,
        zlib_compressed(nbt, 9).len() > 0,
        ({
            let need = (5 + zlib_compressed(nbt, 9).len() + 4095) / 4096;
            &&& need < 256
            &&& m.next_sector + need <= usize::MAX / 4096
            &&& m.next_sector + need < 0x100_0000
        }),
    ensures
        ({
            let img = saved_region(java_after_write(m, x, z, nbt), times);
            &&& stored_stream(img, header_words(img, 0)[slot_index(x, z)]) == Some((2u8, zlib_compressed(nbt, 9)))
            &&& zlib_inflated(zlib_compressed(nbt, 9)) == Some(nbt) ==> inflated_stream(
                stored_stream(img, header_words(img, 0)[slot_index(x, z)]),
            ) == Some(Some(nbt))
        }),
{
    let c = zlib_compressed(nbt, 9);
    let clen = c.len();
    let need = (5 + clen + 4095) / 4096;
    let start = m.next_sector;
    let m2 = java_after_write(m, x, z, nbt);
    let s = x + z * 32;
    assert(s == slot_index(x, z)) by {
        crate::bytes::lemma_low5(x);
        crate::bytes::lemma_low5(z);
    }
    assert(0 <= s < 1024) by (nonlinear_arith)
        requires
            s == x + z * 32,
            0 <= x < 32,
            0 <= z < 32,
    ;
    assert(need >= 1);
    assert(5 + clen <= need * 4096) by (nonlinear_arith)
        requires
            need == (5 + clen + 4095) / 4096,
    ;
    let total = (start + need) * 4096;
    let grown0 = m.buffer + Seq::new(
        (sector_grown_len(m.buffer.len(), total) - m.buffer.len()) as nat,
        |_i: int| 0u8,
    );
    assert(grown0.len() >= total);
    let block = java_chunk_block(c);
    assert(block.len() == need * 4096);
    let pos: int = (start * 4096) as int;
    assert(pos + block.len() == total) by (nonlinear_arith)
        requires
            pos == start * 4096,
            block.len() == need * 4096,
            total == (start + need) * 4096,
    ;
    assert(m2.buffer == splice(grown0, pos, block));
    assert(m2.next_sector == start + need);
    let grown = m2.buffer + Seq::new(
        (sector_grown_len(m2.buffer.len(), total) - m2.buffer.len()) as nat,
        |_i: int| 0u8,
    );
    lemma_ints_be_table_len(m2.offsets);
    lemma_ints_be_table_len(times);
    let full = ints_be_table(m2.offsets) + ints_be_table(times) + grown.subrange(8192, grown.len() as int);
    let img = saved_region(m2, times);
    assert(img == full.subrange(0, total as int));
    assert(pos >= 8192) by (nonlinear_arith)
        requires
            pos == start * 4096,
            start >= 2,
    ;
    // The header word of the slot.
    lemma_ints_be_table_at(m2.offsets, s);
    assert(img.subrange(4 * s, 4 * s + 4) =~= u32_be(m2.offsets[s] as u32));
    crate::bytes::lemma_be_u32_roundtrip(img, 4 * s, m2.offsets[s] as u32);
    assert(header_words(img, 0)[s] == m2.offsets[s] as u32);
    assert(m2.offsets[s] == offset_entry(start, need as nat));
    let st = start as u32;
    let nd = need as u32;
    assert(((((st << 8u32) | nd) as i32) as u32) >> 8u32 == st && ((((st << 8u32) | nd) as i32) as u32) != 0)
        by (bit_vector)
        requires
            2 <= st < 0x100_0000,
            nd < 256,
    ;
    let e = header_words(img, 0)[s];
    assert((e >> 8u32) as int * 4096 == pos);
    // The stored block.
    assert forall|k: int| 0 <= k < block.len() implies #[trigger] img[pos + k] == block[k] by {
        assert(img[pos + k] == full[pos + k]);
        assert(full[pos + k] == grown[pos + k]);
        assert(grown[pos + k] == m2.buffer[pos + k]);
    }
    assert(img.subrange(pos, pos + 4) =~= u32_be((1 + clen) as u32));
    crate::bytes::lemma_be_u32_roundtrip(img, pos, (1 + clen) as u32);
    assert(be_u32_at(img, pos) == 1 + clen);
    assert(img[pos + 4] == 2u8);
    assert(img.subrange(pos + 5, pos + 5 + clen) =~= c);
}

} // verus!
