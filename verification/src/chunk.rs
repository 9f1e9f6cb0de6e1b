use crate::block_mapping::{map_modern_block_state, modern_block_state, remap_blocks, remapped_id};
use crate::nbt::{
    get_nibble, lookup, name_index, nibble_at, set_nibble, values_model, CompoundModel, NbtCompound,
    NbtTag, NbtValue,
};
use crate::payload::{bytes_or_empty, compressed_storage, encode_compressed_storage, encode_legacy_nbt, fit_len, legacy_document, list_or_empty, long_or_zero, put};
use crate::region::zeros;
use crate::sign_text::{sanitize_legacy_sign_line, sanitized, simplified, simplify_sign_text};
use crate::block_mapping::{lit, name_is, one_of, matches_any, starts, starts_with};
use vstd::prelude::*;

verus! {

// ---------------------------------------------------------------------
// Chunk formats.
// ---------------------------------------------------------------------

/// The layout a Java chunk's blocks are stored in.
#[derive(Clone, Copy, Debug, PartialEq, Eq, Structural)]
pub enum JavaChunkFormat {
    Unknown,
    LegacyBlockArray,
    LegacyAnvil,
    ModernPalette,
    ModernExtendedHeight,
}

/// What `inspect_chunk` learns of a chunk.
#[derive(Clone, Copy, Debug)]
pub struct JavaChunkFormatInfo {
    pub format: JavaChunkFormat,
    pub has_level_wrapper: bool,
    pub data_version: i32,
    pub min_section_y: Option<i32>,
    pub max_section_y: Option<i32>,
    pub has_modern_entity_tags: bool,
}

impl JavaChunkFormatInfo {
    /// Whether blocks are stored in sections.
    pub fn is_section_based(&self) -> (r: bool)
        ensures
            r == (self.format == JavaChunkFormat::LegacyAnvil || self.format
                == JavaChunkFormat::ModernPalette || self.format
                == JavaChunkFormat::ModernExtendedHeight),
    {
        match self.format {
            JavaChunkFormat::LegacyAnvil | JavaChunkFormat::ModernPalette
            | JavaChunkFormat::ModernExtendedHeight => true,
            _ => false,
        }
    }

    /// Whether sections store blocks as palettes.
    pub fn uses_palette_sections(&self) -> (r: bool)
        ensures
            r == (self.format == JavaChunkFormat::ModernPalette || self.format
                == JavaChunkFormat::ModernExtendedHeight),
    {
        match self.format {
            JavaChunkFormat::ModernPalette | JavaChunkFormat::ModernExtendedHeight => true,
            _ => false,
        }
    }

    /// Whether entities and block entities follow the modern schema.
    pub fn uses_modern_content_schema(&self) -> (r: bool)
        ensures
            r == (self.format == JavaChunkFormat::ModernPalette || self.format
                == JavaChunkFormat::ModernExtendedHeight || self.has_modern_entity_tags),
    {
        self.uses_palette_sections() || self.has_modern_entity_tags
    }

    /// Whether sections must be shifted into the 0..16 range.
    pub fn requires_section_shift(&self) -> (r: bool)
        ensures
            r == (self.format == JavaChunkFormat::ModernExtendedHeight),
    {
        self.format == JavaChunkFormat::ModernExtendedHeight
    }
}

/// The height of a section: its `Y` as a Byte, else as an Int, else as a
/// Short.
pub open spec fn section_y(s: CompoundModel) -> Option<i32> {
    match lookup(s.tags, "Y"@) {
        Some(NbtTag::Byte(b)) => Some(b as i32),
        _ => match lookup(s.tags, "Y"@) {
            Some(NbtTag::Int(i)) => Some(i),
            _ => match lookup(s.tags, "Y"@) {
                Some(NbtTag::Short(v)) => Some(v as i32),
                _ => None,
            },
        },
    }
}

/// The height of a section (see `section_y`).
pub fn read_section_y(section: &NbtCompound) -> (r: Option<i32>)
    ensures
        r == section_y(section@),
{
    if let Some(b) = section.byte("Y") {
        return Some(b as i32);
    }
    if let Some(i) = section.int_value("Y") {
        return Some(i);
    }
    if let Some(s) = section.short("Y") {
        return Some(s as i32);
    }
    None
}

/// Whether a section stores its blocks as a palette.
pub open spec fn palette_storage(s: CompoundModel) -> bool {
    name_index(s.tags, "block_states"@) != -1 || name_index(s.tags, "Palette"@) != -1 || name_index(
        s.tags,
        "BlockStates"@,
    ) != -1
}

fn section_uses_palette_storage(section: &NbtCompound) -> (r: bool)
    ensures
        r == palette_storage(section@),
{
    section.contains("block_states") || section.contains("Palette") || section.contains("BlockStates")
}

/// The level a chunk's content is in: its `Level` compound, or the root.
pub open spec fn source_level(root: CompoundModel) -> CompoundModel {
    match lookup(root.tags, "Level"@) {
        Some(NbtTag::Compound(l)) => l,
        _ => root,
    }
}

/// The sections list of a level (`Sections`, else `sections`).
pub open spec fn sections_of(level: CompoundModel) -> Option<Seq<NbtTag>> {
    match lookup(level.tags, "Sections"@) {
        Some(NbtTag::List(l)) => Some(l),
        _ => match lookup(level.tags, "sections"@) {
            Some(NbtTag::List(l)) => Some(l),
            _ => None,
        },
    }
}

/// The lowest and highest section heights among the compound sections of
/// `l`, and whether any of them uses palette storage.
pub open spec fn section_summary(l: Seq<NbtTag>) -> (Option<i32>, Option<i32>, bool)
    decreases l.len(),
{
    if l.len() == 0 {
        (None, None, false)
    } else {
        let (lo, hi, pal) = section_summary(l.drop_last());
        match l.last() {
            NbtTag::Compound(s) => {
                let (lo2, hi2) = match section_y(s) {
                    Some(y) => (
                        Some(
                            match lo {
                                Some(v) => if y < v { y } else { v },
                                None => y,
                            },
                        ),
                        Some(
                            match hi {
                                Some(v) => if y > v { y } else { v },
                                None => y,
                            },
                        ),
                    ),
                    None => (lo, hi),
                };
                (lo2, hi2, pal || palette_storage(s))
            },
            _ => (lo, hi, pal),
        }
    }
}

/// The data version of a chunk: the root's Int `DataVersion`, else its
/// level's, else 0.
pub open spec fn data_version_of(root: CompoundModel) -> i32 {
    match lookup(root.tags, "DataVersion"@) {
        Some(NbtTag::Int(v)) => v,
        _ => match lookup(root.tags, "Level"@) {
            Some(NbtTag::Compound(l)) => match lookup(l.tags, "DataVersion"@) {
                Some(NbtTag::Int(v)) => v,
                _ => 0,
            },
            _ => 0,
        },
    }
}

/// What `inspect_chunk` finds: palette sections make a modern chunk (of
/// extended height when a section lies below 0 or above 15), other
/// non-empty sections an Anvil chunk, a `Blocks` array a legacy chunk.
pub open spec fn chunk_info(root: CompoundModel) -> JavaChunkFormatInfo {
    let level = source_level(root);
    let sections = sections_of(level);
    let has_sections = match sections {
        Some(l) => l.len() > 0,
        None => false,
    };
    let (lo, hi, pal) = match sections {
        Some(l) => section_summary(l),
        None => (None, None, false),
    };
    let extended = (match lo {
        Some(v) => v < 0,
        None => false,
    }) || (match hi {
        Some(v) => v > 15,
        None => false,
    });
    let format = if pal {
        if extended {
            JavaChunkFormat::ModernExtendedHeight
        } else {
            JavaChunkFormat::ModernPalette
        }
    } else if has_sections {
        JavaChunkFormat::LegacyAnvil
    } else if name_index(level.tags, "Blocks"@) != -1 {
        JavaChunkFormat::LegacyBlockArray
    } else {
        JavaChunkFormat::Unknown
    };
    JavaChunkFormatInfo {
        format,
        has_level_wrapper: lookup(root.tags, "Level"@) is Some,
        data_version: data_version_of(root),
        min_section_y: lo,
        max_section_y: hi,
        has_modern_entity_tags: name_index(level.tags, "block_entities"@) != -1 || name_index(
            level.tags,
            "entities"@,
        ) != -1,
    }
}

/// The level a chunk's content is in (see `source_level`).
fn get_source_level(root: &NbtCompound) -> (r: &NbtCompound)
    ensures
        r@ == source_level(root@),
{
    match root.compound("Level") {
        Some(l) => l,
        None => root,
    }
}

/// The sections list of a level (see `sections_of`).
fn get_sections(level: &NbtCompound) -> (r: Option<&[NbtValue]>)
    ensures
        match sections_of(level@) {
            Some(l) => r matches Some(x) && values_model(x@) == l,
            None => r is None,
        },
{
    match level.list("Sections") {
        Some(l) => Some(l),
        None => level.list("sections"),
    }
}

/// Finds the format and section range of a chunk (see `chunk_info`).
pub fn inspect_chunk(root_tag: &NbtCompound) -> (r: JavaChunkFormatInfo)
    ensures
        r == chunk_info(root_tag@),
{
    let has_level_wrapper = root_tag.get("Level").is_some();
    let level = get_source_level(root_tag);
    let data_version = match root_tag.int_value("DataVersion") {
        Some(v) => v,
        None => match root_tag.compound("Level") {
            Some(l) => match l.int_value("DataVersion") {
                Some(v) => v,
                None => 0,
            },
            None => 0,
        },
    };
    let has_modern_entity_tags = level.contains("block_entities") || level.contains("entities");
    let has_legacy_block_arrays = level.contains("Blocks");
    let sections = get_sections(level);
    let mut has_sections = false;
    let mut min_y: Option<i32> = None;
    let mut max_y: Option<i32> = None;
    let mut has_palette = false;
    if let Some(l) = sections {
        has_sections = l.len() > 0;
        proof {
            crate::nbt::lemma_values_model(l@);
        }
        let mut i: usize = 0;
        while i < l.len()
            invariant
                i <= l@.len(),
                values_model(l@).len() == l@.len(),
                forall|j: int| 0 <= j < l@.len() ==> #[trigger] values_model(l@)[j] == l@[j]@,
                (min_y, max_y, has_palette) == section_summary(values_model(l@).take(i as int)),
            decreases l@.len() - i,
        {
            let ghost m = values_model(l@);
            assert(m.take(i + 1).drop_last() =~= m.take(i as int));
            assert(m.take(i + 1).last() == l@[i as int]@);
            match &l[i] {
                NbtValue::Compound(section) => {
                    if let Some(sy) = read_section_y(section) {
                        min_y = Some(match min_y { Some(v) => if sy < v { sy } else { v }, None => sy });
                        max_y = Some(match max_y { Some(v) => if sy > v { sy } else { v }, None => sy });
                    }
                    if section_uses_palette_storage(section) {
                        has_palette = true;
                    }
                },
                _ => {},
            }
            i += 1;
        }
        assert(values_model(l@).take(i as int) =~= values_model(l@));
    }
    let extended = (match min_y { Some(v) => v < 0, None => false }) || (match max_y {
        Some(v) => v > 15,
        None => false,
    });
    let format = if has_palette {
        if extended {
            JavaChunkFormat::ModernExtendedHeight
        } else {
            JavaChunkFormat::ModernPalette
        }
    } else if has_sections {
        JavaChunkFormat::LegacyAnvil
    } else if has_legacy_block_arrays {
        JavaChunkFormat::LegacyBlockArray
    } else {
        JavaChunkFormat::Unknown
    };
    JavaChunkFormatInfo {
        format,
        has_level_wrapper,
        data_version,
        min_section_y: min_y,
        max_section_y: max_y,
        has_modern_entity_tags,
    }
}


// ---------------------------------------------------------------------
// Section block storage.
// ---------------------------------------------------------------------

/// The number of bits needed for `v` (at least 1).
pub open spec fn bits_required(v: nat) -> nat
    decreases v,
{
    if v <= 1 {
        1
    } else {
        1 + bits_required(v / 2)
    }
}

/// `2^k`.
pub open spec fn two_pow(k: nat) -> nat
    decreases k,
{
    if k == 0 {
        1
    } else {
        2 * two_pow((k - 1) as nat)
    }
}

proof fn lemma_bits_bound(v: nat, k: nat)
    requires
        k >= 1,
        v < two_pow(k),
    ensures
        bits_required(v) <= k,
    decreases v,
{
    if v > 1 {
        assert(two_pow(1) == 2) by {
            reveal_with_fuel(two_pow, 2);
        }
        assert(k >= 2);
        lemma_bits_bound(v / 2, (k - 1) as nat);
    }
}

proof fn lemma_bits_required(v: nat)
    requires
        v <= 0xFFFF_FFFF_FFFF_FFFF,
    ensures
        1 <= bits_required(v) <= 64,
{
    reveal_with_fuel(two_pow, 65);
    assert(two_pow(64) == 0x1_0000_0000_0000_0000);
    lemma_bits_bound(v, 64);
}

/// Computes `bits_required`.
pub(crate) fn get_bits_required(value: usize) -> (r: usize)
    ensures
        r == bits_required(value as nat),
        1 <= r <= 64,
{
    let mut bits: usize = 0;
    let mut v = value;
    proof {
        lemma_bits_required(value as nat);
    }
    while v > 1
        invariant
            bits + bits_required(v as nat) == bits_required(value as nat),
            bits <= 64,
            bits_required(value as nat) <= 64,
            v >= 1 || value == 0,
        decreases v,
    {
        proof {
            lemma_bits_required(v as nat);
        }
        bits = bits + 1;
        v = v / 2;
    }
    bits + 1
}

/// The mask of the low `bits` bits (all bits for 64).
pub open spec fn low_mask(bits: nat) -> u64 {
    if bits >= 64 {
        0xFFFF_FFFF_FFFF_FFFFu64
    } else {
        ((1u64 << (bits as u64)) - 1) as u64
    }
}

fn mask_of(bits: usize) -> (r: u64)
    requires
        1 <= bits <= 64,
    ensures
        r == low_mask(bits as nat),
{
    if bits >= 64 {
        0xFFFF_FFFF_FFFF_FFFFu64
    } else {
        let b = bits as u64;
        assert((1u64 << b) >= 1) by (bit_vector)
            requires
                b < 64,
        ;
        (1u64 << b) - 1
    }
}

/// How many whole values of `bits` bits fit in a long (at least 1).
pub open spec fn values_per_long(bits: nat) -> nat {
    if 64nat / bits >= 1 {
        64nat / bits
    } else {
        1nat
    }
}

/// The length of a padded block-state array for 4096 values.
pub open spec fn padded_len(bits: nat) -> nat {
    ((4096 + values_per_long(bits) - 1) as nat / values_per_long(bits)) as nat
}

/// The palette index of block `i` in block states packed with whole values
/// per long (`64 / bits` of them, low bits first).
pub open spec fn padded_index(bs: Seq<i64>, bits: nat, i: int) -> u64 {
    let vpl = values_per_long(bits);
    ((bs[i / vpl as int] as u64) >> (((i % vpl as int) * bits) as u64)) & low_mask(bits)
}

/// The palette index of block `i` in block states packed without gaps
/// (values may span two longs); a long past the end reads as zero.
pub open spec fn compact_index(bs: Seq<i64>, bits: nat, i: int) -> u64 {
    let start = i * bits;
    let li = start / 64;
    let bo = start % 64;
    let lo: u64 = if li < bs.len() { (bs[li] as u64) >> (bo as u64) } else { 0 };
    let read = 64 - bo;
    let v: u64 = if read < bits && li + 1 < bs.len() {
        lo | ((bs[li + 1] as u64) << (read as u64))
    } else {
        lo
    };
    v & low_mask(bits)
}

fn read_padded_block_state(block_states: &[i64], bits_per_block: usize, index: usize) -> (r: u64)
    requires
        1 <= bits_per_block <= 64,
        index < 4096,
        block_states@.len() == padded_len(bits_per_block as nat),
    ensures
        r == padded_index(block_states@, bits_per_block as nat, index as int),
{
    let q = 64 / bits_per_block;
    assert(q >= 1) by (nonlinear_arith)
        requires
            q == 64usize / bits_per_block,
            1 <= bits_per_block <= 64,
    ;
    let vpl = if q >= 1 { q } else { 1 };
    assert(vpl as nat == values_per_long(bits_per_block as nat));
    let long_index = index / vpl;
    assert(long_index < block_states@.len()) by (nonlinear_arith)
        requires
            long_index == index / vpl,
            index < 4096,
            vpl >= 1,
            block_states@.len() == (4096 + vpl - 1) / (vpl as int),
    ;
    assert((index % vpl) * bits_per_block < 64) by (nonlinear_arith)
        requires
            vpl >= 1,
            vpl == 64usize / bits_per_block,
            1 <= bits_per_block <= 64,
    ;
    let bit_offset = ((index % vpl) * bits_per_block) as u64;
    let mask = mask_of(bits_per_block);
    ((block_states[long_index] as u64) >> bit_offset) & mask
}

fn read_compact_block_state(block_states: &[i64], bits_per_block: usize, index: usize) -> (r: u64)
    requires
        1 <= bits_per_block <= 64,
        index < 4096,
    ensures
        r == compact_index(block_states@, bits_per_block as nat, index as int),
{
    assert(index * bits_per_block < 262144) by (nonlinear_arith)
        requires
            index < 4096,
            bits_per_block <= 64,
    ;
    let start_bit = index * bits_per_block;
    let long_index = start_bit / 64;
    let bit_offset = start_bit % 64;
    let mask = mask_of(bits_per_block);
    let lo: u64 = if long_index < block_states.len() {
        (block_states[long_index] as u64) >> (bit_offset as u64)
    } else {
        0
    };
    let bits_read = 64 - bit_offset;
    let v: u64 = if bits_read < bits_per_block && long_index + 1 < block_states.len() {
        lo | ((block_states[long_index + 1] as u64) << (bits_read as u64))
    } else {
        lo
    };
    v & mask
}

/// The palette of a section: `Palette`, else `block_states.palette`.
pub open spec fn palette_of(s: CompoundModel) -> Option<Seq<NbtTag>> {
    match lookup(s.tags, "Palette"@) {
        Some(NbtTag::List(l)) => Some(l),
        _ => match lookup(s.tags, "block_states"@) {
            Some(NbtTag::Compound(bs)) => match lookup(bs.tags, "palette"@) {
                Some(NbtTag::List(l)) => Some(l),
                _ => None,
            },
            _ => None,
        },
    }
}

/// The packed block states of a section: `BlockStates`, else
/// `block_states.data`.
pub open spec fn block_states_of(s: CompoundModel) -> Option<Seq<i64>> {
    match lookup(s.tags, "BlockStates"@) {
        Some(NbtTag::LongArray(l)) => Some(l),
        _ => match lookup(s.tags, "block_states"@) {
            Some(NbtTag::Compound(bs)) => match lookup(bs.tags, "data"@) {
                Some(NbtTag::LongArray(l)) => Some(l),
                _ => None,
            },
            _ => None,
        },
    }
}

/// The legacy block of palette entry `k` (air for an entry out of range or
/// not a compound).
pub open spec fn palette_block(palette: Seq<NbtTag>, k: int) -> Option<crate::block_mapping::LegacyBlockState> {
    if 0 <= k < palette.len() {
        match palette[k] {
            NbtTag::Compound(e) => Some(modern_block_state(e)),
            _ => None,
        }
    } else {
        None
    }
}

/// Bits per block of a palette of `n` entries: enough for `n - 1`, and at
/// least 4.
pub open spec fn palette_bits(n: nat) -> nat {
    let b = bits_required((n - 1) as nat);
    if b >= 4 { b } else { 4 }
}

/// The palette index of block `i`: packed with whole values per long when
/// the array has exactly the length that needs, else without gaps.
pub open spec fn palette_index(bs: Seq<i64>, n: nat, i: int) -> u64 {
    let bits = palette_bits(n);
    if bs.len() == padded_len(bits) {
        padded_index(bs, bits, i)
    } else {
        compact_index(bs, bits, i)
    }
}

/// The 4096 block ids and 2048 data bytes of a palette section, or `None`
/// when it has no palette, an empty palette, a single entry that is not a
/// compound, or (with more entries) no or empty block states.
pub open spec fn palette_section(s: CompoundModel) -> Option<(Seq<u8>, Seq<u8>)> {
    match palette_of(s) {
        None => None,
        Some(palette) => if palette.len() == 0 {
            None
        } else if palette.len() == 1 {
            match palette[0] {
                NbtTag::Compound(e) => {
                    let lb = modern_block_state(e);
                    Some(
                        (
                            Seq::new(4096, |_i: int| lb.id),
                            Seq::new(2048, |_j: int| ((lb.data & 0x0F) | ((lb.data & 0x0F) << 4u8)) as u8),
                        ),
                    )
                },
                _ => None,
            }
        } else {
            match block_states_of(s) {
                None => None,
                Some(bs) => if bs.len() == 0 {
                    None
                } else {
                    let entry = |i: int| palette_block(palette, palette_index(bs, palette.len(), i) as int);
                    let nib = |i: int|
                        match entry(i) {
                            Some(lb) => lb.data & 0x0F,
                            None => 0u8,
                        };
                    Some(
                        (
                            Seq::new(
                                4096,
                                |i: int|
                                    match entry(i) {
                                        Some(lb) => lb.id,
                                        None => 0u8,
                                    },
                            ),
                            Seq::new(2048, |j: int| (nib(2 * j) | (nib(2 * j + 1) << 4u8)) as u8),
                        ),
                    )
                },
            }
        },
    }
}


/// The palette of a section (see `palette_of`).
fn get_palette(section: &NbtCompound) -> (r: Option<&[NbtValue]>)
    ensures
        match palette_of(section@) {
            Some(l) => r matches Some(x) && values_model(x@) == l,
            None => r is None,
        },
{
    match section.list("Palette") {
        Some(l) => Some(l),
        None => match section.compound("block_states") {
            Some(bs) => bs.list("palette"),
            None => None,
        },
    }
}

/// The packed block states of a section (see `block_states_of`).
fn get_block_states(section: &NbtCompound) -> (r: Option<&[i64]>)
    ensures
        match block_states_of(section@) {
            Some(l) => r matches Some(x) && x@ == l,
            None => r is None,
        },
{
    match section.long_array("BlockStates") {
        Some(l) => Some(l),
        None => match section.compound("block_states") {
            Some(bs) => bs.long_array("data"),
            None => None,
        },
    }
}

/// The legacy block of block `i` of a palette section.
fn palette_entry_at(palette: &[NbtValue], bs: &[i64], bits: usize, use_padded: bool, i: usize) -> (r: Option<
    crate::block_mapping::LegacyBlockState,
>)
    requires
        palette@.len() >= 2,
        bits as nat == palette_bits(palette@.len()),
        1 <= bits <= 64,
        i < 4096,
        use_padded == (bs@.len() == padded_len(bits as nat)),
    ensures
        r == palette_block(values_model(palette@), palette_index(bs@, palette@.len(), i as int) as int),
{
    proof {
        crate::nbt::lemma_values_model(palette@);
    }
    let idx = if use_padded {
        read_padded_block_state(bs, bits, i)
    } else {
        read_compact_block_state(bs, bits, i)
    };
    if idx < palette.len() as u64 {
        match &palette[idx as usize] {
            NbtValue::Compound(e) => Some(map_modern_block_state(e)),
            _ => None,
        }
    } else {
        None
    }
}

/// Decodes a palette section (see `palette_section`).
fn try_decode_palette_section(section: &NbtCompound) -> (r: Option<(Vec<u8>, Vec<u8>)>)
    ensures
        match palette_section(section@) {
            Some((b, d)) => r matches Some((x, y)) && x@ == b && y@ == d,
            None => r is None,
        },
{
    let palette = match get_palette(section) {
        Some(p) => p,
        None => {
            return None;
        },
    };
    proof {
        crate::nbt::lemma_values_model(palette@);
    }
    let n = palette.len();
    if n == 0 {
        return None;
    }
    if n == 1 {
        match &palette[0] {
            NbtValue::Compound(entry) => {
                let lb = map_modern_block_state(entry);
                let byte = (lb.data & 0x0F) | ((lb.data & 0x0F) << 4u8);
                let blocks = zeros(4096, lb.id);
                let data = zeros(2048, byte);
                return Some((blocks, data));
            },
            _ => {
                return None;
            },
        }
    }
    let bs = match get_block_states(section) {
        Some(b) => b,
        None => {
            return None;
        },
    };
    if bs.len() == 0 {
        return None;
    }
    let ghost pal = values_model(palette@);
    let b0 = get_bits_required(n - 1);
    let bits = if b0 >= 4 { b0 } else { 4 };
    assert(bits as nat == palette_bits(n as nat));
    let q = 64 / bits;
    assert(q >= 1) by (nonlinear_arith)
        requires
            q == 64usize / bits,
            1 <= bits <= 64,
    ;
    let vpl = q;
    assert(vpl as nat == values_per_long(bits as nat));
    let expected = (4096 + vpl - 1) / vpl;
    let use_padded = bs.len() == expected;
    let mut blocks = zeros(4096, 0u8);
    let mut data = zeros(2048, 0u8);
    let ghost entry = |i: int| palette_block(pal, palette_index(bs@, n as nat, i) as int);
    let ghost nib = |i: int|
        match entry(i) {
            Some(lb) => lb.data & 0x0F,
            None => 0u8,
        };
    proof {
        assert forall|p: int| 0 <= p < 4096 implies #[trigger] nibble_at(data@, p) == 0u8 by {
            crate::bytes::lemma_nibbles(0u8);
        }
    }
    let mut i: usize = 0;
    while i < 4096
        invariant
            i <= 4096,
            blocks@.len() == 4096,
            data@.len() == 2048,
            entry == (|i: int| palette_block(pal, palette_index(bs@, n as nat, i) as int)),
            nib == (|i: int|
                match entry(i) {
                    Some(lb) => lb.data & 0x0F,
                    None => 0u8,
                }),
            n == palette@.len(),
            n >= 2,
            pal == values_model(palette@),
            bits as nat == palette_bits(n as nat),
            1 <= bits <= 64,
            use_padded == (bs@.len() == padded_len(bits as nat)),
            forall|k: int|
                0 <= k < i ==> #[trigger] blocks@[k] == match entry(k) {
                    Some(lb) => lb.id,
                    None => 0u8,
                },
            forall|k: int| i <= k < 4096 ==> #[trigger] blocks@[k] == 0u8,
            forall|p: int| 0 <= p < 4096 ==> #[trigger] nibble_at(data@, p) == if p < i { nib(p) } else { 0u8 },
        decreases 4096 - i,
    {
        match palette_entry_at(palette, bs, bits, use_padded, i) {
            Some(lb) => {
                blocks.set(i, lb.id);
                if lb.data != 0 {
                    set_nibble(data.as_mut_slice(), i, lb.data);
                } else {
                    proof {
                        crate::bytes::lemma_nibbles(0u8);
                    }
                }
            },
            None => {},
        }
        i += 1;
    }
    proof {
        assert forall|p: int| 0 <= p < 4096 implies #[trigger] nib(p) < 16 by {
            match entry(p) {
                Some(lb) => {
                    let d = lb.data;
                    crate::bytes::lemma_nibbles(d);
                },
                None => {},
            }
        }
        lemma_nibble_bytes(data@, 2048, nib);
    }
    let ghost decoded = palette_section(section@)->0;
    assert(blocks@ =~= decoded.0);
    Some((blocks, data))
}

/// A nibble array pinned down nibble by nibble is the byte array of those
/// nibbles.
pub proof fn lemma_nibble_bytes(d: Seq<u8>, n: int, f: spec_fn(int) -> u8)
    requires
        d.len() == n,
        forall|p: int| 0 <= p < 2 * n ==> #[trigger] nibble_at(d, p) == f(p),
        forall|p: int| 0 <= p < 2 * n ==> #[trigger] f(p) < 16,
    ensures
        d == Seq::new(n as nat, |j: int| (f(2 * j) | (f(2 * j + 1) << 4u8)) as u8),
{
    assert forall|j: int| 0 <= j < n implies #[trigger] d[j] == (f(2 * j) | (f(2 * j + 1) << 4u8)) as u8 by {
        assert(nibble_at(d, 2 * j) == f(2 * j));
        assert(nibble_at(d, 2 * j + 1) == f(2 * j + 1));
        assert((2 * j) / 2 == j && (2 * j + 1) / 2 == j && (2 * j) % 2 == 0 && (2 * j + 1) % 2 == 1);
        let b = d[j];
        let lo = f(2 * j);
        let hi = f(2 * j + 1);
        assert(b == (lo | (hi << 4u8)) as u8) by (bit_vector)
            requires
                lo == b & 0x0F,
                hi == (b >> 4u8) & 0x0F,
        ;
    }
    assert(d =~= Seq::new(n as nat, |j: int| (f(2 * j) | (f(2 * j + 1) << 4u8)) as u8));
}


// ---------------------------------------------------------------------
// Flattening sections into a legacy block array.
// ---------------------------------------------------------------------

/// The 4096 block ids and the data nibbles of a section: its `Blocks` array
/// (first 4096 bytes, with its `Data` or 32768 zero bytes) when that holds
/// at least 4096 bytes, else its palette.
pub open spec fn section_blocks(s: CompoundModel) -> Option<(Seq<u8>, Seq<u8>)> {
    match lookup(s.tags, "Blocks"@) {
        Some(NbtTag::ByteArray(b)) if b.len() >= 4096 => Some(
            (
                b.take(4096),
                match lookup(s.tags, "Data"@) {
                    Some(NbtTag::ByteArray(d)) => d,
                    _ => Seq::new(32768, |_i: int| 0u8),
                },
            ),
        ),
        _ => palette_section(s),
    }
}

/// Decodes a section's blocks (see `section_blocks`).
fn try_decode_section_blocks(section: &NbtCompound) -> (r: Option<(Vec<u8>, Vec<u8>)>)
    ensures
        match section_blocks(section@) {
            Some((b, d)) => r matches Some((x, y)) && x@ == b && y@ == d,
            None => r is None,
        },
{
    if let Some(old_blocks) = section.byte_array("Blocks") {
        if old_blocks.len() >= 4096 {
            let b = crate::region::slice_range(old_blocks, 0, 4096);
            let mut blocks: Vec<u8> = Vec::new();
            blocks.extend_from_slice(b);
            assert(blocks@ =~= old_blocks@.take(4096));
            let data = match section.byte_array("Data") {
                Some(d) => {
                    let mut v: Vec<u8> = Vec::new();
                    v.extend_from_slice(d);
                    assert(v@ =~= d@);
                    v
                },
                None => zeros(32768, 0u8),
            };
            return Some((blocks, data));
        }
    }
    try_decode_palette_section(section)
}

/// The number of non-zero bytes.
pub open spec fn non_air(b: Seq<u8>) -> nat
    decreases b.len(),
{
    if b.len() == 0 {
        0
    } else {
        non_air(b.drop_last()) + if b.last() != 0 { 1nat } else { 0nat }
    }
}

fn count_non_air(blocks: &[u8]) -> (r: u32)
    requires
        blocks@.len() <= 4096,
    ensures
        r == non_air(blocks@),
{
    let mut n: u32 = 0;
    let mut i: usize = 0;
    while i < blocks.len()
        invariant
            i <= blocks@.len() <= 4096,
            n == non_air(blocks@.take(i as int)),
            n <= i,
        decreases blocks@.len() - i,
    {
        assert(blocks@.take(i + 1).drop_last() =~= blocks@.take(i as int));
        if blocks[i] != 0 {
            n = n + 1;
        }
        i += 1;
    }
    assert(blocks@.take(i as int) =~= blocks@);
    n
}

/// The decodable sections of a list, in order: height, blocks and data.
pub open spec fn decoded_sections(l: Seq<NbtTag>) -> Seq<(i32, Seq<u8>, Seq<u8>)>
    decreases l.len(),
{
    if l.len() == 0 {
        Seq::empty()
    } else {
        let rest = decoded_sections(l.drop_last());
        match l.last() {
            NbtTag::Compound(s) => match (section_y(s), section_blocks(s)) {
                (Some(y), Some((b, d))) => rest.push((y, b, d)),
                _ => rest,
            },
            _ => rest,
        }
    }
}

/// How a section is ranked when picking the anchor of a shifted chunk: by
/// its non-air blocks, then by closeness of its height to 4.
pub open spec fn anchor_key_ge(a: (i32, Seq<u8>, Seq<u8>), b: (i32, Seq<u8>, Seq<u8>)) -> bool {
    let da = if a.0 - 4 >= 0 { a.0 - 4 } else { 4 - a.0 };
    let db = if b.0 - 4 >= 0 { b.0 - 4 } else { 4 - b.0 };
    non_air(a.1) > non_air(b.1) || (non_air(a.1) == non_air(b.1) && -da >= -db)
}

/// The index of the last highest-ranked of the first `n` sections.
pub open spec fn anchor_index(ds: Seq<(i32, Seq<u8>, Seq<u8>)>, n: nat) -> int
    decreases n,
{
    if n <= 1 {
        0
    } else {
        let b = anchor_index(ds, (n - 1) as nat);
        if anchor_key_ge(ds[n - 1], ds[b]) {
            n - 1
        } else {
            b
        }
    }
}

/// The section shift of a chunk: 0 unless it needs shifting; then the one
/// already chosen for the world, or the anchor section's height less 4.
pub open spec fn section_shift(
    ds: Seq<(i32, Seq<u8>, Seq<u8>)>,
    shifted: bool,
    global: Option<i32>,
) -> i32 {
    if !shifted {
        0
    } else {
        match global {
            Some(g) => g,
            None => ds[anchor_index(ds, ds.len())].0.wrapping_sub(4),
        }
    }
}

/// The position within a section of position `f` of a flat chunk array.
pub open spec fn local_of(f: int) -> int {
    f / 4096 + 16 * ((f / 256) % 16) + 256 * (f % 16)
}

/// Whether flat position `f` lies in section row `r`.
pub open spec fn in_row(f: int, r: int) -> bool {
    (f % 256) / 16 == r
}

/// The flat block array after copying in the first `n` sections, each at
/// its height less the shift (sections outside 0..16 are dropped).
pub open spec fn flat_blocks(ds: Seq<(i32, Seq<u8>, Seq<u8>)>, shift: i32, n: nat) -> Seq<u8>
    decreases n,
{
    if n == 0 {
        Seq::new(65536, |_f: int| 0u8)
    } else {
        let prev = flat_blocks(ds, shift, (n - 1) as nat);
        let (y, b, d) = ds[n - 1];
        let r = y - shift;
        if r < 0 || r > 15 {
            prev
        } else {
            Seq::new(65536, |f: int| if in_row(f, r) { b[local_of(f)] } else { prev[f] })
        }
    }
}

/// The data nibble at flat position `f` after copying in the first `n`
/// sections (a section's data covers the positions below its byte length).
pub open spec fn flat_nibble(ds: Seq<(i32, Seq<u8>, Seq<u8>)>, shift: i32, n: nat, f: int) -> u8
    decreases n,
{
    if n == 0 {
        0
    } else {
        let (y, b, d) = ds[n - 1];
        let r = y - shift;
        if 0 <= r <= 15 && in_row(f, r) && d.len() > local_of(f) {
            nibble_at(d, local_of(f))
        } else {
            flat_nibble(ds, shift, (n - 1) as nat, f)
        }
    }
}


proof fn lemma_flat_pos(i: int, r: int)
    requires
        0 <= i < 4096,
        0 <= r <= 15,
    ensures
        0 <= ((i % 16) * 16 + (i / 16) % 16) * 256 + r * 16 + i / 256 < 65536,
        in_row(((i % 16) * 16 + (i / 16) % 16) * 256 + r * 16 + i / 256, r),
        local_of(((i % 16) * 16 + (i / 16) % 16) * 256 + r * 16 + i / 256) == i,
{
    let x = i % 16;
    let z = (i / 16) % 16;
    let y = i / 256;
    let f = (x * 16 + z) * 256 + r * 16 + y;
    assert(0 <= x < 16 && 0 <= z < 16 && 0 <= y < 16) by (nonlinear_arith)
        requires
            0 <= i < 4096,
            x == i % 16,
            z == (i / 16) % 16,
            y == i / 256,
    ;
    assert(f / 4096 == x && (f / 256) % 16 == z && f % 256 == r * 16 + y && f % 16 == y && 0 <= f
        < 65536) by (nonlinear_arith)
        requires
            0 <= x < 16,
            0 <= z < 16,
            0 <= y < 16,
            0 <= r <= 15,
            f == (x * 16 + z) * 256 + r * 16 + y,
    ;
    assert((r * 16 + y) / 16 == r) by (nonlinear_arith)
        requires
            0 <= y < 16,
    ;
    assert(x + 16 * z + 256 * y == i) by (nonlinear_arith)
        requires
            0 <= i < 4096,
            x == i % 16,
            z == (i / 16) % 16,
            y == i / 256,
    ;
}

proof fn lemma_flat_inv(f: int, r: int)
    requires
        0 <= f < 65536,
        0 <= r <= 15,
        in_row(f, r),
    ensures
        0 <= local_of(f) < 4096,
        ((local_of(f) % 16) * 16 + (local_of(f) / 16) % 16) * 256 + r * 16 + local_of(f) / 256 == f,
{
    let x = f / 4096;
    let z = (f / 256) % 16;
    let y = f % 16;
    let l = x + 16 * z + 256 * y;
    assert(0 <= x < 16 && 0 <= z < 16 && 0 <= y < 16 && f == (x * 16 + z) * 256 + (f % 256)) by (nonlinear_arith)
        requires
            0 <= f < 65536,
            x == f / 4096,
            z == (f / 256) % 16,
            y == f % 16,
    ;
    assert(f % 256 == r * 16 + y) by (nonlinear_arith)
        requires
            (f % 256) / 16 == r,
            y == f % 16,
            0 <= f,
    ;
    assert(0 <= l < 4096 && l % 16 == x && (l / 16) % 16 == z && l / 256 == y) by (nonlinear_arith)
        requires
            0 <= x < 16,
            0 <= z < 16,
            0 <= y < 16,
            l == x + 16 * z + 256 * y,
    ;
}

/// A decoded section with its light arrays and block count.
struct DecodedSection {
    section_y: i32,
    blocks: Vec<u8>,
    data: Vec<u8>,
    sky_light: Option<Vec<u8>>,
    block_light: Option<Vec<u8>>,
    non_air_count: u32,
}

fn copy_of(b: &[u8]) -> (r: Vec<u8>)
    ensures
        r@ == b@,
{
    let mut v: Vec<u8> = Vec::new();
    v.extend_from_slice(b);
    assert(v@ =~= b@);
    v
}

/// A light array of a section under either of its names.
fn section_light(section: &NbtCompound, a: &str, b: &str) -> Option<Vec<u8>> {
    match section.byte_array(a) {
        Some(x) => Some(copy_of(x)),
        None => match section.byte_array(b) {
            Some(x) => Some(copy_of(x)),
            None => None,
        },
    }
}

/// Copies section `sec` into the flat arrays at section row `r`.
fn apply_section(
    blocks: &mut Vec<u8>,
    data: &mut Vec<u8>,
    sky_light: &mut Vec<u8>,
    block_light: &mut Vec<u8>,
    sec: &DecodedSection,
    r: i32,
)
    requires
        0 <= r <= 15,
        old(blocks)@.len() == 65536,
        old(data)@.len() == 32768,
        old(sky_light)@.len() == 32768,
        old(block_light)@.len() == 32768,
        sec.blocks@.len() == 4096,
    ensures
        final(blocks)@ == Seq::new(
            65536,
            |f: int| if in_row(f, r as int) { sec.blocks@[local_of(f)] } else { old(blocks)@[f] },
        ),
        final(data)@.len() == 32768,
        forall|f: int|
            0 <= f < 65536 ==> #[trigger] nibble_at(final(data)@, f) == if in_row(f, r as int)
                && sec.data@.len() > local_of(f) {
                nibble_at(sec.data@, local_of(f))
            } else {
                nibble_at(old(data)@, f)
            },
        final(sky_light)@.len() == 32768,
        final(block_light)@.len() == 32768,
{
    let ghost b0 = blocks@;
    let ghost d0 = data@;
    let mut i: usize = 0;
    while i < 4096
        invariant
            0 <= r <= 15,
            i <= 4096,
            blocks@.len() == 65536,
            data@.len() == 32768,
            sky_light@.len() == 32768,
            block_light@.len() == 32768,
            sec.blocks@.len() == 4096,
            b0.len() == 65536,
            forall|f: int|
                0 <= f < 65536 ==> #[trigger] blocks@[f] == if in_row(f, r as int) && local_of(f) < i {
                    sec.blocks@[local_of(f)]
                } else {
                    b0[f]
                },
            forall|f: int|
                0 <= f < 65536 ==> #[trigger] nibble_at(data@, f) == if in_row(f, r as int)
                    && local_of(f) < i && sec.data@.len() > local_of(f) {
                    nibble_at(sec.data@, local_of(f))
                } else {
                    nibble_at(d0, f)
                },
        decreases 4096 - i,
    {
        let x = i % 16;
        let z = (i / 16) % 16;
        let y = i / 256;
        proof {
            lemma_flat_pos(i as int, r as int);
        }
        let flat = (x * 16 + z) * 256 + (r as usize) * 16 + y;
        let ghost fi = flat as int;
        let ghost prev_b = blocks@;
        let ghost prev_d = data@;
        blocks.set(flat, sec.blocks[i]);
        if sec.data.len() > i {
            let v = get_nibble(sec.data.as_slice(), i);
            set_nibble(data.as_mut_slice(), flat, v);
            assert(v & 0x0F == v) by (bit_vector)
                requires
                    v < 16,
            ;
        }
        match &sec.sky_light {
            Some(sky) => {
                if sky.len() > i {
                    let v = get_nibble(sky.as_slice(), i);
                    set_nibble(sky_light.as_mut_slice(), flat, v);
                }
            },
            None => {},
        }
        match &sec.block_light {
            Some(bl) => {
                if bl.len() > i {
                    let v = get_nibble(bl.as_slice(), i);
                    set_nibble(block_light.as_mut_slice(), flat, v);
                }
            },
            None => {},
        }
        proof {
            assert forall|f: int| 0 <= f < 65536 implies #[trigger] blocks@[f] == if in_row(f, r as int)
                && local_of(f) < i + 1 {
                sec.blocks@[local_of(f)]
            } else {
                b0[f]
            } by {
                if f != fi {
                    assert(blocks@[f] == prev_b[f]);
                    if in_row(f, r as int) {
                        lemma_flat_inv(f, r as int);
                    }
                }
            }
            assert forall|f: int| 0 <= f < 65536 implies #[trigger] nibble_at(data@, f) == if in_row(
                f,
                r as int,
            ) && local_of(f) < i + 1 && sec.data@.len() > local_of(f) {
                nibble_at(sec.data@, local_of(f))
            } else {
                nibble_at(d0, f)
            } by {
                if f != fi {
                    if in_row(f, r as int) {
                        lemma_flat_inv(f, r as int);
                    }
                }
            }
        }
        i += 1;
    }
    proof {
        assert forall|f: int| 0 <= f < 65536 && in_row(f, r as int) implies local_of(f) < 4096 by {
            lemma_flat_inv(f, r as int);
        }
    }
    assert(blocks@ =~= Seq::new(
        65536,
        |f: int| if in_row(f, r as int) { sec.blocks@[local_of(f)] } else { b0[f] },
    ));
}


/// The model of a decoded section.
spec fn section_model(d: DecodedSection) -> (i32, Seq<u8>, Seq<u8>) {
    (d.section_y, d.blocks@, d.data@)
}

/// Decodes every usable section of a list.
fn decode_sections(sections: &[NbtValue]) -> (r: Vec<DecodedSection>)
    ensures
        r@.len() == decoded_sections(values_model(sections@)).len(),
        forall|k: int|
            0 <= k < r@.len() ==> section_model(#[trigger] r@[k]) == decoded_sections(
                values_model(sections@),
            )[k],
        forall|k: int| 0 <= k < r@.len() ==> (#[trigger] r@[k]).blocks@.len() == 4096,
        forall|k: int| 0 <= k < r@.len() ==> (#[trigger] r@[k]).non_air_count == non_air(r@[k].blocks@),
{
    let mut out: Vec<DecodedSection> = Vec::new();
    proof {
        crate::nbt::lemma_values_model(sections@);
    }
    let ghost m = values_model(sections@);
    let mut i: usize = 0;
    while i < sections.len()
        invariant
            i <= sections@.len(),
            m == values_model(sections@),
            m.len() == sections@.len(),
            forall|j: int| 0 <= j < sections@.len() ==> #[trigger] m[j] == sections@[j]@,
            out@.len() == decoded_sections(m.take(i as int)).len(),
            forall|k: int|
                0 <= k < out@.len() ==> section_model(#[trigger] out@[k]) == decoded_sections(
                    m.take(i as int),
                )[k],
            forall|k: int| 0 <= k < out@.len() ==> (#[trigger] out@[k]).blocks@.len() == 4096,
            forall|k: int|
                0 <= k < out@.len() ==> (#[trigger] out@[k]).non_air_count == non_air(out@[k].blocks@),
        decreases sections@.len() - i,
    {
        assert(m.take(i + 1).drop_last() =~= m.take(i as int));
        assert(m.take(i + 1).last() == sections@[i as int]@);
        if let NbtValue::Compound(section) = &sections[i] {
            if let Some(y) = read_section_y(section) {
                if let Some((blocks, data)) = try_decode_section_blocks(section) {
                    proof {
                        lemma_section_blocks_len(section@);
                    }
                    let sky = section_light(section, "SkyLight", "sky_light");
                    let bl = section_light(section, "BlockLight", "block_light");
                    let count = count_non_air(blocks.as_slice());
                    let ghost prev = out@;
                    out.push(
                        DecodedSection {
                            section_y: y,
                            blocks,
                            data,
                            sky_light: sky,
                            block_light: bl,
                            non_air_count: count,
                        },
                    );
                    assert(forall|k: int| 0 <= k < prev.len() ==> out@[k] == prev[k]);
                }
            }
        }
        i += 1;
    }
    assert(m.take(i as int) =~= m);
    out
}

proof fn lemma_flat_blocks_len(ds: Seq<(i32, Seq<u8>, Seq<u8>)>, shift: i32, n: nat)
    ensures
        flat_blocks(ds, shift, n).len() == 65536,
    decreases n,
{
    if n > 0 {
        lemma_flat_blocks_len(ds, shift, (n - 1) as nat);
    }
}

proof fn lemma_section_blocks_len(s: CompoundModel)
    ensures
        section_blocks(s) matches Some((b, d)) ==> b.len() == 4096,
{
}

/// The flat block and data arrays of a sectioned level (see `flat_blocks`
/// and `flat_nibble`), and full-size light arrays. A chunk that needs
/// shifting uses `global_section_shift`, choosing it first when it is
/// unset.
pub open spec fn flattened(level: CompoundModel, shifted: bool, global: Option<i32>) -> (Seq<u8>, Seq<u8>) {
    let ds = match sections_of(level) {
        Some(l) => decoded_sections(l),
        None => Seq::empty(),
    };
    if ds.len() == 0 {
        (Seq::new(65536, |_f: int| 0u8), Seq::new(32768, |_j: int| 0u8))
    } else {
        let shift = section_shift(ds, shifted, global);
        (
            flat_blocks(ds, shift, ds.len()),
            Seq::new(
                32768,
                |j: int|
                    (flat_nibble(ds, shift, ds.len(), 2 * j) | (flat_nibble(ds, shift, ds.len(), 2 * j + 1)
                        << 4u8)) as u8,
            ),
        )
    }
}

/// The world's section shift after flattening a level: kept where one was
/// chosen; chosen from this level's anchor section where the chunk needs
/// shifting and has decoded sections; otherwise still unchosen.
pub open spec fn shift_after(level: CompoundModel, shifted: bool, global: Option<i32>) -> Option<i32> {
    let ds = match sections_of(level) {
        Some(l) => decoded_sections(l),
        None => Seq::empty(),
    };
    match global {
        Some(g) => Some(g),
        None => if shifted && ds.len() > 0 {
            Some(section_shift(ds, true, None))
        } else {
            None
        },
    }
}

proof fn lemma_flat_nibble_small(ds: Seq<(i32, Seq<u8>, Seq<u8>)>, shift: i32, n: nat, f: int)
    ensures
        flat_nibble(ds, shift, n, f) < 16,
    decreases n,
{
    if n > 0 {
        lemma_flat_nibble_small(ds, shift, (n - 1) as nat, f);
        let (y, b, d) = ds[n - 1];
        let r = y - shift;
        if 0 <= r <= 15 && in_row(f, r) && d.len() > local_of(f) {
            let k = local_of(f);
            let byte = d[k / 2];
            crate::bytes::lemma_nibbles(byte);
        }
    }
}

/// The section shift is chosen once and then reused: a chosen shift is
/// kept by every later level, and a level that needs shifting and has
/// sections flattens with exactly the shift that it leaves chosen.
pub proof fn lemma_section_shift_reused(level: CompoundModel, shifted: bool, global: Option<i32>)
    ensures
        global matches Some(g) ==> shift_after(level, shifted, global) == Some(g),
        ({
            let ds = match sections_of(level) {
                Some(l) => decoded_sections(l),
                None => Seq::empty(),
            };
            shifted && ds.len() > 0 ==> shift_after(level, shifted, global) == Some(section_shift(ds, true, global))
        }),
{
}

/// The last of the first `n` sections whose height less the shift is row
/// `r`, or -1 when there is none.
pub open spec fn last_section_in_row(ds: Seq<(i32, Seq<u8>, Seq<u8>)>, shift: i32, n: nat, r: int) -> int
    decreases n,
{
    if n == 0 {
        -1
    } else if ds[n - 1].0 - shift == r {
        n - 1
    } else {
        last_section_in_row(ds, shift, (n - 1) as nat, r)
    }
}

/// Which section fills each position of the flat block array: position `f`
/// (in row `(f % 256) / 16`) holds the block of the last section whose
/// height less the shift is that row, at its place within the section, and
/// air where no section falls on that row; sections outside rows 0 to 15
/// are dropped. The array has 65536 blocks.
pub proof fn lemma_flat_blocks_rows(ds: Seq<(i32, Seq<u8>, Seq<u8>)>, shift: i32, n: nat, f: int)
    requires
        0 <= f < 65536,
        n <= ds.len(),
    ensures
        flat_blocks(ds, shift, n).len() == 65536,
        ({
            let k = last_section_in_row(ds, shift, n, (f % 256) / 16);
            flat_blocks(ds, shift, n)[f] == if k >= 0 {
                ds[k].1[local_of(f)]
            } else {
                0u8
            }
        }),
    decreases n,
{
    if n > 0 {
        lemma_flat_blocks_rows(ds, shift, (n - 1) as nat, f);
    }
}

/// Flattens the sections of a level (see `flattened`).
fn flatten_anvil_sections(
    level: &NbtCompound,
    format_info: &JavaChunkFormatInfo,
    global_section_shift: &mut Option<i32>,
) -> (r: (Vec<u8>, Vec<u8>, Vec<u8>, Vec<u8>))
    ensures
        (r.0@, r.1@) == flattened(
            level@,
            format_info.format == JavaChunkFormat::ModernExtendedHeight,
            *old(global_section_shift),
        ),
        r.2@.len() == 32768,
        r.3@.len() == 32768,
        *final(global_section_shift) == shift_after(
            level@,
            format_info.format == JavaChunkFormat::ModernExtendedHeight,
            *old(global_section_shift),
        ),
{
    let mut blocks = zeros(65536, 0u8);
    let mut data = zeros(32768, 0u8);
    let mut sky_light = zeros(32768, 0xFFu8);
    let mut block_light = zeros(32768, 0u8);
    let sections = match get_sections(level) {
        Some(s) => s,
        None => {
            return (blocks, data, sky_light, block_light);
        },
    };
    let decoded = decode_sections(sections);
    let ghost ds = decoded_sections(values_model(sections@));
    if decoded.len() == 0 {
        return (blocks, data, sky_light, block_light);
    }
    let shifted = format_info.requires_section_shift();
    let mut section_shift_v: i32 = 0;
    if shifted {
        if global_section_shift.is_none() {
            let mut best: usize = 0;
            let mut k: usize = 1;
            while k < decoded.len()
                invariant
                    1 <= k <= decoded@.len(),
                    decoded@.len() == ds.len(),
                    forall|j: int| 0 <= j < decoded@.len() ==> section_model(#[trigger] decoded@[j]) == ds[j],
                    forall|j: int|
                        0 <= j < decoded@.len() ==> (#[trigger] decoded@[j]).non_air_count == non_air(
                            decoded@[j].blocks@,
                        ),
                    best as int == anchor_index(ds, k as nat),
                    best < k,
                decreases decoded@.len() - k,
            {
                let a = &decoded[k];
                let b = &decoded[best];
                let da: i64 = if a.section_y as i64 - 4 >= 0 { a.section_y as i64 - 4 } else { 4 - a.section_y as i64 };
                let db: i64 = if b.section_y as i64 - 4 >= 0 { b.section_y as i64 - 4 } else { 4 - b.section_y as i64 };
                assert(section_model(decoded@[k as int]) == ds[k as int]);
                assert(section_model(decoded@[best as int]) == ds[best as int]);
                if a.non_air_count > b.non_air_count || (a.non_air_count == b.non_air_count && -da >= -db) {
                    best = k;
                }
                k += 1;
            }
            assert(section_model(decoded@[best as int]) == ds[best as int]);
            *global_section_shift = Some(decoded[best].section_y.wrapping_sub(4));
        }
        section_shift_v = match *global_section_shift {
            Some(v) => v,
            None => 0,
        };
    }
    assert(section_shift_v == section_shift(ds, shifted, *old(global_section_shift)));
    let ghost fd = |f: int| nibble_at(data@, f);
    proof {
        assert forall|f: int| 0 <= f < 65536 implies #[trigger] nibble_at(data@, f) == flat_nibble(
            ds,
            section_shift_v,
            0,
            f,
        ) by {
            crate::bytes::lemma_nibbles(0u8);
        }
        assert(blocks@ =~= flat_blocks(ds, section_shift_v, 0));
    }
    let mut k: usize = 0;
    while k < decoded.len()
        invariant
            k <= decoded@.len(),
            decoded@.len() == ds.len(),
            forall|j: int| 0 <= j < decoded@.len() ==> section_model(#[trigger] decoded@[j]) == ds[j],
            forall|j: int| 0 <= j < decoded@.len() ==> (#[trigger] decoded@[j]).blocks@.len() == 4096,
            blocks@ == flat_blocks(ds, section_shift_v, k as nat),
            data@.len() == 32768,
            sky_light@.len() == 32768,
            block_light@.len() == 32768,
            forall|f: int| 0 <= f < 65536 ==> #[trigger] nibble_at(data@, f) == flat_nibble(ds, section_shift_v, k as nat, f),
        decreases decoded@.len() - k,
    {
        let sec = &decoded[k];
        assert(section_model(decoded@[k as int]) == ds[k as int]);
        proof {
            lemma_flat_blocks_len(ds, section_shift_v, k as nat);
        }
        let remapped = sec.section_y as i64 - section_shift_v as i64;
        if remapped >= 0 && remapped <= 15 {
            apply_section(&mut blocks, &mut data, &mut sky_light, &mut block_light, sec, remapped as i32);
            assert(blocks@ =~= flat_blocks(ds, section_shift_v, (k + 1) as nat));
        }
        k += 1;
    }
    proof {
        assert forall|p: int| 0 <= p < 65536 implies #[trigger] flat_nibble(ds, section_shift_v, ds.len(), p) < 16 by {
            lemma_flat_nibble_small(ds, section_shift_v, ds.len(), p);
        }
        lemma_nibble_bytes(data@, 32768, |f: int| flat_nibble(ds, section_shift_v, ds.len(), f));
    }
    (blocks, data, sky_light, block_light)
}


// ---------------------------------------------------------------------
// Block entities.
// ---------------------------------------------------------------------

/// The String called `key`, or "".
pub open spec fn text_or_empty(c: CompoundModel, key: Seq<char>) -> Seq<char> {
    match lookup(c.tags, key) {
        Some(NbtTag::Text(t)) => t,
        _ => ""@,
    }
}

fn get_text<'a>(c: &'a NbtCompound, key: &str) -> (r: &'a str)
    ensures
        r@ == text_or_empty(c@, key@),
{
    match c.string(key) {
        Some(s) => s,
        None => "",
    }
}

/// A sign line as stored: simplified, then sanitised.
pub open spec fn line_of(raw: Seq<char>) -> Seq<char> {
    sanitized(simplified(raw))
}

fn convert_line(raw: &str) -> (r: String)
    ensures
        r@ == line_of(raw@),
{
    let simple = simplify_sign_text(raw);
    sanitize_legacy_sign_line(simple.as_str())
}

/// The four lines of a legacy sign: `Text1` to `Text4`.
pub open spec fn legacy_sign_lines(be: CompoundModel) -> Seq<Seq<char>> {
    seq![
        line_of(text_or_empty(be, "Text1"@)),
        line_of(text_or_empty(be, "Text2"@)),
        line_of(text_or_empty(be, "Text3"@)),
        line_of(text_or_empty(be, "Text4"@)),
    ]
}

/// The four lines of a modern sign: its front text's first four messages
/// (empty lines for missing or non-String ones), or the legacy lines when it
/// has no front-text message list.
pub open spec fn modern_sign_lines(be: CompoundModel) -> Seq<Seq<char>> {
    match lookup(be.tags, "front_text"@) {
        Some(NbtTag::Compound(ft)) => match lookup(ft.tags, "messages"@) {
            Some(NbtTag::List(msgs)) => Seq::new(
                4,
                |i: int|
                    if i < msgs.len() {
                        match msgs[i] {
                            NbtTag::Text(t) => line_of(t),
                            _ => Seq::empty(),
                        }
                    } else {
                        Seq::empty()
                    },
            ),
            _ => legacy_sign_lines(be),
        },
        _ => legacy_sign_lines(be),
    }
}

fn extract_legacy_sign_lines(be: &NbtCompound) -> (r: Vec<String>)
    ensures
        r@.len() == 4,
        forall|i: int| 0 <= i < 4 ==> #[trigger] r@[i]@ == legacy_sign_lines(be@)[i],
{
    let mut lines: Vec<String> = Vec::new();
    lines.push(convert_line(get_text(be, "Text1")));
    lines.push(convert_line(get_text(be, "Text2")));
    lines.push(convert_line(get_text(be, "Text3")));
    lines.push(convert_line(get_text(be, "Text4")));
    lines
}

fn extract_modern_sign_lines(be: &NbtCompound) -> (r: Vec<String>)
    ensures
        r@.len() == 4,
        forall|i: int| 0 <= i < 4 ==> #[trigger] r@[i]@ == modern_sign_lines(be@)[i],
{
    if let Some(front_text) = be.compound("front_text") {
        if let Some(messages) = front_text.list("messages") {
            proof {
                crate::nbt::lemma_values_model(messages@);
            }
            let mut lines: Vec<String> = Vec::new();
            let mut i: usize = 0;
            while i < 4
                invariant
                    i <= 4,
                    lines@.len() == i,
                    values_model(messages@).len() == messages@.len(),
                    forall|j: int| 0 <= j < messages@.len() ==> #[trigger] values_model(messages@)[j] == messages@[j]@,
                    lookup(be@.tags, "front_text"@) == Some(NbtTag::Compound(front_text@)),
                    lookup(front_text@.tags, "messages"@) == Some(NbtTag::List(values_model(messages@))),
                    forall|j: int| 0 <= j < i ==> #[trigger] lines@[j]@ == modern_sign_lines(be@)[j],
                decreases 4 - i,
            {
                let line = if i < messages.len() {
                    match &messages[i] {
                        NbtValue::String(s) => convert_line(s.as_str()),
                        _ => String::new(),
                    }
                } else {
                    String::new()
                };
                lines.push(line);
                i += 1;
            }
            return lines;
        }
    }
    extract_legacy_sign_lines(be)
}

/// A block-entity coordinate: the Int, Short or Byte called `name`, or 0.
pub open spec fn tile_coord(c: CompoundModel, name: Seq<char>) -> i32 {
    match lookup(c.tags, name) {
        Some(NbtTag::Int(v)) => v,
        _ => match lookup(c.tags, name) {
            Some(NbtTag::Short(v)) => v as i32,
            _ => match lookup(c.tags, name) {
                Some(NbtTag::Byte(v)) => v as i32,
                _ => 0,
            },
        },
    }
}

fn read_tile_entity_coord(c: &NbtCompound, name: &str) -> (r: i32)
    ensures
        r == tile_coord(c@, name@),
{
    if let Some(v) = c.int_value(name) {
        return v;
    }
    if let Some(v) = c.short(name) {
        return v as i32;
    }
    if let Some(v) = c.byte(name) {
        return v as i32;
    }
    0
}

/// The legacy sign made of a sign block entity: id `Sign`, its coordinates
/// and its four lines.
pub open spec fn safe_sign(be: CompoundModel, modern: bool) -> CompoundModel {
    let lines = if modern { modern_sign_lines(be) } else { legacy_sign_lines(be) };
    let t = put(Seq::empty(), "id"@, NbtTag::Text("Sign"@));
    let t = put(t, "x"@, NbtTag::Int(tile_coord(be, "x"@)));
    let t = put(t, "y"@, NbtTag::Int(tile_coord(be, "y"@)));
    let t = put(t, "z"@, NbtTag::Int(tile_coord(be, "z"@)));
    let t = put(t, "Text1"@, NbtTag::Text(lines[0]));
    let t = put(t, "Text2"@, NbtTag::Text(lines[1]));
    let t = put(t, "Text3"@, NbtTag::Text(lines[2]));
    let t = put(t, "Text4"@, NbtTag::Text(lines[3]));
    CompoundModel { name: ""@, tags: t }
}

fn text_value(s: &str) -> (r: NbtValue)
    ensures
        r@ == NbtTag::Text(s@),
{
    let v = s.to_string();
    proof {
        vstd::string::to_string_from_display_ensures_for_str(s, v);
    }
    NbtValue::String(v)
}

fn build_safe_legacy_sign_tile_entity(be: &NbtCompound, modern: bool) -> (r: NbtCompound)
    ensures
        r@ == safe_sign(be@, modern),
{
    let x = read_tile_entity_coord(be, "x");
    let y = read_tile_entity_coord(be, "y");
    let z = read_tile_entity_coord(be, "z");
    let lines = if modern { extract_modern_sign_lines(be) } else { extract_legacy_sign_lines(be) };
    let mut sign = NbtCompound::new("");
    sign.insert("id", text_value("Sign"));
    sign.insert("x", NbtValue::Int(x));
    sign.insert("y", NbtValue::Int(y));
    sign.insert("z", NbtValue::Int(z));
    sign.insert("Text1", text_value(lines[0].as_str()));
    sign.insert("Text2", text_value(lines[1].as_str()));
    sign.insert("Text3", text_value(lines[2].as_str()));
    sign.insert("Text4", text_value(lines[3].as_str()));
    sign
}

/// Whether a modern block-entity id (with or without its namespace) names
/// a sign.
pub open spec fn modern_sign_id(id: Seq<u8>) -> bool {
    let n = if starts_with(id, lit("minecraft:")) { id.skip(lit("minecraft:").len() as int) } else { id };
    one_of(
        n,
        seq![
            "sign", "hanging_sign", "oak_sign", "spruce_sign", "birch_sign", "jungle_sign",
            "acacia_sign", "dark_oak_sign", "mangrove_sign", "cherry_sign", "bamboo_sign",
            "crimson_sign", "warped_sign", "oak_hanging_sign", "spruce_hanging_sign",
            "birch_hanging_sign", "jungle_hanging_sign", "acacia_hanging_sign",
            "dark_oak_hanging_sign", "mangrove_hanging_sign", "cherry_hanging_sign",
            "bamboo_hanging_sign", "crimson_hanging_sign", "warped_hanging_sign",
        ],
    )
}

fn is_modern_sign_tile_entity(id: &str) -> (r: bool)
    ensures
        r == modern_sign_id(lit(id)),
{
    let bytes = id.as_bytes();
    let n = if starts(bytes, "minecraft:") {
        crate::region::slice_range(bytes, "minecraft:".as_bytes().len(), bytes.len())
    } else {
        bytes
    };
    matches_any(
        n,
        &[
            "sign", "hanging_sign", "oak_sign", "spruce_sign", "birch_sign", "jungle_sign",
            "acacia_sign", "dark_oak_sign", "mangrove_sign", "cherry_sign", "bamboo_sign",
            "crimson_sign", "warped_sign", "oak_hanging_sign", "spruce_hanging_sign",
            "birch_hanging_sign", "jungle_hanging_sign", "acacia_hanging_sign",
            "dark_oak_hanging_sign", "mangrove_hanging_sign", "cherry_hanging_sign",
            "bamboo_hanging_sign", "crimson_hanging_sign", "warped_hanging_sign",
        ],
    )
}

/// Whether a block entity is a sign, by the schema's ids.
pub open spec fn is_sign_entity(be: CompoundModel, modern: bool) -> bool {
    let id = text_or_empty(be, "id"@);
    if modern {
        modern_sign_id(crate::block_mapping::lit_of(id))
    } else {
        id == "Sign"@ || id == "minecraft:sign"@
    }
}

/// The legacy signs made of the sign block entities of a list, in order.
pub open spec fn signs_in(l: Seq<NbtTag>, modern: bool) -> Seq<NbtTag>
    decreases l.len(),
{
    if l.len() == 0 {
        Seq::empty()
    } else {
        let rest = signs_in(l.drop_last(), modern);
        match l.last() {
            NbtTag::Compound(be) => if is_sign_entity(be, modern) {
                rest.push(NbtTag::Compound(safe_sign(be, modern)))
            } else {
                rest
            },
            _ => rest,
        }
    }
}

/// The list called `a`, else the one called `b`.
pub open spec fn list_either(c: CompoundModel, a: Seq<char>, b: Seq<char>) -> Option<Seq<NbtTag>> {
    match lookup(c.tags, a) {
        Some(NbtTag::List(l)) => Some(l),
        _ => match lookup(c.tags, b) {
            Some(NbtTag::List(l)) => Some(l),
            _ => None,
        },
    }
}

fn get_list_either<'a>(c: &'a NbtCompound, a: &str, b: &str) -> (r: Option<&'a [NbtValue]>)
    ensures
        match list_either(c@, a@, b@) {
            Some(l) => r matches Some(x) && values_model(x@) == l,
            None => r is None,
        },
{
    match c.list(a) {
        Some(l) => Some(l),
        None => c.list(b),
    }
}

/// The safe signs of a level: from `block_entities` first for the modern
/// schema, from `TileEntities` first otherwise.
pub open spec fn sign_entities(level: CompoundModel, modern: bool) -> Seq<NbtTag> {
    let source = if modern {
        list_either(level, "block_entities"@, "TileEntities"@)
    } else {
        list_either(level, "TileEntities"@, "block_entities"@)
    };
    match source {
        Some(l) => signs_in(l, modern),
        None => Seq::empty(),
    }
}

fn build_safe_sign_tile_entities(level: &NbtCompound, modern: bool) -> (r: Vec<NbtValue>)
    ensures
        values_model(r@) == sign_entities(level@, modern),
{
    let source = if modern {
        get_list_either(level, "block_entities", "TileEntities")
    } else {
        get_list_either(level, "TileEntities", "block_entities")
    };
    let mut result: Vec<NbtValue> = Vec::new();
    let l = match source {
        Some(l) => l,
        None => {
            assert(values_model(result@) =~= Seq::<NbtTag>::empty());
            return result;
        },
    };
    proof {
        crate::nbt::lemma_values_model(l@);
    }
    let ghost m = values_model(l@);
    let mut i: usize = 0;
    assert(values_model(result@) =~= signs_in(m.take(0), modern));
    while i < l.len()
        invariant
            i <= l@.len(),
            m == values_model(l@),
            m.len() == l@.len(),
            forall|j: int| 0 <= j < l@.len() ==> #[trigger] m[j] == l@[j]@,
            values_model(result@) == signs_in(m.take(i as int), modern),
        decreases l@.len() - i,
    {
        assert(m.take(i + 1).drop_last() =~= m.take(i as int));
        assert(m.take(i + 1).last() == l@[i as int]@);
        if let NbtValue::Compound(be) = &l[i] {
            let id = get_text(be, "id");
            let is_sign = if modern {
                is_modern_sign_tile_entity(id)
            } else {
                crate::text::same_text(id, "Sign") || crate::text::same_text(id, "minecraft:sign")
            };
            if is_sign {
                let sign = build_safe_legacy_sign_tile_entity(be, modern);
                let ghost prev = result@;
                result.push(NbtValue::Compound(sign));
                proof {
                    crate::nbt::lemma_values_model(result@);
                    crate::nbt::lemma_values_model(prev);
                    assert(values_model(result@) =~= values_model(prev).push(NbtTag::Compound(sign@)));
                }
            }
        }
        i += 1;
    }
    assert(m.take(i as int) =~= m);
    result
}


/// Whether a block entity may stay: a compound whose id is not a command
/// block.
pub open spec fn supported_entity(t: NbtTag) -> bool {
    match t {
        NbtTag::Compound(te) => {
            let id = text_or_empty(te, "id"@);
            id != "Control"@ && id != "minecraft:command_block"@ && id != "CommandBlock"@
        },
        _ => false,
    }
}

/// The supported block entities of a list, in order.
pub open spec fn supported_entities(l: Seq<NbtTag>) -> Seq<NbtTag>
    decreases l.len(),
{
    if l.len() == 0 {
        Seq::empty()
    } else {
        let rest = supported_entities(l.drop_last());
        if supported_entity(l.last()) {
            rest.push(l.last())
        } else {
            rest
        }
    }
}

fn remove_unsupported_tile_entities(tile_entities: &mut Vec<NbtValue>)
    ensures
        values_model(final(tile_entities)@) == supported_entities(values_model(old(tile_entities)@)),
{
    let mut old_list: Vec<NbtValue> = Vec::new();
    std::mem::swap(&mut old_list, tile_entities);
    proof {
        crate::nbt::lemma_values_model(old_list@);
    }
    let ghost m = values_model(old_list@);
    let mut kept: Vec<NbtValue> = Vec::new();
    let mut i: usize = 0;
    assert(values_model(kept@) =~= supported_entities(m.take(0)));
    while i < old_list.len()
        invariant
            i <= old_list@.len(),
            m == values_model(old_list@),
            m.len() == old_list@.len(),
            forall|j: int| 0 <= j < old_list@.len() ==> #[trigger] m[j] == old_list@[j]@,
            values_model(kept@) == supported_entities(m.take(i as int)),
        decreases old_list@.len() - i,
    {
        assert(m.take(i + 1).drop_last() =~= m.take(i as int));
        assert(m.take(i + 1).last() == old_list@[i as int]@);
        let keep = match &old_list[i] {
            NbtValue::Compound(te) => {
                let id = get_text(te, "id");
                !crate::text::same_text(id, "Control") && !crate::text::same_text(id, "minecraft:command_block")
                    && !crate::text::same_text(id, "CommandBlock")
            },
            _ => false,
        };
        if keep {
            let ghost prev = kept@;
            kept.push(old_list[i].deep_clone());
            proof {
                crate::nbt::lemma_values_model(kept@);
                crate::nbt::lemma_values_model(prev);
                assert(values_model(kept@) =~= values_model(prev).push(old_list@[i as int]@));
            }
        }
        i += 1;
    }
    assert(m.take(i as int) =~= m);
    *tile_entities = kept;
}

/// `c` with the Int called `name` (its first tag of that name) less `d`,
/// wrapping; unchanged when that tag is not an Int.
pub open spec fn shift_int(c: CompoundModel, name: Seq<char>, d: i32) -> CompoundModel {
    let i = name_index(c.tags, name);
    if i != -1 {
        match c.tags[i].1 {
            NbtTag::Int(v) => CompoundModel {
                name: c.name,
                tags: c.tags.update(i, (c.tags[i].0, NbtTag::Int(v.wrapping_sub(d)))),
            },
            _ => c,
        }
    } else {
        c
    }
}

/// `c` moved by (`dx`, `dz`) blocks: its Int `x` and `z` less the offsets.
pub open spec fn shifted_xz(c: CompoundModel, dx: i32, dz: i32) -> CompoundModel {
    shift_int(shift_int(c, "x"@, dx), "z"@, dz)
}

fn shift_int_in(c: &mut NbtCompound, name: &str, d: i32)
    ensures
        final(c)@ == shift_int(old(c)@, name@, d),
{
    proof {
        crate::nbt::lemma_tags_model(c.tags@);
        crate::nbt::lemma_name_index(c@.tags, name@);
    }
    match c.position(name) {
        Some(i) => {
            let v = match &c.tags[i].1 {
                NbtValue::Int(v) => *v,
                _ => {
                    return;
                },
            };
            let key = c.tags[i].0.clone();
            let ghost t0 = c.tags@;
            c.tags.set(i, (key, NbtValue::Int(v.wrapping_sub(d))));
            proof {
                crate::nbt::lemma_tags_model(c.tags@);
                assert(c@.tags =~= shift_int(old(c)@, name@, d).tags);
            }
        },
        None => {},
    }
}

fn shift_xz_in(c: &mut NbtCompound, dx: i32, dz: i32)
    ensures
        final(c)@ == shifted_xz(old(c)@, dx, dz),
{
    shift_int_in(c, "x", dx);
    shift_int_in(c, "z", dz);
}

/// A block-entity list moved by (`dx`, `dz`): every compound shifted, other
/// tags kept; unchanged when both offsets are 0.
pub open spec fn shifted_entities(l: Seq<NbtTag>, dx: i32, dz: i32) -> Seq<NbtTag> {
    if dx == 0 && dz == 0 {
        l
    } else {
        Seq::new(
            l.len(),
            |i: int|
                match l[i] {
                    NbtTag::Compound(c) => NbtTag::Compound(shifted_xz(c, dx, dz)),
                    other => other,
                },
        )
    }
}

fn remap_tile_entity_positions(tile_entities: &mut Vec<NbtValue>, dx: i32, dz: i32)
    ensures
        values_model(final(tile_entities)@) == shifted_entities(values_model(old(tile_entities)@), dx, dz),
{
    if dx == 0 && dz == 0 {
        return;
    }
    let mut old_list: Vec<NbtValue> = Vec::new();
    std::mem::swap(&mut old_list, tile_entities);
    proof {
        crate::nbt::lemma_values_model(old_list@);
    }
    let ghost m = values_model(old_list@);
    let mut out: Vec<NbtValue> = Vec::new();
    let mut i: usize = 0;
    while i < old_list.len()
        invariant
            i <= old_list@.len(),
            !(dx == 0 && dz == 0),
            m == values_model(old_list@),
            m.len() == old_list@.len(),
            forall|j: int| 0 <= j < old_list@.len() ==> #[trigger] m[j] == old_list@[j]@,
            values_model(out@) == shifted_entities(m, dx, dz).take(i as int),
        decreases old_list@.len() - i,
    {
        let v = match &old_list[i] {
            NbtValue::Compound(c) => {
                let mut c2 = c.deep_clone();
                shift_xz_in(&mut c2, dx, dz);
                NbtValue::Compound(c2)
            },
            other => other.deep_clone(),
        };
        let ghost prev = out@;
        out.push(v);
        proof {
            crate::nbt::lemma_values_model(out@);
            crate::nbt::lemma_values_model(prev);
            assert(values_model(out@) =~= shifted_entities(m, dx, dz).take(i + 1));
        }
        i += 1;
    }
    assert(shifted_entities(m, dx, dz).take(i as int) =~= shifted_entities(m, dx, dz));
    *tile_entities = out;
}

/// A tile-tick list moved by (`dx`, `dz`): only its compounds, shifted; the
/// list as it is when both offsets are 0.
pub open spec fn shifted_ticks(l: Seq<NbtTag>, dx: i32, dz: i32) -> Seq<NbtTag>
    decreases l.len(),
{
    if dx == 0 && dz == 0 {
        l
    } else if l.len() == 0 {
        Seq::empty()
    } else {
        let rest = shifted_ticks(l.drop_last(), dx, dz);
        match l.last() {
            NbtTag::Compound(c) => rest.push(NbtTag::Compound(shifted_xz(c, dx, dz))),
            _ => rest,
        }
    }
}

fn remap_tile_tick_positions(ticks: &[NbtValue], dx: i32, dz: i32) -> (r: Vec<NbtValue>)
    ensures
        values_model(r@) == shifted_ticks(values_model(ticks@), dx, dz),
{
    proof {
        crate::nbt::lemma_values_model(ticks@);
    }
    if dx == 0 && dz == 0 {
        let mut v: Vec<NbtValue> = Vec::new();
        let mut i: usize = 0;
        while i < ticks.len()
            invariant
                i <= ticks@.len(),
                values_model(ticks@).len() == ticks@.len(),
                forall|j: int| 0 <= j < ticks@.len() ==> #[trigger] values_model(ticks@)[j] == ticks@[j]@,
                values_model(v@) == values_model(ticks@).take(i as int),
            decreases ticks@.len() - i,
        {
            let ghost prev = v@;
            v.push(ticks[i].deep_clone());
            proof {
                crate::nbt::lemma_values_model(v@);
                crate::nbt::lemma_values_model(prev);
                assert(values_model(v@) =~= values_model(ticks@).take(i + 1));
            }
            i += 1;
        }
        assert(values_model(ticks@).take(i as int) =~= values_model(ticks@));
        return v;
    }
    let ghost m = values_model(ticks@);
    let mut out: Vec<NbtValue> = Vec::new();
    let mut i: usize = 0;
    assert(values_model(out@) =~= shifted_ticks(m.take(0), dx, dz));
    while i < ticks.len()
        invariant
            i <= ticks@.len(),
            !(dx == 0 && dz == 0),
            m == values_model(ticks@),
            m.len() == ticks@.len(),
            forall|j: int| 0 <= j < ticks@.len() ==> #[trigger] m[j] == ticks@[j]@,
            values_model(out@) == shifted_ticks(m.take(i as int), dx, dz),
        decreases ticks@.len() - i,
    {
        assert(m.take(i + 1).drop_last() =~= m.take(i as int));
        assert(m.take(i + 1).last() == ticks@[i as int]@);
        if let NbtValue::Compound(c) = &ticks[i] {
            let mut c2 = c.deep_clone();
            shift_xz_in(&mut c2, dx, dz);
            let ghost prev = out@;
            out.push(NbtValue::Compound(c2));
            proof {
                crate::nbt::lemma_values_model(out@);
                crate::nbt::lemma_values_model(prev);
                assert(values_model(out@) =~= values_model(prev).push(NbtTag::Compound(c2@)));
            }
        }
        i += 1;
    }
    assert(m.take(i as int) =~= m);
    out
}


// ---------------------------------------------------------------------
// Converting a Java chunk to a legacy level.
// ---------------------------------------------------------------------

/// Whether a chunk's content follows the modern schema.
pub open spec fn modern_schema(info: JavaChunkFormatInfo) -> bool {
    info.format == JavaChunkFormat::ModernPalette || info.format
        == JavaChunkFormat::ModernExtendedHeight || info.has_modern_entity_tags
}

/// Whether a chunk's blocks are stored in sections.
pub open spec fn sectioned(info: JavaChunkFormatInfo) -> bool {
    info.format == JavaChunkFormat::LegacyAnvil || info.format == JavaChunkFormat::ModernPalette
        || info.format == JavaChunkFormat::ModernExtendedHeight
}

/// The block offset between a chunk's stored position and its new one:
/// 16 blocks per chunk of difference (wrapping), the stored position being
/// the level's Int `xPos`/`zPos` or else the new one.
pub open spec fn block_offsets(root: CompoundModel, new_x: i32, new_z: i32) -> (i32, i32) {
    let level = source_level(root);
    let sx = match lookup(level.tags, "xPos"@) {
        Some(NbtTag::Int(v)) => v,
        _ => new_x,
    };
    let sz = match lookup(level.tags, "zPos"@) {
        Some(NbtTag::Int(v)) => v,
        _ => new_z,
    };
    (sx.wrapping_sub(new_x).wrapping_mul(16), sz.wrapping_sub(new_z).wrapping_mul(16))
}

/// Computes `block_offsets`: how far entities must move when a chunk is
/// stored at (`new_x`, `new_z`).
pub fn entity_block_offsets(root_tag: &NbtCompound, new_x: i32, new_z: i32) -> (r: (i32, i32))
    ensures
        r == block_offsets(root_tag@, new_x, new_z),
{
    let level = get_source_level(root_tag);
    let sx = match level.int_value("xPos") {
        Some(v) => v,
        None => new_x,
    };
    let sz = match level.int_value("zPos") {
        Some(v) => v,
        None => new_z,
    };
    (sx.wrapping_sub(new_x).wrapping_mul(16), sz.wrapping_sub(new_z).wrapping_mul(16))
}

/// The entity list of a chunk's level, or an empty list.
pub fn source_entities(root_tag: &NbtCompound) -> (r: Vec<NbtValue>)
    ensures
        values_model(r@) == list_or_empty(source_level(root_tag@), "Entities"@),
{
    crate::nbt::clone_or_empty_list(get_source_level(root_tag), "Entities")
}

/// The byte array called `name` cut or zero-padded to `n` bytes (all zeros
/// when there is none).
fn get_byte_array_or_default(c: &NbtCompound, name: &str, n: usize) -> (r: Vec<u8>)
    ensures
        r@ == fit_len(bytes_or_empty(c@, name@), n as int),
{
    match c.byte_array(name) {
        Some(b) => crate::payload::fit_copy(b, n),
        None => {
            let z = zeros(n, 0u8);
            assert(z@ =~= fit_len(Seq::<u8>::empty(), n as int));
            z
        },
    }
}

/// The block entities that a chunk keeps with its dynamic content: the
/// `TileEntities` list, else `block_entities`, else none (for the legacy
/// schema); the safe signs for the modern one.
pub open spec fn compatible_entities(level: CompoundModel, modern: bool) -> Seq<NbtTag> {
    if !modern {
        match list_either(level, "TileEntities"@, "block_entities"@) {
            Some(l) => l,
            None => Seq::empty(),
        }
    } else {
        sign_entities(level, true)
    }
}

fn build_compatible_tile_entities(level: &NbtCompound, modern: bool) -> (r: Vec<NbtValue>)
    ensures
        values_model(r@) == compatible_entities(level@, modern),
{
    if !modern {
        match get_list_either(level, "TileEntities", "block_entities") {
            Some(l) => crate::nbt::clone_values_slice(l),
            None => {
                let v: Vec<NbtValue> = Vec::new();
                assert(values_model(v@) =~= Seq::<NbtTag>::empty());
                v
            },
        }
    } else {
        build_safe_sign_tile_entities(level, true)
    }
}

/// The legacy level a Java chunk becomes at (`new_x`, `new_z`): its blocks
/// flattened and remapped to console ids, its data, empty light, height map,
/// biomes (all plains for the modern schema), times, and entities: with
/// `preserve_dynamic` (and the legacy schema) the given moved entities, its
/// block entities and tile ticks; otherwise no entities and only its signs.
/// Command blocks are dropped and block entities moved to the new position.
pub open spec fn legacy_chunk_level(
    root: CompoundModel,
    new_x: i32,
    new_z: i32,
    preserve_dynamic: bool,
    moved_entities: Seq<NbtTag>,
) -> CompoundModel {
    let info = chunk_info(root);
    let level = source_level(root);
    let modern = modern_schema(info);
    let (b0, d0) = if sectioned(info) {
        flattened(level, info.format == JavaChunkFormat::ModernExtendedHeight, None)
    } else {
        (
            fit_len(bytes_or_empty(level, "Blocks"@), 65536),
            fit_len(bytes_or_empty(level, "Data"@), 32768),
        )
    };
    let blocks = Seq::new(b0.len(), |i: int| remapped_id(b0[i]));
    let biomes = if modern {
        Seq::new(256, |_i: int| 1u8)
    } else {
        fit_len(bytes_or_empty(level, "Biomes"@), 256)
    };
    let t = put(Seq::empty(), "xPos"@, NbtTag::Int(new_x));
    let t = put(t, "zPos"@, NbtTag::Int(new_z));
    let t = put(t, "LastUpdate"@, NbtTag::Long(long_or_zero(level, "LastUpdate"@)));
    let t = put(t, "InhabitedTime"@, NbtTag::Long(long_or_zero(level, "InhabitedTime"@)));
    let t = put(t, "Blocks"@, NbtTag::ByteArray(blocks));
    let t = put(t, "Data"@, NbtTag::ByteArray(d0));
    let t = put(t, "SkyLight"@, NbtTag::ByteArray(Seq::new(32768, |_i: int| 0u8)));
    let t = put(t, "BlockLight"@, NbtTag::ByteArray(Seq::new(32768, |_i: int| 0u8)));
    let t = put(t, "HeightMap"@, NbtTag::ByteArray(fit_len(bytes_or_empty(level, "HeightMap"@), 256)));
    let t = put(t, "TerrainPopulatedFlags"@, NbtTag::Short(0));
    let t = put(t, "Biomes"@, NbtTag::ByteArray(biomes));
    let (dx, dz) = block_offsets(root, new_x, new_z);
    let dynamic = preserve_dynamic && !modern;
    let t = put(t, "Entities"@, NbtTag::List(if dynamic { moved_entities } else { Seq::empty() }));
    let te = if dynamic { compatible_entities(level, false) } else { sign_entities(level, modern) };
    let t = put(t, "TileEntities"@, NbtTag::List(shifted_entities(supported_entities(te), dx, dz)));
    let t = if dynamic {
        match list_either(level, "TileTicks"@, "block_ticks"@) {
            Some(l) => put(t, "TileTicks"@, NbtTag::List(shifted_ticks(l, dx, dz))),
            None => t,
        }
    } else {
        t
    };
    CompoundModel { name: "Level"@, tags: t }
}

fn byte_array_value(v: Vec<u8>) -> (r: NbtValue)
    ensures
        r@ == NbtTag::ByteArray(v@),
{
    NbtValue::ByteArray(v)
}

fn build_legacy_chunk_level(
    root_tag: &NbtCompound,
    new_chunk_x: i32,
    new_chunk_z: i32,
    preserve_dynamic: bool,
    moved_entities: Vec<NbtValue>,
) -> (r: NbtCompound)
    ensures
        r@ == legacy_chunk_level(root_tag@, new_chunk_x, new_chunk_z, preserve_dynamic, values_model(moved_entities@)),
{
    let info = inspect_chunk(root_tag);
    let level = get_source_level(root_tag);
    let modern = info.uses_modern_content_schema();
    let (mut blocks, mut data, sky0, bl0) = if info.is_section_based() {
        let mut global: Option<i32> = None;
        flatten_anvil_sections(level, &info, &mut global)
    } else {
        let b = get_byte_array_or_default(level, "Blocks", 65536);
        let d = get_byte_array_or_default(level, "Data", 32768);
        let sk = get_byte_array_or_default(level, "SkyLight", 32768);
        let bl = get_byte_array_or_default(level, "BlockLight", 32768);
        (b, d, sk, bl)
    };
    let height_map = get_byte_array_or_default(level, "HeightMap", 256);
    let mut biomes = get_byte_array_or_default(level, "Biomes", 256);
    if modern {
        biomes = zeros(256, 1u8);
    }
    let ghost b0 = blocks@;
    let ghost d0 = data@;
    remap_blocks(blocks.as_mut_slice(), data.as_mut_slice());
    assert(blocks@ =~= Seq::new(b0.len(), |i: int| remapped_id(b0[i])));
    let last_update = match level.long("LastUpdate") { Some(v) => v, None => 0 };
    let inhabited_time = match level.long("InhabitedTime") { Some(v) => v, None => 0 };
    let sky_light = zeros(sky0.len(), 0u8);
    let block_light = zeros(bl0.len(), 0u8);
    let mut out = NbtCompound::new("Level");
    out.insert("xPos", NbtValue::Int(new_chunk_x));
    out.insert("zPos", NbtValue::Int(new_chunk_z));
    out.insert("LastUpdate", NbtValue::Long(last_update));
    out.insert("InhabitedTime", NbtValue::Long(inhabited_time));
    out.insert("Blocks", byte_array_value(blocks));
    out.insert("Data", byte_array_value(data));
    out.insert("SkyLight", byte_array_value(sky_light));
    out.insert("BlockLight", byte_array_value(block_light));
    out.insert("HeightMap", byte_array_value(height_map));
    out.insert("TerrainPopulatedFlags", NbtValue::Short(0));
    out.insert("Biomes", byte_array_value(biomes));
    let (dx, dz) = entity_block_offsets(root_tag, new_chunk_x, new_chunk_z);
    let dynamic = preserve_dynamic && !modern;
    if dynamic {
        out.insert("Entities", NbtValue::List(moved_entities));
    } else {
        let empty: Vec<NbtValue> = Vec::new();
        assert(values_model(empty@) =~= Seq::<NbtTag>::empty());
        out.insert("Entities", NbtValue::List(empty));
    }
    let mut tile_entities = if dynamic {
        build_compatible_tile_entities(level, false)
    } else {
        build_safe_sign_tile_entities(level, modern)
    };
    remove_unsupported_tile_entities(&mut tile_entities);
    remap_tile_entity_positions(&mut tile_entities, dx, dz);
    out.insert("TileEntities", NbtValue::List(tile_entities));
    if dynamic {
        if let Some(ticks) = get_list_either(level, "TileTicks", "block_ticks") {
            let remapped = remap_tile_tick_positions(ticks, dx, dz);
            out.insert("TileTicks", NbtValue::List(remapped));
        }
    }
    out
}

/// Converts a Java chunk to the legacy NBT document of its level at
/// (`new_chunk_x`, `new_chunk_z`) (see `legacy_chunk_level`). The moved
/// entities are the chunk's entities with their positions shifted by
/// `entity_block_offsets`, which the caller computes (positions are
/// floating point); they are used only with `preserve_dynamic` for the
/// legacy schema.
pub fn convert_chunk(
    root_tag: &NbtCompound,
    new_chunk_x: i32,
    new_chunk_z: i32,
    preserve_dynamic: bool,
    moved_entities: Vec<NbtValue>,
) -> (r: Vec<u8>)
    ensures
        r@ == legacy_document(legacy_chunk_level(root_tag@, new_chunk_x, new_chunk_z, preserve_dynamic, values_model(moved_entities@))),
{
    let level = build_legacy_chunk_level(root_tag, new_chunk_x, new_chunk_z, preserve_dynamic, moved_entities);
    encode_legacy_nbt(&level)
}

/// Converts a Java chunk to the console's compressed chunk storage of its
/// level (see `convert_chunk`).
pub fn convert_chunk_for_save(
    root_tag: &NbtCompound,
    new_chunk_x: i32,
    new_chunk_z: i32,
    preserve_dynamic: bool,
    moved_entities: Vec<NbtValue>,
) -> (r: Vec<u8>)
    ensures
        r@ == compressed_storage(legacy_chunk_level(root_tag@, new_chunk_x, new_chunk_z, preserve_dynamic, values_model(moved_entities@))),
{
    let level = build_legacy_chunk_level(root_tag, new_chunk_x, new_chunk_z, preserve_dynamic, moved_entities);
    encode_compressed_storage(&level)
}

proof fn lemma_put_keeps(t: Seq<(Seq<char>, NbtTag)>, name: Seq<char>, v: NbtTag, other: Seq<char>)
    requires
        other != name,
    ensures
        lookup(crate::payload::put(t, name, v), other) == lookup(t, other),
{
    crate::nbt::lemma_lookup_after_insert(t, name, v, other);
}

proof fn lemma_put_keeps_position(t: Seq<(Seq<char>, NbtTag)>, name: Seq<char>, v: NbtTag, x: i32, z: i32)
    requires
        name != "xPos"@,
        name != "zPos"@,
        lookup(t, "xPos"@) == Some(NbtTag::Int(x)),
        lookup(t, "zPos"@) == Some(NbtTag::Int(z)),
    ensures
        lookup(crate::payload::put(t, name, v), "xPos"@) == Some(NbtTag::Int(x)),
        lookup(crate::payload::put(t, name, v), "zPos"@) == Some(NbtTag::Int(z)),
{
    lemma_put_keeps(t, name, v, "xPos"@);
    lemma_put_keeps(t, name, v, "zPos"@);
}

/// A chunk converted for a save is stored at the chunk coordinates it was
/// converted to.
pub proof fn lemma_converted_chunk_position(
    root: CompoundModel,
    new_x: i32,
    new_z: i32,
    preserve_dynamic: bool,
    moved_entities: Seq<NbtTag>,
)
    ensures
        crate::payload::chunk_coordinates(
            crate::payload::compressed_storage(legacy_chunk_level(root, new_x, new_z, preserve_dynamic, moved_entities)),
        ) == Some((new_x, new_z, false)),
{
    reveal_strlit("xPos");
    reveal_strlit("zPos");
    reveal_strlit("LastUpdate");
    reveal_strlit("InhabitedTime");
    reveal_strlit("Blocks");
    reveal_strlit("Data");
    reveal_strlit("SkyLight");
    reveal_strlit("BlockLight");
    reveal_strlit("HeightMap");
    reveal_strlit("TerrainPopulatedFlags");
    reveal_strlit("Biomes");
    reveal_strlit("Entities");
    reveal_strlit("TileEntities");
    reveal_strlit("TileTicks");
    assert("xPos"@[0] == 'x' && "zPos"@[0] == 'z');
    assert("xPos"@ != "zPos"@);
    let info = chunk_info(root);
    let level = source_level(root);
    let modern = modern_schema(info);
    let (b0, d0) = if sectioned(info) {
        flattened(level, info.format == JavaChunkFormat::ModernExtendedHeight, None)
    } else {
        (
            fit_len(bytes_or_empty(level, "Blocks"@), 65536),
            fit_len(bytes_or_empty(level, "Data"@), 32768),
        )
    };
    let blocks = Seq::new(b0.len(), |i: int| remapped_id(b0[i]));
    let biomes = if modern {
        Seq::new(256, |_i: int| 1u8)
    } else {
        fit_len(bytes_or_empty(level, "Biomes"@), 256)
    };
    let t1 = crate::payload::put(Seq::empty(), "xPos"@, NbtTag::Int(new_x));
    crate::nbt::lemma_lookup_after_insert(Seq::empty(), "xPos"@, NbtTag::Int(new_x), "xPos"@);
    let t2 = crate::payload::put(t1, "zPos"@, NbtTag::Int(new_z));
    crate::nbt::lemma_lookup_after_insert(t1, "zPos"@, NbtTag::Int(new_z), "xPos"@);
    let t3 = crate::payload::put(t2, "LastUpdate"@, NbtTag::Long(long_or_zero(level, "LastUpdate"@)));
    lemma_put_keeps_position(t2, "LastUpdate"@, NbtTag::Long(long_or_zero(level, "LastUpdate"@)), new_x, new_z);
    let t4 = crate::payload::put(t3, "InhabitedTime"@, NbtTag::Long(long_or_zero(level, "InhabitedTime"@)));
    lemma_put_keeps_position(t3, "InhabitedTime"@, NbtTag::Long(long_or_zero(level, "InhabitedTime"@)), new_x, new_z);
    let t5 = crate::payload::put(t4, "Blocks"@, NbtTag::ByteArray(blocks));
    lemma_put_keeps_position(t4, "Blocks"@, NbtTag::ByteArray(blocks), new_x, new_z);
    let t6 = crate::payload::put(t5, "Data"@, NbtTag::ByteArray(d0));
    lemma_put_keeps_position(t5, "Data"@, NbtTag::ByteArray(d0), new_x, new_z);
    let t7 = crate::payload::put(t6, "SkyLight"@, NbtTag::ByteArray(Seq::new(32768, |_i: int| 0u8)));
    lemma_put_keeps_position(t6, "SkyLight"@, NbtTag::ByteArray(Seq::new(32768, |_i: int| 0u8)), new_x, new_z);
    let t8 = crate::payload::put(t7, "BlockLight"@, NbtTag::ByteArray(Seq::new(32768, |_i: int| 0u8)));
    lemma_put_keeps_position(t7, "BlockLight"@, NbtTag::ByteArray(Seq::new(32768, |_i: int| 0u8)), new_x, new_z);
    let hm = NbtTag::ByteArray(fit_len(bytes_or_empty(level, "HeightMap"@), 256));
    let t9 = crate::payload::put(t8, "HeightMap"@, hm);
    lemma_put_keeps_position(t8, "HeightMap"@, hm, new_x, new_z);
    let t10 = crate::payload::put(t9, "TerrainPopulatedFlags"@, NbtTag::Short(0));
    lemma_put_keeps_position(t9, "TerrainPopulatedFlags"@, NbtTag::Short(0), new_x, new_z);
    let t11 = crate::payload::put(t10, "Biomes"@, NbtTag::ByteArray(biomes));
    lemma_put_keeps_position(t10, "Biomes"@, NbtTag::ByteArray(biomes), new_x, new_z);
    let (dx, dz) = block_offsets(root, new_x, new_z);
    let dynamic = preserve_dynamic && !modern;
    let ents = NbtTag::List(if dynamic { moved_entities } else { Seq::empty() });
    let t12 = crate::payload::put(t11, "Entities"@, ents);
    lemma_put_keeps_position(t11, "Entities"@, ents, new_x, new_z);
    let te = if dynamic { compatible_entities(level, false) } else { sign_entities(level, modern) };
    let tes = NbtTag::List(shifted_entities(supported_entities(te), dx, dz));
    let t13 = crate::payload::put(t12, "TileEntities"@, tes);
    lemma_put_keeps_position(t12, "TileEntities"@, tes, new_x, new_z);
    if dynamic {
        match list_either(level, "TileTicks"@, "block_ticks"@) {
            Some(l) => {
                lemma_put_keeps_position(t13, "TileTicks"@, NbtTag::List(shifted_ticks(l, dx, dz)), new_x, new_z);
            },
            None => {},
        }
    }
    let lv = legacy_chunk_level(root, new_x, new_z, preserve_dynamic, moved_entities);
    crate::payload::lemma_stored_chunk_coordinates(lv);
}


proof fn lemma_chunk_offset(v: i32, s: i32, n: i32)
    requires
        16 * s <= v < 16 * s + 16,
        -0x8000_0000 <= 16 * n,
        16 * n + 16 <= 0x8000_0000,
    ensures
        v.wrapping_sub(s.wrapping_sub(n).wrapping_mul(16)) == v - 16 * (s - n),
{
    let r: int = 0x1_0000_0000;
    let w = s.wrapping_sub(n);
    let a: int = (w - (s - n)) / r;
    assert(w == (s - n) + a * r);
    let p: int = w * 16;
    vstd::arithmetic::div_mod::lemma_fundamental_div_mod(p, r);
    let d = s.wrapping_sub(n).wrapping_mul(16);
    let q: int = if p % r > 0x7FFF_FFFF { p / r + 1 } else { p / r };
    assert(d == p - r * q);
    let k: int = 16 * a - q;
    assert(d == 16 * (s - n) + r * k) by (nonlinear_arith)
        requires
            d == p - r * q,
            p == w * 16,
            w == (s - n) + a * r,
            k == 16 * a - q,
    ;
    let out = v.wrapping_sub(d);
    let b: int = (out - (v - d)) / r;
    assert(out == v - d + b * r);
    let t: int = v - 16 * (s - n);
    assert(out == t + r * (b - k)) by (nonlinear_arith)
        requires
            out == v - d + b * r,
            d == 16 * (s - n) + r * k,
            t == v - 16 * (s - n),
    ;
    assert(-0x8000_0000 <= t < 0x8000_0000);
    assert(b - k == 0) by (nonlinear_arith)
        requires
            out == t + r * (b - k),
            -0x8000_0000 <= t < 0x8000_0000,
            -0x8000_0000 <= out < 0x8000_0000,
            r == 0x1_0000_0000,
    ;
}

proof fn lemma_same_names_index(t: Seq<(Seq<char>, NbtTag)>, u: Seq<(Seq<char>, NbtTag)>, o: Seq<char>)
    requires
        t.len() == u.len(),
        forall|j: int| 0 <= j < t.len() ==> #[trigger] t[j].0 == u[j].0,
    ensures
        name_index(t, o) == name_index(u, o),
{
    crate::nbt::lemma_name_index(t, o);
    crate::nbt::lemma_name_index(u, o);
    if name_index(t, o) != -1 {
        assert(u[name_index(t, o)].0 == o);
    }
    if name_index(u, o) != -1 {
        assert(t[name_index(u, o)].0 == o);
    }
}

/// After `shift_int(c, name, d)`, `name` gives its Int less `d`
/// (wrapping), and every other name what it gave before.
proof fn lemma_shift_int_lookup(c: CompoundModel, name: Seq<char>, d: i32, o: Seq<char>)
    ensures
        lookup(shift_int(c, name, d).tags, o) == if o == name {
            match lookup(c.tags, name) {
                Some(NbtTag::Int(v)) => Some(NbtTag::Int(v.wrapping_sub(d))),
                other => other,
            }
        } else {
            lookup(c.tags, o)
        },
{
    let i = name_index(c.tags, name);
    crate::nbt::lemma_name_index(c.tags, name);
    if i != -1 {
        if let NbtTag::Int(v) = c.tags[i].1 {
            let u = c.tags.update(i, (c.tags[i].0, NbtTag::Int(v.wrapping_sub(d))));
            assert forall|j: int| 0 <= j < c.tags.len() implies #[trigger] c.tags[j].0 == u[j].0 by {}
            lemma_same_names_index(c.tags, u, o);
            crate::nbt::lemma_name_index(c.tags, o);
        }
    }
}

/// A block entity that lay in its source chunk lies in the new chunk once
/// the chunk is stored at (`new_x`, `new_z`): its `x` and `z` are less 16
/// times the chunk offset (source less new), every other tag as it was.
pub proof fn lemma_entity_moves_into_new_chunk(
    root: CompoundModel,
    new_x: i32,
    new_z: i32,
    l: Seq<NbtTag>,
    j: int,
    sx: i32,
    sz: i32,
    x: i32,
    z: i32,
)
    requires
        lookup(source_level(root).tags, "xPos"@) == Some(NbtTag::Int(sx)),
        lookup(source_level(root).tags, "zPos"@) == Some(NbtTag::Int(sz)),
        0 <= j < l.len(),
        l[j] matches NbtTag::Compound(c) && lookup(c.tags, "x"@) == Some(NbtTag::Int(x)) && lookup(c.tags, "z"@)
            == Some(NbtTag::Int(z)),
        16 * sx <= x < 16 * sx + 16,
        16 * sz <= z < 16 * sz + 16,
        -0x8000_0000 <= 16 * new_x,
        16 * new_x + 16 <= 0x8000_0000,
        -0x8000_0000 <= 16 * new_z,
        16 * new_z + 16 <= 0x8000_0000,
    ensures
        ({
            let (dx, dz) = block_offsets(root, new_x, new_z);
            shifted_entities(l, dx, dz)[j] matches NbtTag::Compound(m) && lookup(m.tags, "x"@) matches Some(
                NbtTag::Int(mx),
            ) && lookup(m.tags, "z"@) matches Some(NbtTag::Int(mz)) && mx == x - 16 * (sx - new_x) && mz == z - 16 * (
            sz - new_z) && 16 * new_x <= mx < 16 * new_x + 16 && 16 * new_z <= mz < 16 * new_z + 16
        }),
        ({
            let (dx, dz) = block_offsets(root, new_x, new_z);
            shifted_entities(l, dx, dz)[j] matches NbtTag::Compound(m) && l[j] matches NbtTag::Compound(c)
                && forall|o: Seq<char>| o != "x"@ && o != "z"@ ==> #[trigger] lookup(m.tags, o) == lookup(c.tags, o)
        }),
{
    let (dx, dz) = block_offsets(root, new_x, new_z);
    let c = l[j]->Compound_0;
    reveal_strlit("x");
    reveal_strlit("z");
    assert("x"@[0] != "z"@[0]);
    lemma_chunk_offset(x, sx, new_x);
    lemma_chunk_offset(z, sz, new_z);
    let c1 = shift_int(c, "x"@, dx);
    lemma_shift_int_lookup(c, "x"@, dx, "x"@);
    lemma_shift_int_lookup(c, "x"@, dx, "z"@);
    lemma_shift_int_lookup(c1, "z"@, dz, "x"@);
    lemma_shift_int_lookup(c1, "z"@, dz, "z"@);
    assert forall|o: Seq<char>| o != "x"@ && o != "z"@ implies #[trigger] lookup(shifted_xz(c, dx, dz).tags, o)
        == lookup(c.tags, o) by {
        lemma_shift_int_lookup(c, "x"@, dx, o);
        lemma_shift_int_lookup(c1, "z"@, dz, o);
    }
    if dx == 0 && dz == 0 {
    } else {
        assert(shifted_entities(l, dx, dz)[j] == NbtTag::Compound(shifted_xz(c, dx, dz)));
    }
}

} // verus!
