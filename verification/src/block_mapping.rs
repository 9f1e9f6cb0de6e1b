use crate::nbt::{lookup, CompoundModel, NbtCompound, NbtTag};
use crate::text::{parse_i32, same_text, spec_parse_i32};
use vstd::prelude::*;
use vstd::utf8::*;

verus! {

/// A legacy (console) block: id and 4-bit data.
#[derive(Clone, Copy, Debug, PartialEq, Eq, Structural)]
pub struct LegacyBlockState {
    pub id: u8,
    pub data: u8,
}

pub open spec fn st(id: u8, data: u8) -> LegacyBlockState {
    LegacyBlockState { id, data }
}

// ---------------------------------------------------------------------
// Byte-string tests on names.
// ---------------------------------------------------------------------

/// The UTF-8 bytes of a string.
pub open spec fn lit(s: &str) -> Seq<u8> {
    encode_utf8(s@)
}

/// The UTF-8 bytes of a character sequence.
pub open spec fn lit_of(s: Seq<char>) -> Seq<u8> {
    encode_utf8(s)
}

/// Whether `n` ends with `p`.
pub open spec fn ends_with(n: Seq<u8>, p: Seq<u8>) -> bool {
    p.len() <= n.len() && n.subrange(n.len() - p.len(), n.len() as int) == p
}

/// Whether `n` starts with `p`.
pub open spec fn starts_with(n: Seq<u8>, p: Seq<u8>) -> bool {
    p.len() <= n.len() && n.subrange(0, p.len() as int) == p
}

/// Whether `p` occurs in `n`.
pub open spec fn contains(n: Seq<u8>, p: Seq<u8>) -> bool {
    exists|i: int| 0 <= i && i + p.len() <= n.len() && #[trigger] n.subrange(i, i + p.len()) == p
}

/// Whether `n` is one of `names`.
pub open spec fn one_of(n: Seq<u8>, names: Seq<&str>) -> bool {
    exists|k: int| 0 <= k < names.len() && n == lit(#[trigger] names[k])
}

/// Whether `a[from..from + b.len()]` is `b`.
fn same_at(a: &[u8], from: usize, b: &[u8]) -> (r: bool)
    requires
        from + b@.len() <= a@.len(),
    ensures
        r == (a@.subrange(from as int, from + b@.len()) == b@),
{
    let alen = a.len();
    let mut i: usize = 0;
    while i < b.len()
        invariant
            i <= b@.len(),
            alen == a@.len(),
            from + b@.len() <= a@.len(),
            forall|j: int| 0 <= j < i ==> a@[from + j] == b@[j],
        decreases b@.len() - i,
    {
        if a[from + i] != b[i] {
            assert(a@.subrange(from as int, from + b@.len())[i as int] != b@[i as int]);
            return false;
        }
        i += 1;
    }
    assert(a@.subrange(from as int, from + b@.len()) =~= b@);
    true
}

/// Whether `n` is the bytes of `s`.
pub fn name_is(n: &[u8], s: &str) -> (r: bool)
    ensures
        r == (n@ == lit(s)),
{
    let b = s.as_bytes();
    if n.len() != b.len() {
        return false;
    }
    let r = same_at(n, 0, b);
    assert(n@.subrange(0, b@.len() as int) =~= n@);
    r
}

/// Whether `n` ends with the bytes of `s`.
pub fn ends(n: &[u8], s: &str) -> (r: bool)
    ensures
        r == ends_with(n@, lit(s)),
{
    let b = s.as_bytes();
    if b.len() > n.len() {
        return false;
    }
    same_at(n, n.len() - b.len(), b)
}

/// Whether `n` starts with the bytes of `s`.
pub fn starts(n: &[u8], s: &str) -> (r: bool)
    ensures
        r == starts_with(n@, lit(s)),
{
    let b = s.as_bytes();
    if b.len() > n.len() {
        return false;
    }
    same_at(n, 0, b)
}

/// Whether the bytes of `s` occur in `n`.
pub fn has(n: &[u8], s: &str) -> (r: bool)
    ensures
        r == contains(n@, lit(s)),
{
    let b = s.as_bytes();
    if b.len() > n.len() {
        return false;
    }
    if b.len() == 0 {
        assert(n@.subrange(0int, 0int + b@.len()) =~= b@);
        return true;
    }
    let mut i: usize = 0;
    while i <= n.len() - b.len()
        invariant
            b@ == lit(s),
            b@.len() <= n@.len(),
            b@.len() >= 1,
            i <= n@.len() - b@.len() + 1,
            forall|j: int| 0 <= j < i ==> #[trigger] n@.subrange(j, j + b@.len()) != b@,
        decreases n@.len() - b@.len() + 1 - i,
    {
        if same_at(n, i, b) {
            return true;
        }
        i += 1;
    }
    assert forall|j: int| 0 <= j && j + b@.len() <= n@.len() implies #[trigger] n@.subrange(
        j,
        j + b@.len(),
    ) != b@ by {}
    false
}

/// Whether `n` is one of `names`.
pub fn matches_any(n: &[u8], names: &[&str]) -> (r: bool)
    ensures
        r == one_of(n@, names@),
{
    let mut k: usize = 0;
    while k < names.len()
        invariant
            k <= names@.len(),
            forall|j: int| 0 <= j < k ==> n@ != lit(names@[j]),
        decreases names@.len() - k,
    {
        if name_is(n, names[k]) {
            return true;
        }
        k += 1;
    }
    false
}


// ---------------------------------------------------------------------
// Block-state properties.
// ---------------------------------------------------------------------

/// The compound a property lookup reads, if any.
pub open spec fn props_of(p: Option<&NbtCompound>) -> Option<CompoundModel> {
    match p {
        Some(c) => Some(c@),
        None => None,
    }
}

/// The text of String property `key`, or empty.
pub open spec fn prop_text(props: Option<CompoundModel>, key: Seq<char>) -> Seq<char> {
    match props {
        Some(c) => match lookup(c.tags, key) {
            Some(NbtTag::Text(t)) => t,
            _ => ""@,
        },
        None => ""@,
    }
}

/// The UTF-8 bytes of String property `key`, or empty.
pub open spec fn prop(props: Option<CompoundModel>, key: Seq<char>) -> Seq<u8> {
    encode_utf8(prop_text(props, key))
}

/// What `str::to_lowercase` makes of a string.
pub uninterp spec fn lowercased(s: Seq<char>) -> Seq<char>;

/// Whether every character of `s` is ASCII.
pub open spec fn all_ascii(s: Seq<char>) -> bool {
    forall|i: int| 0 <= i < s.len() ==> (#[trigger] s[i] as u32) < 128
}

/// `s` with the ASCII capitals `A` to `Z` made lower case.
pub open spec fn ascii_lower(s: Seq<char>) -> Seq<char> {
    Seq::new(s.len(), |i: int| if 'A' <= s[i] <= 'Z' { ((s[i] as u32) + 32) as char } else { s[i] })
}

/// Calls `str::to_lowercase`. Claimed: the result is a function of the
/// string (std's case tables are fixed for a given build), and on an ASCII
/// string it lowers exactly the letters `A` to `Z` (the Unicode lower-case
/// mapping of the ASCII range).
#[verifier::external_body]
pub(crate) fn to_lowercase(s: &str) -> (r: String)
    ensures
        r@ == lowercased(s@),
        all_ascii(s@) ==> r@ == ascii_lower(s@),
{
    s.to_lowercase()
}

/// Whether property `key` reads "true" in any letter case.
pub open spec fn prop_true(props: Option<CompoundModel>, key: Seq<char>) -> bool {
    lowercased(prop_text(props, key)) == "true"@
}

/// Property `key` as a decimal `i32`, or `default`.
pub open spec fn prop_int(props: Option<CompoundModel>, key: Seq<char>, default: i32) -> i32 {
    match spec_parse_i32(prop(props, key)) {
        Some(v) => v,
        None => default,
    }
}

/// `v` clamped to `lo..=hi`.
pub open spec fn clamp(v: i32, lo: i32, hi: i32) -> i32 {
    if v < lo {
        lo
    } else if v > hi {
        hi
    } else {
        v
    }
}

fn clamp_i32(v: i32, lo: i32, hi: i32) -> (r: i32)
    ensures
        r == clamp(v, lo, hi),
{
    if v < lo {
        lo
    } else if v > hi {
        hi
    } else {
        v
    }
}

/// The text of String property `key`, or "".
fn get_property_str<'a>(properties: Option<&'a NbtCompound>, key: &str) -> (r: &'a str)
    ensures
        r@ == prop_text(props_of(properties), key@),
{
    match properties {
        Some(p) => match p.string(key) {
            Some(s) => s,
            None => "",
        },
        None => "",
    }
}

/// The bytes of String property `key`, or empty.
fn get_property<'a>(properties: Option<&'a NbtCompound>, key: &str) -> (r: &'a [u8])
    ensures
        r@ == prop(props_of(properties), key@),
{
    get_property_str(properties, key).as_bytes()
}

/// Whether property `key` reads "true" in any letter case.
fn get_bool_property(properties: Option<&NbtCompound>, key: &str) -> (r: bool)
    ensures
        r == prop_true(props_of(properties), key@),
        all_ascii(prop_text(props_of(properties), key@)) ==> (r <==> ascii_lower(
            prop_text(props_of(properties), key@),
        ) == "true"@),
{
    let low = to_lowercase(get_property_str(properties, key));
    same_text(low.as_str(), "true")
}

/// Property `key` as a decimal `i32`, or `default`.
fn get_int_property(properties: Option<&NbtCompound>, key: &str, default: i32) -> (r: i32)
    ensures
        r == prop_int(props_of(properties), key@, default),
{
    match parse_i32(get_property(properties, key)) {
        Some(v) => v,
        None => default,
    }
}

// ---------------------------------------------------------------------
// Facings.
// ---------------------------------------------------------------------

/// The data value a facing name gets, one per horizontal direction.
pub open spec fn dir_code(f: Seq<u8>, east: u8, west: u8, south: u8, north: u8, other: u8) -> u8 {
    if f == lit("east") {
        east
    } else if f == lit("west") {
        west
    } else if f == lit("south") {
        south
    } else if f == lit("north") {
        north
    } else {
        other
    }
}

fn dir_value(f: &[u8], east: u8, west: u8, south: u8, north: u8, other: u8) -> (r: u8)
    ensures
        r == dir_code(f@, east, west, south, north, other),
{
    if name_is(f, "east") {
        east
    } else if name_is(f, "west") {
        west
    } else if name_is(f, "south") {
        south
    } else if name_is(f, "north") {
        north
    } else {
        other
    }
}

/// The data value of a six-way facing (dispensers, pistons).
pub open spec fn facing_code(f: Seq<u8>) -> u8 {
    if f == lit("down") {
        0
    } else if f == lit("up") {
        1
    } else {
        dir_code(f, 5, 4, 3, 2, 3)
    }
}

fn map_facing_data(f: &[u8]) -> (r: u8)
    ensures
        r == facing_code(f@),
{
    if name_is(f, "down") {
        0
    } else if name_is(f, "up") {
        1
    } else {
        dir_value(f, 5, 4, 3, 2, 3)
    }
}

/// The data value of a lever: floor and ceiling levers by axis, wall
/// levers as buttons.
pub open spec fn lever_code(face: Seq<u8>, facing: Seq<u8>) -> u8 {
    let ew = facing == lit("east") || facing == lit("west");
    if face == lit("floor") {
        if ew { 6 } else { 5 }
    } else if face == lit("ceiling") {
        if ew { 7 } else { 0 }
    } else {
        dir_code(facing, 1, 2, 3, 4, 1)
    }
}

fn map_lever_data(face: &[u8], facing: &[u8]) -> (r: u8)
    ensures
        r == lever_code(face@, facing@),
{
    let ew = name_is(facing, "east") || name_is(facing, "west");
    if name_is(face, "floor") {
        if ew { 6 } else { 5 }
    } else if name_is(face, "ceiling") {
        if ew { 7 } else { 0 }
    } else {
        dir_value(facing, 1, 2, 3, 4, 1)
    }
}

/// The vine faces as data bits: south 1, west 2, north 4, east 8.
pub open spec fn vine_code(props: Option<CompoundModel>) -> u8 {
    (if prop_true(props, "south"@) { 1u8 } else { 0u8 }) | (if prop_true(props, "west"@) {
        2u8
    } else {
        0u8
    }) | (if prop_true(props, "north"@) { 4u8 } else { 0u8 }) | (if prop_true(props, "east"@) {
        8u8
    } else {
        0u8
    })
}

fn map_vine_faces(properties: Option<&NbtCompound>) -> (r: u8)
    ensures
        r == vine_code(props_of(properties)),
{
    let a: u8 = if get_bool_property(properties, "south") { 1 } else { 0 };
    let b: u8 = if get_bool_property(properties, "west") { 2 } else { 0 };
    let c: u8 = if get_bool_property(properties, "north") { 4 } else { 0 };
    let d: u8 = if get_bool_property(properties, "east") { 8 } else { 0 };
    a | b | c | d
}

/// Whether a name belongs to a wood family.
pub open spec fn wood_family(n: Seq<u8>) -> bool {
    contains(n, lit("oak")) || contains(n, lit("spruce")) || contains(n, lit("birch")) || contains(
        n,
        lit("jungle"),
    ) || contains(n, lit("acacia")) || contains(n, lit("dark_oak")) || contains(n, lit("mangrove"))
        || contains(n, lit("cherry")) || contains(n, lit("bamboo")) || contains(n, lit("crimson"))
        || contains(n, lit("warped"))
}

/// Whether a name belongs to a wood family.
pub fn is_wood_family(name: &str) -> (r: bool)
    ensures
        r == wood_family(lit(name)),
{
    wood_family_bytes(name.as_bytes())
}

fn wood_family_bytes(n: &[u8]) -> (r: bool)
    ensures
        r == wood_family(n@),
{
    has(n, "oak") || has(n, "spruce") || has(n, "birch") || has(n, "jungle") || has(n, "acacia")
        || has(n, "dark_oak") || has(n, "mangrove") || has(n, "cherry") || has(n, "bamboo") || has(
        n,
        "crimson",
    ) || has(n, "warped")
}


// ---------------------------------------------------------------------
// Fluids, slabs and stairs.
// ---------------------------------------------------------------------

/// Water and lava: the source block (level 0) or flowing block, with the
/// level (clamped to 0..=15) as data.
pub open spec fn fluid_state(n: Seq<u8>, props: Option<CompoundModel>) -> Option<LegacyBlockState> {
    if n != lit("water") && n != lit("lava") {
        None
    } else {
        let level = clamp(prop_int(props, "level"@, 0), 0, 15);
        let source = level == 0;
        if n == lit("water") {
            Some(st(if source { 9 } else { 8 }, level as u8))
        } else {
            Some(st(if source { 11 } else { 10 }, level as u8))
        }
    }
}

fn try_map_fluid(n: &[u8], properties: Option<&NbtCompound>) -> (r: Option<LegacyBlockState>)
    ensures
        r == fluid_state(n@, props_of(properties)),
{
    let water = name_is(n, "water");
    if !water && !name_is(n, "lava") {
        return None;
    }
    let level = clamp_i32(get_int_property(properties, "level", 0), 0, 15);
    let source = level == 0;
    let data = level as u8;
    if water {
        Some(LegacyBlockState { id: if source { 9 } else { 8 }, data })
    } else {
        Some(LegacyBlockState { id: if source { 11 } else { 10 }, data })
    }
}

/// The wooden slab variant of a name.
pub open spec fn wood_slab_variant(n: Seq<u8>) -> Option<u8> {
    if n == lit("oak_slab") {
        Some(0)
    } else if n == lit("spruce_slab") {
        Some(1)
    } else if n == lit("birch_slab") {
        Some(2)
    } else if n == lit("jungle_slab") {
        Some(3)
    } else if n == lit("acacia_slab") {
        Some(4)
    } else if n == lit("dark_oak_slab") {
        Some(5)
    } else {
        None
    }
}

fn get_wood_slab_variant(n: &[u8]) -> (r: Option<u8>)
    ensures
        r == wood_slab_variant(n@),
{
    if name_is(n, "oak_slab") {
        Some(0)
    } else if name_is(n, "spruce_slab") {
        Some(1)
    } else if name_is(n, "birch_slab") {
        Some(2)
    } else if name_is(n, "jungle_slab") {
        Some(3)
    } else if name_is(n, "acacia_slab") {
        Some(4)
    } else if name_is(n, "dark_oak_slab") {
        Some(5)
    } else {
        None
    }
}

/// The stone slab variant of a name.
pub open spec fn stone_slab_variant(n: Seq<u8>) -> Option<u8> {
    if one_of(
        n,
        seq![
            "stone_slab",
            "smooth_stone_slab",
            "andesite_slab",
            "polished_andesite_slab",
            "diorite_slab",
            "polished_diorite_slab",
            "granite_slab",
            "polished_granite_slab",
        ],
    ) {
        Some(0)
    } else if one_of(
        n,
        seq![
            "sandstone_slab",
            "smooth_sandstone_slab",
            "cut_sandstone_slab",
            "red_sandstone_slab",
            "smooth_red_sandstone_slab",
            "cut_red_sandstone_slab",
        ],
    ) {
        Some(1)
    } else if one_of(
        n,
        seq![
            "cobblestone_slab",
            "mossy_cobblestone_slab",
            "cobbled_deepslate_slab",
            "deepslate_brick_slab",
            "deepslate_tile_slab",
        ],
    ) {
        Some(3)
    } else if n == lit("brick_slab") {
        Some(4)
    } else if one_of(n, seq!["stone_brick_slab", "mossy_stone_brick_slab"]) {
        Some(5)
    } else if one_of(n, seq!["nether_brick_slab", "red_nether_brick_slab"]) {
        Some(6)
    } else if one_of(
        n,
        seq![
            "quartz_slab",
            "smooth_quartz_slab",
            "purpur_slab",
            "prismarine_slab",
            "prismarine_brick_slab",
            "dark_prismarine_slab",
        ],
    ) {
        Some(7)
    } else {
        None
    }
}

fn get_stone_slab_variant(n: &[u8]) -> (r: Option<u8>)
    ensures
        r == stone_slab_variant(n@),
{
    if matches_any(
        n,
        &[
            "stone_slab",
            "smooth_stone_slab",
            "andesite_slab",
            "polished_andesite_slab",
            "diorite_slab",
            "polished_diorite_slab",
            "granite_slab",
            "polished_granite_slab",
        ],
    ) {
        Some(0)
    } else if matches_any(
        n,
        &[
            "sandstone_slab",
            "smooth_sandstone_slab",
            "cut_sandstone_slab",
            "red_sandstone_slab",
            "smooth_red_sandstone_slab",
            "cut_red_sandstone_slab",
        ],
    ) {
        Some(1)
    } else if matches_any(
        n,
        &[
            "cobblestone_slab",
            "mossy_cobblestone_slab",
            "cobbled_deepslate_slab",
            "deepslate_brick_slab",
            "deepslate_tile_slab",
        ],
    ) {
        Some(3)
    } else if name_is(n, "brick_slab") {
        Some(4)
    } else if matches_any(n, &["stone_brick_slab", "mossy_stone_brick_slab"]) {
        Some(5)
    } else if matches_any(n, &["nether_brick_slab", "red_nether_brick_slab"]) {
        Some(6)
    } else if matches_any(
        n,
        &[
            "quartz_slab",
            "smooth_quartz_slab",
            "purpur_slab",
            "prismarine_slab",
            "prismarine_brick_slab",
            "dark_prismarine_slab",
        ],
    ) {
        Some(7)
    } else {
        None
    }
}

/// Slabs: wooden slabs (ids 125/126), stone slabs by variant (43/44), any
/// other slab as a plain stone slab; the top half sets bit 8, a double slab
/// uses the double-slab id.
pub open spec fn slab_state(n: Seq<u8>, props: Option<CompoundModel>) -> Option<LegacyBlockState> {
    if !ends_with(n, lit("_slab")) {
        None
    } else {
        let t = prop(props, "type"@);
        let top = t == lit("top");
        let double = t == lit("double");
        let half: u8 = if top { 8 } else { 0 };
        match wood_slab_variant(n) {
            Some(v) => Some(if double { st(125, v) } else { st(126, v | half) }),
            None => match stone_slab_variant(n) {
                Some(v) => Some(if double { st(43, v) } else { st(44, v | half) }),
                None => Some(if double { st(43, 0) } else { st(44, half) }),
            },
        }
    }
}

fn try_map_slab(n: &[u8], properties: Option<&NbtCompound>) -> (r: Option<LegacyBlockState>)
    ensures
        r == slab_state(n@, props_of(properties)),
{
    if !ends(n, "_slab") {
        return None;
    }
    let t = get_property(properties, "type");
    let top = name_is(t, "top");
    let double = name_is(t, "double");
    let half: u8 = if top { 8 } else { 0 };
    if let Some(v) = get_wood_slab_variant(n) {
        return Some(if double { LegacyBlockState { id: 125, data: v } } else { LegacyBlockState { id: 126, data: v | half } });
    }
    if let Some(v) = get_stone_slab_variant(n) {
        return Some(if double { LegacyBlockState { id: 43, data: v } } else { LegacyBlockState { id: 44, data: v | half } });
    }
    Some(if double { LegacyBlockState { id: 43, data: 0 } } else { LegacyBlockState { id: 44, data: half } })
}

/// The legacy stairs id of a name.
pub open spec fn stairs_id(n: Seq<u8>) -> Option<u8> {
    if one_of(
        n,
        seq![
            "oak_stairs",
            "spruce_stairs",
            "birch_stairs",
            "jungle_stairs",
            "acacia_stairs",
            "dark_oak_stairs",
        ],
    ) {
        Some(53)
    } else if one_of(
        n,
        seq![
            "cobblestone_stairs",
            "stone_stairs",
            "mossy_cobblestone_stairs",
            "cobbled_deepslate_stairs",
            "blackstone_stairs",
        ],
    ) {
        Some(67)
    } else if n == lit("brick_stairs") {
        Some(108)
    } else if one_of(
        n,
        seq![
            "stone_brick_stairs",
            "dark_prismarine_stairs",
            "prismarine_stairs",
            "prismarine_brick_stairs",
            "polished_blackstone_brick_stairs",
            "mossy_stone_brick_stairs",
            "deepslate_brick_stairs",
            "deepslate_tile_stairs",
        ],
    ) {
        Some(109)
    } else if one_of(n, seq!["nether_brick_stairs", "crimson_stairs", "warped_stairs"]) {
        Some(114)
    } else if one_of(n, seq!["sandstone_stairs", "red_sandstone_stairs"]) {
        Some(128)
    } else if one_of(n, seq!["quartz_stairs", "purpur_stairs"]) {
        Some(156)
    } else {
        None
    }
}

fn try_get_stairs_id(n: &[u8]) -> (r: Option<u8>)
    ensures
        r == stairs_id(n@),
{
    if matches_any(
        n,
        &[
            "oak_stairs",
            "spruce_stairs",
            "birch_stairs",
            "jungle_stairs",
            "acacia_stairs",
            "dark_oak_stairs",
        ],
    ) {
        Some(53)
    } else if matches_any(
        n,
        &[
            "cobblestone_stairs",
            "stone_stairs",
            "mossy_cobblestone_stairs",
            "cobbled_deepslate_stairs",
            "blackstone_stairs",
        ],
    ) {
        Some(67)
    } else if name_is(n, "brick_stairs") {
        Some(108)
    } else if matches_any(
        n,
        &[
            "stone_brick_stairs",
            "dark_prismarine_stairs",
            "prismarine_stairs",
            "prismarine_brick_stairs",
            "polished_blackstone_brick_stairs",
            "mossy_stone_brick_stairs",
            "deepslate_brick_stairs",
            "deepslate_tile_stairs",
        ],
    ) {
        Some(109)
    } else if matches_any(n, &["nether_brick_stairs", "crimson_stairs", "warped_stairs"]) {
        Some(114)
    } else if matches_any(n, &["sandstone_stairs", "red_sandstone_stairs"]) {
        Some(128)
    } else if matches_any(n, &["quartz_stairs", "purpur_stairs"]) {
        Some(156)
    } else {
        None
    }
}

// ---------------------------------------------------------------------
// Names with a fixed legacy block.
// ---------------------------------------------------------------------

/// Part 1 of the table of modern names with a fixed legacy block.
pub open spec fn direct_state_0(n: Seq<u8>) -> Option<LegacyBlockState> {
    if n == lit("air") {
        Some(st(0, 0))
    } else if n == lit("cave_air") {
        Some(st(0, 0))
    } else if n == lit("void_air") {
        Some(st(0, 0))
    } else if n == lit("stone") {
        Some(st(1, 0))
    } else if n == lit("grass") {
        Some(st(31, 1))
    } else if n == lit("short_grass") {
        Some(st(31, 1))
    } else if n == lit("short_dry_grass") {
        Some(st(31, 1))
    } else if n == lit("dirt") {
        Some(st(3, 0))
    } else if n == lit("cobblestone") {
        Some(st(4, 0))
    } else if n == lit("bedrock") {
        Some(st(7, 0))
    } else if n == lit("water") {
        Some(st(8, 0))
    } else if n == lit("lava") {
        Some(st(10, 0))
    } else if n == lit("sand") {
        Some(st(12, 0))
    } else if n == lit("gravel") {
        Some(st(13, 0))
    } else if n == lit("gold_ore") {
        Some(st(14, 0))
    } else if n == lit("iron_ore") {
        Some(st(15, 0))
    } else if n == lit("coal_ore") {
        Some(st(16, 0))
    } else if n == lit("oak_log") {
        Some(st(17, 0))
    } else if n == lit("oak_leaves") {
        Some(st(18, 0))
    } else if n == lit("glass") {
        Some(st(20, 0))
    } else if n == lit("lapis_ore") {
        Some(st(21, 0))
    } else if n == lit("lapis_block") {
        Some(st(22, 0))
    } else if n == lit("dispenser") {
        Some(st(23, 0))
    } else if n == lit("sandstone") {
        Some(st(24, 0))
    } else if n == lit("note_block") {
        Some(st(25, 0))
    } else if n == lit("powered_rail") {
        Some(st(27, 0))
    } else if n == lit("detector_rail") {
        Some(st(28, 0))
    } else if n == lit("sticky_piston") {
        Some(st(29, 0))
    } else if n == lit("cobweb") {
        Some(st(30, 0))
    } else if n == lit("dead_bush") {
        Some(st(32, 0))
    } else if n == lit("piston") {
        Some(st(33, 0))
    } else if n == lit("wool") {
        Some(st(35, 0))
    } else if n == lit("dandelion") {
        Some(st(37, 0))
    } else if n == lit("poppy") {
        Some(st(38, 0))
    } else if n == lit("brown_mushroom") {
        Some(st(39, 0))
    } else if n == lit("red_mushroom") {
        Some(st(40, 0))
    } else if n == lit("gold_block") {
        Some(st(41, 0))
    } else if n == lit("iron_block") {
        Some(st(42, 0))
    } else if n == lit("stone_slab") {
        Some(st(44, 0))
    } else if n == lit("bricks") {
        Some(st(45, 0))
    } else if n == lit("tnt") {
        Some(st(46, 0))
    } else if n == lit("bookshelf") {
        Some(st(47, 0))
    } else if n == lit("mossy_cobblestone") {
        Some(st(48, 0))
    } else if n == lit("obsidian") {
        Some(st(49, 0))
    } else if n == lit("torch") {
        Some(st(50, 0))
    } else {
        direct_state_1(n)
    }
}

/// Part 2 of the table of modern names with a fixed legacy block.
pub open spec fn direct_state_1(n: Seq<u8>) -> Option<LegacyBlockState> {
    if n == lit("fire") {
        Some(st(51, 0))
    } else if n == lit("mob_spawner") {
        Some(st(52, 0))
    } else if n == lit("oak_stairs") {
        Some(st(53, 0))
    } else if n == lit("chest") {
        Some(st(54, 0))
    } else if n == lit("diamond_ore") {
        Some(st(56, 0))
    } else if n == lit("diamond_block") {
        Some(st(57, 0))
    } else if n == lit("crafting_table") {
        Some(st(58, 0))
    } else if n == lit("farmland") {
        Some(st(60, 0))
    } else if n == lit("furnace") {
        Some(st(61, 0))
    } else if n == lit("ladder") {
        Some(st(65, 0))
    } else if n == lit("rail") {
        Some(st(66, 0))
    } else if n == lit("lever") {
        Some(st(69, 0))
    } else if n == lit("stone_pressure_plate") {
        Some(st(70, 0))
    } else if n == lit("oak_pressure_plate") {
        Some(st(72, 0))
    } else if n == lit("redstone_ore") {
        Some(st(73, 0))
    } else if n == lit("redstone_torch") {
        Some(st(76, 0))
    } else if n == lit("stone_button") {
        Some(st(77, 0))
    } else if n == lit("snow") {
        Some(st(78, 0))
    } else if n == lit("ice") {
        Some(st(79, 0))
    } else if n == lit("snow_block") {
        Some(st(80, 0))
    } else if n == lit("cactus") {
        Some(st(81, 0))
    } else if n == lit("clay") {
        Some(st(82, 0))
    } else if n == lit("jukebox") {
        Some(st(84, 0))
    } else if n == lit("oak_fence") {
        Some(st(85, 0))
    } else if n == lit("netherrack") {
        Some(st(87, 0))
    } else if n == lit("soul_sand") {
        Some(st(88, 0))
    } else if n == lit("glowstone") {
        Some(st(89, 0))
    } else if n == lit("jack_o_lantern") {
        Some(st(91, 0))
    } else if n == lit("stone_bricks") {
        Some(st(98, 0))
    } else if n == lit("brown_mushroom_block") {
        Some(st(99, 0))
    } else if n == lit("red_mushroom_block") {
        Some(st(100, 0))
    } else if n == lit("iron_bars") {
        Some(st(101, 0))
    } else if n == lit("glass_pane") {
        Some(st(102, 0))
    } else if n == lit("melon") {
        Some(st(103, 0))
    } else if n == lit("vine") {
        Some(st(106, 0))
    } else if n == lit("oak_fence_gate") {
        Some(st(107, 0))
    } else if n == lit("brick_stairs") {
        Some(st(108, 0))
    } else if n == lit("stone_brick_stairs") {
        Some(st(109, 0))
    } else if n == lit("mycelium") {
        Some(st(110, 0))
    } else if n == lit("lily_pad") {
        Some(st(111, 0))
    } else if n == lit("nether_bricks") {
        Some(st(112, 0))
    } else if n == lit("nether_brick_fence") {
        Some(st(113, 0))
    } else if n == lit("nether_brick_stairs") {
        Some(st(114, 0))
    } else if n == lit("enchanting_table") {
        Some(st(116, 0))
    } else if n == lit("end_stone") {
        Some(st(121, 0))
    } else {
        direct_state_2(n)
    }
}

/// Part 3 of the table of modern names with a fixed legacy block.
pub open spec fn direct_state_2(n: Seq<u8>) -> Option<LegacyBlockState> {
    if n == lit("sandstone_stairs") {
        Some(st(128, 0))
    } else if n == lit("emerald_ore") {
        Some(st(129, 0))
    } else if n == lit("ender_chest") {
        Some(st(130, 0))
    } else if n == lit("tripwire_hook") {
        Some(st(131, 0))
    } else if n == lit("emerald_block") {
        Some(st(133, 0))
    } else if n == lit("spruce_stairs") {
        Some(st(134, 0))
    } else if n == lit("birch_stairs") {
        Some(st(135, 0))
    } else if n == lit("jungle_stairs") {
        Some(st(136, 0))
    } else if n == lit("command_block") {
        Some(st(1, 0))
    } else if n == lit("beacon") {
        Some(st(138, 0))
    } else if n == lit("cobblestone_wall") {
        Some(st(139, 0))
    } else if n == lit("flower_pot") {
        Some(st(140, 0))
    } else if n == lit("carrots") {
        Some(st(141, 0))
    } else if n == lit("potatoes") {
        Some(st(142, 0))
    } else if n == lit("oak_button") {
        Some(st(143, 0))
    } else if n == lit("anvil") {
        Some(st(145, 0))
    } else if n == lit("trapped_chest") {
        Some(st(146, 0))
    } else if n == lit("light_weighted_pressure_plate") {
        Some(st(147, 0))
    } else if n == lit("heavy_weighted_pressure_plate") {
        Some(st(148, 0))
    } else if n == lit("daylight_detector") {
        Some(st(151, 0))
    } else if n == lit("redstone_block") {
        Some(st(152, 0))
    } else if n == lit("quartz_ore") {
        Some(st(153, 0))
    } else if n == lit("hopper") {
        Some(st(154, 0))
    } else if n == lit("quartz_block") {
        Some(st(155, 0))
    } else if n == lit("quartz_stairs") {
        Some(st(156, 0))
    } else if n == lit("activator_rail") {
        Some(st(157, 0))
    } else if n == lit("dropper") {
        Some(st(158, 0))
    } else if n == lit("stained_hardened_clay") {
        Some(st(159, 0))
    } else if n == lit("stained_glass") {
        Some(st(95, 0))
    } else if n == lit("stained_glass_pane") {
        Some(st(160, 0))
    } else if n == lit("leaves2") {
        Some(st(161, 0))
    } else if n == lit("log2") {
        Some(st(162, 0))
    } else if n == lit("acacia_stairs") {
        Some(st(163, 0))
    } else if n == lit("dark_oak_stairs") {
        Some(st(164, 0))
    } else if n == lit("fern") {
        Some(st(31, 2))
    } else if n == lit("sugar_cane") {
        Some(st(83, 0))
    } else if n == lit("pumpkin") {
        Some(st(86, 0))
    } else if n == lit("carved_pumpkin") {
        Some(st(86, 0))
    } else if n == lit("nether_quartz_ore") {
        Some(st(153, 0))
    } else if n == lit("dragon_egg") {
        Some(st(122, 0))
    } else if n == lit("spawner") {
        Some(st(52, 0))
    } else if n == lit("tripwire") {
        Some(st(132, 0))
    } else if n == lit("sponge") {
        Some(st(19, 0))
    } else if n == lit("wet_sponge") {
        Some(st(19, 0))
    } else if n == lit("cauldron") {
        Some(st(118, 0))
    } else {
        direct_state_3(n)
    }
}

/// Part 4 of the table of modern names with a fixed legacy block.
pub open spec fn direct_state_3(n: Seq<u8>) -> Option<LegacyBlockState> {
    if n == lit("water_cauldron") {
        Some(st(118, 3))
    } else if n == lit("coal_block") {
        Some(st(173, 0))
    } else if n == lit("mushroom_stem") {
        Some(st(99, 10))
    } else if n == lit("smooth_stone") {
        Some(st(1, 0))
    } else if n == lit("infested_stone") {
        Some(st(1, 0))
    } else if n == lit("infested_stone_bricks") {
        Some(st(98, 0))
    } else if n == lit("infested_deepslate") {
        Some(st(1, 0))
    } else if n == lit("polished_blackstone_bricks") {
        Some(st(98, 0))
    } else if n == lit("cracked_polished_blackstone_bricks") {
        Some(st(98, 2))
    } else if n == lit("blackstone") {
        Some(st(4, 0))
    } else if n == lit("quartz_bricks") {
        Some(st(155, 0))
    } else if n == lit("chiseled_quartz_block") {
        Some(st(155, 1))
    } else if n == lit("chiseled_nether_bricks") {
        Some(st(112, 0))
    } else if n == lit("smooth_basalt") {
        Some(st(1, 0))
    } else if n == lit("pointed_dripstone") {
        Some(st(1, 0))
    } else if n == lit("lodestone") {
        Some(st(1, 0))
    } else if n == lit("structure_block") {
        Some(st(1, 0))
    } else if n == lit("stonecutter") {
        Some(st(4, 0))
    } else if n == lit("rooted_dirt") {
        Some(st(3, 0))
    } else if n == lit("moss_block") {
        Some(st(48, 0))
    } else if n == lit("dried_kelp_block") {
        Some(st(170, 0))
    } else if n == lit("crimson_stem") {
        Some(st(17, 0))
    } else if n == lit("warped_stem") {
        Some(st(17, 0))
    } else if n == lit("stripped_crimson_stem") {
        Some(st(17, 0))
    } else if n == lit("stripped_warped_stem") {
        Some(st(17, 0))
    } else if n == lit("azalea") {
        Some(st(18, 0))
    } else if n == lit("flowering_azalea") {
        Some(st(18, 0))
    } else if n == lit("big_dripleaf") {
        Some(st(111, 0))
    } else if n == lit("big_dripleaf_stem") {
        Some(st(17, 0))
    } else if n == lit("small_dripleaf") {
        Some(st(0, 0))
    } else if n == lit("hanging_roots") {
        Some(st(0, 0))
    } else if n == lit("spore_blossom") {
        Some(st(38, 0))
    } else if n == lit("twisting_vines") {
        Some(st(106, 0))
    } else if n == lit("twisting_vines_plant") {
        Some(st(106, 0))
    } else if n == lit("cave_vines") {
        Some(st(0, 0))
    } else if n == lit("cave_vines_plant") {
        Some(st(0, 0))
    } else if n == lit("glow_lichen") {
        Some(st(0, 0))
    } else if n == lit("cornflower") {
        Some(st(38, 0))
    } else if n == lit("lily_of_the_valley") {
        Some(st(38, 0))
    } else if n == lit("oxeye_daisy") {
        Some(st(38, 0))
    } else if n == lit("pink_tulip") {
        Some(st(38, 0))
    } else if n == lit("brain_coral") {
        Some(st(38, 0))
    } else if n == lit("bubble_coral") {
        Some(st(38, 0))
    } else if n == lit("fire_coral") {
        Some(st(38, 0))
    } else if n == lit("horn_coral") {
        Some(st(38, 0))
    } else {
        direct_state_4(n)
    }
}

/// Part 5 of the table of modern names with a fixed legacy block.
pub open spec fn direct_state_4(n: Seq<u8>) -> Option<LegacyBlockState> {
    if n == lit("tube_coral") {
        Some(st(38, 0))
    } else if n == lit("horn_coral_fan") {
        Some(st(38, 0))
    } else if n == lit("tube_coral_fan") {
        Some(st(38, 0))
    } else if n == lit("smoker") {
        Some(st(61, 0))
    } else if n == lit("grindstone") {
        Some(st(145, 0))
    } else if n == lit("bell") {
        Some(st(145, 0))
    } else if n == lit("loom") {
        Some(st(58, 0))
    } else if n == lit("smithing_table") {
        Some(st(58, 0))
    } else if n == lit("target") {
        Some(st(70, 0))
    } else if n == lit("chain") {
        Some(st(101, 0))
    } else if n == lit("lightning_rod") {
        Some(st(101, 0))
    } else if n == lit("lantern") {
        Some(st(50, 0))
    } else if n == lit("shroomlight") {
        Some(st(89, 0))
    } else if n == lit("soul_campfire") {
        Some(st(51, 0))
    } else if n == lit("bee_nest") {
        Some(st(54, 0))
    } else if n == lit("wither_skeleton_skull") {
        Some(st(144, 0))
    } else if n == lit("dragon_wall_head") {
        Some(st(144, 0))
    } else if n == lit("nether_portal") {
        Some(st(90, 0))
    } else if n == lit("white_candle") {
        Some(st(50, 0))
    } else if n == lit("orange_candle") {
        Some(st(50, 0))
    } else if n == lit("gray_candle") {
        Some(st(50, 0))
    } else if n == lit("cyan_candle") {
        Some(st(50, 0))
    } else if n == lit("lime_candle") {
        Some(st(50, 0))
    } else if n == lit("potted_blue_orchid") {
        Some(st(140, 0))
    } else if n == lit("potted_brown_mushroom") {
        Some(st(140, 0))
    } else if n == lit("potted_cactus") {
        Some(st(140, 0))
    } else if n == lit("potted_dandelion") {
        Some(st(140, 0))
    } else if n == lit("potted_oxeye_daisy") {
        Some(st(140, 0))
    } else if n == lit("potted_poppy") {
        Some(st(140, 0))
    } else if n == lit("potted_red_mushroom") {
        Some(st(140, 0))
    } else if n == lit("powder_snow") {
        Some(st(80, 0))
    } else if n == lit("copper_ore") {
        Some(st(15, 0))
    } else if n == lit("oxidized_copper") {
        Some(st(15, 0))
    } else if n == lit("weathered_copper") {
        Some(st(15, 0))
    } else if n == lit("raw_copper_block") {
        Some(st(42, 0))
    } else if n == lit("raw_iron_block") {
        Some(st(42, 0))
    } else if n == lit("small_amethyst_bud") {
        Some(st(20, 0))
    } else if n == lit("medium_amethyst_bud") {
        Some(st(20, 0))
    } else if n == lit("large_amethyst_bud") {
        Some(st(20, 0))
    } else if n == lit("slime_block") {
        Some(st(0, 0))
    } else if n == lit("light") {
        Some(st(0, 0))
    } else if n == lit("scaffolding") {
        Some(st(0, 0))
    } else if n == lit("powder_snow_cauldron") {
        Some(st(118, 0))
    } else if n == lit("lava_cauldron") {
        Some(st(118, 0))
    } else {
        None
    }
}

pub(crate) fn direct_part_0(n: &[u8]) -> (r: Option<LegacyBlockState>)
    ensures
        r == direct_state_0(n@),
{
    if name_is(n, "air") {
        return Some(LegacyBlockState { id: 0, data: 0 });
    }
    if name_is(n, "cave_air") {
        return Some(LegacyBlockState { id: 0, data: 0 });
    }
    if name_is(n, "void_air") {
        return Some(LegacyBlockState { id: 0, data: 0 });
    }
    if name_is(n, "stone") {
        return Some(LegacyBlockState { id: 1, data: 0 });
    }
    if name_is(n, "grass") {
        return Some(LegacyBlockState { id: 31, data: 1 });
    }
    if name_is(n, "short_grass") {
        return Some(LegacyBlockState { id: 31, data: 1 });
    }
    if name_is(n, "short_dry_grass") {
        return Some(LegacyBlockState { id: 31, data: 1 });
    }
    if name_is(n, "dirt") {
        return Some(LegacyBlockState { id: 3, data: 0 });
    }
    if name_is(n, "cobblestone") {
        return Some(LegacyBlockState { id: 4, data: 0 });
    }
    if name_is(n, "bedrock") {
        return Some(LegacyBlockState { id: 7, data: 0 });
    }
    if name_is(n, "water") {
        return Some(LegacyBlockState { id: 8, data: 0 });
    }
    if name_is(n, "lava") {
        return Some(LegacyBlockState { id: 10, data: 0 });
    }
    if name_is(n, "sand") {
        return Some(LegacyBlockState { id: 12, data: 0 });
    }
    if name_is(n, "gravel") {
        return Some(LegacyBlockState { id: 13, data: 0 });
    }
    if name_is(n, "gold_ore") {
        return Some(LegacyBlockState { id: 14, data: 0 });
    }
    if name_is(n, "iron_ore") {
        return Some(LegacyBlockState { id: 15, data: 0 });
    }
    if name_is(n, "coal_ore") {
        return Some(LegacyBlockState { id: 16, data: 0 });
    }
    if name_is(n, "oak_log") {
        return Some(LegacyBlockState { id: 17, data: 0 });
    }
    if name_is(n, "oak_leaves") {
        return Some(LegacyBlockState { id: 18, data: 0 });
    }
    if name_is(n, "glass") {
        return Some(LegacyBlockState { id: 20, data: 0 });
    }
    if name_is(n, "lapis_ore") {
        return Some(LegacyBlockState { id: 21, data: 0 });
    }
    if name_is(n, "lapis_block") {
        return Some(LegacyBlockState { id: 22, data: 0 });
    }
    if name_is(n, "dispenser") {
        return Some(LegacyBlockState { id: 23, data: 0 });
    }
    if name_is(n, "sandstone") {
        return Some(LegacyBlockState { id: 24, data: 0 });
    }
    if name_is(n, "note_block") {
        return Some(LegacyBlockState { id: 25, data: 0 });
    }
    if name_is(n, "powered_rail") {
        return Some(LegacyBlockState { id: 27, data: 0 });
    }
    if name_is(n, "detector_rail") {
        return Some(LegacyBlockState { id: 28, data: 0 });
    }
    if name_is(n, "sticky_piston") {
        return Some(LegacyBlockState { id: 29, data: 0 });
    }
    if name_is(n, "cobweb") {
        return Some(LegacyBlockState { id: 30, data: 0 });
    }
    if name_is(n, "dead_bush") {
        return Some(LegacyBlockState { id: 32, data: 0 });
    }
    if name_is(n, "piston") {
        return Some(LegacyBlockState { id: 33, data: 0 });
    }
    if name_is(n, "wool") {
        return Some(LegacyBlockState { id: 35, data: 0 });
    }
    if name_is(n, "dandelion") {
        return Some(LegacyBlockState { id: 37, data: 0 });
    }
    if name_is(n, "poppy") {
        return Some(LegacyBlockState { id: 38, data: 0 });
    }
    if name_is(n, "brown_mushroom") {
        return Some(LegacyBlockState { id: 39, data: 0 });
    }
    if name_is(n, "red_mushroom") {
        return Some(LegacyBlockState { id: 40, data: 0 });
    }
    if name_is(n, "gold_block") {
        return Some(LegacyBlockState { id: 41, data: 0 });
    }
    if name_is(n, "iron_block") {
        return Some(LegacyBlockState { id: 42, data: 0 });
    }
    if name_is(n, "stone_slab") {
        return Some(LegacyBlockState { id: 44, data: 0 });
    }
    if name_is(n, "bricks") {
        return Some(LegacyBlockState { id: 45, data: 0 });
    }
    if name_is(n, "tnt") {
        return Some(LegacyBlockState { id: 46, data: 0 });
    }
    if name_is(n, "bookshelf") {
        return Some(LegacyBlockState { id: 47, data: 0 });
    }
    if name_is(n, "mossy_cobblestone") {
        return Some(LegacyBlockState { id: 48, data: 0 });
    }
    if name_is(n, "obsidian") {
        return Some(LegacyBlockState { id: 49, data: 0 });
    }
    if name_is(n, "torch") {
        return Some(LegacyBlockState { id: 50, data: 0 });
    }
    direct_part_1(n)
}

pub(crate) fn direct_part_1(n: &[u8]) -> (r: Option<LegacyBlockState>)
    ensures
        r == direct_state_1(n@),
{
    if name_is(n, "fire") {
        return Some(LegacyBlockState { id: 51, data: 0 });
    }
    if name_is(n, "mob_spawner") {
        return Some(LegacyBlockState { id: 52, data: 0 });
    }
    if name_is(n, "oak_stairs") {
        return Some(LegacyBlockState { id: 53, data: 0 });
    }
    if name_is(n, "chest") {
        return Some(LegacyBlockState { id: 54, data: 0 });
    }
    if name_is(n, "diamond_ore") {
        return Some(LegacyBlockState { id: 56, data: 0 });
    }
    if name_is(n, "diamond_block") {
        return Some(LegacyBlockState { id: 57, data: 0 });
    }
    if name_is(n, "crafting_table") {
        return Some(LegacyBlockState { id: 58, data: 0 });
    }
    if name_is(n, "farmland") {
        return Some(LegacyBlockState { id: 60, data: 0 });
    }
    if name_is(n, "furnace") {
        return Some(LegacyBlockState { id: 61, data: 0 });
    }
    if name_is(n, "ladder") {
        return Some(LegacyBlockState { id: 65, data: 0 });
    }
    if name_is(n, "rail") {
        return Some(LegacyBlockState { id: 66, data: 0 });
    }
    if name_is(n, "lever") {
        return Some(LegacyBlockState { id: 69, data: 0 });
    }
    if name_is(n, "stone_pressure_plate") {
        return Some(LegacyBlockState { id: 70, data: 0 });
    }
    if name_is(n, "oak_pressure_plate") {
        return Some(LegacyBlockState { id: 72, data: 0 });
    }
    if name_is(n, "redstone_ore") {
        return Some(LegacyBlockState { id: 73, data: 0 });
    }
    if name_is(n, "redstone_torch") {
        return Some(LegacyBlockState { id: 76, data: 0 });
    }
    if name_is(n, "stone_button") {
        return Some(LegacyBlockState { id: 77, data: 0 });
    }
    if name_is(n, "snow") {
        return Some(LegacyBlockState { id: 78, data: 0 });
    }
    if name_is(n, "ice") {
        return Some(LegacyBlockState { id: 79, data: 0 });
    }
    if name_is(n, "snow_block") {
        return Some(LegacyBlockState { id: 80, data: 0 });
    }
    if name_is(n, "cactus") {
        return Some(LegacyBlockState { id: 81, data: 0 });
    }
    if name_is(n, "clay") {
        return Some(LegacyBlockState { id: 82, data: 0 });
    }
    if name_is(n, "jukebox") {
        return Some(LegacyBlockState { id: 84, data: 0 });
    }
    if name_is(n, "oak_fence") {
        return Some(LegacyBlockState { id: 85, data: 0 });
    }
    if name_is(n, "netherrack") {
        return Some(LegacyBlockState { id: 87, data: 0 });
    }
    if name_is(n, "soul_sand") {
        return Some(LegacyBlockState { id: 88, data: 0 });
    }
    if name_is(n, "glowstone") {
        return Some(LegacyBlockState { id: 89, data: 0 });
    }
    if name_is(n, "jack_o_lantern") {
        return Some(LegacyBlockState { id: 91, data: 0 });
    }
    if name_is(n, "stone_bricks") {
        return Some(LegacyBlockState { id: 98, data: 0 });
    }
    if name_is(n, "brown_mushroom_block") {
        return Some(LegacyBlockState { id: 99, data: 0 });
    }
    if name_is(n, "red_mushroom_block") {
        return Some(LegacyBlockState { id: 100, data: 0 });
    }
    if name_is(n, "iron_bars") {
        return Some(LegacyBlockState { id: 101, data: 0 });
    }
    if name_is(n, "glass_pane") {
        return Some(LegacyBlockState { id: 102, data: 0 });
    }
    if name_is(n, "melon") {
        return Some(LegacyBlockState { id: 103, data: 0 });
    }
    if name_is(n, "vine") {
        return Some(LegacyBlockState { id: 106, data: 0 });
    }
    if name_is(n, "oak_fence_gate") {
        return Some(LegacyBlockState { id: 107, data: 0 });
    }
    if name_is(n, "brick_stairs") {
        return Some(LegacyBlockState { id: 108, data: 0 });
    }
    if name_is(n, "stone_brick_stairs") {
        return Some(LegacyBlockState { id: 109, data: 0 });
    }
    if name_is(n, "mycelium") {
        return Some(LegacyBlockState { id: 110, data: 0 });
    }
    if name_is(n, "lily_pad") {
        return Some(LegacyBlockState { id: 111, data: 0 });
    }
    if name_is(n, "nether_bricks") {
        return Some(LegacyBlockState { id: 112, data: 0 });
    }
    if name_is(n, "nether_brick_fence") {
        return Some(LegacyBlockState { id: 113, data: 0 });
    }
    if name_is(n, "nether_brick_stairs") {
        return Some(LegacyBlockState { id: 114, data: 0 });
    }
    if name_is(n, "enchanting_table") {
        return Some(LegacyBlockState { id: 116, data: 0 });
    }
    if name_is(n, "end_stone") {
        return Some(LegacyBlockState { id: 121, data: 0 });
    }
    direct_part_2(n)
}

pub(crate) fn direct_part_2(n: &[u8]) -> (r: Option<LegacyBlockState>)
    ensures
        r == direct_state_2(n@),
{
    if name_is(n, "sandstone_stairs") {
        return Some(LegacyBlockState { id: 128, data: 0 });
    }
    if name_is(n, "emerald_ore") {
        return Some(LegacyBlockState { id: 129, data: 0 });
    }
    if name_is(n, "ender_chest") {
        return Some(LegacyBlockState { id: 130, data: 0 });
    }
    if name_is(n, "tripwire_hook") {
        return Some(LegacyBlockState { id: 131, data: 0 });
    }
    if name_is(n, "emerald_block") {
        return Some(LegacyBlockState { id: 133, data: 0 });
    }
    if name_is(n, "spruce_stairs") {
        return Some(LegacyBlockState { id: 134, data: 0 });
    }
    if name_is(n, "birch_stairs") {
        return Some(LegacyBlockState { id: 135, data: 0 });
    }
    if name_is(n, "jungle_stairs") {
        return Some(LegacyBlockState { id: 136, data: 0 });
    }
    if name_is(n, "command_block") {
        return Some(LegacyBlockState { id: 1, data: 0 });
    }
    if name_is(n, "beacon") {
        return Some(LegacyBlockState { id: 138, data: 0 });
    }
    if name_is(n, "cobblestone_wall") {
        return Some(LegacyBlockState { id: 139, data: 0 });
    }
    if name_is(n, "flower_pot") {
        return Some(LegacyBlockState { id: 140, data: 0 });
    }
    if name_is(n, "carrots") {
        return Some(LegacyBlockState { id: 141, data: 0 });
    }
    if name_is(n, "potatoes") {
        return Some(LegacyBlockState { id: 142, data: 0 });
    }
    if name_is(n, "oak_button") {
        return Some(LegacyBlockState { id: 143, data: 0 });
    }
    if name_is(n, "anvil") {
        return Some(LegacyBlockState { id: 145, data: 0 });
    }
    if name_is(n, "trapped_chest") {
        return Some(LegacyBlockState { id: 146, data: 0 });
    }
    if name_is(n, "light_weighted_pressure_plate") {
        return Some(LegacyBlockState { id: 147, data: 0 });
    }
    if name_is(n, "heavy_weighted_pressure_plate") {
        return Some(LegacyBlockState { id: 148, data: 0 });
    }
    if name_is(n, "daylight_detector") {
        return Some(LegacyBlockState { id: 151, data: 0 });
    }
    if name_is(n, "redstone_block") {
        return Some(LegacyBlockState { id: 152, data: 0 });
    }
    if name_is(n, "quartz_ore") {
        return Some(LegacyBlockState { id: 153, data: 0 });
    }
    if name_is(n, "hopper") {
        return Some(LegacyBlockState { id: 154, data: 0 });
    }
    if name_is(n, "quartz_block") {
        return Some(LegacyBlockState { id: 155, data: 0 });
    }
    if name_is(n, "quartz_stairs") {
        return Some(LegacyBlockState { id: 156, data: 0 });
    }
    if name_is(n, "activator_rail") {
        return Some(LegacyBlockState { id: 157, data: 0 });
    }
    if name_is(n, "dropper") {
        return Some(LegacyBlockState { id: 158, data: 0 });
    }
    if name_is(n, "stained_hardened_clay") {
        return Some(LegacyBlockState { id: 159, data: 0 });
    }
    if name_is(n, "stained_glass") {
        return Some(LegacyBlockState { id: 95, data: 0 });
    }
    if name_is(n, "stained_glass_pane") {
        return Some(LegacyBlockState { id: 160, data: 0 });
    }
    if name_is(n, "leaves2") {
        return Some(LegacyBlockState { id: 161, data: 0 });
    }
    if name_is(n, "log2") {
        return Some(LegacyBlockState { id: 162, data: 0 });
    }
    if name_is(n, "acacia_stairs") {
        return Some(LegacyBlockState { id: 163, data: 0 });
    }
    if name_is(n, "dark_oak_stairs") {
        return Some(LegacyBlockState { id: 164, data: 0 });
    }
    if name_is(n, "fern") {
        return Some(LegacyBlockState { id: 31, data: 2 });
    }
    if name_is(n, "sugar_cane") {
        return Some(LegacyBlockState { id: 83, data: 0 });
    }
    if name_is(n, "pumpkin") {
        return Some(LegacyBlockState { id: 86, data: 0 });
    }
    if name_is(n, "carved_pumpkin") {
        return Some(LegacyBlockState { id: 86, data: 0 });
    }
    if name_is(n, "nether_quartz_ore") {
        return Some(LegacyBlockState { id: 153, data: 0 });
    }
    if name_is(n, "dragon_egg") {
        return Some(LegacyBlockState { id: 122, data: 0 });
    }
    if name_is(n, "spawner") {
        return Some(LegacyBlockState { id: 52, data: 0 });
    }
    if name_is(n, "tripwire") {
        return Some(LegacyBlockState { id: 132, data: 0 });
    }
    if name_is(n, "sponge") {
        return Some(LegacyBlockState { id: 19, data: 0 });
    }
    if name_is(n, "wet_sponge") {
        return Some(LegacyBlockState { id: 19, data: 0 });
    }
    if name_is(n, "cauldron") {
        return Some(LegacyBlockState { id: 118, data: 0 });
    }
    direct_part_3(n)
}

pub(crate) fn direct_part_3(n: &[u8]) -> (r: Option<LegacyBlockState>)
    ensures
        r == direct_state_3(n@),
{
    if name_is(n, "water_cauldron") {
        return Some(LegacyBlockState { id: 118, data: 3 });
    }
    if name_is(n, "coal_block") {
        return Some(LegacyBlockState { id: 173, data: 0 });
    }
    if name_is(n, "mushroom_stem") {
        return Some(LegacyBlockState { id: 99, data: 10 });
    }
    if name_is(n, "smooth_stone") {
        return Some(LegacyBlockState { id: 1, data: 0 });
    }
    if name_is(n, "infested_stone") {
        return Some(LegacyBlockState { id: 1, data: 0 });
    }
    if name_is(n, "infested_stone_bricks") {
        return Some(LegacyBlockState { id: 98, data: 0 });
    }
    if name_is(n, "infested_deepslate") {
        return Some(LegacyBlockState { id: 1, data: 0 });
    }
    if name_is(n, "polished_blackstone_bricks") {
        return Some(LegacyBlockState { id: 98, data: 0 });
    }
    if name_is(n, "cracked_polished_blackstone_bricks") {
        return Some(LegacyBlockState { id: 98, data: 2 });
    }
    if name_is(n, "blackstone") {
        return Some(LegacyBlockState { id: 4, data: 0 });
    }
    if name_is(n, "quartz_bricks") {
        return Some(LegacyBlockState { id: 155, data: 0 });
    }
    if name_is(n, "chiseled_quartz_block") {
        return Some(LegacyBlockState { id: 155, data: 1 });
    }
    if name_is(n, "chiseled_nether_bricks") {
        return Some(LegacyBlockState { id: 112, data: 0 });
    }
    if name_is(n, "smooth_basalt") {
        return Some(LegacyBlockState { id: 1, data: 0 });
    }
    if name_is(n, "pointed_dripstone") {
        return Some(LegacyBlockState { id: 1, data: 0 });
    }
    if name_is(n, "lodestone") {
        return Some(LegacyBlockState { id: 1, data: 0 });
    }
    if name_is(n, "structure_block") {
        return Some(LegacyBlockState { id: 1, data: 0 });
    }
    if name_is(n, "stonecutter") {
        return Some(LegacyBlockState { id: 4, data: 0 });
    }
    if name_is(n, "rooted_dirt") {
        return Some(LegacyBlockState { id: 3, data: 0 });
    }
    if name_is(n, "moss_block") {
        return Some(LegacyBlockState { id: 48, data: 0 });
    }
    if name_is(n, "dried_kelp_block") {
        return Some(LegacyBlockState { id: 170, data: 0 });
    }
    if name_is(n, "crimson_stem") {
        return Some(LegacyBlockState { id: 17, data: 0 });
    }
    if name_is(n, "warped_stem") {
        return Some(LegacyBlockState { id: 17, data: 0 });
    }
    if name_is(n, "stripped_crimson_stem") {
        return Some(LegacyBlockState { id: 17, data: 0 });
    }
    if name_is(n, "stripped_warped_stem") {
        return Some(LegacyBlockState { id: 17, data: 0 });
    }
    if name_is(n, "azalea") {
        return Some(LegacyBlockState { id: 18, data: 0 });
    }
    if name_is(n, "flowering_azalea") {
        return Some(LegacyBlockState { id: 18, data: 0 });
    }
    if name_is(n, "big_dripleaf") {
        return Some(LegacyBlockState { id: 111, data: 0 });
    }
    if name_is(n, "big_dripleaf_stem") {
        return Some(LegacyBlockState { id: 17, data: 0 });
    }
    if name_is(n, "small_dripleaf") {
        return Some(LegacyBlockState { id: 0, data: 0 });
    }
    if name_is(n, "hanging_roots") {
        return Some(LegacyBlockState { id: 0, data: 0 });
    }
    if name_is(n, "spore_blossom") {
        return Some(LegacyBlockState { id: 38, data: 0 });
    }
    if name_is(n, "twisting_vines") {
        return Some(LegacyBlockState { id: 106, data: 0 });
    }
    if name_is(n, "twisting_vines_plant") {
        return Some(LegacyBlockState { id: 106, data: 0 });
    }
    if name_is(n, "cave_vines") {
        return Some(LegacyBlockState { id: 0, data: 0 });
    }
    if name_is(n, "cave_vines_plant") {
        return Some(LegacyBlockState { id: 0, data: 0 });
    }
    if name_is(n, "glow_lichen") {
        return Some(LegacyBlockState { id: 0, data: 0 });
    }
    if name_is(n, "cornflower") {
        return Some(LegacyBlockState { id: 38, data: 0 });
    }
    if name_is(n, "lily_of_the_valley") {
        return Some(LegacyBlockState { id: 38, data: 0 });
    }
    if name_is(n, "oxeye_daisy") {
        return Some(LegacyBlockState { id: 38, data: 0 });
    }
    if name_is(n, "pink_tulip") {
        return Some(LegacyBlockState { id: 38, data: 0 });
    }
    if name_is(n, "brain_coral") {
        return Some(LegacyBlockState { id: 38, data: 0 });
    }
    if name_is(n, "bubble_coral") {
        return Some(LegacyBlockState { id: 38, data: 0 });
    }
    if name_is(n, "fire_coral") {
        return Some(LegacyBlockState { id: 38, data: 0 });
    }
    if name_is(n, "horn_coral") {
        return Some(LegacyBlockState { id: 38, data: 0 });
    }
    direct_part_4(n)
}

pub(crate) fn direct_part_4(n: &[u8]) -> (r: Option<LegacyBlockState>)
    ensures
        r == direct_state_4(n@),
{
    if name_is(n, "tube_coral") {
        return Some(LegacyBlockState { id: 38, data: 0 });
    }
    if name_is(n, "horn_coral_fan") {
        return Some(LegacyBlockState { id: 38, data: 0 });
    }
    if name_is(n, "tube_coral_fan") {
        return Some(LegacyBlockState { id: 38, data: 0 });
    }
    if name_is(n, "smoker") {
        return Some(LegacyBlockState { id: 61, data: 0 });
    }
    if name_is(n, "grindstone") {
        return Some(LegacyBlockState { id: 145, data: 0 });
    }
    if name_is(n, "bell") {
        return Some(LegacyBlockState { id: 145, data: 0 });
    }
    if name_is(n, "loom") {
        return Some(LegacyBlockState { id: 58, data: 0 });
    }
    if name_is(n, "smithing_table") {
        return Some(LegacyBlockState { id: 58, data: 0 });
    }
    if name_is(n, "target") {
        return Some(LegacyBlockState { id: 70, data: 0 });
    }
    if name_is(n, "chain") {
        return Some(LegacyBlockState { id: 101, data: 0 });
    }
    if name_is(n, "lightning_rod") {
        return Some(LegacyBlockState { id: 101, data: 0 });
    }
    if name_is(n, "lantern") {
        return Some(LegacyBlockState { id: 50, data: 0 });
    }
    if name_is(n, "shroomlight") {
        return Some(LegacyBlockState { id: 89, data: 0 });
    }
    if name_is(n, "soul_campfire") {
        return Some(LegacyBlockState { id: 51, data: 0 });
    }
    if name_is(n, "bee_nest") {
        return Some(LegacyBlockState { id: 54, data: 0 });
    }
    if name_is(n, "wither_skeleton_skull") {
        return Some(LegacyBlockState { id: 144, data: 0 });
    }
    if name_is(n, "dragon_wall_head") {
        return Some(LegacyBlockState { id: 144, data: 0 });
    }
    if name_is(n, "nether_portal") {
        return Some(LegacyBlockState { id: 90, data: 0 });
    }
    if name_is(n, "white_candle") {
        return Some(LegacyBlockState { id: 50, data: 0 });
    }
    if name_is(n, "orange_candle") {
        return Some(LegacyBlockState { id: 50, data: 0 });
    }
    if name_is(n, "gray_candle") {
        return Some(LegacyBlockState { id: 50, data: 0 });
    }
    if name_is(n, "cyan_candle") {
        return Some(LegacyBlockState { id: 50, data: 0 });
    }
    if name_is(n, "lime_candle") {
        return Some(LegacyBlockState { id: 50, data: 0 });
    }
    if name_is(n, "potted_blue_orchid") {
        return Some(LegacyBlockState { id: 140, data: 0 });
    }
    if name_is(n, "potted_brown_mushroom") {
        return Some(LegacyBlockState { id: 140, data: 0 });
    }
    if name_is(n, "potted_cactus") {
        return Some(LegacyBlockState { id: 140, data: 0 });
    }
    if name_is(n, "potted_dandelion") {
        return Some(LegacyBlockState { id: 140, data: 0 });
    }
    if name_is(n, "potted_oxeye_daisy") {
        return Some(LegacyBlockState { id: 140, data: 0 });
    }
    if name_is(n, "potted_poppy") {
        return Some(LegacyBlockState { id: 140, data: 0 });
    }
    if name_is(n, "potted_red_mushroom") {
        return Some(LegacyBlockState { id: 140, data: 0 });
    }
    if name_is(n, "powder_snow") {
        return Some(LegacyBlockState { id: 80, data: 0 });
    }
    if name_is(n, "copper_ore") {
        return Some(LegacyBlockState { id: 15, data: 0 });
    }
    if name_is(n, "oxidized_copper") {
        return Some(LegacyBlockState { id: 15, data: 0 });
    }
    if name_is(n, "weathered_copper") {
        return Some(LegacyBlockState { id: 15, data: 0 });
    }
    if name_is(n, "raw_copper_block") {
        return Some(LegacyBlockState { id: 42, data: 0 });
    }
    if name_is(n, "raw_iron_block") {
        return Some(LegacyBlockState { id: 42, data: 0 });
    }
    if name_is(n, "small_amethyst_bud") {
        return Some(LegacyBlockState { id: 20, data: 0 });
    }
    if name_is(n, "medium_amethyst_bud") {
        return Some(LegacyBlockState { id: 20, data: 0 });
    }
    if name_is(n, "large_amethyst_bud") {
        return Some(LegacyBlockState { id: 20, data: 0 });
    }
    if name_is(n, "slime_block") {
        return Some(LegacyBlockState { id: 0, data: 0 });
    }
    if name_is(n, "light") {
        return Some(LegacyBlockState { id: 0, data: 0 });
    }
    if name_is(n, "scaffolding") {
        return Some(LegacyBlockState { id: 0, data: 0 });
    }
    if name_is(n, "powder_snow_cauldron") {
        return Some(LegacyBlockState { id: 118, data: 0 });
    }
    if name_is(n, "lava_cauldron") {
        return Some(LegacyBlockState { id: 118, data: 0 });
    }
    None
}


// ---------------------------------------------------------------------
// Directional and stateful blocks.
// ---------------------------------------------------------------------

/// Stairs: id by family, facing as data, bit 4 for the top half.
pub open spec fn stairs_state(id: u8, props: Option<CompoundModel>) -> LegacyBlockState {
    st(
        id,
        dir_code(prop(props, "facing"@), 0, 1, 2, 3, 0) | (if prop(props, "half"@) == lit("top") {
            4u8
        } else {
            0u8
        }),
    )
}

/// Doors: the upper half carries hinge (1) and power (2) over bit 8; the
/// lower half carries facing and open (4).
pub open spec fn door_state(n: Seq<u8>, props: Option<CompoundModel>) -> LegacyBlockState {
    let id: u8 = if n == lit("iron_door") { 71 } else { 64 };
    if prop(props, "half"@) == lit("upper") {
        st(
            id,
            8u8 | (if prop(props, "hinge"@) == lit("right") { 1u8 } else { 0u8 }) | (if prop_true(
                props,
                "powered"@,
            ) {
                2u8
            } else {
                0u8
            }),
        )
    } else {
        st(
            id,
            dir_code(prop(props, "facing"@), 0, 2, 1, 3, 0) | (if prop_true(props, "open"@) {
                4u8
            } else {
                0u8
            }),
        )
    }
}

/// Pressure plates: weighted plates, wooden plates, stone plates; data 1
/// when powered.
pub open spec fn plate_state(n: Seq<u8>, props: Option<CompoundModel>) -> LegacyBlockState {
    let id: u8 = if n == lit("light_weighted_pressure_plate") {
        147
    } else if n == lit("heavy_weighted_pressure_plate") {
        148
    } else if wood_family(n) {
        72
    } else {
        70
    };
    let powered = prop_true(props, "powered"@) || prop_int(props, "power"@, 0) > 0;
    st(id, if powered { 1 } else { 0 })
}

/// Blocks whose legacy data comes from their facing or other state.
pub open spec fn directional_state(n: Seq<u8>, props: Option<CompoundModel>) -> Option<LegacyBlockState> {
    let facing = prop(props, "facing"@);
    if n == lit("ladder") {
        Some(st(65, dir_code(facing, 5, 4, 3, 2, 2)))
    } else if n == lit("vine") {
        Some(st(106, vine_code(props)))
    } else if n == lit("lever") {
        Some(
            st(
                69,
                lever_code(prop(props, "face"@), facing) | (if prop_true(props, "powered"@) {
                    8u8
                } else {
                    0u8
                }),
            ),
        )
    } else if ends_with(n, lit("_button")) {
        Some(
            st(
                if wood_family(n) { 143 } else { 77 },
                dir_code(facing, 1, 2, 3, 4, 1) | (if prop_true(props, "powered"@) {
                    8u8
                } else {
                    0u8
                }),
            ),
        )
    } else if ends_with(n, lit("_fence_gate")) {
        Some(
            st(
                107,
                dir_code(facing, 3, 1, 0, 2, 0) | (if prop_true(props, "open"@) {
                    4u8
                } else {
                    0u8
                }),
            ),
        )
    } else if ends_with(n, lit("_pressure_plate")) {
        Some(plate_state(n, props))
    } else if ends_with(n, lit("_door")) || n == lit("iron_door") {
        Some(door_state(n, props))
    } else if stairs_id(n) is Some {
        Some(stairs_state(stairs_id(n)->0, props))
    } else if ends_with(n, lit("trapdoor")) {
        Some(
            st(
                96,
                dir_code(facing, 3, 2, 1, 0, 0) | (if prop_true(props, "open"@) {
                    4u8
                } else {
                    0u8
                }) | (if prop(props, "half"@) == lit("top") { 8u8 } else { 0u8 }),
            ),
        )
    } else if n == lit("dispenser") || n == lit("dropper") {
        Some(
            st(
                if n == lit("dropper") { 158 } else { 23 },
                facing_code(facing) | (if prop_true(props, "triggered"@) { 8u8 } else { 0u8 }),
            ),
        )
    } else if n == lit("piston") || n == lit("sticky_piston") {
        Some(
            st(
                if n == lit("sticky_piston") { 29 } else { 33 },
                facing_code(facing) | (if prop_true(props, "extended"@) { 8u8 } else { 0u8 }),
            ),
        )
    } else if n == lit("piston_head") {
        Some(
            st(
                34,
                facing_code(facing) | (if prop(props, "type"@) == lit("sticky") {
                    8u8
                } else {
                    0u8
                }),
            ),
        )
    } else if n == lit("redstone_wire") {
        Some(st(55, clamp(prop_int(props, "power"@, 0), 0, 15) as u8))
    } else if n == lit("repeater") {
        let delay = clamp(prop_int(props, "delay"@, 1), 1, 4);
        Some(
            st(
                if prop_true(props, "powered"@) { 94 } else { 93 },
                dir_code(facing, 3, 1, 0, 2, 0) | (((delay - 1) as u8) << 2u8),
            ),
        )
    } else if n == lit("comparator") {
        Some(
            st(
                if prop_true(props, "powered"@) { 150 } else { 149 },
                dir_code(facing, 3, 1, 0, 2, 0) | (if prop(props, "mode"@) == lit("subtract") {
                    4u8
                } else {
                    0u8
                }),
            ),
        )
    } else if n == lit("wall_torch") {
        Some(st(50, dir_code(facing, 1, 2, 3, 4, 1)))
    } else if n == lit("redstone_wall_torch") {
        Some(
            st(
                if prop_true(props, "lit"@) { 76 } else { 75 },
                dir_code(facing, 1, 2, 3, 4, 1),
            ),
        )
    } else if n == lit("nether_wart") {
        Some(st(115, clamp(prop_int(props, "age"@, 0), 0, 3) as u8))
    } else if n == lit("wheat") {
        Some(st(59, clamp(prop_int(props, "age"@, 0), 0, 7) as u8))
    } else if n == lit("pumpkin_stem") || n == lit("attached_pumpkin_stem") {
        Some(
            st(
                104,
                if n == lit("attached_pumpkin_stem") {
                    7
                } else {
                    clamp(prop_int(props, "age"@, 0), 0, 7) as u8
                },
            ),
        )
    } else if n == lit("melon_stem") || n == lit("attached_melon_stem") {
        Some(
            st(
                105,
                if n == lit("attached_melon_stem") {
                    7
                } else {
                    clamp(prop_int(props, "age"@, 0), 0, 7) as u8
                },
            ),
        )
    } else if n == lit("cocoa") {
        let age = clamp(prop_int(props, "age"@, 0), 0, 2) as u8;
        Some(st(127, (age << 2u8) | dir_code(facing, 3, 1, 0, 2, 0)))
    } else if n == lit("hay_block") {
        let axis = prop(props, "axis"@);
        Some(st(170, if axis == lit("x") { 4 } else if axis == lit("z") { 8 } else { 0 }))
    } else if n == lit("quartz_pillar") {
        let axis = prop(props, "axis"@);
        Some(st(155, if axis == lit("x") { 3 } else if axis == lit("z") { 4 } else { 2 }))
    } else if n == lit("nether_portal") {
        Some(st(90, if prop(props, "axis"@) == lit("z") { 2 } else { 1 }))
    } else {
        None
    }
}

fn bit_if(b: bool, v: u8) -> (r: u8)
    ensures
        r == (if b { v } else { 0u8 }),
{
    if b { v } else { 0 }
}

fn try_map_directional(n: &[u8], properties: Option<&NbtCompound>) -> (r: Option<LegacyBlockState>)
    ensures
        r == directional_state(n@, props_of(properties)),
{
    let facing = get_property(properties, "facing");
    if name_is(n, "ladder") {
        return Some(LegacyBlockState { id: 65, data: dir_value(facing, 5, 4, 3, 2, 2) });
    }
    if name_is(n, "vine") {
        return Some(LegacyBlockState { id: 106, data: map_vine_faces(properties) });
    }
    if name_is(n, "lever") {
        let data = map_lever_data(get_property(properties, "face"), facing) | bit_if(get_bool_property(properties, "powered"), 8);
        return Some(LegacyBlockState { id: 69, data });
    }
    if ends(n, "_button") {
        let id: u8 = if wood_family_bytes(n) { 143 } else { 77 };
        let data = dir_value(facing, 1, 2, 3, 4, 1) | bit_if(get_bool_property(properties, "powered"), 8);
        return Some(LegacyBlockState { id, data });
    }
    if ends(n, "_fence_gate") {
        let data = dir_value(facing, 3, 1, 0, 2, 0) | bit_if(get_bool_property(properties, "open"), 4);
        return Some(LegacyBlockState { id: 107, data });
    }
    if ends(n, "_pressure_plate") {
        let id: u8 = if name_is(n, "light_weighted_pressure_plate") {
            147
        } else if name_is(n, "heavy_weighted_pressure_plate") {
            148
        } else if wood_family_bytes(n) {
            72
        } else {
            70
        };
        let powered = get_bool_property(properties, "powered") || get_int_property(properties, "power", 0) > 0;
        return Some(LegacyBlockState { id, data: if powered { 1 } else { 0 } });
    }
    if ends(n, "_door") || name_is(n, "iron_door") {
        let id: u8 = if name_is(n, "iron_door") { 71 } else { 64 };
        if name_is(get_property(properties, "half"), "upper") {
            let data = 8u8 | bit_if(name_is(get_property(properties, "hinge"), "right"), 1) | bit_if(
                get_bool_property(properties, "powered"),
                2,
            );
            return Some(LegacyBlockState { id, data });
        } else {
            let data = dir_value(facing, 0, 2, 1, 3, 0) | bit_if(get_bool_property(properties, "open"), 4);
            return Some(LegacyBlockState { id, data });
        }
    }
    if let Some(id) = try_get_stairs_id(n) {
        let data = dir_value(facing, 0, 1, 2, 3, 0) | bit_if(name_is(get_property(properties, "half"), "top"), 4);
        return Some(LegacyBlockState { id, data });
    }
    if ends(n, "trapdoor") {
        let data = dir_value(facing, 3, 2, 1, 0, 0) | bit_if(get_bool_property(properties, "open"), 4) | bit_if(
            name_is(get_property(properties, "half"), "top"),
            8,
        );
        return Some(LegacyBlockState { id: 96, data });
    }
    if name_is(n, "dispenser") || name_is(n, "dropper") {
        let id: u8 = if name_is(n, "dropper") { 158 } else { 23 };
        let data = map_facing_data(facing) | bit_if(get_bool_property(properties, "triggered"), 8);
        return Some(LegacyBlockState { id, data });
    }
    if name_is(n, "piston") || name_is(n, "sticky_piston") {
        let id: u8 = if name_is(n, "sticky_piston") { 29 } else { 33 };
        let data = map_facing_data(facing) | bit_if(get_bool_property(properties, "extended"), 8);
        return Some(LegacyBlockState { id, data });
    }
    if name_is(n, "piston_head") {
        let data = map_facing_data(facing) | bit_if(name_is(get_property(properties, "type"), "sticky"), 8);
        return Some(LegacyBlockState { id: 34, data });
    }
    if name_is(n, "redstone_wire") {
        let data = clamp_i32(get_int_property(properties, "power", 0), 0, 15) as u8;
        return Some(LegacyBlockState { id: 55, data });
    }
    if name_is(n, "repeater") {
        let id: u8 = if get_bool_property(properties, "powered") { 94 } else { 93 };
        let dir = dir_value(facing, 3, 1, 0, 2, 0);
        let delay = clamp_i32(get_int_property(properties, "delay", 1), 1, 4);
        return Some(LegacyBlockState { id, data: dir | (((delay - 1) as u8) << 2u8) });
    }
    if name_is(n, "comparator") {
        let id: u8 = if get_bool_property(properties, "powered") { 150 } else { 149 };
        let dir = dir_value(facing, 3, 1, 0, 2, 0);
        let mode = bit_if(name_is(get_property(properties, "mode"), "subtract"), 4);
        return Some(LegacyBlockState { id, data: dir | mode });
    }
    if name_is(n, "wall_torch") {
        return Some(LegacyBlockState { id: 50, data: dir_value(facing, 1, 2, 3, 4, 1) });
    }
    if name_is(n, "redstone_wall_torch") {
        let id: u8 = if get_bool_property(properties, "lit") { 76 } else { 75 };
        return Some(LegacyBlockState { id, data: dir_value(facing, 1, 2, 3, 4, 1) });
    }
    if name_is(n, "nether_wart") {
        return Some(LegacyBlockState { id: 115, data: clamp_i32(get_int_property(properties, "age", 0), 0, 3) as u8 });
    }
    if name_is(n, "wheat") {
        return Some(LegacyBlockState { id: 59, data: clamp_i32(get_int_property(properties, "age", 0), 0, 7) as u8 });
    }
    if name_is(n, "pumpkin_stem") || name_is(n, "attached_pumpkin_stem") {
        let data: u8 = if name_is(n, "attached_pumpkin_stem") {
            7
        } else {
            clamp_i32(get_int_property(properties, "age", 0), 0, 7) as u8
        };
        return Some(LegacyBlockState { id: 104, data });
    }
    if name_is(n, "melon_stem") || name_is(n, "attached_melon_stem") {
        let data: u8 = if name_is(n, "attached_melon_stem") {
            7
        } else {
            clamp_i32(get_int_property(properties, "age", 0), 0, 7) as u8
        };
        return Some(LegacyBlockState { id: 105, data });
    }
    if name_is(n, "cocoa") {
        let age = clamp_i32(get_int_property(properties, "age", 0), 0, 2) as u8;
        let dir = dir_value(facing, 3, 1, 0, 2, 0);
        return Some(LegacyBlockState { id: 127, data: (age << 2u8) | dir });
    }
    if name_is(n, "hay_block") {
        let axis = get_property(properties, "axis");
        let data: u8 = if name_is(axis, "x") { 4 } else if name_is(axis, "z") { 8 } else { 0 };
        return Some(LegacyBlockState { id: 170, data });
    }
    if name_is(n, "quartz_pillar") {
        let axis = get_property(properties, "axis");
        let data: u8 = if name_is(axis, "x") { 3 } else if name_is(axis, "z") { 4 } else { 2 };
        return Some(LegacyBlockState { id: 155, data });
    }
    if name_is(n, "nether_portal") {
        let data: u8 = if name_is(get_property(properties, "axis"), "z") { 2 } else { 1 };
        return Some(LegacyBlockState { id: 90, data });
    }
    None
}


// ---------------------------------------------------------------------
// Colours.
// ---------------------------------------------------------------------

/// The data value of a colour name (0 for an unknown colour).
pub open spec fn color_code(c: Seq<u8>) -> u8 {
    if c == lit("white") {
        0
    } else if c == lit("orange") {
        1
    } else if c == lit("magenta") {
        2
    } else if c == lit("light_blue") {
        3
    } else if c == lit("yellow") {
        4
    } else if c == lit("lime") {
        5
    } else if c == lit("pink") {
        6
    } else if c == lit("gray") {
        7
    } else if c == lit("light_gray") {
        8
    } else if c == lit("cyan") {
        9
    } else if c == lit("purple") {
        10
    } else if c == lit("blue") {
        11
    } else if c == lit("brown") {
        12
    } else if c == lit("green") {
        13
    } else if c == lit("red") {
        14
    } else if c == lit("black") {
        15
    } else {
        0
    }
}

fn get_color_data(c: &[u8]) -> (r: u8)
    ensures
        r == color_code(c@),
{
    if name_is(c, "white") {
        0
    } else if name_is(c, "orange") {
        1
    } else if name_is(c, "magenta") {
        2
    } else if name_is(c, "light_blue") {
        3
    } else if name_is(c, "yellow") {
        4
    } else if name_is(c, "lime") {
        5
    } else if name_is(c, "pink") {
        6
    } else if name_is(c, "gray") {
        7
    } else if name_is(c, "light_gray") {
        8
    } else if name_is(c, "cyan") {
        9
    } else if name_is(c, "purple") {
        10
    } else if name_is(c, "blue") {
        11
    } else if name_is(c, "brown") {
        12
    } else if name_is(c, "green") {
        13
    } else if name_is(c, "red") {
        14
    } else if name_is(c, "black") {
        15
    } else {
        0
    }
}

/// The colour prefix of a name (tried in a fixed order) with its data
/// value, and the rest of the name.
pub open spec fn color_split(n: Seq<u8>) -> Option<(u8, Seq<u8>)> {
    if starts_with(n, lit("white_")) {
        Some((color_code(lit("white")), n.skip(lit("white_").len() as int)))
    } else if starts_with(n, lit("orange_")) {
        Some((color_code(lit("orange")), n.skip(lit("orange_").len() as int)))
    } else if starts_with(n, lit("magenta_")) {
        Some((color_code(lit("magenta")), n.skip(lit("magenta_").len() as int)))
    } else if starts_with(n, lit("light_blue_")) {
        Some((color_code(lit("light_blue")), n.skip(lit("light_blue_").len() as int)))
    } else if starts_with(n, lit("yellow_")) {
        Some((color_code(lit("yellow")), n.skip(lit("yellow_").len() as int)))
    } else if starts_with(n, lit("lime_")) {
        Some((color_code(lit("lime")), n.skip(lit("lime_").len() as int)))
    } else if starts_with(n, lit("pink_")) {
        Some((color_code(lit("pink")), n.skip(lit("pink_").len() as int)))
    } else if starts_with(n, lit("gray_")) {
        Some((color_code(lit("gray")), n.skip(lit("gray_").len() as int)))
    } else if starts_with(n, lit("silver_")) {
        Some((color_code(lit("silver")), n.skip(lit("silver_").len() as int)))
    } else if starts_with(n, lit("light_gray_")) {
        Some((color_code(lit("light_gray")), n.skip(lit("light_gray_").len() as int)))
    } else if starts_with(n, lit("cyan_")) {
        Some((color_code(lit("cyan")), n.skip(lit("cyan_").len() as int)))
    } else if starts_with(n, lit("purple_")) {
        Some((color_code(lit("purple")), n.skip(lit("purple_").len() as int)))
    } else if starts_with(n, lit("blue_")) {
        Some((color_code(lit("blue")), n.skip(lit("blue_").len() as int)))
    } else if starts_with(n, lit("brown_")) {
        Some((color_code(lit("brown")), n.skip(lit("brown_").len() as int)))
    } else if starts_with(n, lit("green_")) {
        Some((color_code(lit("green")), n.skip(lit("green_").len() as int)))
    } else if starts_with(n, lit("red_")) {
        Some((color_code(lit("red")), n.skip(lit("red_").len() as int)))
    } else if starts_with(n, lit("black_")) {
        Some((color_code(lit("black")), n.skip(lit("black_").len() as int)))
    } else {
        None
    }
}

fn split_color_prefix(n: &[u8]) -> (r: Option<(u8, &[u8])>)
    ensures
        match color_split(n@) {
            Some((c, rest)) => r matches Some((d, x)) && d == c && x@ == rest,
            None => r is None,
        },
{
    if starts(n, "white_") {
        let p = "white_".as_bytes().len();
        return Some((get_color_data("white".as_bytes()), crate::region::slice_range(n, p, n.len())));
    }
    if starts(n, "orange_") {
        let p = "orange_".as_bytes().len();
        return Some((get_color_data("orange".as_bytes()), crate::region::slice_range(n, p, n.len())));
    }
    if starts(n, "magenta_") {
        let p = "magenta_".as_bytes().len();
        return Some((get_color_data("magenta".as_bytes()), crate::region::slice_range(n, p, n.len())));
    }
    if starts(n, "light_blue_") {
        let p = "light_blue_".as_bytes().len();
        return Some((get_color_data("light_blue".as_bytes()), crate::region::slice_range(n, p, n.len())));
    }
    if starts(n, "yellow_") {
        let p = "yellow_".as_bytes().len();
        return Some((get_color_data("yellow".as_bytes()), crate::region::slice_range(n, p, n.len())));
    }
    if starts(n, "lime_") {
        let p = "lime_".as_bytes().len();
        return Some((get_color_data("lime".as_bytes()), crate::region::slice_range(n, p, n.len())));
    }
    if starts(n, "pink_") {
        let p = "pink_".as_bytes().len();
        return Some((get_color_data("pink".as_bytes()), crate::region::slice_range(n, p, n.len())));
    }
    if starts(n, "gray_") {
        let p = "gray_".as_bytes().len();
        return Some((get_color_data("gray".as_bytes()), crate::region::slice_range(n, p, n.len())));
    }
    if starts(n, "silver_") {
        let p = "silver_".as_bytes().len();
        return Some((get_color_data("silver".as_bytes()), crate::region::slice_range(n, p, n.len())));
    }
    if starts(n, "light_gray_") {
        let p = "light_gray_".as_bytes().len();
        return Some((get_color_data("light_gray".as_bytes()), crate::region::slice_range(n, p, n.len())));
    }
    if starts(n, "cyan_") {
        let p = "cyan_".as_bytes().len();
        return Some((get_color_data("cyan".as_bytes()), crate::region::slice_range(n, p, n.len())));
    }
    if starts(n, "purple_") {
        let p = "purple_".as_bytes().len();
        return Some((get_color_data("purple".as_bytes()), crate::region::slice_range(n, p, n.len())));
    }
    if starts(n, "blue_") {
        let p = "blue_".as_bytes().len();
        return Some((get_color_data("blue".as_bytes()), crate::region::slice_range(n, p, n.len())));
    }
    if starts(n, "brown_") {
        let p = "brown_".as_bytes().len();
        return Some((get_color_data("brown".as_bytes()), crate::region::slice_range(n, p, n.len())));
    }
    if starts(n, "green_") {
        let p = "green_".as_bytes().len();
        return Some((get_color_data("green".as_bytes()), crate::region::slice_range(n, p, n.len())));
    }
    if starts(n, "red_") {
        let p = "red_".as_bytes().len();
        return Some((get_color_data("red".as_bytes()), crate::region::slice_range(n, p, n.len())));
    }
    if starts(n, "black_") {
        let p = "black_".as_bytes().len();
        return Some((get_color_data("black".as_bytes()), crate::region::slice_range(n, p, n.len())));
    }
    None
}

/// Coloured blocks named with their colour first.
pub open spec fn flattened_colored_state(n: Seq<u8>) -> Option<LegacyBlockState> {
    match color_split(n) {
        None => None,
        Some((data, suffix)) => if suffix == lit("wool") {
            Some(st(35, data))
        } else if suffix == lit("stained_glass") || suffix == lit("glass") {
            Some(st(95, data))
        } else if suffix == lit("stained_glass_pane") || suffix == lit("glass_pane") {
            Some(st(160, data))
        } else if suffix == lit("stained_hardened_clay") || suffix == lit("terracotta") {
            Some(st(159, data))
        } else if suffix == lit("concrete") {
            Some(st(172, data))
        } else if suffix == lit("concrete_powder") {
            Some(st(12, data))
        } else if suffix == lit("glazed_terracotta") {
            Some(st(159, data))
        } else if suffix == lit("carpet") {
            Some(st(171, data))
        } else {
            None
        },
    }
}

fn try_map_flattened_colored(n: &[u8]) -> (r: Option<LegacyBlockState>)
    ensures
        r == flattened_colored_state(n@),
{
    let (data, suffix) = match split_color_prefix(n) {
        Some(x) => x,
        None => {
            return None;
        },
    };
    if name_is(suffix, "wool") {
        Some(LegacyBlockState { id: 35, data })
    } else if name_is(suffix, "stained_glass") || name_is(suffix, "glass") {
        Some(LegacyBlockState { id: 95, data })
    } else if name_is(suffix, "stained_glass_pane") || name_is(suffix, "glass_pane") {
        Some(LegacyBlockState { id: 160, data })
    } else if name_is(suffix, "stained_hardened_clay") || name_is(suffix, "terracotta") {
        Some(LegacyBlockState { id: 159, data })
    } else if name_is(suffix, "concrete") {
        Some(LegacyBlockState { id: 172, data })
    } else if name_is(suffix, "concrete_powder") {
        Some(LegacyBlockState { id: 12, data })
    } else if name_is(suffix, "glazed_terracotta") {
        Some(LegacyBlockState { id: 159, data })
    } else if name_is(suffix, "carpet") {
        Some(LegacyBlockState { id: 171, data })
    } else {
        None
    }
}

/// Coloured blocks with the colour as a property.
pub open spec fn colored_state(n: Seq<u8>, props: Option<CompoundModel>) -> Option<LegacyBlockState> {
    let color = color_code(prop(props, "color"@));
    if n == lit("wool") {
        Some(st(35, color))
    } else if n == lit("stained_glass") {
        Some(st(95, color))
    } else if n == lit("stained_glass_pane") {
        Some(st(160, color))
    } else if n == lit("stained_hardened_clay") || n == lit("terracotta") {
        Some(st(159, color))
    } else if n == lit("concrete") {
        Some(st(172, color))
    } else if n == lit("concrete_powder") {
        Some(st(12, color))
    } else if n == lit("glazed_terracotta") {
        Some(st(159, color))
    } else {
        None
    }
}

fn try_map_colored(n: &[u8], properties: Option<&NbtCompound>) -> (r: Option<LegacyBlockState>)
    ensures
        r == colored_state(n@, props_of(properties)),
{
    let color = get_color_data(get_property(properties, "color"));
    if name_is(n, "wool") {
        Some(LegacyBlockState { id: 35, data: color })
    } else if name_is(n, "stained_glass") {
        Some(LegacyBlockState { id: 95, data: color })
    } else if name_is(n, "stained_glass_pane") {
        Some(LegacyBlockState { id: 160, data: color })
    } else if name_is(n, "stained_hardened_clay") || name_is(n, "terracotta") {
        Some(LegacyBlockState { id: 159, data: color })
    } else if name_is(n, "concrete") {
        Some(LegacyBlockState { id: 172, data: color })
    } else if name_is(n, "concrete_powder") {
        Some(LegacyBlockState { id: 12, data: color })
    } else if name_is(n, "glazed_terracotta") {
        Some(LegacyBlockState { id: 159, data: color })
    } else {
        None
    }
}

// ---------------------------------------------------------------------
// Wood and other variants.
// ---------------------------------------------------------------------

/// The index of the first `b` in `n`, or -1.
pub open spec fn first_byte(n: Seq<u8>, b: u8) -> int
    decreases n.len(),
{
    if n.len() == 0 {
        -1
    } else {
        let p = first_byte(n.drop_last(), b);
        if p != -1 {
            p
        } else if n.last() == b {
            n.len() - 1
        } else {
            -1
        }
    }
}

/// The part of a name before its first underscore (the whole name when it
/// has none or starts with one).
pub open spec fn prefix_before_underscore(n: Seq<u8>) -> Seq<u8> {
    let i = first_byte(n, 95);
    if i > 0 {
        n.take(i)
    } else {
        n
    }
}

proof fn lemma_first_byte(n: Seq<u8>, b: u8, i: int)
    requires
        0 <= i <= n.len(),
        forall|j: int| 0 <= j < i ==> n[j] != b,
    ensures
        i < n.len() && n[i] == b ==> first_byte(n, b) == i,
        i == n.len() ==> first_byte(n, b) == -1,
    decreases n.len(),
{
    if n.len() > 0 {
        if i < n.len() {
            lemma_first_byte(n.drop_last(), b, i);
        } else {
            lemma_first_byte(n.drop_last(), b, i - 1);
        }
    }
}

fn get_prefix_before_underscore(n: &[u8]) -> (r: &[u8])
    ensures
        r@ == prefix_before_underscore(n@),
{
    let mut i: usize = 0;
    while i < n.len()
        invariant
            i <= n@.len(),
            forall|j: int| 0 <= j < i ==> n@[j] != 95u8,
        decreases n@.len() - i,
    {
        if n[i] == 95 {
            proof {
                lemma_first_byte(n@, 95, i as int);
            }
            if i > 0 {
                return crate::region::slice_range(n, 0, i);
            } else {
                return n;
            }
        }
        i += 1;
    }
    proof {
        lemma_first_byte(n@, 95, i as int);
    }
    n
}

/// Wooden blocks: the wood type from the `variant` property or the name's
/// first word picks the data of planks, saplings, logs and leaves; other
/// wooden blocks get a fixed block.
pub open spec fn wood_state(n: Seq<u8>, props: Option<CompoundModel>) -> Option<LegacyBlockState> {
    let v = prop(props, "variant"@);
    let wood = if v.len() == 0 { prefix_before_underscore(n) } else { v };
    let dv: u8 = if wood == lit("spruce") {
        1
    } else if wood == lit("birch") {
        2
    } else if wood == lit("jungle") {
        3
    } else if wood == lit("acacia") {
        0
    } else if wood == lit("dark_oak") {
        1
    } else {
        0
    };
    let capped: u8 = if dv < 3 { dv } else { 3 };
    if ends_with(n, lit("_planks")) || n == lit("planks") {
        Some(st(5, dv))
    } else if ends_with(n, lit("_sapling")) || n == lit("sapling") {
        Some(st(6, dv))
    } else if ends_with(n, lit("_log")) || n == lit("log") {
        Some(st(17, capped))
    } else if ends_with(n, lit("_leaves")) || n == lit("leaves") {
        Some(st(18, capped))
    } else if ends_with(n, lit("_stairs")) && contains(n, lit("wood")) {
        Some(st(53, 0))
    } else if ends_with(n, lit("_door")) {
        Some(st(64, 0))
    } else if ends_with(n, lit("_fence")) {
        Some(st(85, 0))
    } else if ends_with(n, lit("_fence_gate")) {
        Some(st(107, 0))
    } else if ends_with(n, lit("_pressure_plate")) && wood_family(n) {
        Some(st(72, 0))
    } else {
        None
    }
}

fn try_map_wood(n: &[u8], properties: Option<&NbtCompound>) -> (r: Option<LegacyBlockState>)
    ensures
        r == wood_state(n@, props_of(properties)),
{
    let v = get_property(properties, "variant");
    let wood = if v.len() == 0 { get_prefix_before_underscore(n) } else { v };
    let dv: u8 = if name_is(wood, "spruce") {
        1
    } else if name_is(wood, "birch") {
        2
    } else if name_is(wood, "jungle") {
        3
    } else if name_is(wood, "acacia") {
        0
    } else if name_is(wood, "dark_oak") {
        1
    } else {
        0
    };
    let capped: u8 = if dv < 3 { dv } else { 3 };
    if ends(n, "_planks") || name_is(n, "planks") {
        Some(LegacyBlockState { id: 5, data: dv })
    } else if ends(n, "_sapling") || name_is(n, "sapling") {
        Some(LegacyBlockState { id: 6, data: dv })
    } else if ends(n, "_log") || name_is(n, "log") {
        Some(LegacyBlockState { id: 17, data: capped })
    } else if ends(n, "_leaves") || name_is(n, "leaves") {
        Some(LegacyBlockState { id: 18, data: capped })
    } else if ends(n, "_stairs") && has(n, "wood") {
        Some(LegacyBlockState { id: 53, data: 0 })
    } else if ends(n, "_door") {
        Some(LegacyBlockState { id: 64, data: 0 })
    } else if ends(n, "_fence") {
        Some(LegacyBlockState { id: 85, data: 0 })
    } else if ends(n, "_fence_gate") {
        Some(LegacyBlockState { id: 107, data: 0 })
    } else if ends(n, "_pressure_plate") && wood_family_bytes(n) {
        Some(LegacyBlockState { id: 72, data: 0 })
    } else {
        None
    }
}

/// Fallbacks tried before the variant table: buttons, signs, walls, beds,
/// banners, and a few names.
pub open spec fn common_fallback_state(n: Seq<u8>, props: Option<CompoundModel>) -> Option<LegacyBlockState> {
    if ends_with(n, lit("_button")) {
        Some(st(if wood_family(n) { 143 } else { 77 }, 0))
    } else if ends_with(n, lit("_wall_sign")) {
        Some(st(68, dir_code(prop(props, "facing"@), 5, 4, 3, 2, 2)))
    } else if ends_with(n, lit("_sign")) {
        Some(st(63, (prop_int(props, "rotation"@, 0) & 0x0F) as u8))
    } else if ends_with(n, lit("_wall")) {
        Some(st(139, 0))
    } else if ends_with(n, lit("_bed")) {
        Some(
            st(
                26,
                dir_code(prop(props, "facing"@), 3, 1, 0, 2, 0) | (if prop(props, "part"@) == lit(
                    "head",
                ) {
                    8u8
                } else {
                    0u8
                }),
            ),
        )
    } else if ends_with(n, lit("_banner")) {
        Some(st(0, 0))
    } else {
        common_named_state_0(n)
    }
}

/// The names the common fallback maps to a fixed block (part 1).
pub open spec fn common_named_state_0(n: Seq<u8>) -> Option<LegacyBlockState> {
    if one_of(n, seq!["barrier", "structure_void"]) {
        Some(st(0, 0))
    } else if n == lit("bamboo") {
        Some(st(83, 0))
    } else if n == lit("cake") {
        Some(st(92, 0))
    } else if n == lit("brewing_stand") {
        Some(st(117, 0))
    } else if n == lit("barrel") {
        Some(st(54, 0))
    } else if n == lit("blast_furnace") {
        Some(st(61, 0))
    } else if n == lit("campfire") {
        Some(st(50, 0))
    } else {
        common_named_state_1(n)
    }
}

fn common_named_part_0(n: &[u8]) -> (r: Option<LegacyBlockState>)
    ensures
        r == common_named_state_0(n@),
{
    if matches_any(n, &["barrier", "structure_void"]) {
        return Some(LegacyBlockState { id: 0, data: 0 });
    }
    if name_is(n, "bamboo") {
        return Some(LegacyBlockState { id: 83, data: 0 });
    }
    if name_is(n, "cake") {
        return Some(LegacyBlockState { id: 92, data: 0 });
    }
    if name_is(n, "brewing_stand") {
        return Some(LegacyBlockState { id: 117, data: 0 });
    }
    if name_is(n, "barrel") {
        return Some(LegacyBlockState { id: 54, data: 0 });
    }
    if name_is(n, "blast_furnace") {
        return Some(LegacyBlockState { id: 61, data: 0 });
    }
    if name_is(n, "campfire") {
        return Some(LegacyBlockState { id: 50, data: 0 });
    }
    common_named_part_1(n)
}

/// The names the common fallback maps to a fixed block (part 2).
pub open spec fn common_named_state_1(n: Seq<u8>) -> Option<LegacyBlockState> {
    if one_of(n, seq!["azure_bluet", "blue_orchid"]) {
        Some(st(38, 0))
    } else if n == lit("attached_melon_stem") {
        Some(st(105, 7))
    } else if n == lit("attached_pumpkin_stem") {
        Some(st(104, 7))
    } else if one_of(n, seq!["andesite", "diorite", "granite", "polished_andesite", "polished_diorite", "polished_granite"]) {
        Some(st(1, 0))
    } else if one_of(n, seq!["andesite_stairs", "diorite_stairs", "granite_stairs", "polished_andesite_stairs", "polished_diorite_stairs", "polished_granite_stairs"]) {
        Some(st(109, 0))
    } else if n == lit("bubble_column") {
        Some(st(9, 0))
    } else if one_of(n, seq!["amethyst_block", "budding_amethyst", "amethyst_cluster"]) {
        Some(st(20, 0))
    } else {
        None
    }
}

fn common_named_part_1(n: &[u8]) -> (r: Option<LegacyBlockState>)
    ensures
        r == common_named_state_1(n@),
{
    if matches_any(n, &["azure_bluet", "blue_orchid"]) {
        return Some(LegacyBlockState { id: 38, data: 0 });
    }
    if name_is(n, "attached_melon_stem") {
        return Some(LegacyBlockState { id: 105, data: 7 });
    }
    if name_is(n, "attached_pumpkin_stem") {
        return Some(LegacyBlockState { id: 104, data: 7 });
    }
    if matches_any(n, &["andesite", "diorite", "granite", "polished_andesite", "polished_diorite", "polished_granite"]) {
        return Some(LegacyBlockState { id: 1, data: 0 });
    }
    if matches_any(n, &["andesite_stairs", "diorite_stairs", "granite_stairs", "polished_andesite_stairs", "polished_diorite_stairs", "polished_granite_stairs"]) {
        return Some(LegacyBlockState { id: 109, data: 0 });
    }
    if name_is(n, "bubble_column") {
        return Some(LegacyBlockState { id: 9, data: 0 });
    }
    if matches_any(n, &["amethyst_block", "budding_amethyst", "amethyst_cluster"]) {
        return Some(LegacyBlockState { id: 20, data: 0 });
    }
    None
}

fn try_map_common_fallback(n: &[u8], properties: Option<&NbtCompound>) -> (r: Option<LegacyBlockState>)
    ensures
        r == common_fallback_state(n@, props_of(properties)),
{
    if ends(n, "_button") {
        return Some(LegacyBlockState { id: if wood_family_bytes(n) { 143 } else { 77 }, data: 0 });
    }
    if ends(n, "_wall_sign") {
        return Some(LegacyBlockState { id: 68, data: dir_value(get_property(properties, "facing"), 5, 4, 3, 2, 2) });
    }
    if ends(n, "_sign") {
        return Some(LegacyBlockState { id: 63, data: (get_int_property(properties, "rotation", 0) & 0x0F) as u8 });
    }
    if ends(n, "_wall") {
        return Some(LegacyBlockState { id: 139, data: 0 });
    }
    if ends(n, "_bed") {
        let data = dir_value(get_property(properties, "facing"), 3, 1, 0, 2, 0) | bit_if(
            name_is(get_property(properties, "part"), "head"),
            8,
        );
        return Some(LegacyBlockState { id: 26, data });
    }
    if ends(n, "_banner") {
        return Some(LegacyBlockState { id: 0, data: 0 });
    }
    common_named_part_0(n)
}

/// The fixed-block names of the variant table (part 1).
pub open spec fn variant_named_state_0(n: Seq<u8>) -> Option<LegacyBlockState> {
    if one_of(n, seq!["deepslate", "polished_deepslate", "tuff", "calcite", "dripstone_block"]) {
        Some(st(1, 0))
    } else if n == lit("cobbled_deepslate") {
        Some(st(4, 0))
    } else if one_of(n, seq!["deepslate_bricks", "deepslate_tiles"]) {
        Some(st(98, 0))
    } else if one_of(n, seq!["cracked_deepslate_bricks", "cracked_deepslate_tiles"]) {
        Some(st(98, 2))
    } else if n == lit("chiseled_deepslate") {
        Some(st(98, 3))
    } else if n == lit("deepslate_coal_ore") {
        Some(st(16, 0))
    } else if one_of(n, seq!["deepslate_iron_ore", "deepslate_copper_ore"]) {
        Some(st(15, 0))
    } else if n == lit("deepslate_gold_ore") {
        Some(st(14, 0))
    } else if n == lit("deepslate_redstone_ore") {
        Some(st(73, 0))
    } else {
        variant_named_state_1(n)
    }
}

fn variant_named_part_0(n: &[u8]) -> (r: Option<LegacyBlockState>)
    ensures
        r == variant_named_state_0(n@),
{
    if matches_any(n, &["deepslate", "polished_deepslate", "tuff", "calcite", "dripstone_block"]) {
        return Some(LegacyBlockState { id: 1, data: 0 });
    }
    if name_is(n, "cobbled_deepslate") {
        return Some(LegacyBlockState { id: 4, data: 0 });
    }
    if matches_any(n, &["deepslate_bricks", "deepslate_tiles"]) {
        return Some(LegacyBlockState { id: 98, data: 0 });
    }
    if matches_any(n, &["cracked_deepslate_bricks", "cracked_deepslate_tiles"]) {
        return Some(LegacyBlockState { id: 98, data: 2 });
    }
    if name_is(n, "chiseled_deepslate") {
        return Some(LegacyBlockState { id: 98, data: 3 });
    }
    if name_is(n, "deepslate_coal_ore") {
        return Some(LegacyBlockState { id: 16, data: 0 });
    }
    if matches_any(n, &["deepslate_iron_ore", "deepslate_copper_ore"]) {
        return Some(LegacyBlockState { id: 15, data: 0 });
    }
    if name_is(n, "deepslate_gold_ore") {
        return Some(LegacyBlockState { id: 14, data: 0 });
    }
    if name_is(n, "deepslate_redstone_ore") {
        return Some(LegacyBlockState { id: 73, data: 0 });
    }
    variant_named_part_1(n)
}

/// The fixed-block names of the variant table (part 2).
pub open spec fn variant_named_state_1(n: Seq<u8>) -> Option<LegacyBlockState> {
    if n == lit("deepslate_lapis_ore") {
        Some(st(21, 0))
    } else if n == lit("deepslate_diamond_ore") {
        Some(st(56, 0))
    } else if n == lit("deepslate_emerald_ore") {
        Some(st(129, 0))
    } else if one_of(n, seq!["deepslate_tile_stairs", "deepslate_brick_stairs", "cobbled_deepslate_stairs"]) {
        Some(st(67, 0))
    } else if one_of(n, seq!["deepslate_tile_slab", "deepslate_brick_slab", "cobbled_deepslate_slab"]) {
        Some(st(44, 3))
    } else if one_of(n, seq!["deepslate_tile_wall", "deepslate_brick_wall", "cobbled_deepslate_wall"]) {
        Some(st(139, 0))
    } else if n == lit("grass_block") {
        Some(st(2, 0))
    } else if one_of(n, seq!["coarse_dirt", "podzol"]) {
        Some(st(3, 0))
    } else if one_of(n, seq!["grass_path", "dirt_path", "moss_carpet"]) {
        Some(st(2, 0))
    } else {
        variant_named_state_2(n)
    }
}

fn variant_named_part_1(n: &[u8]) -> (r: Option<LegacyBlockState>)
    ensures
        r == variant_named_state_1(n@),
{
    if name_is(n, "deepslate_lapis_ore") {
        return Some(LegacyBlockState { id: 21, data: 0 });
    }
    if name_is(n, "deepslate_diamond_ore") {
        return Some(LegacyBlockState { id: 56, data: 0 });
    }
    if name_is(n, "deepslate_emerald_ore") {
        return Some(LegacyBlockState { id: 129, data: 0 });
    }
    if matches_any(n, &["deepslate_tile_stairs", "deepslate_brick_stairs", "cobbled_deepslate_stairs"]) {
        return Some(LegacyBlockState { id: 67, data: 0 });
    }
    if matches_any(n, &["deepslate_tile_slab", "deepslate_brick_slab", "cobbled_deepslate_slab"]) {
        return Some(LegacyBlockState { id: 44, data: 3 });
    }
    if matches_any(n, &["deepslate_tile_wall", "deepslate_brick_wall", "cobbled_deepslate_wall"]) {
        return Some(LegacyBlockState { id: 139, data: 0 });
    }
    if name_is(n, "grass_block") {
        return Some(LegacyBlockState { id: 2, data: 0 });
    }
    if matches_any(n, &["coarse_dirt", "podzol"]) {
        return Some(LegacyBlockState { id: 3, data: 0 });
    }
    if matches_any(n, &["grass_path", "dirt_path", "moss_carpet"]) {
        return Some(LegacyBlockState { id: 2, data: 0 });
    }
    variant_named_part_2(n)
}

/// The fixed-block names of the variant table (part 3).
pub open spec fn variant_named_state_2(n: Seq<u8>) -> Option<LegacyBlockState> {
    if n == lit("cobblestone_wall") {
        Some(st(139, 0))
    } else if n == lit("mossy_cobblestone_wall") {
        Some(st(139, 1))
    } else if n == lit("smooth_stone_slab") {
        Some(st(44, 0))
    } else if n == lit("stone_brick_stairs") {
        Some(st(109, 0))
    } else if n == lit("mossy_stone_bricks") {
        Some(st(98, 1))
    } else if n == lit("cracked_stone_bricks") {
        Some(st(98, 2))
    } else if n == lit("chiseled_stone_bricks") {
        Some(st(98, 3))
    } else if n == lit("red_sand") {
        Some(st(12, 1))
    } else if n == lit("red_sandstone") {
        Some(st(24, 0))
    } else {
        variant_named_state_3(n)
    }
}

fn variant_named_part_2(n: &[u8]) -> (r: Option<LegacyBlockState>)
    ensures
        r == variant_named_state_2(n@),
{
    if name_is(n, "cobblestone_wall") {
        return Some(LegacyBlockState { id: 139, data: 0 });
    }
    if name_is(n, "mossy_cobblestone_wall") {
        return Some(LegacyBlockState { id: 139, data: 1 });
    }
    if name_is(n, "smooth_stone_slab") {
        return Some(LegacyBlockState { id: 44, data: 0 });
    }
    if name_is(n, "stone_brick_stairs") {
        return Some(LegacyBlockState { id: 109, data: 0 });
    }
    if name_is(n, "mossy_stone_bricks") {
        return Some(LegacyBlockState { id: 98, data: 1 });
    }
    if name_is(n, "cracked_stone_bricks") {
        return Some(LegacyBlockState { id: 98, data: 2 });
    }
    if name_is(n, "chiseled_stone_bricks") {
        return Some(LegacyBlockState { id: 98, data: 3 });
    }
    if name_is(n, "red_sand") {
        return Some(LegacyBlockState { id: 12, data: 1 });
    }
    if name_is(n, "red_sandstone") {
        return Some(LegacyBlockState { id: 24, data: 0 });
    }
    variant_named_part_3(n)
}

/// The fixed-block names of the variant table (part 4).
pub open spec fn variant_named_state_3(n: Seq<u8>) -> Option<LegacyBlockState> {
    if n == lit("smooth_sandstone") {
        Some(st(24, 2))
    } else if one_of(n, seq!["chiseled_sandstone", "cut_sandstone"]) {
        Some(st(24, 1))
    } else if one_of(n, seq!["smooth_red_sandstone", "chiseled_red_sandstone", "cut_red_sandstone"]) {
        Some(st(24, 0))
    } else if n == lit("red_sandstone_stairs") {
        Some(st(128, 0))
    } else if n == lit("red_sandstone_slab") {
        Some(st(44, 1))
    } else if one_of(n, seq!["prismarine", "prismarine_bricks", "dark_prismarine"]) {
        Some(st(1, 0))
    } else if n == lit("sea_lantern") {
        Some(st(89, 0))
    } else if one_of(n, seq!["purpur_block", "purpur_pillar"]) {
        Some(st(155, 0))
    } else if n == lit("purpur_stairs") {
        Some(st(156, 0))
    } else {
        variant_named_state_4(n)
    }
}

fn variant_named_part_3(n: &[u8]) -> (r: Option<LegacyBlockState>)
    ensures
        r == variant_named_state_3(n@),
{
    if name_is(n, "smooth_sandstone") {
        return Some(LegacyBlockState { id: 24, data: 2 });
    }
    if matches_any(n, &["chiseled_sandstone", "cut_sandstone"]) {
        return Some(LegacyBlockState { id: 24, data: 1 });
    }
    if matches_any(n, &["smooth_red_sandstone", "chiseled_red_sandstone", "cut_red_sandstone"]) {
        return Some(LegacyBlockState { id: 24, data: 0 });
    }
    if name_is(n, "red_sandstone_stairs") {
        return Some(LegacyBlockState { id: 128, data: 0 });
    }
    if name_is(n, "red_sandstone_slab") {
        return Some(LegacyBlockState { id: 44, data: 1 });
    }
    if matches_any(n, &["prismarine", "prismarine_bricks", "dark_prismarine"]) {
        return Some(LegacyBlockState { id: 1, data: 0 });
    }
    if name_is(n, "sea_lantern") {
        return Some(LegacyBlockState { id: 89, data: 0 });
    }
    if matches_any(n, &["purpur_block", "purpur_pillar"]) {
        return Some(LegacyBlockState { id: 155, data: 0 });
    }
    if name_is(n, "purpur_stairs") {
        return Some(LegacyBlockState { id: 156, data: 0 });
    }
    variant_named_part_4(n)
}

/// The fixed-block names of the variant table (part 5).
pub open spec fn variant_named_state_4(n: Seq<u8>) -> Option<LegacyBlockState> {
    if n == lit("purpur_slab") {
        Some(st(44, 0))
    } else if n == lit("end_stone_bricks") {
        Some(st(121, 0))
    } else if n == lit("magma_block") {
        Some(st(87, 0))
    } else if one_of(n, seq!["nether_wart_block", "red_nether_bricks"]) {
        Some(st(112, 0))
    } else if n == lit("bone_block") {
        Some(st(1, 0))
    } else if one_of(n, seq!["packed_ice", "blue_ice"]) {
        Some(st(79, 0))
    } else if one_of(n, seq!["observer", "beetroots", "kelp", "kelp_plant", "seagrass", "tall_seagrass", "coral_block", "tube_coral_block", "brain_coral_block", "bubble_coral_block", "fire_coral_block", "horn_coral_block", "end_rod", "chorus_plant", "chorus_flower", "end_gateway", "structure_void"]) {
        Some(st(0, 0))
    } else {
        None
    }
}

fn variant_named_part_4(n: &[u8]) -> (r: Option<LegacyBlockState>)
    ensures
        r == variant_named_state_4(n@),
{
    if name_is(n, "purpur_slab") {
        return Some(LegacyBlockState { id: 44, data: 0 });
    }
    if name_is(n, "end_stone_bricks") {
        return Some(LegacyBlockState { id: 121, data: 0 });
    }
    if name_is(n, "magma_block") {
        return Some(LegacyBlockState { id: 87, data: 0 });
    }
    if matches_any(n, &["nether_wart_block", "red_nether_bricks"]) {
        return Some(LegacyBlockState { id: 112, data: 0 });
    }
    if name_is(n, "bone_block") {
        return Some(LegacyBlockState { id: 1, data: 0 });
    }
    if matches_any(n, &["packed_ice", "blue_ice"]) {
        return Some(LegacyBlockState { id: 79, data: 0 });
    }
    if matches_any(n, &["observer", "beetroots", "kelp", "kelp_plant", "seagrass", "tall_seagrass", "coral_block", "tube_coral_block", "brain_coral_block", "bubble_coral_block", "fire_coral_block", "horn_coral_block", "end_rod", "chorus_plant", "chorus_flower", "end_gateway", "structure_void"]) {
        return Some(LegacyBlockState { id: 0, data: 0 });
    }
    None
}

/// Variant blocks: the common fallbacks, redstone lamps, the fixed-name
/// table, double plants and tall grass by half, and sandstone and stone
/// bricks by type.
pub open spec fn variant_state(n: Seq<u8>, props: Option<CompoundModel>) -> Option<LegacyBlockState> {
    if common_fallback_state(n, props) is Some {
        common_fallback_state(n, props)
    } else if n == lit("redstone_lamp") {
        Some(st(if prop_true(props, "lit"@) { 124 } else { 123 }, 0))
    } else if variant_named_state_0(n) is Some {
        variant_named_state_0(n)
    } else if one_of(n, seq!["sunflower", "lilac", "rose_bush", "peony"]) {
        Some(if prop(props, "half"@) == lit("upper") { st(0, 0) } else { st(38, 0) })
    } else if n == lit("tall_grass") {
        Some(
            if prop(props, "half"@) == lit("upper") {
                st(0, 0)
            } else {
                st(31, if prop(props, "type"@) == lit("fern") { 2 } else { 1 })
            },
        )
    } else if n == lit("large_fern") {
        Some(if prop(props, "half"@) == lit("upper") { st(0, 0) } else { st(31, 2) })
    } else if n == lit("stone") {
        Some(st(1, 0))
    } else if n == lit("sandstone") {
        let t = prop(props, "type"@);
        Some(st(24, if t == lit("chiseled") { 1 } else if t == lit("smooth") { 2 } else { 0 }))
    } else if n == lit("stone_bricks") {
        let t = prop(props, "type"@);
        Some(
            st(
                98,
                if t == lit("mossy") {
                    1
                } else if t == lit("cracked") {
                    2
                } else if t == lit("chiseled") {
                    3
                } else {
                    0
                },
            ),
        )
    } else {
        None
    }
}

fn try_map_variant(n: &[u8], properties: Option<&NbtCompound>) -> (r: Option<LegacyBlockState>)
    ensures
        r == variant_state(n@, props_of(properties)),
{
    if let Some(f) = try_map_common_fallback(n, properties) {
        return Some(f);
    }
    if name_is(n, "redstone_lamp") {
        let lit_on = get_bool_property(properties, "lit");
        return Some(LegacyBlockState { id: if lit_on { 124 } else { 123 }, data: 0 });
    }
    if let Some(v) = variant_named_part_0(n) {
        return Some(v);
    }
    let half_upper = name_is(get_property(properties, "half"), "upper");
    if matches_any(n, &["sunflower", "lilac", "rose_bush", "peony"]) {
        return Some(if half_upper { LegacyBlockState { id: 0, data: 0 } } else { LegacyBlockState { id: 38, data: 0 } });
    }
    if name_is(n, "tall_grass") {
        if half_upper {
            return Some(LegacyBlockState { id: 0, data: 0 });
        }
        let data: u8 = if name_is(get_property(properties, "type"), "fern") { 2 } else { 1 };
        return Some(LegacyBlockState { id: 31, data });
    }
    if name_is(n, "large_fern") {
        return Some(if half_upper { LegacyBlockState { id: 0, data: 0 } } else { LegacyBlockState { id: 31, data: 2 } });
    }
    if name_is(n, "stone") {
        return Some(LegacyBlockState { id: 1, data: 0 });
    }
    if name_is(n, "sandstone") {
        let t = get_property(properties, "type");
        let data: u8 = if name_is(t, "chiseled") { 1 } else if name_is(t, "smooth") { 2 } else { 0 };
        return Some(LegacyBlockState { id: 24, data });
    }
    if name_is(n, "stone_bricks") {
        let t = get_property(properties, "type");
        let data: u8 = if name_is(t, "mossy") {
            1
        } else if name_is(t, "cracked") {
            2
        } else if name_is(t, "chiseled") {
            3
        } else {
            0
        };
        return Some(LegacyBlockState { id: 98, data });
    }
    None
}


// ---------------------------------------------------------------------
// Mapping a block state.
// ---------------------------------------------------------------------

/// The name of a block-state compound as bytes, without a `minecraft:`
/// namespace (`air` when the compound has no String `Name`).
pub open spec fn state_name(c: CompoundModel) -> Seq<u8> {
    let raw = match lookup(c.tags, "Name"@) {
        Some(NbtTag::Text(t)) => encode_utf8(t),
        _ => lit("minecraft:air"),
    };
    if starts_with(raw, lit("minecraft:")) {
        raw.skip(lit("minecraft:").len() as int)
    } else {
        raw
    }
}

/// The `Properties` compound of a block state, if any.
pub open spec fn state_props(c: CompoundModel) -> Option<CompoundModel> {
    match lookup(c.tags, "Properties"@) {
        Some(NbtTag::Compound(p)) => Some(p),
        _ => None,
    }
}

/// The legacy block of a modern block state: the first of the fluid, slab,
/// directional, colour-prefixed, fixed-name, coloured, wooden and variant
/// mappings that applies, else air.
pub open spec fn modern_block_state(c: CompoundModel) -> LegacyBlockState {
    let n = state_name(c);
    let p = state_props(c);
    if fluid_state(n, p) is Some {
        fluid_state(n, p)->0
    } else if slab_state(n, p) is Some {
        slab_state(n, p)->0
    } else if directional_state(n, p) is Some {
        directional_state(n, p)->0
    } else if flattened_colored_state(n) is Some {
        flattened_colored_state(n)->0
    } else if direct_state_0(n) is Some {
        direct_state_0(n)->0
    } else if colored_state(n, p) is Some {
        colored_state(n, p)->0
    } else if wood_state(n, p) is Some {
        wood_state(n, p)->0
    } else if variant_state(n, p) is Some {
        variant_state(n, p)->0
    } else {
        st(0, 0)
    }
}

/// Whether `modern_block_state` found no mapping for `c`.
pub open spec fn unmapped(c: CompoundModel) -> bool {
    let n = state_name(c);
    let p = state_props(c);
    fluid_state(n, p) is None && slab_state(n, p) is None && directional_state(n, p) is None
        && flattened_colored_state(n) is None && direct_state_0(n) is None && colored_state(n, p)
        is None && wood_state(n, p) is None && variant_state(n, p) is None
}

fn name_and_props(compound: &NbtCompound) -> (r: (&[u8], Option<&NbtCompound>))
    ensures
        r.0@ == state_name(compound@),
        props_of(r.1) == state_props(compound@),
{
    let raw: &str = match compound.string("Name") {
        Some(s) => s,
        None => "minecraft:air",
    };
    let bytes = raw.as_bytes();
    let n = if starts(bytes, "minecraft:") {
        crate::region::slice_range(bytes, "minecraft:".as_bytes().len(), bytes.len())
    } else {
        bytes
    };
    (n, compound.compound("Properties"))
}

fn map_inner(n: &[u8], properties: Option<&NbtCompound>) -> (r: Option<LegacyBlockState>)
    ensures
        r is None <==> (fluid_state(n@, props_of(properties)) is None && slab_state(
            n@,
            props_of(properties),
        ) is None && directional_state(n@, props_of(properties)) is None
            && flattened_colored_state(n@) is None && direct_state_0(n@) is None && colored_state(
            n@,
            props_of(properties),
        ) is None && wood_state(n@, props_of(properties)) is None && variant_state(
            n@,
            props_of(properties),
        ) is None),
        r matches Some(s) ==> ({
            let p = props_of(properties);
            s == if fluid_state(n@, p) is Some {
                fluid_state(n@, p)->0
            } else if slab_state(n@, p) is Some {
                slab_state(n@, p)->0
            } else if directional_state(n@, p) is Some {
                directional_state(n@, p)->0
            } else if flattened_colored_state(n@) is Some {
                flattened_colored_state(n@)->0
            } else if direct_state_0(n@) is Some {
                direct_state_0(n@)->0
            } else if colored_state(n@, p) is Some {
                colored_state(n@, p)->0
            } else if wood_state(n@, p) is Some {
                wood_state(n@, p)->0
            } else {
                variant_state(n@, p)->0
            }
        }),
{
    if let Some(x) = try_map_fluid(n, properties) {
        return Some(x);
    }
    if let Some(x) = try_map_slab(n, properties) {
        return Some(x);
    }
    if let Some(x) = try_map_directional(n, properties) {
        return Some(x);
    }
    if let Some(x) = try_map_flattened_colored(n) {
        return Some(x);
    }
    if let Some(x) = direct_part_0(n) {
        return Some(x);
    }
    if let Some(x) = try_map_colored(n, properties) {
        return Some(x);
    }
    if let Some(x) = try_map_wood(n, properties) {
        return Some(x);
    }
    try_map_variant(n, properties)
}

/// The legacy block of a modern block state (see `modern_block_state`).
pub fn map_modern_block_state(compound: &NbtCompound) -> (r: LegacyBlockState)
    ensures
        r == modern_block_state(compound@),
{
    let (n, properties) = name_and_props(compound);
    match map_inner(n, properties) {
        Some(x) => x,
        None => LegacyBlockState { id: 0, data: 0 },
    }
}

/// Whether `n` names some kind of air.
pub open spec fn is_air_name(n: Seq<u8>) -> bool {
    n.len() == 0 || n == lit("air") || n == lit("cave_air") || n == lit("void_air")
}

/// Maps a modern block state as `map_modern_block_state` does, and records
/// the name of a state with no mapping (other than air) in `unknown_blocks`.
pub fn map_modern_block_state_with_context(compound: &NbtCompound, unknown_blocks: &mut Vec<String>) -> (r:
    LegacyBlockState)
    ensures
        r == modern_block_state(compound@),
        unmapped(compound@) && !is_air_name(state_name(compound@)) ==> final(unknown_blocks)@.len()
            == old(unknown_blocks)@.len() + 1 && final(unknown_blocks)@.drop_last() == old(
            unknown_blocks,
        )@ && final(unknown_blocks)@.last()@ == crate::text::lossy_text(state_name(compound@)),
        !(unmapped(compound@) && !is_air_name(state_name(compound@))) ==> final(unknown_blocks)@
            == old(unknown_blocks)@,
{
    let (n, properties) = name_and_props(compound);
    match map_inner(n, properties) {
        Some(x) => x,
        None => {
            if n.len() != 0 && !name_is(n, "air") && !name_is(n, "cave_air") && !name_is(n, "void_air") {
                let name = crate::text::text_from_bytes_lossy(n);
                unknown_blocks.push(name);
            }
            LegacyBlockState { id: 0, data: 0 }
        },
    }
}

// ---------------------------------------------------------------------
// Remapping legacy ids.
// ---------------------------------------------------------------------

/// Whether the console knows tile id `id`.
pub open spec fn valid_lce_tile_id(id: u8) -> bool {
    id <= 160 || (170 <= id && id <= 173)
}

/// Computes `valid_lce_tile_id`.
pub fn is_valid_lce_tile_id(id: u8) -> (r: bool)
    ensures
        r == valid_lce_tile_id(id),
{
    id <= 160 || (id >= 170 && id <= 173)
}

/// The console replacement of a Java id of 165 or more, where there is one.
pub open spec fn remap_entry(id: u8) -> Option<u8> {
    match id {
        165 => Some(0u8),
        166 => Some(0u8),
        167 => Some(96u8),
        168 => Some(1u8),
        169 => Some(89u8),
        174 => Some(79u8),
        175 => Some(0u8),
        176 => Some(0u8),
        177 => Some(0u8),
        178 => Some(151u8),
        179 => Some(24u8),
        180 => Some(128u8),
        181 => Some(43u8),
        182 => Some(44u8),
        183 => Some(107u8),
        184 => Some(107u8),
        185 => Some(107u8),
        186 => Some(107u8),
        187 => Some(107u8),
        188 => Some(85u8),
        189 => Some(85u8),
        190 => Some(85u8),
        191 => Some(85u8),
        192 => Some(85u8),
        193 => Some(64u8),
        194 => Some(64u8),
        195 => Some(64u8),
        196 => Some(64u8),
        197 => Some(64u8),
        198 => Some(0u8),
        199 => Some(0u8),
        200 => Some(0u8),
        201 => Some(155u8),
        202 => Some(155u8),
        203 => Some(156u8),
        204 => Some(43u8),
        205 => Some(44u8),
        206 => Some(121u8),
        207 => Some(0u8),
        208 => Some(2u8),
        209 => Some(0u8),
        210 => Some(1u8),
        211 => Some(1u8),
        212 => Some(79u8),
        213 => Some(87u8),
        214 => Some(112u8),
        215 => Some(112u8),
        216 => Some(1u8),
        217 => Some(0u8),
        218 => Some(0u8),
        219 => Some(0u8),
        220 => Some(0u8),
        221 => Some(0u8),
        222 => Some(0u8),
        223 => Some(0u8),
        224 => Some(0u8),
        225 => Some(0u8),
        226 => Some(0u8),
        227 => Some(0u8),
        228 => Some(0u8),
        229 => Some(0u8),
        230 => Some(0u8),
        231 => Some(0u8),
        232 => Some(0u8),
        233 => Some(0u8),
        234 => Some(0u8),
        235 => Some(159u8),
        236 => Some(159u8),
        237 => Some(159u8),
        238 => Some(159u8),
        239 => Some(159u8),
        240 => Some(159u8),
        241 => Some(159u8),
        242 => Some(159u8),
        243 => Some(159u8),
        244 => Some(159u8),
        245 => Some(159u8),
        246 => Some(159u8),
        247 => Some(159u8),
        248 => Some(159u8),
        249 => Some(159u8),
        250 => Some(159u8),
        251 => Some(172u8),
        252 => Some(12u8),
        _ => None,
    }
}

fn remap_lookup(id: u8) -> (r: Option<u8>)
    ensures
        r == remap_entry(id),
{
    match id {
        165 => Some(0u8),
        166 => Some(0u8),
        167 => Some(96u8),
        168 => Some(1u8),
        169 => Some(89u8),
        174 => Some(79u8),
        175 => Some(0u8),
        176 => Some(0u8),
        177 => Some(0u8),
        178 => Some(151u8),
        179 => Some(24u8),
        180 => Some(128u8),
        181 => Some(43u8),
        182 => Some(44u8),
        183 => Some(107u8),
        184 => Some(107u8),
        185 => Some(107u8),
        186 => Some(107u8),
        187 => Some(107u8),
        188 => Some(85u8),
        189 => Some(85u8),
        190 => Some(85u8),
        191 => Some(85u8),
        192 => Some(85u8),
        193 => Some(64u8),
        194 => Some(64u8),
        195 => Some(64u8),
        196 => Some(64u8),
        197 => Some(64u8),
        198 => Some(0u8),
        199 => Some(0u8),
        200 => Some(0u8),
        201 => Some(155u8),
        202 => Some(155u8),
        203 => Some(156u8),
        204 => Some(43u8),
        205 => Some(44u8),
        206 => Some(121u8),
        207 => Some(0u8),
        208 => Some(2u8),
        209 => Some(0u8),
        210 => Some(1u8),
        211 => Some(1u8),
        212 => Some(79u8),
        213 => Some(87u8),
        214 => Some(112u8),
        215 => Some(112u8),
        216 => Some(1u8),
        217 => Some(0u8),
        218 => Some(0u8),
        219 => Some(0u8),
        220 => Some(0u8),
        221 => Some(0u8),
        222 => Some(0u8),
        223 => Some(0u8),
        224 => Some(0u8),
        225 => Some(0u8),
        226 => Some(0u8),
        227 => Some(0u8),
        228 => Some(0u8),
        229 => Some(0u8),
        230 => Some(0u8),
        231 => Some(0u8),
        232 => Some(0u8),
        233 => Some(0u8),
        234 => Some(0u8),
        235 => Some(159u8),
        236 => Some(159u8),
        237 => Some(159u8),
        238 => Some(159u8),
        239 => Some(159u8),
        240 => Some(159u8),
        241 => Some(159u8),
        242 => Some(159u8),
        243 => Some(159u8),
        244 => Some(159u8),
        245 => Some(159u8),
        246 => Some(159u8),
        247 => Some(159u8),
        248 => Some(159u8),
        249 => Some(159u8),
        250 => Some(159u8),
        251 => Some(172u8),
        252 => Some(12u8),
        _ => None,
    }
}

/// The console id of Java block id `id`: command blocks become stone, ids
/// from 165 on go through the replacement table, and any id the console
/// lacks becomes air.
pub open spec fn remapped_id(id: u8) -> u8 {
    let a: u8 = if id == 137 { 1 } else { id };
    let b: u8 = if a >= 165 {
        match remap_entry(a) {
            Some(r) => r,
            None => a,
        }
    } else {
        a
    };
    if valid_lce_tile_id(b) {
        b
    } else {
        0
    }
}

/// Rewrites every block id to its console id (see `remapped_id`); the data
/// array is left as it is.
pub fn remap_blocks(blocks: &mut [u8], data: &mut [u8])
    ensures
        final(blocks)@.len() == old(blocks)@.len(),
        forall|i: int| 0 <= i < old(blocks)@.len() ==> #[trigger] final(blocks)@[i] == remapped_id(
            old(blocks)@[i],
        ),
        final(data)@ == old(data)@,
{
    let mut i: usize = 0;
    while i < blocks.len()
        invariant
            i <= blocks@.len(),
            blocks@.len() == old(blocks)@.len(),
            forall|j: int| 0 <= j < i ==> #[trigger] blocks@[j] == remapped_id(old(blocks)@[j]),
            forall|j: int| i <= j < blocks@.len() ==> #[trigger] blocks@[j] == old(blocks)@[j],
        decreases blocks@.len() - i,
    {
        let mut bid = blocks[i];
        if bid == 137 {
            bid = 1;
        }
        if bid >= 165 {
            if let Some(r) = remap_lookup(bid) {
                bid = r;
            }
        }
        if !is_valid_lce_tile_id(bid) {
            bid = 0;
        }
        blocks[i] = bid;
        i += 1;
    }
}

} // verus!
