//! Building a modern Anvil chunk level from a legacy (Console Edition)
//! chunk level: contextual block states, section palettes and packed
//! block-state longs.
use vstd::prelude::*;
use crate::modern_names::{modern_name, contextual_modern_name};
use crate::nbt::{nibble_at, get_nibble, lookup, NbtValue, NbtCompound, NbtTag, CompoundModel, values_model};
use crate::block_mapping::{lit, lit_of, starts, starts_with};
use crate::text::same_text;
use crate::payload::put;
use crate::chunk::{bits_required, get_bits_required};
use crate::text::push_char;

verus! {

/// A property of a modern block state: its key and value.
pub type PropModel = (Seq<char>, Seq<char>);

/// A modern block state: a name and its properties, in order.
pub struct ModernState {
    pub name: String,
    pub props: Vec<(String, String)>,
}

/// The characters of each property of `v`.
pub open spec fn props_view(v: Seq<(String, String)>) -> Seq<PropModel> {
    Seq::new(v.len(), |i: int| (v[i].0@, v[i].1@))
}

impl View for ModernState {
    type V = (Seq<char>, Seq<PropModel>);

    open spec fn view(&self) -> (Seq<char>, Seq<PropModel>) {
        (self.name@, props_view(self.props@))
    }
}

/// An owned copy of a string.
pub fn owned(s: &str) -> (r: String)
    ensures
        r@ == s@,
{
    let r = s.to_string();
    proof {
        vstd::string::to_string_from_display_ensures_for_str(s, r);
    }
    r
}

fn kv(k: &str, v: &str) -> (r: (String, String))
    ensures
        r.0@ == k@,
        r.1@ == v@,
{
    (owned(k), owned(v))
}

// ---------------------------------------------------------------------
// Neighbours in the legacy block layout.
// ---------------------------------------------------------------------

/// The id and data value of the legacy block at `(nx, ny, nz)` of a chunk,
/// `(0, 0)` outside the chunk or past the end of the block array.
pub open spec fn neighbor(blocks: Seq<u8>, data: Seq<u8>, nx: int, ny: int, nz: int) -> (u8, u8) {
    if nx < 0 || nx > 15 || ny < 0 || ny > 127 || nz < 0 || nz > 15 {
        (0, 0)
    } else {
        let idx = (nx * 16 + nz) * 128 + ny;
        if idx >= blocks.len() {
            (0, 0)
        } else {
            (blocks[idx], nibble_at(data, idx))
        }
    }
}

fn get_neighbor(blocks: &[u8], data: &[u8], nx: i64, ny: i64, nz: i64) -> (r: (u8, u8))
    ensures
        r == neighbor(blocks@, data@, nx as int, ny as int, nz as int),
{
    if nx < 0 || nx > 15 || ny < 0 || ny > 127 || nz < 0 || nz > 15 {
        return (0, 0);
    }
    let idx: usize = ((nx as usize * 16) + nz as usize) * 128 + ny as usize;
    if idx >= blocks.len() {
        return (0, 0);
    }
    (blocks[idx], get_nibble(data, idx))
}

// ---------------------------------------------------------------------
// Small texts.
// ---------------------------------------------------------------------

/// `"true"` or `"false"`.
pub open spec fn bool_text(b: bool) -> Seq<char> {
    if b {
        "true"@
    } else {
        "false"@
    }
}

fn bool_str(b: bool) -> (r: &'static str)
    ensures
        r@ == bool_text(b),
{
    if b {
        "true"
    } else {
        "false"
    }
}

/// The decimal digit character of `d`.
pub open spec fn digit_char(d: nat) -> char {
    ((48 + d) as u8) as char
}

/// The decimal text of `n`.
pub open spec fn decimal(n: nat) -> Seq<char>
    decreases n,
{
    if n < 10 {
        seq![digit_char(n)]
    } else {
        decimal(n / 10).push(digit_char(n % 10))
    }
}

pub(crate) fn decimal_text(n: u8) -> (r: String)
    ensures
        r@ == decimal(n as nat),
{
    let mut s = String::new();
    if n >= 100 {
        push_char(&mut s, ((48 + n / 100) as u8) as char);
    }
    if n >= 10 {
        push_char(&mut s, ((48 + (n / 10) % 10) as u8) as char);
    }
    push_char(&mut s, ((48 + n % 10) as u8) as char);
    proof {
        reveal_with_fuel(decimal, 3);
        if n >= 100 {
            assert(decimal((n / 100) as nat) == seq![digit_char((n / 100) as nat)]);
            assert(decimal((n / 10) as nat) == decimal((n / 100) as nat).push(
                digit_char(((n / 10) % 10) as nat),
            ));
        } else if n >= 10 {
            assert(decimal((n / 10) as nat) == seq![digit_char((n / 10) as nat)]);
        }
    }
    s
}

// ---------------------------------------------------------------------
// Directions.
// ---------------------------------------------------------------------

/// A horizontal direction.
#[derive(Clone, Copy, PartialEq, Eq, Structural)]
pub enum Facing {
    North,
    South,
    West,
    East,
}

/// The name of a direction.
pub open spec fn facing_text(f: Facing) -> Seq<char> {
    match f {
        Facing::North => "north"@,
        Facing::South => "south"@,
        Facing::West => "west"@,
        Facing::East => "east"@,
    }
}

fn facing_str(f: Facing) -> (r: &'static str)
    ensures
        r@ == facing_text(f),
{
    match f {
        Facing::North => "north",
        Facing::South => "south",
        Facing::West => "west",
        Facing::East => "east",
    }
}

/// The facing of a door from the two low bits of its data value.
pub open spec fn door_facing(m: u8) -> Facing {
    let f = m & 3u8;
    if f == 0 {
        Facing::East
    } else if f == 1 {
        Facing::South
    } else if f == 2 {
        Facing::West
    } else {
        Facing::North
    }
}

/// The facing of a wall sign (and of a chest's fallback east) from its data value.
pub open spec fn wall_sign_facing(m: u8) -> Facing {
    if m == 2 {
        Facing::North
    } else if m == 3 {
        Facing::South
    } else if m == 4 {
        Facing::West
    } else {
        Facing::East
    }
}

/// The facing of a wall torch whose data value is 1 to 4.
pub open spec fn torch_facing(m: u8) -> Facing {
    if m == 1 {
        Facing::East
    } else if m == 2 {
        Facing::West
    } else if m == 3 {
        Facing::South
    } else {
        Facing::North
    }
}

/// The facing of a chest from its data value.
pub open spec fn chest_facing(m: u8) -> Facing {
    if m == 2 {
        Facing::North
    } else if m == 3 {
        Facing::South
    } else if m == 4 {
        Facing::West
    } else if m == 5 {
        Facing::East
    } else {
        Facing::South
    }
}

/// The facing of a stair from its data value.
pub open spec fn stair_facing(m: u8) -> Facing {
    let f = m & 3u8;
    if f == 0 {
        Facing::East
    } else if f == 1 {
        Facing::West
    } else if f == 2 {
        Facing::South
    } else {
        Facing::North
    }
}

fn door_facing_of(m: u8) -> (r: Facing)
    ensures
        r == door_facing(m),
{
    let f = m & 3;
    if f == 0 {
        Facing::East
    } else if f == 1 {
        Facing::South
    } else if f == 2 {
        Facing::West
    } else {
        Facing::North
    }
}

fn stair_facing_of(m: u8) -> (r: Facing)
    ensures
        r == stair_facing(m),
{
    let f = m & 3;
    if f == 0 {
        Facing::East
    } else if f == 1 {
        Facing::West
    } else if f == 2 {
        Facing::South
    } else {
        Facing::North
    }
}

/// Whether a stair of facing `nb` stands to the left (`Some(true)`) or the
/// right (`Some(false)`) of one of facing `cur`, or neither.
pub open spec fn relative_side(cur: Facing, nb: Facing) -> Option<bool> {
    match cur {
        Facing::North => if nb == Facing::West {
            Some(true)
        } else if nb == Facing::East {
            Some(false)
        } else {
            None
        },
        Facing::South => if nb == Facing::East {
            Some(true)
        } else if nb == Facing::West {
            Some(false)
        } else {
            None
        },
        Facing::West => if nb == Facing::South {
            Some(true)
        } else if nb == Facing::North {
            Some(false)
        } else {
            None
        },
        Facing::East => if nb == Facing::North {
            Some(true)
        } else if nb == Facing::South {
            Some(false)
        } else {
            None
        },
    }
}

fn get_relative_side(cur: Facing, nb: Facing) -> (r: Option<bool>)
    ensures
        r == relative_side(cur, nb),
{
    match cur {
        Facing::North => if nb == Facing::West {
            Some(true)
        } else if nb == Facing::East {
            Some(false)
        } else {
            None
        },
        Facing::South => if nb == Facing::East {
            Some(true)
        } else if nb == Facing::West {
            Some(false)
        } else {
            None
        },
        Facing::West => if nb == Facing::South {
            Some(true)
        } else if nb == Facing::North {
            Some(false)
        } else {
            None
        },
        Facing::East => if nb == Facing::North {
            Some(true)
        } else if nb == Facing::South {
            Some(false)
        } else {
            None
        },
    }
}

// ---------------------------------------------------------------------
// Block families.
// ---------------------------------------------------------------------

/// Legacy doors.
pub open spec fn is_door(id: u8) -> bool {
    id == 64 || id == 71 || (193 <= id && id <= 197)
}

/// Legacy stairs.
pub open spec fn is_stair(id: u8) -> bool {
    id == 53 || id == 67 || id == 108 || id == 109 || id == 114 || id == 128 || id == 134
        || id == 135 || id == 136 || id == 156 || id == 163 || id == 164 || id == 180
}

/// Legacy fences.
pub open spec fn is_fence(id: u8) -> bool {
    id == 85 || id == 113 || (188 <= id && id <= 192)
}

/// Legacy fence gates.
pub open spec fn is_fence_gate(id: u8) -> bool {
    id == 107 || (183 <= id && id <= 187)
}

/// Legacy panes and bars.
pub open spec fn is_pane(id: u8) -> bool {
    id == 101 || id == 102 || id == 160
}

/// Legacy glass blocks.
pub open spec fn is_glass(id: u8) -> bool {
    id == 20 || id == 95
}

/// Blocks that a fence or pane is taken not to attach to.
pub open spec fn non_attaching(id: u8) -> bool {
    id == 6 || id == 27 || id == 28 || id == 30 || id == 31 || id == 32 || id == 37 || id == 38
        || id == 39 || id == 40 || id == 50 || id == 51 || id == 55 || id == 59 || id == 63
        || id == 65 || id == 66 || id == 68 || id == 69 || id == 70 || id == 71 || id == 72
        || id == 75 || id == 76 || id == 77 || id == 78 || id == 83 || id == 90 || id == 92
        || id == 93 || id == 94 || id == 96 || id == 101 || id == 102 || id == 104 || id == 105
        || id == 106 || id == 107 || id == 111 || id == 115 || id == 119 || id == 127 || id == 131
        || id == 132 || id == 141 || id == 142 || id == 143 || id == 147 || id == 148 || id == 149
        || id == 150 || id == 157 || id == 160 || id == 171 || id == 175
}

/// Whether a block is likely solid enough for a fence or pane to attach to.
pub open spec fn is_solid_attachment(id: u8) -> bool {
    id != 0 && !(8 <= id && id <= 11) && !non_attaching(id)
}

/// Whether a fence connects towards a neighbour with this id.
pub open spec fn fence_link(id: u8) -> bool {
    is_fence(id) || is_fence_gate(id) || is_solid_attachment(id)
}

/// Whether a pane connects towards a neighbour with this id.
pub open spec fn pane_link(id: u8) -> bool {
    is_pane(id) || is_glass(id) || is_solid_attachment(id)
}

fn is_door_id(id: u8) -> (r: bool)
    ensures
        r == is_door(id),
{
    id == 64 || id == 71 || (193 <= id && id <= 197)
}

fn is_stair_id(id: u8) -> (r: bool)
    ensures
        r == is_stair(id),
{
    id == 53 || id == 67 || id == 108 || id == 109 || id == 114 || id == 128 || id == 134
        || id == 135 || id == 136 || id == 156 || id == 163 || id == 164 || id == 180
}

fn is_fence_id(id: u8) -> (r: bool)
    ensures
        r == is_fence(id),
{
    id == 85 || id == 113 || (188 <= id && id <= 192)
}

fn is_pane_id(id: u8) -> (r: bool)
    ensures
        r == is_pane(id),
{
    id == 101 || id == 102 || id == 160
}

fn is_likely_solid_attachment(id: u8) -> (r: bool)
    ensures
        r == is_solid_attachment(id),
{
    if id == 0 {
        return false;
    }
    if id >= 8 && id <= 11 {
        return false;
    }
    !(id == 6 || id == 27 || id == 28 || id == 30 || id == 31 || id == 32 || id == 37 || id == 38
        || id == 39 || id == 40 || id == 50 || id == 51 || id == 55 || id == 59 || id == 63
        || id == 65 || id == 66 || id == 68 || id == 69 || id == 70 || id == 71 || id == 72
        || id == 75 || id == 76 || id == 77 || id == 78 || id == 83 || id == 90 || id == 92
        || id == 93 || id == 94 || id == 96 || id == 101 || id == 102 || id == 104 || id == 105
        || id == 106 || id == 107 || id == 111 || id == 115 || id == 119 || id == 127 || id == 131
        || id == 132 || id == 141 || id == 142 || id == 143 || id == 147 || id == 148 || id == 149
        || id == 150 || id == 157 || id == 160 || id == 171 || id == 175)
}

fn fence_links(id: u8) -> (r: bool)
    ensures
        r == fence_link(id),
{
    is_fence_id(id) || (id == 107 || (183 <= id && id <= 187)) || is_likely_solid_attachment(id)
}

fn pane_links(id: u8) -> (r: bool)
    ensures
        r == pane_link(id),
{
    is_pane_id(id) || (id == 20 || id == 95) || is_likely_solid_attachment(id)
}

// ---------------------------------------------------------------------
// Contextual properties.
// ---------------------------------------------------------------------

/// Whether a stair's data value marks it upside down.
pub open spec fn stair_top(m: u8) -> bool {
    m & 4u8 != 0
}

/// The properties of a door, from its data value and the blocks below and
/// above it.
pub open spec fn door_props(id: u8, meta: u8, below: (u8, u8), above: (u8, u8)) -> Seq<PropModel> {
    if meta & 8u8 == 8 {
        seq![
            ("half"@, "upper"@),
            ("hinge"@, if meta & 1u8 == 1 { "right"@ } else { "left"@ }),
            ("facing"@, if below.0 == id { facing_text(door_facing(below.1)) } else { "east"@ }),
            ("open"@, if below.0 == id { bool_text(below.1 & 4u8 == 4) } else { "false"@ }),
        ]
    } else {
        seq![
            ("half"@, "lower"@),
            ("facing"@, facing_text(door_facing(meta))),
            ("open"@, bool_text(meta & 4u8 == 4)),
            ("hinge"@, if above.0 == id && above.1 & 1u8 == 1 { "right"@ } else { "left"@ }),
        ]
    }
}

/// The properties of a torch (plain, unlit or lit redstone).
pub open spec fn torch_props(id: u8, meta: u8) -> Seq<PropModel> {
    let f: Seq<PropModel> = if 1 <= meta && meta <= 4 {
        seq![("facing"@, facing_text(torch_facing(meta)))]
    } else {
        seq![]
    };
    if id == 76 {
        f.push(("lit"@, "true"@))
    } else if id == 75 {
        f.push(("lit"@, "false"@))
    } else {
        f
    }
}

/// Whether a chest facing `f` counts a same-kind neighbour at `(dx, dz)`
/// as standing on its left.
pub open spec fn chest_left(f: Facing, dx: int, dz: int) -> bool {
    match f {
        Facing::North => dx == -1,
        Facing::South => dx == 1,
        Facing::West => dz == 1,
        Facing::East => dz == -1,
    }
}

/// The `type` of a chest of kind `id` facing `f`, from the ids of its west,
/// east, north and south neighbours, in that order of preference.
pub open spec fn chest_type(id: u8, f: Facing, w: u8, e: u8, n: u8, s: u8) -> Seq<char> {
    let side = |dx: int, dz: int|
        if chest_left(f, dx, dz) {
            "right"@
        } else {
            "left"@
        };
    if w == id {
        side(-1, 0)
    } else if e == id {
        side(1, 0)
    } else if n == id {
        side(0, -1)
    } else if s == id {
        side(0, 1)
    } else {
        "single"@
    }
}

/// The offset towards the front of a stair facing `f`.
pub open spec fn stair_front(f: Facing) -> (int, int) {
    match f {
        Facing::North => (0, 1),
        Facing::South => (0, -1),
        Facing::West => (1, 0),
        Facing::East => (-1, 0),
    }
}

/// The `shape` of a stair from the blocks behind and in front of it.
pub open spec fn stair_shape(f: Facing, top: bool, back: (u8, u8), front: (u8, u8)) -> Seq<char> {
    if is_stair(back.0) {
        if stair_top(back.1) == top {
            match relative_side(f, stair_facing(back.1)) {
                Some(true) => "outer_left"@,
                Some(false) => "outer_right"@,
                None => "straight"@,
            }
        } else {
            "straight"@
        }
    } else if is_stair(front.0) && stair_top(front.1) == top {
        match relative_side(f, stair_facing(front.1)) {
            Some(true) => "inner_left"@,
            Some(false) => "inner_right"@,
            None => "straight"@,
        }
    } else {
        "straight"@
    }
}

/// The four connection properties of a fence or pane.
pub open spec fn link_props(n: bool, e: bool, s: bool, w: bool) -> Seq<PropModel> {
    seq![
        ("north"@, bool_text(n)),
        ("east"@, bool_text(e)),
        ("south"@, bool_text(s)),
        ("west"@, bool_text(w)),
    ]
}

/// The properties of the modern block state of the legacy block `(id, meta)`
/// at `(x, y, z)` of a chunk whose legacy blocks and data are given: doors,
/// signs, torches, chests, stairs, fences and panes take them from their
/// data value and their neighbours; other blocks have none.
pub open spec fn contextual_props(
    id: u8,
    meta: u8,
    x: int,
    y: int,
    z: int,
    blocks: Seq<u8>,
    data: Seq<u8>,
) -> Seq<PropModel> {
    let nb = |dx: int, dy: int, dz: int| neighbor(blocks, data, x + dx, y + dy, z + dz);
    if is_door(id) {
        door_props(id, meta, nb(0, -1, 0), nb(0, 1, 0))
    } else if id == 63 {
        seq![("rotation"@, decimal(meta as nat))]
    } else if id == 68 {
        seq![("facing"@, facing_text(wall_sign_facing(meta)))]
    } else if id == 50 || id == 75 || id == 76 {
        torch_props(id, meta)
    } else if id == 54 || id == 146 {
        let f = chest_facing(meta);
        seq![
            ("type"@, chest_type(id, f, nb(-1, 0, 0).0, nb(1, 0, 0).0, nb(0, 0, -1).0, nb(0, 0, 1).0)),
            ("facing"@, facing_text(f)),
        ]
    } else if is_stair(id) {
        let f = stair_facing(meta);
        let (fx, fz) = stair_front(f);
        seq![
            ("facing"@, facing_text(f)),
            ("half"@, if stair_top(meta) { "top"@ } else { "bottom"@ }),
            ("shape"@, stair_shape(f, stair_top(meta), nb(-fx, 0, -fz), nb(fx, 0, fz))),
        ]
    } else if is_fence(id) {
        link_props(
            fence_link(nb(0, 0, -1).0),
            fence_link(nb(1, 0, 0).0),
            fence_link(nb(0, 0, 1).0),
            fence_link(nb(-1, 0, 0).0),
        )
    } else if is_pane(id) {
        link_props(
            pane_link(nb(0, 0, -1).0),
            pane_link(nb(1, 0, 0).0),
            pane_link(nb(0, 0, 1).0),
            pane_link(nb(-1, 0, 0).0),
        )
    } else {
        seq![]
    }
}

/// The modern block state of a legacy block in its chunk.
pub open spec fn contextual_state(
    id: u8,
    meta: u8,
    x: int,
    y: int,
    z: int,
    blocks: Seq<u8>,
    data: Seq<u8>,
) -> (Seq<char>, Seq<PropModel>) {
    (modern_name(id, meta), contextual_props(id, meta, x, y, z, blocks, data))
}

fn door_state_props(id: u8, meta: u8, below: (u8, u8), above: (u8, u8)) -> (r: Vec<(String, String)>)
    ensures
        props_view(r@) == door_props(id, meta, below, above),
{
    let mut ps: Vec<(String, String)> = Vec::new();
    if meta & 8 == 8 {
        ps.push(kv("half", "upper"));
        ps.push(kv("hinge", if meta & 1 == 1 { "right" } else { "left" }));
        if below.0 == id {
            ps.push(kv("facing", facing_str(door_facing_of(below.1))));
            ps.push(kv("open", bool_str(below.1 & 4 == 4)));
        } else {
            ps.push(kv("facing", "east"));
            ps.push(kv("open", "false"));
        }
    } else {
        ps.push(kv("half", "lower"));
        ps.push(kv("facing", facing_str(door_facing_of(meta))));
        ps.push(kv("open", bool_str(meta & 4 == 4)));
        ps.push(kv("hinge", if above.0 == id && above.1 & 1 == 1 { "right" } else { "left" }));
    }
    assert(props_view(ps@) =~= door_props(id, meta, below, above));
    ps
}

fn torch_state_props(id: u8, meta: u8) -> (r: Vec<(String, String)>)
    ensures
        props_view(r@) == torch_props(id, meta),
{
    let mut ps: Vec<(String, String)> = Vec::new();
    if meta >= 1 && meta <= 4 {
        let f = if meta == 1 {
            Facing::East
        } else if meta == 2 {
            Facing::West
        } else if meta == 3 {
            Facing::South
        } else {
            Facing::North
        };
        ps.push(kv("facing", facing_str(f)));
    }
    let ghost base = props_view(ps@);
    if id == 76 {
        ps.push(kv("lit", "true"));
    } else if id == 75 {
        ps.push(kv("lit", "false"));
    }
    assert(props_view(ps@) =~= torch_props(id, meta));
    ps
}

fn chest_type_str(id: u8, f: Facing, w: u8, e: u8, n: u8, s: u8) -> (r: &'static str)
    ensures
        r@ == chest_type(id, f, w, e, n, s),
{
    let (dx, dz): (i32, i32) = if w == id {
        (-1, 0)
    } else if e == id {
        (1, 0)
    } else if n == id {
        (0, -1)
    } else if s == id {
        (0, 1)
    } else {
        return "single";
    };
    let is_left = match f {
        Facing::North => dx == -1,
        Facing::South => dx == 1,
        Facing::West => dz == 1,
        Facing::East => dz == -1,
    };
    if is_left {
        "right"
    } else {
        "left"
    }
}

fn stair_shape_str(f: Facing, top: bool, back: (u8, u8), front: (u8, u8)) -> (r: &'static str)
    ensures
        r@ == stair_shape(f, top, back, front),
{
    if is_stair_id(back.0) {
        if (back.1 & 4 != 0) == top {
            match get_relative_side(f, stair_facing_of(back.1)) {
                Some(true) => "outer_left",
                Some(false) => "outer_right",
                None => "straight",
            }
        } else {
            "straight"
        }
    } else if is_stair_id(front.0) && (front.1 & 4 != 0) == top {
        match get_relative_side(f, stair_facing_of(front.1)) {
            Some(true) => "inner_left",
            Some(false) => "inner_right",
            None => "straight",
        }
    } else {
        "straight"
    }
}

fn link_state_props(n: bool, e: bool, s: bool, w: bool) -> (r: Vec<(String, String)>)
    ensures
        props_view(r@) == link_props(n, e, s, w),
{
    let mut ps: Vec<(String, String)> = Vec::new();
    ps.push(kv("north", bool_str(n)));
    ps.push(kv("east", bool_str(e)));
    ps.push(kv("south", bool_str(s)));
    ps.push(kv("west", bool_str(w)));
    assert(props_view(ps@) =~= link_props(n, e, s, w));
    ps
}

/// The modern block state of the legacy block `(id, meta)` at `(x, y, z)`
/// of a chunk with the given legacy blocks and data. The coordinates are
/// taken as `i32` (truncated); a neighbour outside the chunk reads as air.
pub fn get_contextual_block_state(
    id: u8,
    meta: u8,
    x: usize,
    y: usize,
    z: usize,
    blocks: &[u8],
    data: &[u8],
) -> (r: ModernState)
    ensures
        r@ == contextual_state(id, meta, (x as i32) as int, (y as i32) as int, (z as i32) as int, blocks@, data@),
{
    let name = owned(contextual_modern_name(id, meta));
    let xi = (x as i32) as i64;
    let yi = (y as i32) as i64;
    let zi = (z as i32) as i64;
    let ghost spec_props = contextual_props(id, meta, (x as i32) as int, (y as i32) as int, (z as i32) as int, blocks@, data@);
    let props: Vec<(String, String)> = if is_door_id(id) {
        let below = get_neighbor(blocks, data, xi, yi - 1, zi);
        let above = get_neighbor(blocks, data, xi, yi + 1, zi);
        door_state_props(id, meta, below, above)
    } else if id == 63 {
        let mut ps: Vec<(String, String)> = Vec::new();
        ps.push((owned("rotation"), decimal_text(meta)));
        assert(props_view(ps@) =~= spec_props);
        ps
    } else if id == 68 {
        let f = if meta == 2 {
            Facing::North
        } else if meta == 3 {
            Facing::South
        } else if meta == 4 {
            Facing::West
        } else {
            Facing::East
        };
        let mut ps: Vec<(String, String)> = Vec::new();
        ps.push(kv("facing", facing_str(f)));
        assert(props_view(ps@) =~= spec_props);
        ps
    } else if id == 50 || id == 75 || id == 76 {
        torch_state_props(id, meta)
    } else if id == 54 || id == 146 {
        let f = if meta == 2 {
            Facing::North
        } else if meta == 3 {
            Facing::South
        } else if meta == 4 {
            Facing::West
        } else if meta == 5 {
            Facing::East
        } else {
            Facing::South
        };
        let w = get_neighbor(blocks, data, xi - 1, yi, zi).0;
        let e = get_neighbor(blocks, data, xi + 1, yi, zi).0;
        let n = get_neighbor(blocks, data, xi, yi, zi - 1).0;
        let s = get_neighbor(blocks, data, xi, yi, zi + 1).0;
        let mut ps: Vec<(String, String)> = Vec::new();
        ps.push(kv("type", chest_type_str(id, f, w, e, n, s)));
        ps.push(kv("facing", facing_str(f)));
        assert(props_view(ps@) =~= spec_props);
        ps
    } else if is_stair_id(id) {
        let f = stair_facing_of(meta);
        let (fx, fz): (i64, i64) = match f {
            Facing::North => (0, 1),
            Facing::South => (0, -1),
            Facing::West => (1, 0),
            Facing::East => (-1, 0),
        };
        let top = meta & 4 != 0;
        let back = get_neighbor(blocks, data, xi - fx, yi, zi - fz);
        let front = get_neighbor(blocks, data, xi + fx, yi, zi + fz);
        let mut ps: Vec<(String, String)> = Vec::new();
        ps.push(kv("facing", facing_str(f)));
        ps.push(kv("half", if top { "top" } else { "bottom" }));
        ps.push(kv("shape", stair_shape_str(f, top, back, front)));
        assert(props_view(ps@) =~= spec_props);
        ps
    } else if is_fence_id(id) {
        let n = get_neighbor(blocks, data, xi, yi, zi - 1).0;
        let e = get_neighbor(blocks, data, xi + 1, yi, zi).0;
        let s = get_neighbor(blocks, data, xi, yi, zi + 1).0;
        let w = get_neighbor(blocks, data, xi - 1, yi, zi).0;
        link_state_props(fence_links(n), fence_links(e), fence_links(s), fence_links(w))
    } else if is_pane_id(id) {
        let n = get_neighbor(blocks, data, xi, yi, zi - 1).0;
        let e = get_neighbor(blocks, data, xi + 1, yi, zi).0;
        let s = get_neighbor(blocks, data, xi, yi, zi + 1).0;
        let w = get_neighbor(blocks, data, xi - 1, yi, zi).0;
        link_state_props(pane_links(n), pane_links(e), pane_links(s), pane_links(w))
    } else {
        let ps: Vec<(String, String)> = Vec::new();
        assert(props_view(ps@) =~= spec_props);
        ps
    };
    ModernState { name, props }
}

// ---------------------------------------------------------------------
// Section palettes.
// ---------------------------------------------------------------------

/// A modern block state as a value: its name and its properties.
pub type StateModel = (Seq<char>, Seq<PropModel>);

/// The values of a sequence of states.
pub open spec fn states_view(v: Seq<ModernState>) -> Seq<StateModel> {
    Seq::new(v.len(), |i: int| v[i]@)
}

/// The legacy flat index of the block at local index `k` (y-major, then z,
/// then x) of section `sy`.
pub open spec fn flat_of(sy: int, k: int) -> int {
    ((k % 16) * 16 + (k / 16) % 16) * 128 + sy * 16 + k / 256
}

/// The modern state of the block at local index `k` of section `sy`, or
/// `None` where the legacy block array does not reach it.
pub open spec fn sec_state(blocks: Seq<u8>, data: Seq<u8>, sy: int, k: int) -> Option<StateModel> {
    let li = flat_of(sy, k);
    if li >= blocks.len() {
        None
    } else {
        Some(
            contextual_state(
                blocks[li],
                nibble_at(data, li),
                k % 16,
                sy * 16 + k / 256,
                (k / 16) % 16,
                blocks,
                data,
            ),
        )
    }
}

/// The position of the first occurrence of `s` in `p`, or `p.len()`.
pub open spec fn first_index(p: Seq<StateModel>, s: StateModel) -> int
    decreases p.len(),
{
    if p.len() == 0 {
        0
    } else if p[0] == s {
        0
    } else {
        1 + first_index(p.drop_first(), s)
    }
}

/// The palette (distinct states in order of first occurrence) and the
/// palette index of each of the first `n` blocks of section `sy`; a block
/// out of reach of the legacy array has index 0 and adds no state.
pub open spec fn scan(blocks: Seq<u8>, data: Seq<u8>, sy: int, n: nat) -> (Seq<StateModel>, Seq<u64>)
    decreases n,
{
    if n == 0 {
        (seq![], seq![])
    } else {
        let (p, ix) = scan(blocks, data, sy, (n - 1) as nat);
        match sec_state(blocks, data, sy, n - 1) {
            None => (p, ix.push(0)),
            Some(s) => {
                let i = first_index(p, s);
                if i < p.len() {
                    (p, ix.push(i as u64))
                } else {
                    (p.push(s), ix.push(p.len() as u64))
                }
            },
        }
    }
}

/// Whether a state is plain air.
pub open spec fn is_air_state(s: StateModel) -> bool {
    s.0 == "minecraft:air"@ && s.1.len() == 0
}

/// Whether the block at local index `k` of section `sy` is in reach and not
/// plain air.
pub open spec fn non_air_at(blocks: Seq<u8>, data: Seq<u8>, sy: int, k: int) -> bool {
    match sec_state(blocks, data, sy, k) {
        Some(s) => !is_air_state(s),
        None => false,
    }
}

/// Whether section `sy` holds a block that is not plain air.
pub open spec fn section_has_block(blocks: Seq<u8>, data: Seq<u8>, sy: int) -> bool {
    exists|k: int| 0 <= k < 4096 && #[trigger] non_air_at(blocks, data, sy, k)
}

proof fn lemma_first_index(p: Seq<StateModel>, s: StateModel, i: int)
    requires
        0 <= i <= p.len(),
        forall|j: int| 0 <= j < i ==> p[j] != s,
        i == p.len() || p[i] == s,
    ensures
        first_index(p, s) == i,
    decreases i,
{
    if i > 0 {
        assert(p[0] != s);
        lemma_first_index(p.drop_first(), s, i - 1);
    }
}

proof fn lemma_first_index_bound(p: Seq<StateModel>, s: StateModel)
    ensures
        0 <= first_index(p, s) <= p.len(),
        first_index(p, s) < p.len() ==> p[first_index(p, s)] == s,
    decreases p.len(),
{
    if p.len() > 0 && p[0] != s {
        lemma_first_index_bound(p.drop_first(), s);
    }
}

proof fn lemma_scan_len(blocks: Seq<u8>, data: Seq<u8>, sy: int, n: nat)
    ensures
        scan(blocks, data, sy, n).1.len() == n,
        scan(blocks, data, sy, n).0.len() <= n,
    decreases n,
{
    if n > 0 {
        lemma_scan_len(blocks, data, sy, (n - 1) as nat);
        let p = scan(blocks, data, sy, (n - 1) as nat).0;
        match sec_state(blocks, data, sy, n - 1) {
            None => {},
            Some(s) => { lemma_first_index_bound(p, s); },
        }
    }
}

/// Every block's palette index points at its own state in the palette, and
/// blocks out of reach of the legacy array have index 0.
pub proof fn lemma_scan_indices(blocks: Seq<u8>, data: Seq<u8>, sy: int, n: nat)
    requires
        n <= 4096,
    ensures
        forall|k: int|
            0 <= k < n ==> match #[trigger] sec_state(blocks, data, sy, k) {
                Some(s) => scan(blocks, data, sy, n).1[k] < scan(blocks, data, sy, n).0.len()
                    && scan(blocks, data, sy, n).0[scan(blocks, data, sy, n).1[k] as int] == s,
                None => scan(blocks, data, sy, n).1[k] == 0,
            },
    decreases n,
{
    if n > 0 {
        let m = (n - 1) as nat;
        lemma_scan_indices(blocks, data, sy, m);
        lemma_scan_len(blocks, data, sy, m);
        let (p, ix) = scan(blocks, data, sy, m);
        let (p2, ix2) = scan(blocks, data, sy, n);
        assert(p2.len() >= p.len() && forall|j: int| 0 <= j < p.len() ==> p2[j] == p[j]) by {
            match sec_state(blocks, data, sy, n - 1) {
                None => {},
                Some(s) => { lemma_first_index_bound(p, s); },
            }
        }
        assert forall|k: int| 0 <= k < n implies match #[trigger] sec_state(blocks, data, sy, k) {
            Some(s) => ix2[k] < p2.len() && p2[ix2[k] as int] == s,
            None => ix2[k] == 0,
        } by {
            if k < m {
                assert(ix2[k] == ix[k]);
                match sec_state(blocks, data, sy, k) {
                    Some(s) => {
                        assert(ix[k] < p.len() && p[ix[k] as int] == s);
                        assert(p2[ix[k] as int] == p[ix[k] as int]);
                    },
                    None => {},
                }
            } else {
                match sec_state(blocks, data, sy, k) {
                    None => {},
                    Some(s) => { lemma_first_index_bound(p, s); },
                }
            }
        }
    }
}

fn same_state(a: &ModernState, b: &ModernState) -> (r: bool)
    ensures
        r == (a@ == b@),
{
    if !crate::text::same_text(a.name.as_str(), b.name.as_str()) {
        return false;
    }
    if a.props.len() != b.props.len() {
        proof {
            assert(props_view(a.props@).len() != props_view(b.props@).len());
        }
        return false;
    }
    let n = a.props.len();
    let mut i: usize = 0;
    while i < n
        invariant
            n == a.props@.len(),
            n == b.props@.len(),
            i <= n,
            forall|j: int| 0 <= j < i ==> props_view(a.props@)[j] == props_view(b.props@)[j],
        decreases n - i,
    {
        let k = crate::text::same_text(a.props[i].0.as_str(), b.props[i].0.as_str());
        let v = crate::text::same_text(a.props[i].1.as_str(), b.props[i].1.as_str());
        if !k || !v {
            proof {
                assert(props_view(a.props@)[i as int] != props_view(b.props@)[i as int]);
            }
            return false;
        }
        i += 1;
    }
    proof {
        assert(props_view(a.props@) =~= props_view(b.props@));
    }
    true
}

fn find_state(palette: &Vec<ModernState>, s: &ModernState) -> (r: usize)
    ensures
        r == first_index(states_view(palette@), s@),
{
    let n = palette.len();
    let mut i: usize = 0;
    while i < n
        invariant
            n == palette@.len(),
            i <= n,
            forall|j: int| 0 <= j < i ==> states_view(palette@)[j] != s@,
        decreases n - i,
    {
        if same_state(&palette[i], s) {
            proof {
                lemma_first_index(states_view(palette@), s@, i as int);
            }
            return i;
        }
        i += 1;
    }
    proof {
        lemma_first_index(states_view(palette@), s@, i as int);
    }
    i
}

fn is_plain_air(s: &ModernState) -> (r: bool)
    ensures
        r == is_air_state(s@),
{
    crate::text::same_text(s.name.as_str(), "minecraft:air") && s.props.len() == 0
}

/// The palette of section `sy`, each block's index into it, and whether the
/// section holds anything but plain air.
fn scan_section(blocks: &[u8], data: &[u8], sy: usize) -> (r: (Vec<ModernState>, Vec<u64>, bool))
    requires
        sy < 8,
    ensures
        (states_view(r.0@), r.1@) == scan(blocks@, data@, sy as int, 4096),
        r.2 == section_has_block(blocks@, data@, sy as int),
{
    let mut palette: Vec<ModernState> = Vec::new();
    let mut indices: Vec<u64> = Vec::new();
    let mut has_block = false;
    let mut k: usize = 0;
    while k < 4096
        invariant
            sy < 8,
            k <= 4096,
            (states_view(palette@), indices@) == scan(blocks@, data@, sy as int, k as nat),
            has_block == exists|j: int| 0 <= j < k && #[trigger] non_air_at(blocks@, data@, sy as int, j),
        decreases 4096 - k,
    {
        let x = k % 16;
        let z = (k / 16) % 16;
        let y = k / 256;
        let gy = sy * 16 + y;
        let li = (x * 16 + z) * 128 + gy;
        let ghost prev = scan(blocks@, data@, sy as int, k as nat);
        proof {
            lemma_scan_len(blocks@, data@, sy as int, k as nat);
        }
        assert(li as int == flat_of(sy as int, k as int));
        if li >= blocks.len() {
            indices.push(0);
            assert(!non_air_at(blocks@, data@, sy as int, k as int));
        } else {
            let st = get_contextual_block_state(blocks[li], get_nibble(data, li), x, gy, z, blocks, data);
            assert(sec_state(blocks@, data@, sy as int, k as int) == Some(st@));
            if !is_plain_air(&st) {
                has_block = true;
                assert(non_air_at(blocks@, data@, sy as int, k as int));
            }
            let i = find_state(&palette, &st);
            proof {
                lemma_first_index_bound(states_view(palette@), st@);
            }
            if i < palette.len() {
                indices.push(i as u64);
            } else {
                let len = palette.len();
                palette.push(st);
                indices.push(len as u64);
                proof {
                    assert(states_view(palette@) =~= prev.0.push(states_view(palette@)[len as int]));
                }
            }
        }
        proof {
            assert((exists|j: int| 0 <= j < k + 1 && #[trigger] non_air_at(blocks@, data@, sy as int, j))
                == ((exists|j: int| 0 <= j < k && #[trigger] non_air_at(blocks@, data@, sy as int, j))
                || non_air_at(blocks@, data@, sy as int, k as int)));
        }
        k += 1;
    }
    (palette, indices, has_block)
}

// ---------------------------------------------------------------------
// Packed block-state longs.
// ---------------------------------------------------------------------

/// Bits per block for a palette of `len` states (`len > 1`): 64 divided by
/// the bits needed for the largest index, at least 4.
pub open spec fn bits_per_block(len: nat) -> nat {
    let q = 64nat / bits_required((len - 1) as nat);
    if q < 4 {
        4
    } else {
        q
    }
}

/// The bitwise OR of `ix[start + t] << (t * bpb)` for `t < count`, in `u64`
/// (bits shifted past the top are lost).
pub open spec fn pack_word(ix: Seq<u64>, start: int, count: nat, bpb: nat) -> u64
    decreases count,
{
    if count == 0 {
        0
    } else {
        pack_word(ix, start, (count - 1) as nat, bpb) | (ix[start + count - 1] << (((count - 1)
            * bpb) as u64))
    }
}

/// The indices `ix` packed `64 / bpb` to a long, the first in the low bits;
/// the last long may be partly filled.
pub open spec fn packed_longs(ix: Seq<u64>, bpb: nat) -> Seq<i64> {
    let vpl = 64nat / bpb;
    Seq::new(
        ((ix.len() + vpl - 1) as int / (vpl as int)) as nat,
        |j: int|
            pack_word(
                ix,
                j * vpl,
                if ix.len() - j * vpl < vpl {
                    (ix.len() - j * vpl) as nat
                } else {
                    vpl
                },
                bpb,
            ) as i64,
    )
}

fn pack_indices(ix: &Vec<u64>, bpb: u64) -> (r: Vec<i64>)
    requires
        4 <= bpb <= 64,
        ix@.len() == 4096,
    ensures
        r@ == packed_longs(ix@, bpb as nat),
{
    let vpl: u64 = 64 / bpb;
    assert(1 <= vpl <= 16) by (nonlinear_arith)
        requires
            4 <= bpb <= 64,
            vpl as int == 64int / (bpb as int),
    ;
    let ghost spec_out = packed_longs(ix@, bpb as nat);
    let mut out: Vec<i64> = Vec::new();
    let mut cur: u64 = 0;
    let mut bi: u64 = 0;
    let mut i: usize = 0;
    while i < 4096
        invariant
            ix@.len() == 4096,
            4 <= bpb <= 64,
            vpl as int == 64int / (bpb as int),
            1 <= vpl <= 16,
            spec_out == packed_longs(ix@, bpb as nat),
            i <= 4096,
            bi < vpl,
            i == out@.len() * vpl + bi,
            cur == pack_word(ix@, out@.len() * vpl, bi as nat, bpb as nat),
            forall|j: int| 0 <= j < out@.len() ==> out@[j] == spec_out[j],
        decreases 4096 - i,
    {
        let li: u64 = out.len() as u64;
        assert(bi * bpb < 64) by (nonlinear_arith)
            requires
                bi < vpl,
                vpl as int == 64int / (bpb as int),
                4 <= bpb,
        ;
        assert(out@.len() * vpl + bi + 1 <= 4096);
        cur = cur | (ix[i] << (bi * bpb));
        bi = bi + 1;
        i = i + 1;
        if bi >= vpl {
            proof {
                let j = out@.len() as int;
                assert(j * vpl + vpl <= 4096);
                assert(((4096 + vpl as int - 1) / (vpl as int)) > j) by (nonlinear_arith)
                    requires
                        j * vpl + vpl <= 4096,
                        vpl >= 1,
                        j >= 0,
                ;
                assert(spec_out[j] == pack_word(ix@, j * vpl, vpl as nat, bpb as nat) as i64);
            }
            out.push(cur as i64);
            cur = 0;
            bi = 0;
            proof {
                assert((out@.len() * vpl) == (out@.len() - 1) * vpl + vpl) by (nonlinear_arith);
            }
        }
    }
    if bi > 0 {
        proof {
            let j = out@.len() as int;
            assert(((4096 + vpl as int - 1) / (vpl as int)) > j) by (nonlinear_arith)
                requires
                    j * vpl + bi == 4096,
                    0 < bi < vpl,
                    j >= 0,
            ;
        }
        out.push(cur as i64);
    }
    proof {
        let j = out@.len() as int;
        assert((4096 + vpl as int - 1) / (vpl as int) == j) by (nonlinear_arith)
            requires
                bi > 0 ==> (j - 1) * vpl + bi == 4096 && 0 < bi < vpl,
                bi == 0 ==> j * vpl == 4096,
                vpl >= 1,
                j >= 0,
        ;
        assert(out@ =~= spec_out);
    }
    out
}

// ---------------------------------------------------------------------
// Section tags.
// ---------------------------------------------------------------------

/// A compound model.
pub open spec fn cm(name: Seq<char>, tags: Seq<(Seq<char>, NbtTag)>) -> NbtTag {
    NbtTag::Compound(CompoundModel { name, tags })
}

/// The tags that setting each property in turn gives.
pub open spec fn props_tags(ps: Seq<PropModel>) -> Seq<(Seq<char>, NbtTag)>
    decreases ps.len(),
{
    if ps.len() == 0 {
        seq![]
    } else {
        put(props_tags(ps.drop_last()), ps.last().0, NbtTag::Text(ps.last().1))
    }
}

/// A palette entry: `Name`, and `Properties` where there are any.
pub open spec fn palette_entry(s: StateModel) -> NbtTag {
    let t = put(seq![], "Name"@, NbtTag::Text(s.0));
    cm(
        ""@,
        if s.1.len() > 0 {
            put(t, "Properties"@, cm("Properties"@, props_tags(s.1)))
        } else {
            t
        },
    )
}

/// The `block_states` tags of a section with palette `p` and indices `ix`.
pub open spec fn block_states_tags(p: Seq<StateModel>, ix: Seq<u64>) -> Seq<(Seq<char>, NbtTag)> {
    let t = put(seq![], "palette"@, NbtTag::List(Seq::new(p.len(), |i: int| palette_entry(p[i]))));
    if p.len() > 1 {
        put(t, "data"@, NbtTag::LongArray(packed_longs(ix, bits_per_block(p.len()))))
    } else {
        t
    }
}

/// The modern section tag of section `sy`, or `None` for an upper section
/// with nothing but air.
pub open spec fn section_tag(blocks: Seq<u8>, data: Seq<u8>, sy: int) -> Option<NbtTag> {
    if !section_has_block(blocks, data, sy) && sy > 0 {
        None
    } else {
        let (p, ix) = scan(blocks, data, sy, 4096);
        let t = put(seq![], "Y"@, NbtTag::Byte(sy as i8));
        let t = put(t, "block_states"@, cm("block_states"@, block_states_tags(p, ix)));
        let biomes = put(seq![], "palette"@, NbtTag::List(seq![NbtTag::Text("minecraft:plains"@)]));
        let t = put(t, "biomes"@, cm("biomes"@, biomes));
        Some(cm(""@, t))
    }
}

fn palette_entry_value(s: &ModernState) -> (r: NbtValue)
    ensures
        r@ == palette_entry(s@),
{
    let mut tag = NbtCompound::new("");
    tag.insert("Name", NbtValue::String(owned(s.name.as_str())));
    if s.props.len() > 0 {
        let mut pc = NbtCompound::new("Properties");
        let n = s.props.len();
        let mut i: usize = 0;
        while i < n
            invariant
                n == s.props@.len(),
                i <= n,
                pc@.name == "Properties"@,
                pc@.tags == props_tags(props_view(s.props@).take(i as int)),
            decreases n - i,
        {
            let ghost ps = props_view(s.props@);
            assert(ps.take(i + 1).drop_last() =~= ps.take(i as int));
            pc.insert(s.props[i].0.as_str(), NbtValue::String(owned(s.props[i].1.as_str())));
            i += 1;
        }
        assert(props_view(s.props@).take(n as int) =~= props_view(s.props@));
        tag.insert("Properties", NbtValue::Compound(pc));
    }
    NbtValue::Compound(tag)
}

fn section_value(blocks: &[u8], data: &[u8], sy: usize) -> (r: Option<NbtValue>)
    requires
        sy < 8,
    ensures
        match r {
            Some(v) => section_tag(blocks@, data@, sy as int) == Some(v@),
            None => section_tag(blocks@, data@, sy as int) is None,
        },
{
    let (palette, indices, has_block) = scan_section(blocks, data, sy);
    if !has_block && sy > 0 {
        return None;
    }
    proof {
        lemma_scan_len(blocks@, data@, sy as int, 4096);
    }
    let ghost p = states_view(palette@);
    let mut entries: Vec<NbtValue> = Vec::new();
    let n = palette.len();
    let mut i: usize = 0;
    while i < n
        invariant
            n == palette@.len(),
            p == states_view(palette@),
            i <= n,
            values_model(entries@) == Seq::new(i as nat, |j: int| palette_entry(p[j])),
        decreases n - i,
    {
        let e = palette_entry_value(&palette[i]);
        assert(p[i as int] == palette@[i as int]@);
        let ghost prev = entries@;
        entries.push(e);
        proof {
            crate::nbt::lemma_values_model(entries@);
            crate::nbt::lemma_values_model(prev);
            assert(values_model(entries@)[i as int] == e@);
            let target = Seq::new((i + 1) as nat, |j: int| palette_entry(p[j]));
            assert forall|j: int| 0 <= j < i + 1 implies values_model(entries@)[j] == target[j] by {
                if j < i {
                    assert(values_model(entries@)[j] == values_model(prev)[j]);
                    assert(values_model(prev)[j] == Seq::new(i as nat, |j: int| palette_entry(p[j]))[j]);
                }
            }
            assert(values_model(entries@) =~= target);
        }
        i += 1;
    }
    let mut bs = NbtCompound::new("block_states");
    bs.insert("palette", NbtValue::List(entries));
    if n > 1 {
        let b = get_bits_required(n - 1);
        let q: u64 = 64 / (b as u64);
        let bpb: u64 = if q < 4 {
            4
        } else {
            q
        };
        assert(bpb <= 64) by (nonlinear_arith)
            requires
                q as int == 64int / (b as int),
                b >= 1,
                bpb == (if q < 4 { 4 } else { q }),
        ;
        let longs = pack_indices(&indices, bpb);
        bs.insert("data", NbtValue::LongArray(longs));
    }
    let mut sec = NbtCompound::new("");
    sec.insert("Y", NbtValue::Byte(sy as i8));
    sec.insert("block_states", NbtValue::Compound(bs));
    let mut biomes = NbtCompound::new("biomes");
    let mut bl: Vec<NbtValue> = Vec::new();
    bl.push(NbtValue::String(owned("minecraft:plains")));
    proof {
        assert(values_model(bl@) =~= seq![NbtTag::Text("minecraft:plains"@)]) by {
            crate::nbt::lemma_values_model(bl@);
        }
    }
    biomes.insert("palette", NbtValue::List(bl));
    sec.insert("biomes", NbtValue::Compound(biomes));
    Some(NbtValue::Compound(sec))
}

// ---------------------------------------------------------------------
// Block entities and the level.
// ---------------------------------------------------------------------

/// The modern id of a legacy block entity id: the known legacy names map
/// to their modern ids, ids that already start with `minecraft:` stay, and
/// others are dropped.
pub open spec fn te_new_id(id: Seq<char>) -> Option<Seq<char>> {
    if id == "Chest"@ {
        Some("minecraft:chest"@)
    } else if id == "Furnace"@ {
        Some("minecraft:furnace"@)
    } else if id == "BrewingStand"@ {
        Some("minecraft:brewing_stand"@)
    } else if id == "EnchantTable"@ {
        Some("minecraft:enchanting_table"@)
    } else if id == "Trap"@ {
        Some("minecraft:dispenser"@)
    } else if id == "MobSpawner"@ {
        Some("minecraft:mob_spawner"@)
    } else if id == "Control"@ {
        Some("minecraft:command_block"@)
    } else if id == "Beacon"@ {
        Some("minecraft:beacon"@)
    } else if id == "Skull"@ {
        Some("minecraft:skull"@)
    } else if id == "Sign"@ {
        Some("minecraft:sign"@)
    } else if id == "Cauldron"@ {
        Some("minecraft:cauldron"@)
    } else if id == "Dropper"@ {
        Some("minecraft:dropper"@)
    } else if id == "Hopper"@ {
        Some("minecraft:hopper"@)
    } else if id == "Comparator"@ {
        Some("minecraft:comparator"@)
    } else if id == "RecordPlayer"@ {
        Some("minecraft:jukebox"@)
    } else if id == "Banner"@ {
        Some("minecraft:banner"@)
    } else if starts_with(lit_of(id), lit("minecraft:")) {
        Some(id)
    } else {
        None
    }
}

fn new_block_entity_id(id: &str) -> (r: Option<String>)
    ensures
        match r {
            Some(s) => te_new_id(id@) == Some(s@),
            None => te_new_id(id@) is None,
        },
{
    if same_text(id, "Chest") {
        Some(owned("minecraft:chest"))
    } else if same_text(id, "Furnace") {
        Some(owned("minecraft:furnace"))
    } else if same_text(id, "BrewingStand") {
        Some(owned("minecraft:brewing_stand"))
    } else if same_text(id, "EnchantTable") {
        Some(owned("minecraft:enchanting_table"))
    } else if same_text(id, "Trap") {
        Some(owned("minecraft:dispenser"))
    } else if same_text(id, "MobSpawner") {
        Some(owned("minecraft:mob_spawner"))
    } else if same_text(id, "Control") {
        Some(owned("minecraft:command_block"))
    } else if same_text(id, "Beacon") {
        Some(owned("minecraft:beacon"))
    } else if same_text(id, "Skull") {
        Some(owned("minecraft:skull"))
    } else if same_text(id, "Sign") {
        Some(owned("minecraft:sign"))
    } else if same_text(id, "Cauldron") {
        Some(owned("minecraft:cauldron"))
    } else if same_text(id, "Dropper") {
        Some(owned("minecraft:dropper"))
    } else if same_text(id, "Hopper") {
        Some(owned("minecraft:hopper"))
    } else if same_text(id, "Comparator") {
        Some(owned("minecraft:comparator"))
    } else if same_text(id, "RecordPlayer") {
        Some(owned("minecraft:jukebox"))
    } else if same_text(id, "Banner") {
        Some(owned("minecraft:banner"))
    } else if starts(id.as_bytes(), "minecraft:") {
        Some(owned(id))
    } else {
        None
    }
}

/// The `id` text of a compound, empty where it has none.
pub open spec fn entity_id_text(c: CompoundModel) -> Seq<char> {
    match lookup(c.tags, "id"@) {
        Some(NbtTag::Text(t)) => t,
        _ => ""@,
    }
}

/// The block entities of a legacy level with modern ids; those whose id
/// has no modern counterpart, and entries that are not compounds, go.
pub open spec fn converted_entities(l: Seq<NbtTag>) -> Seq<NbtTag>
    decreases l.len(),
{
    if l.len() == 0 {
        seq![]
    } else {
        let p = converted_entities(l.drop_last());
        match l.last() {
            NbtTag::Compound(c) => match te_new_id(entity_id_text(c)) {
                Some(n) => p.push(cm(c.name, put(c.tags, "id"@, NbtTag::Text(n)))),
                None => p,
            },
            _ => p,
        }
    }
}

/// The red bed block entity for the legacy block at flat index `i`.
pub open spec fn bed_entity(i: int, cx: i32, cz: i32) -> NbtTag {
    let t = put(seq![], "id"@, NbtTag::Text("minecraft:bed"@));
    let t = put(t, "color"@, NbtTag::Int(14));
    let t = put(t, "x"@, NbtTag::Int(cx.wrapping_mul(16).wrapping_add((i / 2048) as i32)));
    let t = put(t, "y"@, NbtTag::Int((i % 128) as i32));
    let t = put(t, "z"@, NbtTag::Int(cz.wrapping_mul(16).wrapping_add(((i / 128) % 16) as i32)));
    cm(""@, t)
}

/// A bed block entity for each bed among the first `n` legacy blocks.
pub open spec fn bed_entities(blocks: Seq<u8>, cx: i32, cz: i32, n: nat) -> Seq<NbtTag>
    decreases n,
{
    if n == 0 {
        seq![]
    } else {
        let p = bed_entities(blocks, cx, cz, (n - 1) as nat);
        if blocks[n - 1] == 26 {
            p.push(bed_entity(n - 1, cx, cz))
        } else {
            p
        }
    }
}

/// The section tags of the first `n` sections.
pub open spec fn sections_upto(blocks: Seq<u8>, data: Seq<u8>, n: nat) -> Seq<NbtTag>
    decreases n,
{
    if n == 0 {
        seq![]
    } else {
        let p = sections_upto(blocks, data, (n - 1) as nat);
        match section_tag(blocks, data, n - 1) {
            Some(t) => p.push(t),
            None => p,
        }
    }
}

/// A byte array of a level, or `len` zeros where it has none.
pub open spec fn level_bytes(level: CompoundModel, name: Seq<char>, len: nat) -> Seq<u8> {
    match lookup(level.tags, name) {
        Some(NbtTag::ByteArray(b)) => b,
        _ => Seq::new(len, |_i: int| 0u8),
    }
}

/// The modern Anvil level of a legacy chunk level at chunk `(cx, cz)`.
pub open spec fn modern_anvil_level(level: CompoundModel, cx: i32, cz: i32) -> CompoundModel {
    let blocks = level_bytes(level, "Blocks"@, 32768);
    let data = level_bytes(level, "Data"@, 16384);
    let t = put(seq![], "xPos"@, NbtTag::Int(cx));
    let t = put(t, "zPos"@, NbtTag::Int(cz));
    let t = put(t, "yPos"@, NbtTag::Int(0));
    let t = put(t, "Status"@, NbtTag::Text("full"@));
    let tes = match lookup(level.tags, "TileEntities"@) {
        Some(NbtTag::List(l)) => converted_entities(l),
        _ => seq![],
    };
    let n = if blocks.len() < 32768 {
        blocks.len()
    } else {
        32768
    };
    let t = put(t, "block_entities"@, NbtTag::List(tes + bed_entities(blocks, cx, cz, n)));
    let t = put(t, "sections"@, NbtTag::List(sections_upto(blocks, data, 8)));
    CompoundModel { name: ""@, tags: t }
}

fn convert_block_entities(list: &[NbtValue]) -> (r: Vec<NbtValue>)
    ensures
        values_model(r@) == converted_entities(values_model(list@)),
{
    let ghost m = values_model(list@);
    proof {
        crate::nbt::lemma_values_model(list@);
    }
    let mut out: Vec<NbtValue> = Vec::new();
    let n = list.len();
    let mut i: usize = 0;
    while i < n
        invariant
            n == list@.len(),
            i <= n,
            m == values_model(list@),
            m.len() == n,
            forall|j: int| 0 <= j < n ==> #[trigger] m[j] == list@[j]@,
            values_model(out@) == converted_entities(m.take(i as int)),
        decreases n - i,
    {
        assert(m.take(i + 1).drop_last() =~= m.take(i as int));
        assert(m.take(i + 1).last() == list@[i as int]@);
        if let NbtValue::Compound(c) = &list[i] {
            let id: &str = match c.string("id") {
                Some(t) => t,
                None => "",
            };
            assert(id@ == entity_id_text(c@));
            match new_block_entity_id(id) {
                Some(nid) => {
                    let mut te = c.deep_clone();
                    te.insert("id", NbtValue::String(nid));
                    let ghost prev = out@;
                    out.push(NbtValue::Compound(te));
                    proof {
                        crate::nbt::lemma_values_model(out@);
                        crate::nbt::lemma_values_model(prev);
                        assert(values_model(out@) =~= values_model(prev).push(NbtTag::Compound(te@)));
                    }
                },
                None => {},
            }
        }
        i += 1;
    }
    assert(m.take(n as int) =~= m);
    out
}

fn bed_values(blocks: &[u8], cx: i32, cz: i32, out: &mut Vec<NbtValue>)
    ensures
        values_model(final(out)@) == values_model(old(out)@) + bed_entities(
            blocks@,
            cx,
            cz,
            if blocks@.len() < 32768 {
                blocks@.len()
            } else {
                32768
            },
        ),
{
    let n: usize = if blocks.len() < 32768 {
        blocks.len()
    } else {
        32768
    };
    let ghost start = values_model(out@);
    let mut i: usize = 0;
    while i < n
        invariant
            n <= blocks@.len(),
            n <= 32768,
            i <= n,
            values_model(out@) == start + bed_entities(blocks@, cx, cz, i as nat),
        decreases n - i,
    {
        if blocks[i] == 26 {
            let x = i / 2048;
            let y = i % 128;
            let z = (i / 128) % 16;
            let mut bed = NbtCompound::new("");
            bed.insert("id", NbtValue::String(owned("minecraft:bed")));
            bed.insert("color", NbtValue::Int(14));
            bed.insert("x", NbtValue::Int(cx.wrapping_mul(16).wrapping_add(x as i32)));
            bed.insert("y", NbtValue::Int(y as i32));
            bed.insert("z", NbtValue::Int(cz.wrapping_mul(16).wrapping_add(z as i32)));
            let ghost prev = out@;
            out.push(NbtValue::Compound(bed));
            proof {
                crate::nbt::lemma_values_model(out@);
                crate::nbt::lemma_values_model(prev);
                assert(values_model(out@) =~= values_model(prev).push(NbtTag::Compound(bed@)));
                assert(NbtTag::Compound(bed@) == bed_entity(i as int, cx, cz));
                assert(values_model(out@) =~= start + bed_entities(blocks@, cx, cz, (i + 1) as nat));
            }
        } else {
            assert(bed_entities(blocks@, cx, cz, (i + 1) as nat) == bed_entities(blocks@, cx, cz, i as nat));
        }
        i += 1;
    }
}

/// The modern Anvil chunk level (sections with block-state palettes,
/// block entities with modern ids, a bed entity for each bed) of a legacy
/// chunk level at chunk `(chunk_x, chunk_z)`.
pub fn build_modern_anvil_level(legacy_level: &NbtCompound, chunk_x: i32, chunk_z: i32) -> (r: NbtCompound)
    ensures
        r@ == modern_anvil_level(legacy_level@, chunk_x, chunk_z),
{
    let default_blocks: Vec<u8> = crate::region::zeros(32768, 0u8);
    let default_data: Vec<u8> = crate::region::zeros(16384, 0u8);
    let blocks: &[u8] = match legacy_level.byte_array("Blocks") {
        Some(b) => b,
        None => default_blocks.as_slice(),
    };
    let data: &[u8] = match legacy_level.byte_array("Data") {
        Some(d) => d,
        None => default_data.as_slice(),
    };
    assert(blocks@ == level_bytes(legacy_level@, "Blocks"@, 32768));
    assert(data@ == level_bytes(legacy_level@, "Data"@, 16384));
    let mut sections: Vec<NbtValue> = Vec::new();
    let mut sy: usize = 0;
    while sy < 8
        invariant
            sy <= 8,
            values_model(sections@) == sections_upto(blocks@, data@, sy as nat),
        decreases 8 - sy,
    {
        match section_value(blocks, data, sy) {
            Some(v) => {
                let ghost prev = sections@;
                sections.push(v);
                proof {
                    crate::nbt::lemma_values_model(sections@);
                    crate::nbt::lemma_values_model(prev);
                    assert(values_model(sections@) =~= values_model(prev).push(v@));
                }
            },
            None => {},
        }
        sy += 1;
    }
    let mut root = NbtCompound::new("");
    root.insert("xPos", NbtValue::Int(chunk_x));
    root.insert("zPos", NbtValue::Int(chunk_z));
    root.insert("yPos", NbtValue::Int(0));
    root.insert("Status", NbtValue::String(owned("full")));
    let mut entities: Vec<NbtValue> = match legacy_level.list("TileEntities") {
        Some(l) => convert_block_entities(l),
        None => {
            let e: Vec<NbtValue> = Vec::new();
            assert(values_model(e@) =~= Seq::<NbtTag>::empty());
            e
        },
    };
    bed_values(blocks, chunk_x, chunk_z, &mut entities);
    root.insert("block_entities", NbtValue::List(entities));
    root.insert("sections", NbtValue::List(sections));
    root
}

} // verus!
