//! Converting `level.dat` between the Java and Console (LCE) layouts.
use vstd::prelude::*;
use crate::anvil::owned;
use crate::nbt::{lookup, spec_write_nbt, without_name, write_gzip_nbt, write_nbt, CompoundModel, NbtCompound, NbtTag, NbtValue};
use crate::compress::gzip_compressed;
use crate::payload::put;
use crate::region::now_unix_millis;

verus! {

/// A world spawn point.
#[derive(Clone, Copy, Debug, PartialEq, Eq, Structural)]
pub struct SpawnPoint {
    pub x: i32,
    pub y: i32,
    pub z: i32,
}

/// The Int tag `n` of a compound, if the first tag of that name is one.
pub open spec fn int_opt(c: CompoundModel, n: Seq<char>) -> Option<i32> {
    match lookup(c.tags, n) {
        Some(NbtTag::Int(x)) => Some(x),
        _ => None,
    }
}

/// The Int tag `n`, or 0.
pub open spec fn int_or0(c: CompoundModel, n: Seq<char>) -> i32 {
    match int_opt(c, n) {
        Some(x) => x,
        None => 0,
    }
}

/// The Long tag `n`, or 0.
pub open spec fn long_or0(c: CompoundModel, n: Seq<char>) -> i64 {
    match lookup(c.tags, n) {
        Some(NbtTag::Long(x)) => x,
        _ => 0,
    }
}

/// The String tag `n`, or `d`.
pub open spec fn text_or(c: CompoundModel, n: Seq<char>, d: Seq<char>) -> Seq<char> {
    match lookup(c.tags, n) {
        Some(NbtTag::Text(t)) => t,
        _ => d,
    }
}

/// The Byte tag `n`, or 1 or 0 after `d`.
pub open spec fn flag_or(c: CompoundModel, n: Seq<char>, d: bool) -> i8 {
    match lookup(c.tags, n) {
        Some(NbtTag::Byte(b)) => b,
        _ => if d {
            1
        } else {
            0
        },
    }
}

/// The spawn point that a `level.dat` root gives: `Data.SpawnX/Y/Z` (Y 64
/// where absent), else the first three of `Data.spawn.pos`, else (0, 64, 0).
pub open spec fn spawn_of(root: CompoundModel) -> SpawnPoint {
    let dflt = SpawnPoint { x: 0, y: 64, z: 0 };
    match lookup(root.tags, "Data"@) {
        Some(NbtTag::Compound(d)) => match (int_opt(d, "SpawnX"@), int_opt(d, "SpawnZ"@)) {
            (Some(sx), Some(sz)) => SpawnPoint {
                x: sx,
                y: match int_opt(d, "SpawnY"@) {
                    Some(y) => y,
                    None => 64,
                },
                z: sz,
            },
            _ => match lookup(d.tags, "spawn"@) {
                Some(NbtTag::Compound(sc)) => match lookup(sc.tags, "pos"@) {
                    Some(NbtTag::IntArray(p)) => if p.len() >= 3 {
                        SpawnPoint { x: p[0], y: p[1], z: p[2] }
                    } else {
                        dflt
                    },
                    _ => dflt,
                },
                _ => dflt,
            },
        },
        _ => dflt,
    }
}

/// Reads the spawn point of a `level.dat` root.
pub fn read_spawn(root: &NbtCompound) -> (r: SpawnPoint)
    ensures
        r == spawn_of(root@),
{
    let data = match root.compound("Data") {
        Some(d) => d,
        None => {
            return SpawnPoint { x: 0, y: 64, z: 0 };
        },
    };
    match (data.int_value("SpawnX"), data.int_value("SpawnZ")) {
        (Some(sx), Some(sz)) => {
            let y = match data.int_value("SpawnY") {
                Some(y) => y,
                None => 64,
            };
            return SpawnPoint { x: sx, y, z: sz };
        },
        _ => {},
    }
    if let Some(spawn_comp) = data.compound("spawn") {
        if let Some(pos) = spawn_comp.int_array("pos") {
            if pos.len() >= 3 {
                return SpawnPoint { x: pos[0], y: pos[1], z: pos[2] };
            }
        }
    }
    SpawnPoint { x: 0, y: 64, z: 0 }
}

/// `v` limited to 1..=127.
pub open spec fn clamp_height(v: i32) -> i32 {
    if v < 1 {
        1
    } else if v > 127 {
        127
    } else {
        v
    }
}

fn clamp_y(v: i32) -> (r: i32)
    ensures
        r == clamp_height(v),
{
    if v < 1 {
        1
    } else if v > 127 {
        127
    } else {
        v
    }
}

/// The data version of a Java world: `Data.DataVersion`, else the root's,
/// else 0.
pub open spec fn data_version_of(root: CompoundModel, d: CompoundModel) -> i32 {
    match int_opt(d, "DataVersion"@) {
        Some(v) => v,
        None => int_or0(root, "DataVersion"@),
    }
}

/// The first tags of the Console `Data` compound made from Java `Data` `d`.
pub open spec fn lce_data_head(
    root: CompoundModel,
    d: CompoundModel,
    scx: i32,
    scz: i32,
    flat: bool,
    override_y: Option<i32>,
    last_played: i64,
) -> Seq<(Seq<char>, NbtTag)> {
    let modern = data_version_of(root, d) >= 1519;
    let spawn = spawn_of(root);
    let spawn_y = match override_y {
        Some(oy) => clamp_height(oy),
        None => if modern {
            64
        } else {
            clamp_height(spawn.y)
        },
    };
    let gen_name = if flat {
        "flat"@
    } else if modern {
        "default"@
    } else {
        text_or(d, "generatorName"@, "default"@)
    };
    let gen_version: i32 = if flat {
        0
    } else if modern {
        1
    } else {
        int_or0(d, "generatorVersion"@)
    };
    let gen_options = if flat {
        text_or(d, "generatorOptions"@, "2;7,2x3,2;1;"@)
    } else if modern {
        ""@
    } else {
        text_or(d, "generatorOptions"@, ""@)
    };
    let t = put(seq![], "RandomSeed"@, NbtTag::Long(long_or0(d, "RandomSeed"@)));
    let t = put(t, "generatorName"@, NbtTag::Text(gen_name));
    let t = put(t, "generatorVersion"@, NbtTag::Int(gen_version));
    let t = put(t, "generatorOptions"@, NbtTag::Text(gen_options));
    let t = put(t, "GameType"@, NbtTag::Int(int_or0(d, "GameType"@)));
    let t = put(t, "MapFeatures"@, NbtTag::Byte(flag_or(d, "MapFeatures"@, true)));
    let t = put(t, "SpawnX"@, NbtTag::Int(spawn.x.wrapping_sub(scx.wrapping_mul(16))));
    let t = put(t, "SpawnY"@, NbtTag::Int(spawn_y));
    let t = put(t, "SpawnZ"@, NbtTag::Int(spawn.z.wrapping_sub(scz.wrapping_mul(16))));
    let t = put(t, "Time"@, NbtTag::Long(long_or0(d, "Time"@)));
    let t = put(t, "DayTime"@, NbtTag::Long(long_or0(d, "DayTime"@)));
    let t = put(t, "SizeOnDisk"@, NbtTag::Long(0));
    let t = put(t, "LastPlayed"@, NbtTag::Long(last_played));
    put(t, "LevelName"@, NbtTag::Text(text_or(d, "LevelName"@, "Converted World"@)))
}

/// The remaining tags of the Console `Data` compound, appended to `t`.
pub open spec fn lce_data_tail(
    t: Seq<(Seq<char>, NbtTag)>,
    d: CompoundModel,
    xz_size: i32,
    modern: bool,
) -> Seq<(Seq<char>, NbtTag)> {
    let t = put(t, "version"@, NbtTag::Int(19133));
    let t = put(t, "rainTime"@, NbtTag::Int(int_or0(d, "rainTime"@)));
    let t = put(t, "raining"@, NbtTag::Byte(flag_or(d, "raining"@, false)));
    let t = put(t, "thunderTime"@, NbtTag::Int(int_or0(d, "thunderTime"@)));
    let t = put(t, "thundering"@, NbtTag::Byte(flag_or(d, "thundering"@, false)));
    let t = put(t, "hardcore"@, NbtTag::Byte(flag_or(d, "hardcore"@, false)));
    let t = put(t, "allowCommands"@, NbtTag::Byte(flag_or(d, "allowCommands"@, false)));
    let t = put(t, "initialized"@, NbtTag::Byte(flag_or(d, "initialized"@, true)));
    let t = put(t, "newSeaLevel"@, NbtTag::Byte(1));
    let t = put(t, "hasBeenInCreative"@, NbtTag::Byte(flag_or(d, "hasBeenInCreative"@, false)));
    let t = put(t, "spawnBonusChest"@, NbtTag::Byte(flag_or(d, "spawnBonusChest"@, false)));
    let t = put(t, "hasStronghold"@, NbtTag::Byte(0));
    let t = put(t, "StrongholdX"@, NbtTag::Int(0));
    let t = put(t, "StrongholdY"@, NbtTag::Int(0));
    let t = put(t, "StrongholdZ"@, NbtTag::Int(0));
    let t = put(t, "hasStrongholdEndPortal"@, NbtTag::Byte(0));
    let t = put(t, "StrongholdEndPortalX"@, NbtTag::Int(0));
    let t = put(t, "StrongholdEndPortalZ"@, NbtTag::Int(0));
    let t = put(t, "XZSize"@, NbtTag::Int(xz_size));
    let t = put(t, "HellScale"@, NbtTag::Int(3));
    if !modern {
        match lookup(d.tags, "GameRules"@) {
            Some(v) => put(t, "GameRules"@, v),
            None => t,
        }
    } else {
        t
    }
}

/// The `Data` compound of a `level.dat` root (the root itself where it has
/// none).
pub open spec fn data_of(root: CompoundModel) -> CompoundModel {
    match lookup(root.tags, "Data"@) {
        Some(NbtTag::Compound(d)) => d,
        _ => root,
    }
}

/// The Console `level.dat` root made from a Java `level.dat` root, with
/// `LastPlayed` set to `last_played`.
pub open spec fn lce_level_root(
    root: CompoundModel,
    scx: i32,
    scz: i32,
    xz_size: i32,
    flat: bool,
    override_y: Option<i32>,
    last_played: i64,
) -> CompoundModel {
    let d = data_of(root);
    let head = lce_data_head(root, d, scx, scz, flat, override_y, last_played);
    let tags = lce_data_tail(head, d, xz_size, data_version_of(root, d) >= 1519);
    CompoundModel {
        name: ""@,
        tags: put(seq![], "Data"@, NbtTag::Compound(CompoundModel { name: "Data"@, tags })),
    }
}

fn get_long(c: &NbtCompound, name: &str) -> (r: i64)
    ensures
        r == long_or0(c@, name@),
{
    match c.long(name) {
        Some(v) => v,
        None => 0,
    }
}

fn get_int(c: &NbtCompound, name: &str) -> (r: i32)
    ensures
        r == int_or0(c@, name@),
{
    match c.int_value(name) {
        Some(v) => v,
        None => 0,
    }
}

fn get_string(c: &NbtCompound, name: &str, default: &str) -> (r: String)
    ensures
        r@ == text_or(c@, name@, default@),
{
    match c.string(name) {
        Some(s) => owned(s),
        None => owned(default),
    }
}

fn get_bool(c: &NbtCompound, name: &str, default: bool) -> (r: i8)
    ensures
        r == flag_or(c@, name@, default),
{
    match c.byte(name) {
        Some(b) => b,
        None => if default {
            1
        } else {
            0
        },
    }
}

fn fill_lce_head(
    out: &mut NbtCompound,
    root: &NbtCompound,
    d: &NbtCompound,
    scx: i32,
    scz: i32,
    flat: bool,
    override_y: Option<i32>,
    last_played: i64,
)
    requires
        old(out)@.tags == Seq::<(Seq<char>, NbtTag)>::empty(),
        lookup(root@.tags, "Data"@) == Some(NbtTag::Compound(d@)),
    ensures
        final(out)@.name == old(out)@.name,
        final(out)@.tags == lce_data_head(root@, d@, scx, scz, flat, override_y, last_played),
{
    let data_version = match d.int_value("DataVersion") {
        Some(v) => v,
        None => get_int(root, "DataVersion"),
    };
    let modern = data_version >= 1519;
    let spawn = read_spawn(root);
    let spawn_y = match override_y {
        Some(oy) => clamp_y(oy),
        None => if modern {
            64
        } else {
            clamp_y(spawn.y)
        },
    };
    let gen_name = if flat {
        owned("flat")
    } else if modern {
        owned("default")
    } else {
        get_string(d, "generatorName", "default")
    };
    let gen_version: i32 = if flat {
        0
    } else if modern {
        1
    } else {
        get_int(d, "generatorVersion")
    };
    let gen_options = if flat {
        get_string(d, "generatorOptions", "2;7,2x3,2;1;")
    } else if modern {
        owned("")
    } else {
        get_string(d, "generatorOptions", "")
    };
    out.insert("RandomSeed", NbtValue::Long(get_long(d, "RandomSeed")));
    out.insert("generatorName", NbtValue::String(gen_name));
    out.insert("generatorVersion", NbtValue::Int(gen_version));
    out.insert("generatorOptions", NbtValue::String(gen_options));
    out.insert("GameType", NbtValue::Int(get_int(d, "GameType")));
    out.insert("MapFeatures", NbtValue::Byte(get_bool(d, "MapFeatures", true)));
    out.insert("SpawnX", NbtValue::Int(spawn.x.wrapping_sub(scx.wrapping_mul(16))));
    out.insert("SpawnY", NbtValue::Int(spawn_y));
    out.insert("SpawnZ", NbtValue::Int(spawn.z.wrapping_sub(scz.wrapping_mul(16))));
    out.insert("Time", NbtValue::Long(get_long(d, "Time")));
    out.insert("DayTime", NbtValue::Long(get_long(d, "DayTime")));
    out.insert("SizeOnDisk", NbtValue::Long(0));
    out.insert("LastPlayed", NbtValue::Long(last_played));
    out.insert("LevelName", NbtValue::String(get_string(d, "LevelName", "Converted World")));
}

fn fill_lce_tail(out: &mut NbtCompound, d: &NbtCompound, xz_size: i32, modern: bool)
    ensures
        final(out)@.name == old(out)@.name,
        final(out)@.tags == lce_data_tail(old(out)@.tags, d@, xz_size, modern),
{
    out.insert("version", NbtValue::Int(19133));
    out.insert("rainTime", NbtValue::Int(get_int(d, "rainTime")));
    out.insert("raining", NbtValue::Byte(get_bool(d, "raining", false)));
    out.insert("thunderTime", NbtValue::Int(get_int(d, "thunderTime")));
    out.insert("thundering", NbtValue::Byte(get_bool(d, "thundering", false)));
    out.insert("hardcore", NbtValue::Byte(get_bool(d, "hardcore", false)));
    out.insert("allowCommands", NbtValue::Byte(get_bool(d, "allowCommands", false)));
    out.insert("initialized", NbtValue::Byte(get_bool(d, "initialized", true)));
    out.insert("newSeaLevel", NbtValue::Byte(1));
    out.insert("hasBeenInCreative", NbtValue::Byte(get_bool(d, "hasBeenInCreative", false)));
    out.insert("spawnBonusChest", NbtValue::Byte(get_bool(d, "spawnBonusChest", false)));
    out.insert("hasStronghold", NbtValue::Byte(0));
    out.insert("StrongholdX", NbtValue::Int(0));
    out.insert("StrongholdY", NbtValue::Int(0));
    out.insert("StrongholdZ", NbtValue::Int(0));
    out.insert("hasStrongholdEndPortal", NbtValue::Byte(0));
    out.insert("StrongholdEndPortalX", NbtValue::Int(0));
    out.insert("StrongholdEndPortalZ", NbtValue::Int(0));
    out.insert("XZSize", NbtValue::Int(xz_size));
    out.insert("HellScale", NbtValue::Int(3));
    if !modern {
        if let Some(rules) = d.get("GameRules") {
            out.insert("GameRules", rules.deep_clone());
        }
    }
}

/// The Console `level.dat` bytes made from a Java `level.dat` root, with
/// the spawn moved relative to the spawn chunk and `LastPlayed` set to
/// `last_played`.
pub fn convert_java_to_lce_at(
    java_root: &NbtCompound,
    spawn_chunk_x: i32,
    spawn_chunk_z: i32,
    xz_size: i32,
    flat_world: bool,
    override_spawn_y: Option<i32>,
    last_played: i64,
) -> (r: Vec<u8>)
    requires
        lookup(java_root@.tags, "Data"@) matches Some(NbtTag::Compound(_)),
    ensures
        r@ == spec_write_nbt(
            lce_level_root(
                java_root@,
                spawn_chunk_x,
                spawn_chunk_z,
                xz_size,
                flat_world,
                override_spawn_y,
                last_played,
            ),
        ),
{
    let d = match java_root.compound("Data") {
        Some(d) => d,
        None => {
            assert(false);
            return Vec::new();
        },
    };
    let data_version = match d.int_value("DataVersion") {
        Some(v) => v,
        None => get_int(java_root, "DataVersion"),
    };
    let mut lce = NbtCompound::new("Data");
    fill_lce_head(&mut lce, java_root, d, spawn_chunk_x, spawn_chunk_z, flat_world, override_spawn_y, last_played);
    fill_lce_tail(&mut lce, d, xz_size, data_version >= 1519);
    let mut root = NbtCompound::new("");
    root.insert("Data", NbtValue::Compound(lce));
    write_nbt(&root)
}

/// The Console `level.dat` bytes made from a Java `level.dat` root, with
/// `LastPlayed` set to the current time.
pub fn convert_java_to_lce(
    java_root: &NbtCompound,
    spawn_chunk_x: i32,
    spawn_chunk_z: i32,
    xz_size: i32,
    flat_world: bool,
    override_spawn_y: Option<i32>,
) -> (r: Vec<u8>)
    requires
        lookup(java_root@.tags, "Data"@) matches Some(NbtTag::Compound(_)),
    ensures
        exists|t: i64|
            r@ == spec_write_nbt(
                #[trigger] lce_level_root(
                    java_root@,
                    spawn_chunk_x,
                    spawn_chunk_z,
                    xz_size,
                    flat_world,
                    override_spawn_y,
                    t,
                ),
            ),
{
    let now = now_unix_millis();
    convert_java_to_lce_at(java_root, spawn_chunk_x, spawn_chunk_z, xz_size, flat_world, override_spawn_y, now)
}

/// The Console-only `level.dat` fields that a Java world does without.
pub open spec fn lce_only_fields() -> Seq<Seq<char>> {
    seq!["newSeaLevel"@, "hasBeenInCreative"@, "spawnBonusChest"@, "XZSize"@, "xzSize"@, "HellScale"@, "hellScale"@, "hasStronghold"@, "StrongholdX"@, "StrongholdY"@, "StrongholdZ"@, "hasStrongholdEndPortal"@, "StrongholdEndPortalX"@, "StrongholdEndPortalZ"@, "xStronghold"@, "yStronghold"@, "zStronghold"@, "hasStrongholdEP"@, "xStrongholdEP"@, "zStrongholdEP"@]
}

/// `t` without any tag named in `names`.
pub open spec fn without_names(t: Seq<(Seq<char>, NbtTag)>, names: Seq<Seq<char>>) -> Seq<(Seq<char>, NbtTag)>
    decreases names.len(),
{
    if names.len() == 0 {
        t
    } else {
        without_name(without_names(t, names.drop_last()), names.last())
    }
}

/// The tags that setting each of `ts` in turn gives (a later tag of a name
/// replaces an earlier one and moves to the end).
pub open spec fn refold(ts: Seq<(Seq<char>, NbtTag)>) -> Seq<(Seq<char>, NbtTag)>
    decreases ts.len(),
{
    if ts.len() == 0 {
        seq![]
    } else {
        put(refold(ts.drop_last()), ts.last().0, ts.last().1)
    }
}

/// The Java `level.dat` root made from a Console `level.dat` root: its
/// `Data` (or the root itself) without the Console-only fields, with the
/// given spawn overrides, version 1.12.2 markers, the embedded player as
/// `Player`, and `LastPlayed` set to `last_played`.
pub open spec fn java_level_root(
    lce_root: CompoundModel,
    ox: Option<i32>,
    oy: Option<i32>,
    oz: Option<i32>,
    player: Option<CompoundModel>,
    last_played: i64,
) -> CompoundModel {
    let t = without_names(data_of(lce_root).tags, lce_only_fields());
    let t = match ox {
        Some(x) => put(t, "SpawnX"@, NbtTag::Int(x)),
        None => t,
    };
    let t = match oy {
        Some(y) => put(t, "SpawnY"@, NbtTag::Int(y)),
        None => t,
    };
    let t = match oz {
        Some(z) => put(t, "SpawnZ"@, NbtTag::Int(z)),
        None => t,
    };
    let t = put(t, "version"@, NbtTag::Int(19133));
    let t = put(t, "DataVersion"@, NbtTag::Int(1343));
    let v = put(seq![], "Id"@, NbtTag::Int(1343));
    let v = put(v, "Name"@, NbtTag::Text("1.12.2"@));
    let v = put(v, "Snapshot"@, NbtTag::Byte(0));
    let t = put(t, "Version"@, NbtTag::Compound(CompoundModel { name: "Version"@, tags: v }));
    let t = match player {
        Some(p) => put(t, "Player"@, NbtTag::Compound(CompoundModel { name: "Player"@, tags: p.tags })),
        None => t,
    };
    let t = put(t, "LastPlayed"@, NbtTag::Long(last_played));
    CompoundModel {
        name: ""@,
        tags: put(seq![], "Data"@, NbtTag::Compound(CompoundModel { name: "Data"@, tags: refold(t) })),
    }
}

/// The value of an optional compound.
pub open spec fn player_model(p: Option<&NbtCompound>) -> Option<CompoundModel> {
    match p {
        Some(c) => Some(c@),
        None => None,
    }
}

/// The gzip-compressed Java `level.dat` made from a Console `level.dat`
/// root, with `LastPlayed` set to `last_played`.
pub fn convert_lce_to_java_at(
    lce_root: &NbtCompound,
    override_spawn_x: Option<i32>,
    override_spawn_y: Option<i32>,
    override_spawn_z: Option<i32>,
    embedded_player: Option<&NbtCompound>,
    last_played: i64,
) -> (r: Vec<u8>)
    ensures
        r@ == gzip_compressed(
            spec_write_nbt(
                java_level_root(
                    lce_root@,
                    override_spawn_x,
                    override_spawn_y,
                    override_spawn_z,
                    player_model(embedded_player),
                    last_played,
                ),
            ),
            9,
        ),
{
    let src: &NbtCompound = match lce_root.compound("Data") {
        Some(d) => d,
        None => lce_root,
    };
    assert(src@ == data_of(lce_root@));
    let mut java = src.deep_clone();
    let fields: [&str; 20] = ["newSeaLevel", "hasBeenInCreative", "spawnBonusChest", "XZSize", "xzSize", "HellScale", "hellScale", "hasStronghold", "StrongholdX", "StrongholdY", "StrongholdZ", "hasStrongholdEndPortal", "StrongholdEndPortalX", "StrongholdEndPortalZ", "xStronghold", "yStronghold", "zStronghold", "hasStrongholdEP", "xStrongholdEP", "zStrongholdEP"];
    let ghost names = lce_only_fields();
    assert(fields@.len() == 20);
    assert(forall|i: int| 0 <= i < 20 ==> #[trigger] fields@[i]@ == names[i]);
    let mut i: usize = 0;
    while i < 20
        invariant
            i <= 20,
            names == lce_only_fields(),
            forall|j: int| 0 <= j < 20 ==> #[trigger] fields@[j]@ == names[j],
            java@.tags == without_names(src@.tags, names.take(i as int)),
        decreases 20 - i,
    {
        assert(names.take(i + 1).drop_last() =~= names.take(i as int));
        java.remove(fields[i]);
        i += 1;
    }
    assert(names.take(20) =~= names);
    if let Some(x) = override_spawn_x {
        java.insert("SpawnX", NbtValue::Int(x));
    }
    if let Some(y) = override_spawn_y {
        java.insert("SpawnY", NbtValue::Int(y));
    }
    if let Some(z) = override_spawn_z {
        java.insert("SpawnZ", NbtValue::Int(z));
    }
    java.insert("version", NbtValue::Int(19133));
    java.insert("DataVersion", NbtValue::Int(1343));
    let mut version = NbtCompound::new("Version");
    version.insert("Id", NbtValue::Int(1343));
    version.insert("Name", NbtValue::String(owned("1.12.2")));
    version.insert("Snapshot", NbtValue::Byte(0));
    java.insert("Version", NbtValue::Compound(version));
    if let Some(p) = embedded_player {
        let mut tag = p.deep_clone();
        tag.name = owned("Player");
        java.insert("Player", NbtValue::Compound(tag));
    }
    java.insert("LastPlayed", NbtValue::Long(last_played));
    let mut data_tag = NbtCompound::new("Data");
    let ghost m = crate::nbt::tags_model(java.tags@);
    proof {
        crate::nbt::lemma_tags_model(java.tags@);
    }
    let n = java.tags.len();
    let mut k: usize = 0;
    while k < n
        invariant
            n == java.tags@.len(),
            m == java@.tags,
            m.len() == n,
            forall|j: int| 0 <= j < n ==> #[trigger] m[j] == (java.tags@[j].0@, java.tags@[j].1@),
            k <= n,
            data_tag@.name == "Data"@,
            data_tag@.tags == refold(m.take(k as int)),
        decreases n - k,
    {
        assert(m.take(k + 1).drop_last() =~= m.take(k as int));
        assert(m.take(k + 1).last() == m[k as int]);
        data_tag.insert(java.tags[k].0.as_str(), java.tags[k].1.deep_clone());
        k += 1;
    }
    assert(m.take(n as int) =~= m);
    let mut root = NbtCompound::new("");
    root.insert("Data", NbtValue::Compound(data_tag));
    write_gzip_nbt(&root)
}

/// The gzip-compressed Java `level.dat` made from a Console `level.dat`
/// root, with `LastPlayed` set to the current time.
pub fn convert_lce_to_java(
    lce_root: &NbtCompound,
    override_spawn_x: Option<i32>,
    override_spawn_y: Option<i32>,
    override_spawn_z: Option<i32>,
    embedded_player: Option<&NbtCompound>,
) -> (r: Vec<u8>)
    ensures
        exists|t: i64|
            r@ == gzip_compressed(
                spec_write_nbt(
                    #[trigger] java_level_root(
                        lce_root@,
                        override_spawn_x,
                        override_spawn_y,
                        override_spawn_z,
                        player_model(embedded_player),
                        t,
                    ),
                ),
                9,
            ),
{
    let now = now_unix_millis();
    convert_lce_to_java_at(lce_root, override_spawn_x, override_spawn_y, override_spawn_z, embedded_player, now)
}


proof fn lemma_put_other()
    ensures
        forall|t: Seq<(Seq<char>, NbtTag)>, n: Seq<char>, v: NbtTag, o: Seq<char>|
            n != o ==> #[trigger] lookup(put(t, n, v), o) == lookup(t, o),
        forall|t: Seq<(Seq<char>, NbtTag)>, n: Seq<char>, v: NbtTag|
            #[trigger] lookup(put(t, n, v), n) == Some(v),
{
    assert forall|t: Seq<(Seq<char>, NbtTag)>, n: Seq<char>, v: NbtTag, o: Seq<char>|
        n != o implies #[trigger] lookup(put(t, n, v), o) == lookup(t, o) by {
        crate::nbt::lemma_lookup_after_insert(t, n, v, o);
    }
    assert forall|t: Seq<(Seq<char>, NbtTag)>, n: Seq<char>, v: NbtTag|
        #[trigger] lookup(put(t, n, v), n) == Some(v) by {
        crate::nbt::lemma_lookup_after_insert(t, n, v, n);
    }
}

/// Converting a Java `level.dat` to the Console layout keeps its game mode:
/// the Console `Data.GameType` is the Java `Data.GameType` (0 where absent).
pub proof fn lemma_lce_level_keeps_game_type(
    root: CompoundModel,
    scx: i32,
    scz: i32,
    xz_size: i32,
    flat: bool,
    override_y: Option<i32>,
    last_played: i64,
)
    ensures
        lookup(lce_level_root(root, scx, scz, xz_size, flat, override_y, last_played).tags, "Data"@) matches Some(
            NbtTag::Compound(out),
        ) && lookup(out.tags, "GameType"@) == Some(NbtTag::Int(int_or0(data_of(root), "GameType"@))),
{
    let d = data_of(root);
    let g = "GameType"@;
    reveal_strlit("GameType");
    reveal_strlit("MapFeatures");
    reveal_strlit("SpawnX");
    reveal_strlit("SpawnY");
    reveal_strlit("SpawnZ");
    reveal_strlit("Time");
    reveal_strlit("DayTime");
    reveal_strlit("SizeOnDisk");
    reveal_strlit("LastPlayed");
    reveal_strlit("LevelName");
    reveal_strlit("version");
    reveal_strlit("rainTime");
    reveal_strlit("raining");
    reveal_strlit("thunderTime");
    reveal_strlit("thundering");
    reveal_strlit("hardcore");
    reveal_strlit("allowCommands");
    reveal_strlit("initialized");
    reveal_strlit("newSeaLevel");
    reveal_strlit("hasBeenInCreative");
    reveal_strlit("spawnBonusChest");
    reveal_strlit("hasStronghold");
    reveal_strlit("StrongholdX");
    reveal_strlit("StrongholdY");
    reveal_strlit("StrongholdZ");
    reveal_strlit("hasStrongholdEndPortal");
    reveal_strlit("StrongholdEndPortalX");
    reveal_strlit("StrongholdEndPortalZ");
    reveal_strlit("XZSize");
    reveal_strlit("HellScale");
    reveal_strlit("GameRules");
    reveal_strlit("Data");
    let names = seq![
        "MapFeatures"@, "SpawnX"@, "SpawnY"@, "SpawnZ"@, "Time"@, "DayTime"@, "SizeOnDisk"@,
        "LastPlayed"@, "LevelName"@, "version"@, "rainTime"@, "raining"@, "thunderTime"@,
        "thundering"@, "hardcore"@, "allowCommands"@, "initialized"@, "newSeaLevel"@,
        "hasBeenInCreative"@, "spawnBonusChest"@, "hasStronghold"@, "StrongholdX"@,
        "StrongholdY"@, "StrongholdZ"@, "hasStrongholdEndPortal"@, "StrongholdEndPortalX"@,
        "StrongholdEndPortalZ"@, "XZSize"@, "HellScale"@, "GameRules"@,
    ];
    assert forall|j: int| 0 <= j < names.len() implies #[trigger] names[j] != g by {
        assert(names[j].len() != g.len() || names[j][0] != g[0] || names[j][1] != g[1] || names[j][4] != g[4]);
    }
    lemma_put_other();
}

} // verus!
