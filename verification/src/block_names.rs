//! How modern block names and legacy blocks relate.
use crate::block_mapping::{direct_state_0, lit, st, state_name};
use crate::modern_names::modern_name;
use crate::nbt::{CompoundModel, NbtTag};
use vstd::prelude::*;

verus! {

/// The block state compound that holds only the name `name`.
pub open spec fn named_state(name: Seq<char>) -> CompoundModel {
    CompoundModel { name: ""@, tags: seq![("Name"@, NbtTag::Text(name))] }
}

/// The bytes of an ASCII string are its characters.
proof fn lemma_ascii_lit(s: &str)
    requires
        vstd::utf8::is_ascii_chars(s@),
    ensures
        lit(s).len() == s@.len(),
        forall|i: int| 0 <= i < s@.len() ==> #[trigger] lit(s)[i] == s@[i] as u8,
{
    vstd::utf8::is_ascii_chars_encode_utf8(s@);
}

/// The bare name of `full` is `bare` where `full` is `minecraft:` and then `bare`.
proof fn lemma_full_name(full: &str, bare: &str)
    requires
        vstd::utf8::is_ascii_chars(full@),
        vstd::utf8::is_ascii_chars(bare@),
        full@ == "minecraft:"@ + bare@,
    ensures
        state_name(named_state(full@)) == lit(bare),
{
    reveal_strlit("minecraft:");
    reveal_strlit("Name");
    lemma_ascii_lit(full);
    lemma_ascii_lit(bare);
    lemma_ascii_lit("minecraft:");
    assert(lit(full).subrange(0, 10) =~= lit("minecraft:"));
    assert(lit(full).skip(10) =~= lit(bare));
}

/// The characters that the UTF-8 bytes `b` encode.
#[verifier::opaque]
pub open spec fn name_chars(b: Seq<u8>) -> Seq<char> {
    vstd::utf8::decode_utf8(b)
}

/// Decoding the bytes of a string gives the string back.
proof fn lemma_lit_decodes()
    ensures
        forall|s: &str| #![trigger lit(s)] name_chars(lit(s)) == s@,
{
    reveal(name_chars);
    assert forall|s: &str| #![trigger lit(s)] name_chars(lit(s)) == s@ by {
        vstd::utf8::encode_utf8_decode_utf8(s@);
    }
}

/// The legacy blocks (id and data) whose modern name the table of names
/// with a fixed legacy block lists as that same block.
pub open spec fn listed_block(id: u8, meta: u8) -> bool {
    (id == 31 && meta == 1) || (meta == 0 && (
        id == 0 || id == 1 || id == 3 || id == 4 || id == 7 || id == 12 || id == 13
        || id == 14 || id == 15 || id == 16 || id == 20 || id == 21 || id == 22 || id == 24
        || id == 25 || id == 27 || id == 28 || id == 30 || id == 32 || id == 37 || id == 38
        || id == 39 || id == 40 || id == 41 || id == 42 || id == 45 || id == 46 || id == 47
        || id == 48 || id == 49
    ))
}

/// A listed legacy block, named by its modern name alone, is mapped back by
/// the fixed-name table to the same legacy id and data.
pub proof fn lemma_fixed_names_round_trip(id: u8, meta: u8)
    requires
        listed_block(id, meta),
    ensures
        direct_state_0(state_name(named_state(modern_name(id, meta)))) == Some(st(id, meta)),
{
    if id == 0 && meta == 0 {
        lemma_round_trip_0_0();
    } else if id == 1 && meta == 0 {
        lemma_round_trip_1_0();
    } else if id == 3 && meta == 0 {
        lemma_round_trip_3_0();
    } else if id == 4 && meta == 0 {
        lemma_round_trip_4_0();
    } else if id == 7 && meta == 0 {
        lemma_round_trip_7_0();
    } else if id == 12 && meta == 0 {
        lemma_round_trip_12_0();
    } else if id == 13 && meta == 0 {
        lemma_round_trip_13_0();
    } else if id == 14 && meta == 0 {
        lemma_round_trip_14_0();
    } else if id == 15 && meta == 0 {
        lemma_round_trip_15_0();
    } else if id == 16 && meta == 0 {
        lemma_round_trip_16_0();
    } else if id == 20 && meta == 0 {
        lemma_round_trip_20_0();
    } else if id == 21 && meta == 0 {
        lemma_round_trip_21_0();
    } else if id == 24 && meta == 0 {
        lemma_round_trip_24_0();
    } else if id == 30 && meta == 0 {
        lemma_round_trip_30_0();
    } else if id == 31 && meta == 1 {
        lemma_round_trip_31_1();
    } else if id == 41 && meta == 0 {
        lemma_round_trip_41_0();
    } else if id == 42 && meta == 0 {
        lemma_round_trip_42_0();
    } else if id == 45 && meta == 0 {
        lemma_round_trip_45_0();
    } else if id == 46 && meta == 0 {
        lemma_round_trip_46_0();
    } else if id == 47 && meta == 0 {
        lemma_round_trip_47_0();
    } else if id == 49 && meta == 0 {
        lemma_round_trip_49_0();
    } else if id == 22 && meta == 0 {
        lemma_round_trip_22_0();
    } else if id == 25 && meta == 0 {
        lemma_round_trip_25_0();
    } else if id == 27 && meta == 0 {
        lemma_round_trip_27_0();
    } else if id == 28 && meta == 0 {
        lemma_round_trip_28_0();
    } else if id == 32 && meta == 0 {
        lemma_round_trip_32_0();
    } else if id == 37 && meta == 0 {
        lemma_round_trip_37_0();
    } else if id == 38 && meta == 0 {
        lemma_round_trip_38_0();
    } else if id == 39 && meta == 0 {
        lemma_round_trip_39_0();
    } else if id == 40 && meta == 0 {
        lemma_round_trip_40_0();
    } else if id == 48 && meta == 0 {
        lemma_round_trip_48_0();
    }
}

#[verifier::rlimit(30)]
proof fn lemma_round_trip_0_0()
    ensures
        direct_state_0(state_name(named_state(modern_name(0, 0)))) == Some(st(0, 0)),
{
    assert(state_name(named_state(modern_name(0, 0))) == lit("air")) by {
        reveal_strlit("minecraft:air");
        reveal_strlit("minecraft:");
        reveal_strlit("air");
        assert("minecraft:air"@ =~= "minecraft:"@ + "air"@);
        lemma_full_name("minecraft:air", "air");
    }
    assert(direct_state_0(lit("air")) == Some(st(0, 0))) by {
        lemma_lit_decodes();
        reveal_strlit("air");
    }
}

#[verifier::rlimit(30)]
proof fn lemma_round_trip_1_0()
    ensures
        direct_state_0(state_name(named_state(modern_name(1, 0)))) == Some(st(1, 0)),
{
    assert(state_name(named_state(modern_name(1, 0))) == lit("stone")) by {
        reveal_strlit("minecraft:stone");
        reveal_strlit("minecraft:");
        reveal_strlit("stone");
        assert("minecraft:stone"@ =~= "minecraft:"@ + "stone"@);
        lemma_full_name("minecraft:stone", "stone");
    }
    assert(direct_state_0(lit("stone")) == Some(st(1, 0))) by {
        lemma_lit_decodes();
        reveal_strlit("stone");
        reveal_strlit("air");
        reveal_strlit("cave_air");
        reveal_strlit("void_air");
    }
}

#[verifier::rlimit(30)]
proof fn lemma_round_trip_3_0()
    ensures
        direct_state_0(state_name(named_state(modern_name(3, 0)))) == Some(st(3, 0)),
{
    assert(state_name(named_state(modern_name(3, 0))) == lit("dirt")) by {
        reveal_strlit("minecraft:dirt");
        reveal_strlit("minecraft:");
        reveal_strlit("dirt");
        assert("minecraft:dirt"@ =~= "minecraft:"@ + "dirt"@);
        lemma_full_name("minecraft:dirt", "dirt");
    }
    assert(direct_state_0(lit("dirt")) == Some(st(3, 0))) by {
        lemma_lit_decodes();
        reveal_strlit("dirt");
        reveal_strlit("air");
        reveal_strlit("cave_air");
        reveal_strlit("void_air");
        reveal_strlit("stone");
        reveal_strlit("grass");
        reveal_strlit("short_grass");
        reveal_strlit("short_dry_grass");
    }
}

#[verifier::rlimit(30)]
proof fn lemma_round_trip_4_0()
    ensures
        direct_state_0(state_name(named_state(modern_name(4, 0)))) == Some(st(4, 0)),
{
    assert(state_name(named_state(modern_name(4, 0))) == lit("cobblestone")) by {
        reveal_strlit("minecraft:cobblestone");
        reveal_strlit("minecraft:");
        reveal_strlit("cobblestone");
        assert("minecraft:cobblestone"@ =~= "minecraft:"@ + "cobblestone"@);
        lemma_full_name("minecraft:cobblestone", "cobblestone");
    }
    assert(direct_state_0(lit("cobblestone")) == Some(st(4, 0))) by {
        lemma_lit_decodes();
        reveal_strlit("cobblestone");
        reveal_strlit("air");
        reveal_strlit("cave_air");
        reveal_strlit("void_air");
        reveal_strlit("stone");
        reveal_strlit("grass");
        reveal_strlit("short_grass");
        reveal_strlit("short_dry_grass");
        reveal_strlit("dirt");
        assert("cobblestone"@[0] == 'c');
        assert("short_grass"@[0] == 's');
    }
}

#[verifier::rlimit(30)]
proof fn lemma_round_trip_7_0()
    ensures
        direct_state_0(state_name(named_state(modern_name(7, 0)))) == Some(st(7, 0)),
{
    assert(state_name(named_state(modern_name(7, 0))) == lit("bedrock")) by {
        reveal_strlit("minecraft:bedrock");
        reveal_strlit("minecraft:");
        reveal_strlit("bedrock");
        assert("minecraft:bedrock"@ =~= "minecraft:"@ + "bedrock"@);
        lemma_full_name("minecraft:bedrock", "bedrock");
    }
    assert(direct_state_0(lit("bedrock")) == Some(st(7, 0))) by {
        lemma_lit_decodes();
        reveal_strlit("bedrock");
        reveal_strlit("air");
        reveal_strlit("cave_air");
        reveal_strlit("void_air");
        reveal_strlit("stone");
        reveal_strlit("grass");
        reveal_strlit("short_grass");
        reveal_strlit("short_dry_grass");
        reveal_strlit("dirt");
        reveal_strlit("cobblestone");
    }
}

#[verifier::rlimit(30)]
proof fn lemma_round_trip_12_0()
    ensures
        direct_state_0(state_name(named_state(modern_name(12, 0)))) == Some(st(12, 0)),
{
    assert(state_name(named_state(modern_name(12, 0))) == lit("sand")) by {
        reveal_strlit("minecraft:sand");
        reveal_strlit("minecraft:");
        reveal_strlit("sand");
        assert("minecraft:sand"@ =~= "minecraft:"@ + "sand"@);
        lemma_full_name("minecraft:sand", "sand");
    }
    assert(direct_state_0(lit("sand")) == Some(st(12, 0))) by {
        lemma_lit_decodes();
        reveal_strlit("sand");
        reveal_strlit("air");
        reveal_strlit("cave_air");
        reveal_strlit("void_air");
        reveal_strlit("stone");
        reveal_strlit("grass");
        reveal_strlit("short_grass");
        reveal_strlit("short_dry_grass");
        reveal_strlit("dirt");
        reveal_strlit("cobblestone");
        reveal_strlit("bedrock");
        reveal_strlit("water");
        reveal_strlit("lava");
        assert("sand"@[0] == 's');
        assert("dirt"@[0] == 'd');
        assert("lava"@[0] == 'l');
    }
}

#[verifier::rlimit(30)]
proof fn lemma_round_trip_13_0()
    ensures
        direct_state_0(state_name(named_state(modern_name(13, 0)))) == Some(st(13, 0)),
{
    assert(state_name(named_state(modern_name(13, 0))) == lit("gravel")) by {
        reveal_strlit("minecraft:gravel");
        reveal_strlit("minecraft:");
        reveal_strlit("gravel");
        assert("minecraft:gravel"@ =~= "minecraft:"@ + "gravel"@);
        lemma_full_name("minecraft:gravel", "gravel");
    }
    assert(direct_state_0(lit("gravel")) == Some(st(13, 0))) by {
        lemma_lit_decodes();
        reveal_strlit("gravel");
        reveal_strlit("air");
        reveal_strlit("cave_air");
        reveal_strlit("void_air");
        reveal_strlit("stone");
        reveal_strlit("grass");
        reveal_strlit("short_grass");
        reveal_strlit("short_dry_grass");
        reveal_strlit("dirt");
        reveal_strlit("cobblestone");
        reveal_strlit("bedrock");
        reveal_strlit("water");
        reveal_strlit("lava");
        reveal_strlit("sand");
    }
}

#[verifier::rlimit(30)]
proof fn lemma_round_trip_14_0()
    ensures
        direct_state_0(state_name(named_state(modern_name(14, 0)))) == Some(st(14, 0)),
{
    assert(state_name(named_state(modern_name(14, 0))) == lit("gold_ore")) by {
        reveal_strlit("minecraft:gold_ore");
        reveal_strlit("minecraft:");
        reveal_strlit("gold_ore");
        assert("minecraft:gold_ore"@ =~= "minecraft:"@ + "gold_ore"@);
        lemma_full_name("minecraft:gold_ore", "gold_ore");
    }
    assert(direct_state_0(lit("gold_ore")) == Some(st(14, 0))) by {
        lemma_lit_decodes();
        reveal_strlit("gold_ore");
        reveal_strlit("air");
        reveal_strlit("cave_air");
        reveal_strlit("void_air");
        reveal_strlit("stone");
        reveal_strlit("grass");
        reveal_strlit("short_grass");
        reveal_strlit("short_dry_grass");
        reveal_strlit("dirt");
        reveal_strlit("cobblestone");
        reveal_strlit("bedrock");
        reveal_strlit("water");
        reveal_strlit("lava");
        reveal_strlit("sand");
        reveal_strlit("gravel");
        assert("gold_ore"@[0] == 'g');
        assert("cave_air"@[0] == 'c');
        assert("void_air"@[0] == 'v');
    }
}

#[verifier::rlimit(30)]
proof fn lemma_round_trip_15_0()
    ensures
        direct_state_0(state_name(named_state(modern_name(15, 0)))) == Some(st(15, 0)),
{
    assert(state_name(named_state(modern_name(15, 0))) == lit("iron_ore")) by {
        reveal_strlit("minecraft:iron_ore");
        reveal_strlit("minecraft:");
        reveal_strlit("iron_ore");
        assert("minecraft:iron_ore"@ =~= "minecraft:"@ + "iron_ore"@);
        lemma_full_name("minecraft:iron_ore", "iron_ore");
    }
    assert(direct_state_0(lit("iron_ore")) == Some(st(15, 0))) by {
        lemma_lit_decodes();
        reveal_strlit("iron_ore");
        reveal_strlit("air");
        reveal_strlit("cave_air");
        reveal_strlit("void_air");
        reveal_strlit("stone");
        reveal_strlit("grass");
        reveal_strlit("short_grass");
        reveal_strlit("short_dry_grass");
        reveal_strlit("dirt");
        reveal_strlit("cobblestone");
        reveal_strlit("bedrock");
        reveal_strlit("water");
        reveal_strlit("lava");
        reveal_strlit("sand");
        reveal_strlit("gravel");
        reveal_strlit("gold_ore");
        assert("iron_ore"@[0] == 'i');
        assert("cave_air"@[0] == 'c');
        assert("void_air"@[0] == 'v');
        assert("gold_ore"@[0] == 'g');
    }
}

#[verifier::rlimit(30)]
proof fn lemma_round_trip_16_0()
    ensures
        direct_state_0(state_name(named_state(modern_name(16, 0)))) == Some(st(16, 0)),
{
    assert(state_name(named_state(modern_name(16, 0))) == lit("coal_ore")) by {
        reveal_strlit("minecraft:coal_ore");
        reveal_strlit("minecraft:");
        reveal_strlit("coal_ore");
        assert("minecraft:coal_ore"@ =~= "minecraft:"@ + "coal_ore"@);
        lemma_full_name("minecraft:coal_ore", "coal_ore");
    }
    assert(direct_state_0(lit("coal_ore")) == Some(st(16, 0))) by {
        lemma_lit_decodes();
        reveal_strlit("coal_ore");
        reveal_strlit("air");
        reveal_strlit("cave_air");
        reveal_strlit("void_air");
        reveal_strlit("stone");
        reveal_strlit("grass");
        reveal_strlit("short_grass");
        reveal_strlit("short_dry_grass");
        reveal_strlit("dirt");
        reveal_strlit("cobblestone");
        reveal_strlit("bedrock");
        reveal_strlit("water");
        reveal_strlit("lava");
        reveal_strlit("sand");
        reveal_strlit("gravel");
        reveal_strlit("gold_ore");
        reveal_strlit("iron_ore");
        assert("coal_ore"@[0] == 'c' && "coal_ore"@[1] == 'o');
        assert("cave_air"@[1] == 'a');
        assert("void_air"@[0] == 'v');
        assert("gold_ore"@[0] == 'g');
        assert("iron_ore"@[0] == 'i');
    }
}

#[verifier::rlimit(30)]
proof fn lemma_round_trip_20_0()
    ensures
        direct_state_0(state_name(named_state(modern_name(20, 0)))) == Some(st(20, 0)),
{
    assert(state_name(named_state(modern_name(20, 0))) == lit("glass")) by {
        reveal_strlit("minecraft:glass");
        reveal_strlit("minecraft:");
        reveal_strlit("glass");
        assert("minecraft:glass"@ =~= "minecraft:"@ + "glass"@);
        lemma_full_name("minecraft:glass", "glass");
    }
    assert(direct_state_0(lit("glass")) == Some(st(20, 0))) by {
        lemma_lit_decodes();
        reveal_strlit("glass");
        reveal_strlit("air");
        reveal_strlit("cave_air");
        reveal_strlit("void_air");
        reveal_strlit("stone");
        reveal_strlit("grass");
        reveal_strlit("short_grass");
        reveal_strlit("short_dry_grass");
        reveal_strlit("dirt");
        reveal_strlit("cobblestone");
        reveal_strlit("bedrock");
        reveal_strlit("water");
        reveal_strlit("lava");
        reveal_strlit("sand");
        reveal_strlit("gravel");
        reveal_strlit("gold_ore");
        reveal_strlit("iron_ore");
        reveal_strlit("coal_ore");
        reveal_strlit("oak_log");
        reveal_strlit("oak_leaves");
        assert("glass"@[0] == 'g' && "glass"@[1] == 'l');
        assert("stone"@[0] == 's');
        assert("grass"@[1] == 'r');
        assert("water"@[0] == 'w');
    }
}

#[verifier::rlimit(30)]
proof fn lemma_round_trip_21_0()
    ensures
        direct_state_0(state_name(named_state(modern_name(21, 0)))) == Some(st(21, 0)),
{
    assert(state_name(named_state(modern_name(21, 0))) == lit("lapis_ore")) by {
        reveal_strlit("minecraft:lapis_ore");
        reveal_strlit("minecraft:");
        reveal_strlit("lapis_ore");
        assert("minecraft:lapis_ore"@ =~= "minecraft:"@ + "lapis_ore"@);
        lemma_full_name("minecraft:lapis_ore", "lapis_ore");
    }
    assert(direct_state_0(lit("lapis_ore")) == Some(st(21, 0))) by {
        lemma_lit_decodes();
        reveal_strlit("lapis_ore");
        reveal_strlit("air");
        reveal_strlit("cave_air");
        reveal_strlit("void_air");
        reveal_strlit("stone");
        reveal_strlit("grass");
        reveal_strlit("short_grass");
        reveal_strlit("short_dry_grass");
        reveal_strlit("dirt");
        reveal_strlit("cobblestone");
        reveal_strlit("bedrock");
        reveal_strlit("water");
        reveal_strlit("lava");
        reveal_strlit("sand");
        reveal_strlit("gravel");
        reveal_strlit("gold_ore");
        reveal_strlit("iron_ore");
        reveal_strlit("coal_ore");
        reveal_strlit("oak_log");
        reveal_strlit("oak_leaves");
        reveal_strlit("glass");
    }
}

#[verifier::rlimit(30)]
proof fn lemma_round_trip_24_0()
    ensures
        direct_state_0(state_name(named_state(modern_name(24, 0)))) == Some(st(24, 0)),
{
    assert(state_name(named_state(modern_name(24, 0))) == lit("sandstone")) by {
        reveal_strlit("minecraft:sandstone");
        reveal_strlit("minecraft:");
        reveal_strlit("sandstone");
        assert("minecraft:sandstone"@ =~= "minecraft:"@ + "sandstone"@);
        lemma_full_name("minecraft:sandstone", "sandstone");
    }
    assert(direct_state_0(lit("sandstone")) == Some(st(24, 0))) by {
        lemma_lit_decodes();
        reveal_strlit("sandstone");
        reveal_strlit("air");
        reveal_strlit("cave_air");
        reveal_strlit("void_air");
        reveal_strlit("stone");
        reveal_strlit("grass");
        reveal_strlit("short_grass");
        reveal_strlit("short_dry_grass");
        reveal_strlit("dirt");
        reveal_strlit("cobblestone");
        reveal_strlit("bedrock");
        reveal_strlit("water");
        reveal_strlit("lava");
        reveal_strlit("sand");
        reveal_strlit("gravel");
        reveal_strlit("gold_ore");
        reveal_strlit("iron_ore");
        reveal_strlit("coal_ore");
        reveal_strlit("oak_log");
        reveal_strlit("oak_leaves");
        reveal_strlit("glass");
        reveal_strlit("lapis_ore");
        reveal_strlit("lapis_block");
        reveal_strlit("dispenser");
        assert("sandstone"@[0] == 's');
        assert("lapis_ore"@[0] == 'l');
        assert("dispenser"@[0] == 'd');
    }
}

#[verifier::rlimit(30)]
proof fn lemma_round_trip_30_0()
    ensures
        direct_state_0(state_name(named_state(modern_name(30, 0)))) == Some(st(30, 0)),
{
    assert(state_name(named_state(modern_name(30, 0))) == lit("cobweb")) by {
        reveal_strlit("minecraft:cobweb");
        reveal_strlit("minecraft:");
        reveal_strlit("cobweb");
        assert("minecraft:cobweb"@ =~= "minecraft:"@ + "cobweb"@);
        lemma_full_name("minecraft:cobweb", "cobweb");
    }
    assert(direct_state_0(lit("cobweb")) == Some(st(30, 0))) by {
        lemma_lit_decodes();
        reveal_strlit("cobweb");
        reveal_strlit("air");
        reveal_strlit("cave_air");
        reveal_strlit("void_air");
        reveal_strlit("stone");
        reveal_strlit("grass");
        reveal_strlit("short_grass");
        reveal_strlit("short_dry_grass");
        reveal_strlit("dirt");
        reveal_strlit("cobblestone");
        reveal_strlit("bedrock");
        reveal_strlit("water");
        reveal_strlit("lava");
        reveal_strlit("sand");
        reveal_strlit("gravel");
        reveal_strlit("gold_ore");
        reveal_strlit("iron_ore");
        reveal_strlit("coal_ore");
        reveal_strlit("oak_log");
        reveal_strlit("oak_leaves");
        reveal_strlit("glass");
        reveal_strlit("lapis_ore");
        reveal_strlit("lapis_block");
        reveal_strlit("dispenser");
        reveal_strlit("sandstone");
        reveal_strlit("note_block");
        reveal_strlit("powered_rail");
        reveal_strlit("detector_rail");
        reveal_strlit("sticky_piston");
        assert("cobweb"@[0] == 'c');
        assert("gravel"@[0] == 'g');
    }
}

#[verifier::rlimit(30)]
proof fn lemma_round_trip_31_1()
    ensures
        direct_state_0(state_name(named_state(modern_name(31, 1)))) == Some(st(31, 1)),
{
    assert(state_name(named_state(modern_name(31, 1))) == lit("short_grass")) by {
        reveal_strlit("minecraft:short_grass");
        reveal_strlit("minecraft:");
        reveal_strlit("short_grass");
        assert("minecraft:short_grass"@ =~= "minecraft:"@ + "short_grass"@);
        lemma_full_name("minecraft:short_grass", "short_grass");
    }
    assert(direct_state_0(lit("short_grass")) == Some(st(31, 1))) by {
        lemma_lit_decodes();
        reveal_strlit("short_grass");
        reveal_strlit("air");
        reveal_strlit("cave_air");
        reveal_strlit("void_air");
        reveal_strlit("stone");
        reveal_strlit("grass");
    }
}

#[verifier::rlimit(30)]
proof fn lemma_round_trip_41_0()
    ensures
        direct_state_0(state_name(named_state(modern_name(41, 0)))) == Some(st(41, 0)),
{
    assert(state_name(named_state(modern_name(41, 0))) == lit("gold_block")) by {
        reveal_strlit("minecraft:gold_block");
        reveal_strlit("minecraft:");
        reveal_strlit("gold_block");
        assert("minecraft:gold_block"@ =~= "minecraft:"@ + "gold_block"@);
        lemma_full_name("minecraft:gold_block", "gold_block");
    }
    assert(direct_state_0(lit("gold_block")) == Some(st(41, 0))) by {
        lemma_lit_decodes();
        reveal_strlit("gold_block");
        reveal_strlit("air");
        reveal_strlit("cave_air");
        reveal_strlit("void_air");
        reveal_strlit("stone");
        reveal_strlit("grass");
        reveal_strlit("short_grass");
        reveal_strlit("short_dry_grass");
        reveal_strlit("dirt");
        reveal_strlit("cobblestone");
        reveal_strlit("bedrock");
        reveal_strlit("water");
        reveal_strlit("lava");
        reveal_strlit("sand");
        reveal_strlit("gravel");
        reveal_strlit("gold_ore");
        reveal_strlit("iron_ore");
        reveal_strlit("coal_ore");
        reveal_strlit("oak_log");
        reveal_strlit("oak_leaves");
        reveal_strlit("glass");
        reveal_strlit("lapis_ore");
        reveal_strlit("lapis_block");
        reveal_strlit("dispenser");
        reveal_strlit("sandstone");
        reveal_strlit("note_block");
        reveal_strlit("powered_rail");
        reveal_strlit("detector_rail");
        reveal_strlit("sticky_piston");
        reveal_strlit("cobweb");
        reveal_strlit("dead_bush");
        reveal_strlit("piston");
        reveal_strlit("wool");
        reveal_strlit("dandelion");
        reveal_strlit("poppy");
        reveal_strlit("brown_mushroom");
        reveal_strlit("red_mushroom");
        assert("gold_block"@[0] == 'g');
        assert("oak_leaves"@[0] == 'o');
        assert("note_block"@[0] == 'n');
    }
}

#[verifier::rlimit(30)]
proof fn lemma_round_trip_42_0()
    ensures
        direct_state_0(state_name(named_state(modern_name(42, 0)))) == Some(st(42, 0)),
{
    assert(state_name(named_state(modern_name(42, 0))) == lit("iron_block")) by {
        reveal_strlit("minecraft:iron_block");
        reveal_strlit("minecraft:");
        reveal_strlit("iron_block");
        assert("minecraft:iron_block"@ =~= "minecraft:"@ + "iron_block"@);
        lemma_full_name("minecraft:iron_block", "iron_block");
    }
    assert(direct_state_0(lit("iron_block")) == Some(st(42, 0))) by {
        lemma_lit_decodes();
        reveal_strlit("iron_block");
        reveal_strlit("air");
        reveal_strlit("cave_air");
        reveal_strlit("void_air");
        reveal_strlit("stone");
        reveal_strlit("grass");
        reveal_strlit("short_grass");
        reveal_strlit("short_dry_grass");
        reveal_strlit("dirt");
        reveal_strlit("cobblestone");
        reveal_strlit("bedrock");
        reveal_strlit("water");
        reveal_strlit("lava");
        reveal_strlit("sand");
        reveal_strlit("gravel");
        reveal_strlit("gold_ore");
        reveal_strlit("iron_ore");
        reveal_strlit("coal_ore");
        reveal_strlit("oak_log");
        reveal_strlit("oak_leaves");
        reveal_strlit("glass");
        reveal_strlit("lapis_ore");
        reveal_strlit("lapis_block");
        reveal_strlit("dispenser");
        reveal_strlit("sandstone");
        reveal_strlit("note_block");
        reveal_strlit("powered_rail");
        reveal_strlit("detector_rail");
        reveal_strlit("sticky_piston");
        reveal_strlit("cobweb");
        reveal_strlit("dead_bush");
        reveal_strlit("piston");
        reveal_strlit("wool");
        reveal_strlit("dandelion");
        reveal_strlit("poppy");
        reveal_strlit("brown_mushroom");
        reveal_strlit("red_mushroom");
        reveal_strlit("gold_block");
        assert("iron_block"@[0] == 'i');
        assert("oak_leaves"@[0] == 'o');
        assert("note_block"@[0] == 'n');
        assert("gold_block"@[0] == 'g');
    }
}

#[verifier::rlimit(30)]
proof fn lemma_round_trip_45_0()
    ensures
        direct_state_0(state_name(named_state(modern_name(45, 0)))) == Some(st(45, 0)),
{
    assert(state_name(named_state(modern_name(45, 0))) == lit("bricks")) by {
        reveal_strlit("minecraft:bricks");
        reveal_strlit("minecraft:");
        reveal_strlit("bricks");
        assert("minecraft:bricks"@ =~= "minecraft:"@ + "bricks"@);
        lemma_full_name("minecraft:bricks", "bricks");
    }
    assert(direct_state_0(lit("bricks")) == Some(st(45, 0))) by {
        lemma_lit_decodes();
        reveal_strlit("bricks");
        reveal_strlit("air");
        reveal_strlit("cave_air");
        reveal_strlit("void_air");
        reveal_strlit("stone");
        reveal_strlit("grass");
        reveal_strlit("short_grass");
        reveal_strlit("short_dry_grass");
        reveal_strlit("dirt");
        reveal_strlit("cobblestone");
        reveal_strlit("bedrock");
        reveal_strlit("water");
        reveal_strlit("lava");
        reveal_strlit("sand");
        reveal_strlit("gravel");
        reveal_strlit("gold_ore");
        reveal_strlit("iron_ore");
        reveal_strlit("coal_ore");
        reveal_strlit("oak_log");
        reveal_strlit("oak_leaves");
        reveal_strlit("glass");
        reveal_strlit("lapis_ore");
        reveal_strlit("lapis_block");
        reveal_strlit("dispenser");
        reveal_strlit("sandstone");
        reveal_strlit("note_block");
        reveal_strlit("powered_rail");
        reveal_strlit("detector_rail");
        reveal_strlit("sticky_piston");
        reveal_strlit("cobweb");
        reveal_strlit("dead_bush");
        reveal_strlit("piston");
        reveal_strlit("wool");
        reveal_strlit("dandelion");
        reveal_strlit("poppy");
        reveal_strlit("brown_mushroom");
        reveal_strlit("red_mushroom");
        reveal_strlit("gold_block");
        reveal_strlit("iron_block");
        reveal_strlit("stone_slab");
        assert("bricks"@[0] == 'b');
        assert("gravel"@[0] == 'g');
        assert("cobweb"@[0] == 'c');
        assert("piston"@[0] == 'p');
    }
}

#[verifier::rlimit(30)]
proof fn lemma_round_trip_46_0()
    ensures
        direct_state_0(state_name(named_state(modern_name(46, 0)))) == Some(st(46, 0)),
{
    assert(state_name(named_state(modern_name(46, 0))) == lit("tnt")) by {
        reveal_strlit("minecraft:tnt");
        reveal_strlit("minecraft:");
        reveal_strlit("tnt");
        assert("minecraft:tnt"@ =~= "minecraft:"@ + "tnt"@);
        lemma_full_name("minecraft:tnt", "tnt");
    }
    assert(direct_state_0(lit("tnt")) == Some(st(46, 0))) by {
        lemma_lit_decodes();
        reveal_strlit("tnt");
        reveal_strlit("air");
        reveal_strlit("cave_air");
        reveal_strlit("void_air");
        reveal_strlit("stone");
        reveal_strlit("grass");
        reveal_strlit("short_grass");
        reveal_strlit("short_dry_grass");
        reveal_strlit("dirt");
        reveal_strlit("cobblestone");
        reveal_strlit("bedrock");
        reveal_strlit("water");
        reveal_strlit("lava");
        reveal_strlit("sand");
        reveal_strlit("gravel");
        reveal_strlit("gold_ore");
        reveal_strlit("iron_ore");
        reveal_strlit("coal_ore");
        reveal_strlit("oak_log");
        reveal_strlit("oak_leaves");
        reveal_strlit("glass");
        reveal_strlit("lapis_ore");
        reveal_strlit("lapis_block");
        reveal_strlit("dispenser");
        reveal_strlit("sandstone");
        reveal_strlit("note_block");
        reveal_strlit("powered_rail");
        reveal_strlit("detector_rail");
        reveal_strlit("sticky_piston");
        reveal_strlit("cobweb");
        reveal_strlit("dead_bush");
        reveal_strlit("piston");
        reveal_strlit("wool");
        reveal_strlit("dandelion");
        reveal_strlit("poppy");
        reveal_strlit("brown_mushroom");
        reveal_strlit("red_mushroom");
        reveal_strlit("gold_block");
        reveal_strlit("iron_block");
        reveal_strlit("stone_slab");
        reveal_strlit("bricks");
        assert("tnt"@[0] == 't');
        assert("air"@[0] == 'a');
    }
}

#[verifier::rlimit(30)]
proof fn lemma_round_trip_47_0()
    ensures
        direct_state_0(state_name(named_state(modern_name(47, 0)))) == Some(st(47, 0)),
{
    assert(state_name(named_state(modern_name(47, 0))) == lit("bookshelf")) by {
        reveal_strlit("minecraft:bookshelf");
        reveal_strlit("minecraft:");
        reveal_strlit("bookshelf");
        assert("minecraft:bookshelf"@ =~= "minecraft:"@ + "bookshelf"@);
        lemma_full_name("minecraft:bookshelf", "bookshelf");
    }
    assert(direct_state_0(lit("bookshelf")) == Some(st(47, 0))) by {
        lemma_lit_decodes();
        reveal_strlit("bookshelf");
        reveal_strlit("air");
        reveal_strlit("cave_air");
        reveal_strlit("void_air");
        reveal_strlit("stone");
        reveal_strlit("grass");
        reveal_strlit("short_grass");
        reveal_strlit("short_dry_grass");
        reveal_strlit("dirt");
        reveal_strlit("cobblestone");
        reveal_strlit("bedrock");
        reveal_strlit("water");
        reveal_strlit("lava");
        reveal_strlit("sand");
        reveal_strlit("gravel");
        reveal_strlit("gold_ore");
        reveal_strlit("iron_ore");
        reveal_strlit("coal_ore");
        reveal_strlit("oak_log");
        reveal_strlit("oak_leaves");
        reveal_strlit("glass");
        reveal_strlit("lapis_ore");
        reveal_strlit("lapis_block");
        reveal_strlit("dispenser");
        reveal_strlit("sandstone");
        reveal_strlit("note_block");
        reveal_strlit("powered_rail");
        reveal_strlit("detector_rail");
        reveal_strlit("sticky_piston");
        reveal_strlit("cobweb");
        reveal_strlit("dead_bush");
        reveal_strlit("piston");
        reveal_strlit("wool");
        reveal_strlit("dandelion");
        reveal_strlit("poppy");
        reveal_strlit("brown_mushroom");
        reveal_strlit("red_mushroom");
        reveal_strlit("gold_block");
        reveal_strlit("iron_block");
        reveal_strlit("stone_slab");
        reveal_strlit("bricks");
        reveal_strlit("tnt");
        assert("bookshelf"@[0] == 'b');
        assert("lapis_ore"@[0] == 'l');
        assert("dispenser"@[0] == 'd');
        assert("sandstone"@[0] == 's');
        assert("dead_bush"@[0] == 'd');
        assert("dandelion"@[0] == 'd');
    }
}

#[verifier::rlimit(30)]
proof fn lemma_round_trip_49_0()
    ensures
        direct_state_0(state_name(named_state(modern_name(49, 0)))) == Some(st(49, 0)),
{
    assert(state_name(named_state(modern_name(49, 0))) == lit("obsidian")) by {
        reveal_strlit("minecraft:obsidian");
        reveal_strlit("minecraft:");
        reveal_strlit("obsidian");
        assert("minecraft:obsidian"@ =~= "minecraft:"@ + "obsidian"@);
        lemma_full_name("minecraft:obsidian", "obsidian");
    }
    assert(direct_state_0(lit("obsidian")) == Some(st(49, 0))) by {
        lemma_lit_decodes();
        reveal_strlit("obsidian");
        reveal_strlit("air");
        reveal_strlit("cave_air");
        reveal_strlit("void_air");
        reveal_strlit("stone");
        reveal_strlit("grass");
        reveal_strlit("short_grass");
        reveal_strlit("short_dry_grass");
        reveal_strlit("dirt");
        reveal_strlit("cobblestone");
        reveal_strlit("bedrock");
        reveal_strlit("water");
        reveal_strlit("lava");
        reveal_strlit("sand");
        reveal_strlit("gravel");
        reveal_strlit("gold_ore");
        reveal_strlit("iron_ore");
        reveal_strlit("coal_ore");
        reveal_strlit("oak_log");
        reveal_strlit("oak_leaves");
        reveal_strlit("glass");
        reveal_strlit("lapis_ore");
        reveal_strlit("lapis_block");
        reveal_strlit("dispenser");
        reveal_strlit("sandstone");
        reveal_strlit("note_block");
        reveal_strlit("powered_rail");
        reveal_strlit("detector_rail");
        reveal_strlit("sticky_piston");
        reveal_strlit("cobweb");
        reveal_strlit("dead_bush");
        reveal_strlit("piston");
        reveal_strlit("wool");
        reveal_strlit("dandelion");
        reveal_strlit("poppy");
        reveal_strlit("brown_mushroom");
        reveal_strlit("red_mushroom");
        reveal_strlit("gold_block");
        reveal_strlit("iron_block");
        reveal_strlit("stone_slab");
        reveal_strlit("bricks");
        reveal_strlit("tnt");
        reveal_strlit("bookshelf");
        reveal_strlit("mossy_cobblestone");
        assert("obsidian"@[0] == 'o');
        assert("cave_air"@[0] == 'c');
        assert("void_air"@[0] == 'v');
        assert("gold_ore"@[0] == 'g');
        assert("iron_ore"@[0] == 'i');
        assert("coal_ore"@[0] == 'c');
    }
}


#[verifier::rlimit(30)]
proof fn lemma_round_trip_22_0()
    ensures
        direct_state_0(state_name(named_state(modern_name(22, 0)))) == Some(st(22, 0)),
{
    assert(state_name(named_state(modern_name(22, 0))) == lit("lapis_block")) by {
        reveal_strlit("minecraft:lapis_block");
        reveal_strlit("minecraft:");
        reveal_strlit("lapis_block");
        assert("minecraft:lapis_block"@ =~= "minecraft:"@ + "lapis_block"@);
        lemma_full_name("minecraft:lapis_block", "lapis_block");
    }
    assert(direct_state_0(lit("lapis_block")) == Some(st(22, 0))) by {
        lemma_lit_decodes();
        reveal_strlit("lapis_block");
        reveal_strlit("air");
        reveal_strlit("cave_air");
        reveal_strlit("void_air");
        reveal_strlit("stone");
        reveal_strlit("grass");
        reveal_strlit("short_grass");
        reveal_strlit("short_dry_grass");
        reveal_strlit("dirt");
        reveal_strlit("cobblestone");
        reveal_strlit("bedrock");
        reveal_strlit("water");
        reveal_strlit("lava");
        reveal_strlit("sand");
        reveal_strlit("gravel");
        reveal_strlit("gold_ore");
        reveal_strlit("iron_ore");
        reveal_strlit("coal_ore");
        reveal_strlit("oak_log");
        reveal_strlit("oak_leaves");
        reveal_strlit("glass");
        reveal_strlit("lapis_ore");
        assert("lapis_block"@[0] == 'l');
        assert("short_grass"@[0] == 's');
        assert("cobblestone"@[0] == 'c');
    }
}

#[verifier::rlimit(30)]
proof fn lemma_round_trip_25_0()
    ensures
        direct_state_0(state_name(named_state(modern_name(25, 0)))) == Some(st(25, 0)),
{
    assert(state_name(named_state(modern_name(25, 0))) == lit("note_block")) by {
        reveal_strlit("minecraft:note_block");
        reveal_strlit("minecraft:");
        reveal_strlit("note_block");
        assert("minecraft:note_block"@ =~= "minecraft:"@ + "note_block"@);
        lemma_full_name("minecraft:note_block", "note_block");
    }
    assert(direct_state_0(lit("note_block")) == Some(st(25, 0))) by {
        lemma_lit_decodes();
        reveal_strlit("note_block");
        reveal_strlit("air");
        reveal_strlit("cave_air");
        reveal_strlit("void_air");
        reveal_strlit("stone");
        reveal_strlit("grass");
        reveal_strlit("short_grass");
        reveal_strlit("short_dry_grass");
        reveal_strlit("dirt");
        reveal_strlit("cobblestone");
        reveal_strlit("bedrock");
        reveal_strlit("water");
        reveal_strlit("lava");
        reveal_strlit("sand");
        reveal_strlit("gravel");
        reveal_strlit("gold_ore");
        reveal_strlit("iron_ore");
        reveal_strlit("coal_ore");
        reveal_strlit("oak_log");
        reveal_strlit("oak_leaves");
        reveal_strlit("glass");
        reveal_strlit("lapis_ore");
        reveal_strlit("lapis_block");
        reveal_strlit("dispenser");
        reveal_strlit("sandstone");
        assert("note_block"@[0] == 'n');
        assert("oak_leaves"@[0] == 'o');
    }
}

#[verifier::rlimit(30)]
proof fn lemma_round_trip_27_0()
    ensures
        direct_state_0(state_name(named_state(modern_name(27, 0)))) == Some(st(27, 0)),
{
    assert(state_name(named_state(modern_name(27, 0))) == lit("powered_rail")) by {
        reveal_strlit("minecraft:powered_rail");
        reveal_strlit("minecraft:");
        reveal_strlit("powered_rail");
        assert("minecraft:powered_rail"@ =~= "minecraft:"@ + "powered_rail"@);
        lemma_full_name("minecraft:powered_rail", "powered_rail");
    }
    assert(direct_state_0(lit("powered_rail")) == Some(st(27, 0))) by {
        lemma_lit_decodes();
        reveal_strlit("powered_rail");
        reveal_strlit("air");
        reveal_strlit("cave_air");
        reveal_strlit("void_air");
        reveal_strlit("stone");
        reveal_strlit("grass");
        reveal_strlit("short_grass");
        reveal_strlit("short_dry_grass");
        reveal_strlit("dirt");
        reveal_strlit("cobblestone");
        reveal_strlit("bedrock");
        reveal_strlit("water");
        reveal_strlit("lava");
        reveal_strlit("sand");
        reveal_strlit("gravel");
        reveal_strlit("gold_ore");
        reveal_strlit("iron_ore");
        reveal_strlit("coal_ore");
        reveal_strlit("oak_log");
        reveal_strlit("oak_leaves");
        reveal_strlit("glass");
        reveal_strlit("lapis_ore");
        reveal_strlit("lapis_block");
        reveal_strlit("dispenser");
        reveal_strlit("sandstone");
        reveal_strlit("note_block");
    }
}

#[verifier::rlimit(30)]
proof fn lemma_round_trip_28_0()
    ensures
        direct_state_0(state_name(named_state(modern_name(28, 0)))) == Some(st(28, 0)),
{
    assert(state_name(named_state(modern_name(28, 0))) == lit("detector_rail")) by {
        reveal_strlit("minecraft:detector_rail");
        reveal_strlit("minecraft:");
        reveal_strlit("detector_rail");
        assert("minecraft:detector_rail"@ =~= "minecraft:"@ + "detector_rail"@);
        lemma_full_name("minecraft:detector_rail", "detector_rail");
    }
    assert(direct_state_0(lit("detector_rail")) == Some(st(28, 0))) by {
        lemma_lit_decodes();
        reveal_strlit("detector_rail");
        reveal_strlit("air");
        reveal_strlit("cave_air");
        reveal_strlit("void_air");
        reveal_strlit("stone");
        reveal_strlit("grass");
        reveal_strlit("short_grass");
        reveal_strlit("short_dry_grass");
        reveal_strlit("dirt");
        reveal_strlit("cobblestone");
        reveal_strlit("bedrock");
        reveal_strlit("water");
        reveal_strlit("lava");
        reveal_strlit("sand");
        reveal_strlit("gravel");
        reveal_strlit("gold_ore");
        reveal_strlit("iron_ore");
        reveal_strlit("coal_ore");
        reveal_strlit("oak_log");
        reveal_strlit("oak_leaves");
        reveal_strlit("glass");
        reveal_strlit("lapis_ore");
        reveal_strlit("lapis_block");
        reveal_strlit("dispenser");
        reveal_strlit("sandstone");
        reveal_strlit("note_block");
        reveal_strlit("powered_rail");
    }
}

#[verifier::rlimit(30)]
proof fn lemma_round_trip_32_0()
    ensures
        direct_state_0(state_name(named_state(modern_name(32, 0)))) == Some(st(32, 0)),
{
    assert(state_name(named_state(modern_name(32, 0))) == lit("dead_bush")) by {
        reveal_strlit("minecraft:dead_bush");
        reveal_strlit("minecraft:");
        reveal_strlit("dead_bush");
        assert("minecraft:dead_bush"@ =~= "minecraft:"@ + "dead_bush"@);
        lemma_full_name("minecraft:dead_bush", "dead_bush");
    }
    assert(direct_state_0(lit("dead_bush")) == Some(st(32, 0))) by {
        lemma_lit_decodes();
        reveal_strlit("dead_bush");
        reveal_strlit("air");
        reveal_strlit("cave_air");
        reveal_strlit("void_air");
        reveal_strlit("stone");
        reveal_strlit("grass");
        reveal_strlit("short_grass");
        reveal_strlit("short_dry_grass");
        reveal_strlit("dirt");
        reveal_strlit("cobblestone");
        reveal_strlit("bedrock");
        reveal_strlit("water");
        reveal_strlit("lava");
        reveal_strlit("sand");
        reveal_strlit("gravel");
        reveal_strlit("gold_ore");
        reveal_strlit("iron_ore");
        reveal_strlit("coal_ore");
        reveal_strlit("oak_log");
        reveal_strlit("oak_leaves");
        reveal_strlit("glass");
        reveal_strlit("lapis_ore");
        reveal_strlit("lapis_block");
        reveal_strlit("dispenser");
        reveal_strlit("sandstone");
        reveal_strlit("note_block");
        reveal_strlit("powered_rail");
        reveal_strlit("detector_rail");
        reveal_strlit("sticky_piston");
        reveal_strlit("cobweb");
        assert("dead_bush"@[0] == 'd' && "dead_bush"@[1] == 'e');
        assert("lapis_ore"@[0] == 'l');
        assert("dispenser"@[1] == 'i');
        assert("sandstone"@[0] == 's');
    }
}

#[verifier::rlimit(30)]
proof fn lemma_round_trip_37_0()
    ensures
        direct_state_0(state_name(named_state(modern_name(37, 0)))) == Some(st(37, 0)),
{
    assert(state_name(named_state(modern_name(37, 0))) == lit("dandelion")) by {
        reveal_strlit("minecraft:dandelion");
        reveal_strlit("minecraft:");
        reveal_strlit("dandelion");
        assert("minecraft:dandelion"@ =~= "minecraft:"@ + "dandelion"@);
        lemma_full_name("minecraft:dandelion", "dandelion");
    }
    assert(direct_state_0(lit("dandelion")) == Some(st(37, 0))) by {
        lemma_lit_decodes();
        reveal_strlit("dandelion");
        reveal_strlit("air");
        reveal_strlit("cave_air");
        reveal_strlit("void_air");
        reveal_strlit("stone");
        reveal_strlit("grass");
        reveal_strlit("short_grass");
        reveal_strlit("short_dry_grass");
        reveal_strlit("dirt");
        reveal_strlit("cobblestone");
        reveal_strlit("bedrock");
        reveal_strlit("water");
        reveal_strlit("lava");
        reveal_strlit("sand");
        reveal_strlit("gravel");
        reveal_strlit("gold_ore");
        reveal_strlit("iron_ore");
        reveal_strlit("coal_ore");
        reveal_strlit("oak_log");
        reveal_strlit("oak_leaves");
        reveal_strlit("glass");
        reveal_strlit("lapis_ore");
        reveal_strlit("lapis_block");
        reveal_strlit("dispenser");
        reveal_strlit("sandstone");
        reveal_strlit("note_block");
        reveal_strlit("powered_rail");
        reveal_strlit("detector_rail");
        reveal_strlit("sticky_piston");
        reveal_strlit("cobweb");
        reveal_strlit("dead_bush");
        reveal_strlit("piston");
        reveal_strlit("wool");
        assert("dandelion"@[0] == 'd' && "dandelion"@[1] == 'a');
        assert("lapis_ore"@[0] == 'l');
        assert("dispenser"@[1] == 'i');
        assert("sandstone"@[0] == 's');
        assert("dead_bush"@[1] == 'e');
    }
}

#[verifier::rlimit(30)]
proof fn lemma_round_trip_38_0()
    ensures
        direct_state_0(state_name(named_state(modern_name(38, 0)))) == Some(st(38, 0)),
{
    assert(state_name(named_state(modern_name(38, 0))) == lit("poppy")) by {
        reveal_strlit("minecraft:poppy");
        reveal_strlit("minecraft:");
        reveal_strlit("poppy");
        assert("minecraft:poppy"@ =~= "minecraft:"@ + "poppy"@);
        lemma_full_name("minecraft:poppy", "poppy");
    }
    assert(direct_state_0(lit("poppy")) == Some(st(38, 0))) by {
        lemma_lit_decodes();
        reveal_strlit("poppy");
        reveal_strlit("air");
        reveal_strlit("cave_air");
        reveal_strlit("void_air");
        reveal_strlit("stone");
        reveal_strlit("grass");
        reveal_strlit("short_grass");
        reveal_strlit("short_dry_grass");
        reveal_strlit("dirt");
        reveal_strlit("cobblestone");
        reveal_strlit("bedrock");
        reveal_strlit("water");
        reveal_strlit("lava");
        reveal_strlit("sand");
        reveal_strlit("gravel");
        reveal_strlit("gold_ore");
        reveal_strlit("iron_ore");
        reveal_strlit("coal_ore");
        reveal_strlit("oak_log");
        reveal_strlit("oak_leaves");
        reveal_strlit("glass");
        reveal_strlit("lapis_ore");
        reveal_strlit("lapis_block");
        reveal_strlit("dispenser");
        reveal_strlit("sandstone");
        reveal_strlit("note_block");
        reveal_strlit("powered_rail");
        reveal_strlit("detector_rail");
        reveal_strlit("sticky_piston");
        reveal_strlit("cobweb");
        reveal_strlit("dead_bush");
        reveal_strlit("piston");
        reveal_strlit("wool");
        reveal_strlit("dandelion");
        assert("poppy"@[0] == 'p');
        assert("stone"@[0] == 's');
        assert("grass"@[0] == 'g');
        assert("water"@[0] == 'w');
        assert("glass"@[0] == 'g');
    }
}

#[verifier::rlimit(30)]
proof fn lemma_round_trip_39_0()
    ensures
        direct_state_0(state_name(named_state(modern_name(39, 0)))) == Some(st(39, 0)),
{
    assert(state_name(named_state(modern_name(39, 0))) == lit("brown_mushroom")) by {
        reveal_strlit("minecraft:brown_mushroom");
        reveal_strlit("minecraft:");
        reveal_strlit("brown_mushroom");
        assert("minecraft:brown_mushroom"@ =~= "minecraft:"@ + "brown_mushroom"@);
        lemma_full_name("minecraft:brown_mushroom", "brown_mushroom");
    }
    assert(direct_state_0(lit("brown_mushroom")) == Some(st(39, 0))) by {
        lemma_lit_decodes();
        reveal_strlit("brown_mushroom");
        reveal_strlit("air");
        reveal_strlit("cave_air");
        reveal_strlit("void_air");
        reveal_strlit("stone");
        reveal_strlit("grass");
        reveal_strlit("short_grass");
        reveal_strlit("short_dry_grass");
        reveal_strlit("dirt");
        reveal_strlit("cobblestone");
        reveal_strlit("bedrock");
        reveal_strlit("water");
        reveal_strlit("lava");
        reveal_strlit("sand");
        reveal_strlit("gravel");
        reveal_strlit("gold_ore");
        reveal_strlit("iron_ore");
        reveal_strlit("coal_ore");
        reveal_strlit("oak_log");
        reveal_strlit("oak_leaves");
        reveal_strlit("glass");
        reveal_strlit("lapis_ore");
        reveal_strlit("lapis_block");
        reveal_strlit("dispenser");
        reveal_strlit("sandstone");
        reveal_strlit("note_block");
        reveal_strlit("powered_rail");
        reveal_strlit("detector_rail");
        reveal_strlit("sticky_piston");
        reveal_strlit("cobweb");
        reveal_strlit("dead_bush");
        reveal_strlit("piston");
        reveal_strlit("wool");
        reveal_strlit("dandelion");
        reveal_strlit("poppy");
    }
}

#[verifier::rlimit(30)]
proof fn lemma_round_trip_40_0()
    ensures
        direct_state_0(state_name(named_state(modern_name(40, 0)))) == Some(st(40, 0)),
{
    assert(state_name(named_state(modern_name(40, 0))) == lit("red_mushroom")) by {
        reveal_strlit("minecraft:red_mushroom");
        reveal_strlit("minecraft:");
        reveal_strlit("red_mushroom");
        assert("minecraft:red_mushroom"@ =~= "minecraft:"@ + "red_mushroom"@);
        lemma_full_name("minecraft:red_mushroom", "red_mushroom");
    }
    assert(direct_state_0(lit("red_mushroom")) == Some(st(40, 0))) by {
        lemma_lit_decodes();
        reveal_strlit("red_mushroom");
        reveal_strlit("air");
        reveal_strlit("cave_air");
        reveal_strlit("void_air");
        reveal_strlit("stone");
        reveal_strlit("grass");
        reveal_strlit("short_grass");
        reveal_strlit("short_dry_grass");
        reveal_strlit("dirt");
        reveal_strlit("cobblestone");
        reveal_strlit("bedrock");
        reveal_strlit("water");
        reveal_strlit("lava");
        reveal_strlit("sand");
        reveal_strlit("gravel");
        reveal_strlit("gold_ore");
        reveal_strlit("iron_ore");
        reveal_strlit("coal_ore");
        reveal_strlit("oak_log");
        reveal_strlit("oak_leaves");
        reveal_strlit("glass");
        reveal_strlit("lapis_ore");
        reveal_strlit("lapis_block");
        reveal_strlit("dispenser");
        reveal_strlit("sandstone");
        reveal_strlit("note_block");
        reveal_strlit("powered_rail");
        reveal_strlit("detector_rail");
        reveal_strlit("sticky_piston");
        reveal_strlit("cobweb");
        reveal_strlit("dead_bush");
        reveal_strlit("piston");
        reveal_strlit("wool");
        reveal_strlit("dandelion");
        reveal_strlit("poppy");
        reveal_strlit("brown_mushroom");
        assert("red_mushroom"@[0] == 'r');
        assert("powered_rail"@[0] == 'p');
    }
}

#[verifier::rlimit(30)]
proof fn lemma_round_trip_48_0()
    ensures
        direct_state_0(state_name(named_state(modern_name(48, 0)))) == Some(st(48, 0)),
{
    assert(state_name(named_state(modern_name(48, 0))) == lit("mossy_cobblestone")) by {
        reveal_strlit("minecraft:mossy_cobblestone");
        reveal_strlit("minecraft:");
        reveal_strlit("mossy_cobblestone");
        assert("minecraft:mossy_cobblestone"@ =~= "minecraft:"@ + "mossy_cobblestone"@);
        lemma_full_name("minecraft:mossy_cobblestone", "mossy_cobblestone");
    }
    assert(direct_state_0(lit("mossy_cobblestone")) == Some(st(48, 0))) by {
        lemma_lit_decodes();
        reveal_strlit("mossy_cobblestone");
        reveal_strlit("air");
        reveal_strlit("cave_air");
        reveal_strlit("void_air");
        reveal_strlit("stone");
        reveal_strlit("grass");
        reveal_strlit("short_grass");
        reveal_strlit("short_dry_grass");
        reveal_strlit("dirt");
        reveal_strlit("cobblestone");
        reveal_strlit("bedrock");
        reveal_strlit("water");
        reveal_strlit("lava");
        reveal_strlit("sand");
        reveal_strlit("gravel");
        reveal_strlit("gold_ore");
        reveal_strlit("iron_ore");
        reveal_strlit("coal_ore");
        reveal_strlit("oak_log");
        reveal_strlit("oak_leaves");
        reveal_strlit("glass");
        reveal_strlit("lapis_ore");
        reveal_strlit("lapis_block");
        reveal_strlit("dispenser");
        reveal_strlit("sandstone");
        reveal_strlit("note_block");
        reveal_strlit("powered_rail");
        reveal_strlit("detector_rail");
        reveal_strlit("sticky_piston");
        reveal_strlit("cobweb");
        reveal_strlit("dead_bush");
        reveal_strlit("piston");
        reveal_strlit("wool");
        reveal_strlit("dandelion");
        reveal_strlit("poppy");
        reveal_strlit("brown_mushroom");
        reveal_strlit("red_mushroom");
        reveal_strlit("gold_block");
        reveal_strlit("iron_block");
        reveal_strlit("stone_slab");
        reveal_strlit("bricks");
        reveal_strlit("tnt");
        reveal_strlit("bookshelf");
    }
}

} // verus!
