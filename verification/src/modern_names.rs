//! Modern (flattened) block names for legacy block ids and data values.
use vstd::prelude::*;

verus! {

/// The modern block name that a legacy block id and data value become.
pub open spec fn modern_name(id: u8, meta: u8) -> Seq<char> {
    if id < 96 {
        modern_name_low(id, meta)
    } else {
        modern_name_high(id, meta)
    }
}

/// The modern block name of a legacy block id and data value.
pub fn contextual_modern_name(id: u8, meta: u8) -> (r: &'static str)
    ensures
        r@ == modern_name(id, meta),
{
    if id < 96 {
        contextual_modern_name_low(id, meta)
    } else {
        contextual_modern_name_high(id, meta)
    }
}

pub open spec fn modern_name_low(id: u8, meta: u8) -> Seq<char> {
    match id {
        0 => "minecraft:air"@,
        1 => "minecraft:stone"@,
        2 => "minecraft:grass_block"@,
        3 => "minecraft:dirt"@,
        4 => "minecraft:cobblestone"@,
        5 => match meta {
            1 => "minecraft:spruce_planks"@,
            2 => "minecraft:birch_planks"@,
            3 => "minecraft:jungle_planks"@,
            _ => "minecraft:oak_planks"@,
        },
        6 => match meta {
            1 => "minecraft:spruce_sapling"@,
            2 => "minecraft:birch_sapling"@,
            3 => "minecraft:jungle_sapling"@,
            _ => "minecraft:oak_sapling"@,
        },
        7 => "minecraft:bedrock"@,
        8 | 9 => "minecraft:water"@,
        10 | 11 => "minecraft:lava"@,
        12 => "minecraft:sand"@,
        13 => "minecraft:gravel"@,
        14 => "minecraft:gold_ore"@,
        15 => "minecraft:iron_ore"@,
        16 => "minecraft:coal_ore"@,
        17 => match meta & 3u8 {
            1 => "minecraft:spruce_log"@,
            2 => "minecraft:birch_log"@,
            3 => "minecraft:jungle_log"@,
            _ => "minecraft:oak_log"@,
        },
        18 => match meta & 3u8 {
            1 => "minecraft:spruce_leaves"@,
            2 => "minecraft:birch_leaves"@,
            3 => "minecraft:jungle_leaves"@,
            _ => "minecraft:oak_leaves"@,
        },
        19 => "minecraft:sponge"@,
        20 => "minecraft:glass"@,
        21 => "minecraft:lapis_ore"@,
        22 => "minecraft:lapis_block"@,
        23 => "minecraft:dispenser"@,
        24 => match meta {
            1 => "minecraft:chiseled_sandstone"@,
            2 => "minecraft:smooth_sandstone"@,
            _ => "minecraft:sandstone"@,
        },
        25 => "minecraft:note_block"@,
        26 => "minecraft:red_bed"@,
        27 => "minecraft:powered_rail"@,
        28 => "minecraft:detector_rail"@,
        29 => "minecraft:sticky_piston"@,
        30 => "minecraft:cobweb"@,
        31 => "minecraft:short_grass"@,
        32 => "minecraft:dead_bush"@,
        33 => "minecraft:piston"@,
        35 => match meta {
            1 => "minecraft:orange_wool"@,
            2 => "minecraft:magenta_wool"@,
            3 => "minecraft:light_blue_wool"@,
            4 => "minecraft:yellow_wool"@,
            5 => "minecraft:lime_wool"@,
            6 => "minecraft:pink_wool"@,
            7 => "minecraft:gray_wool"@,
            8 => "minecraft:light_gray_wool"@,
            9 => "minecraft:cyan_wool"@,
            10 => "minecraft:purple_wool"@,
            11 => "minecraft:blue_wool"@,
            12 => "minecraft:brown_wool"@,
            13 => "minecraft:green_wool"@,
            14 => "minecraft:red_wool"@,
            15 => "minecraft:black_wool"@,
            _ => "minecraft:white_wool"@,
        },
        37 => "minecraft:dandelion"@,
        38 => "minecraft:poppy"@,
        39 => "minecraft:brown_mushroom"@,
        40 => "minecraft:red_mushroom"@,
        41 => "minecraft:gold_block"@,
        42 => "minecraft:iron_block"@,
        44 => match meta & 7u8 {
            1 => "minecraft:sandstone_slab"@,
            2 => "minecraft:stone_slab"@,
            3 => "minecraft:cobblestone_slab"@,
            4 => "minecraft:brick_slab"@,
            5 => "minecraft:stone_brick_slab"@,
            6 => "minecraft:nether_brick_slab"@,
            7 => "minecraft:quartz_slab"@,
            _ => "minecraft:stone_slab"@,
        },
        45 => "minecraft:bricks"@,
        46 => "minecraft:tnt"@,
        47 => "minecraft:bookshelf"@,
        48 => "minecraft:mossy_cobblestone"@,
        49 => "minecraft:obsidian"@,
        50 => "minecraft:torch"@,
        51 => "minecraft:fire"@,
        52 => "minecraft:mob_spawner"@,
        53 => "minecraft:oak_stairs"@,
        54 => "minecraft:chest"@,
        55 => "minecraft:redstone_wire"@,
        56 => "minecraft:diamond_ore"@,
        57 => "minecraft:diamond_block"@,
        58 => "minecraft:crafting_table"@,
        59 => "minecraft:wheat"@,
        60 => "minecraft:farmland"@,
        61 => "minecraft:furnace"@,
        63 => "minecraft:oak_sign"@,
        64 => "minecraft:oak_door"@,
        65 => "minecraft:ladder"@,
        66 => "minecraft:rail"@,
        67 => "minecraft:cobblestone_stairs"@,
        68 => "minecraft:oak_wall_sign"@,
        69 => "minecraft:lever"@,
        70 => "minecraft:stone_pressure_plate"@,
        71 => "minecraft:iron_door"@,
        72 => "minecraft:oak_pressure_plate"@,
        73 => "minecraft:redstone_ore"@,
        75 => "minecraft:redstone_wall_torch"@,
        76 => "minecraft:redstone_torch"@,
        77 => "minecraft:stone_button"@,
        78 => "minecraft:snow"@,
        79 => "minecraft:ice"@,
        80 => "minecraft:snow_block"@,
        81 => "minecraft:cactus"@,
        82 => "minecraft:clay"@,
        83 => "minecraft:sugar_cane"@,
        84 => "minecraft:jukebox"@,
        85 => "minecraft:oak_fence"@,
        86 => "minecraft:carved_pumpkin"@,
        87 => "minecraft:netherrack"@,
        88 => "minecraft:soul_sand"@,
        89 => "minecraft:glowstone"@,
        90 => "minecraft:nether_portal"@,
        91 => "minecraft:jack_o_lantern"@,
        92 => "minecraft:cake"@,
        93 => "minecraft:unpowered_repeater"@,
        94 => "minecraft:powered_repeater"@,
        95 => match meta {
            0 => "minecraft:white_stained_glass"@,
            1 => "minecraft:orange_stained_glass"@,
            2 => "minecraft:magenta_stained_glass"@,
            3 => "minecraft:light_blue_stained_glass"@,
            4 => "minecraft:yellow_stained_glass"@,
            5 => "minecraft:lime_stained_glass"@,
            6 => "minecraft:pink_stained_glass"@,
            7 => "minecraft:gray_stained_glass"@,
            8 => "minecraft:light_gray_stained_glass"@,
            9 => "minecraft:cyan_stained_glass"@,
            10 => "minecraft:purple_stained_glass"@,
            11 => "minecraft:blue_stained_glass"@,
            12 => "minecraft:brown_stained_glass"@,
            13 => "minecraft:green_stained_glass"@,
            14 => "minecraft:red_stained_glass"@,
            15 => "minecraft:black_stained_glass"@,
            _ => "minecraft:white_stained_glass"@,
        },
        _ => "minecraft:air"@,
    }
}

fn contextual_modern_name_low(id: u8, meta: u8) -> (r: &'static str)
    ensures
        r@ == modern_name_low(id, meta),
{
    match id {
        0 => "minecraft:air",
        1 => "minecraft:stone",
        2 => "minecraft:grass_block",
        3 => "minecraft:dirt",
        4 => "minecraft:cobblestone",
        5 => match meta {
            1 => "minecraft:spruce_planks",
            2 => "minecraft:birch_planks",
            3 => "minecraft:jungle_planks",
            _ => "minecraft:oak_planks",
        },
        6 => match meta {
            1 => "minecraft:spruce_sapling",
            2 => "minecraft:birch_sapling",
            3 => "minecraft:jungle_sapling",
            _ => "minecraft:oak_sapling",
        },
        7 => "minecraft:bedrock",
        8 | 9 => "minecraft:water",
        10 | 11 => "minecraft:lava",
        12 => "minecraft:sand",
        13 => "minecraft:gravel",
        14 => "minecraft:gold_ore",
        15 => "minecraft:iron_ore",
        16 => "minecraft:coal_ore",
        17 => match meta & 3u8 {
            1 => "minecraft:spruce_log",
            2 => "minecraft:birch_log",
            3 => "minecraft:jungle_log",
            _ => "minecraft:oak_log",
        },
        18 => match meta & 3u8 {
            1 => "minecraft:spruce_leaves",
            2 => "minecraft:birch_leaves",
            3 => "minecraft:jungle_leaves",
            _ => "minecraft:oak_leaves",
        },
        19 => "minecraft:sponge",
        20 => "minecraft:glass",
        21 => "minecraft:lapis_ore",
        22 => "minecraft:lapis_block",
        23 => "minecraft:dispenser",
        24 => match meta {
            1 => "minecraft:chiseled_sandstone",
            2 => "minecraft:smooth_sandstone",
            _ => "minecraft:sandstone",
        },
        25 => "minecraft:note_block",
        26 => "minecraft:red_bed",
        27 => "minecraft:powered_rail",
        28 => "minecraft:detector_rail",
        29 => "minecraft:sticky_piston",
        30 => "minecraft:cobweb",
        31 => "minecraft:short_grass",
        32 => "minecraft:dead_bush",
        33 => "minecraft:piston",
        35 => match meta {
            1 => "minecraft:orange_wool",
            2 => "minecraft:magenta_wool",
            3 => "minecraft:light_blue_wool",
            4 => "minecraft:yellow_wool",
            5 => "minecraft:lime_wool",
            6 => "minecraft:pink_wool",
            7 => "minecraft:gray_wool",
            8 => "minecraft:light_gray_wool",
            9 => "minecraft:cyan_wool",
            10 => "minecraft:purple_wool",
            11 => "minecraft:blue_wool",
            12 => "minecraft:brown_wool",
            13 => "minecraft:green_wool",
            14 => "minecraft:red_wool",
            15 => "minecraft:black_wool",
            _ => "minecraft:white_wool",
        },
        37 => "minecraft:dandelion",
        38 => "minecraft:poppy",
        39 => "minecraft:brown_mushroom",
        40 => "minecraft:red_mushroom",
        41 => "minecraft:gold_block",
        42 => "minecraft:iron_block",
        44 => match meta & 7u8 {
            1 => "minecraft:sandstone_slab",
            2 => "minecraft:stone_slab",
            3 => "minecraft:cobblestone_slab",
            4 => "minecraft:brick_slab",
            5 => "minecraft:stone_brick_slab",
            6 => "minecraft:nether_brick_slab",
            7 => "minecraft:quartz_slab",
            _ => "minecraft:stone_slab",
        },
        45 => "minecraft:bricks",
        46 => "minecraft:tnt",
        47 => "minecraft:bookshelf",
        48 => "minecraft:mossy_cobblestone",
        49 => "minecraft:obsidian",
        50 => "minecraft:torch",
        51 => "minecraft:fire",
        52 => "minecraft:mob_spawner",
        53 => "minecraft:oak_stairs",
        54 => "minecraft:chest",
        55 => "minecraft:redstone_wire",
        56 => "minecraft:diamond_ore",
        57 => "minecraft:diamond_block",
        58 => "minecraft:crafting_table",
        59 => "minecraft:wheat",
        60 => "minecraft:farmland",
        61 => "minecraft:furnace",
        63 => "minecraft:oak_sign",
        64 => "minecraft:oak_door",
        65 => "minecraft:ladder",
        66 => "minecraft:rail",
        67 => "minecraft:cobblestone_stairs",
        68 => "minecraft:oak_wall_sign",
        69 => "minecraft:lever",
        70 => "minecraft:stone_pressure_plate",
        71 => "minecraft:iron_door",
        72 => "minecraft:oak_pressure_plate",
        73 => "minecraft:redstone_ore",
        75 => "minecraft:redstone_wall_torch",
        76 => "minecraft:redstone_torch",
        77 => "minecraft:stone_button",
        78 => "minecraft:snow",
        79 => "minecraft:ice",
        80 => "minecraft:snow_block",
        81 => "minecraft:cactus",
        82 => "minecraft:clay",
        83 => "minecraft:sugar_cane",
        84 => "minecraft:jukebox",
        85 => "minecraft:oak_fence",
        86 => "minecraft:carved_pumpkin",
        87 => "minecraft:netherrack",
        88 => "minecraft:soul_sand",
        89 => "minecraft:glowstone",
        90 => "minecraft:nether_portal",
        91 => "minecraft:jack_o_lantern",
        92 => "minecraft:cake",
        93 => "minecraft:unpowered_repeater",
        94 => "minecraft:powered_repeater",
        95 => match meta {
            0 => "minecraft:white_stained_glass",
            1 => "minecraft:orange_stained_glass",
            2 => "minecraft:magenta_stained_glass",
            3 => "minecraft:light_blue_stained_glass",
            4 => "minecraft:yellow_stained_glass",
            5 => "minecraft:lime_stained_glass",
            6 => "minecraft:pink_stained_glass",
            7 => "minecraft:gray_stained_glass",
            8 => "minecraft:light_gray_stained_glass",
            9 => "minecraft:cyan_stained_glass",
            10 => "minecraft:purple_stained_glass",
            11 => "minecraft:blue_stained_glass",
            12 => "minecraft:brown_stained_glass",
            13 => "minecraft:green_stained_glass",
            14 => "minecraft:red_stained_glass",
            15 => "minecraft:black_stained_glass",
            _ => "minecraft:white_stained_glass",
        },
        _ => "minecraft:air",
    }
}

pub open spec fn modern_name_high(id: u8, meta: u8) -> Seq<char> {
    match id {
        96 => "minecraft:trapdoor"@,
        98 => "minecraft:stone_bricks"@,
        101 => "minecraft:iron_bars"@,
        102 => "minecraft:glass_pane"@,
        103 => "minecraft:melon"@,
        104 => "minecraft:pumpkin_stem"@,
        105 => "minecraft:melon_stem"@,
        106 => "minecraft:vine"@,
        107 => "minecraft:oak_fence_gate"@,
        108 => "minecraft:brick_stairs"@,
        109 => "minecraft:stone_brick_stairs"@,
        110 => "minecraft:mycelium"@,
        111 => "minecraft:lily_pad"@,
        112 => "minecraft:nether_bricks"@,
        113 => "minecraft:nether_brick_fence"@,
        114 => "minecraft:nether_brick_stairs"@,
        115 => "minecraft:nether_wart"@,
        116 => "minecraft:enchanting_table"@,
        117 => "minecraft:brewing_stand"@,
        118 => "minecraft:cauldron"@,
        121 => "minecraft:end_stone"@,
        122 => "minecraft:dragon_egg"@,
        123 => "minecraft:redstone_lamp"@,
        124 => "minecraft:redstone_lamp"@,
        125 => "minecraft:double_wooden_slab"@,
        126 => "minecraft:wooden_slab"@,
        127 => "minecraft:cocoa"@,
        128 => "minecraft:sandstone_stairs"@,
        129 => "minecraft:emerald_ore"@,
        130 => "minecraft:ender_chest"@,
        131 => "minecraft:tripwire_hook"@,
        132 => "minecraft:tripwire"@,
        133 => "minecraft:emerald_block"@,
        134 => "minecraft:spruce_stairs"@,
        135 => "minecraft:birch_stairs"@,
        136 => "minecraft:jungle_stairs"@,
        138 => "minecraft:beacon"@,
        139 => "minecraft:cobblestone_wall"@,
        140 => "minecraft:flower_pot"@,
        141 => "minecraft:carrots"@,
        142 => "minecraft:potatoes"@,
        143 => "minecraft:wooden_button"@,
        144 => "minecraft:skull"@,
        145 => "minecraft:anvil"@,
        146 => "minecraft:trapped_chest"@,
        147 => "minecraft:light_weighted_pressure_plate"@,
        148 => "minecraft:heavy_weighted_pressure_plate"@,
        149 => "minecraft:unpowered_comparator"@,
        150 => "minecraft:powered_comparator"@,
        151 => "minecraft:daylight_detector"@,
        152 => "minecraft:redstone_block"@,
        153 => "minecraft:nether_quartz_ore"@,
        154 => "minecraft:hopper"@,
        155 => match meta {
            1 => "minecraft:chiseled_quartz_block"@,
            2 => "minecraft:quartz_pillar"@,
            3 => "minecraft:quartz_pillar"@,
            _ => "minecraft:quartz_block"@,
        },
        156 => "minecraft:quartz_stairs"@,
        157 => "minecraft:activator_rail"@,
        158 => "minecraft:dropper"@,
        159 => match meta {
            0 => "minecraft:white_stained_hardened_clay"@,
            1 => "minecraft:orange_stained_hardened_clay"@,
            2 => "minecraft:magenta_stained_hardened_clay"@,
            3 => "minecraft:light_blue_stained_hardened_clay"@,
            4 => "minecraft:yellow_stained_hardened_clay"@,
            5 => "minecraft:lime_stained_hardened_clay"@,
            6 => "minecraft:pink_stained_hardened_clay"@,
            7 => "minecraft:gray_stained_hardened_clay"@,
            8 => "minecraft:light_gray_stained_hardened_clay"@,
            9 => "minecraft:cyan_stained_hardened_clay"@,
            10 => "minecraft:purple_stained_hardened_clay"@,
            11 => "minecraft:blue_stained_hardened_clay"@,
            12 => "minecraft:brown_stained_hardened_clay"@,
            13 => "minecraft:green_stained_hardened_clay"@,
            14 => "minecraft:red_stained_hardened_clay"@,
            15 => "minecraft:black_stained_hardened_clay"@,
            _ => "minecraft:white_stained_hardened_clay"@,
        },
        160 => match meta {
            0 => "minecraft:white_stained_glass_pane"@,
            1 => "minecraft:orange_stained_glass_pane"@,
            2 => "minecraft:magenta_stained_glass_pane"@,
            3 => "minecraft:light_blue_stained_glass_pane"@,
            4 => "minecraft:yellow_stained_glass_pane"@,
            5 => "minecraft:lime_stained_glass_pane"@,
            6 => "minecraft:pink_stained_glass_pane"@,
            7 => "minecraft:gray_stained_glass_pane"@,
            8 => "minecraft:light_gray_stained_glass_pane"@,
            9 => "minecraft:cyan_stained_glass_pane"@,
            10 => "minecraft:purple_stained_glass_pane"@,
            11 => "minecraft:blue_stained_glass_pane"@,
            12 => "minecraft:brown_stained_glass_pane"@,
            13 => "minecraft:green_stained_glass_pane"@,
            14 => "minecraft:red_stained_glass_pane"@,
            15 => "minecraft:black_stained_glass_pane"@,
            _ => "minecraft:white_stained_glass_pane"@,
        },
        161 => match meta & 3u8 {
            1 => "minecraft:acacia_leaves"@,
            _ => "minecraft:dark_oak_leaves"@,
        },
        162 => match meta & 3u8 {
            1 => "minecraft:acacia_log"@,
            _ => "minecraft:dark_oak_log"@,
        },
        163 => "minecraft:acacia_stairs"@,
        164 => "minecraft:dark_oak_stairs"@,
        170 => "minecraft:hay_block"@,
        171 => match meta {
            0 => "minecraft:white_carpet"@,
            1 => "minecraft:orange_carpet"@,
            2 => "minecraft:magenta_carpet"@,
            3 => "minecraft:light_blue_carpet"@,
            4 => "minecraft:yellow_carpet"@,
            5 => "minecraft:lime_carpet"@,
            6 => "minecraft:pink_carpet"@,
            7 => "minecraft:gray_carpet"@,
            8 => "minecraft:light_gray_carpet"@,
            9 => "minecraft:cyan_carpet"@,
            10 => "minecraft:purple_carpet"@,
            11 => "minecraft:blue_carpet"@,
            12 => "minecraft:brown_carpet"@,
            13 => "minecraft:green_carpet"@,
            14 => "minecraft:red_carpet"@,
            15 => "minecraft:black_carpet"@,
            _ => "minecraft:white_carpet"@,
        },
        172 => match meta {
            0 => "minecraft:white_concrete"@,
            1 => "minecraft:orange_concrete"@,
            2 => "minecraft:magenta_concrete"@,
            3 => "minecraft:light_blue_concrete"@,
            4 => "minecraft:yellow_concrete"@,
            5 => "minecraft:lime_concrete"@,
            6 => "minecraft:pink_concrete"@,
            7 => "minecraft:gray_concrete"@,
            8 => "minecraft:light_gray_concrete"@,
            9 => "minecraft:cyan_concrete"@,
            10 => "minecraft:purple_concrete"@,
            11 => "minecraft:blue_concrete"@,
            12 => "minecraft:brown_concrete"@,
            13 => "minecraft:green_concrete"@,
            14 => "minecraft:red_concrete"@,
            15 => "minecraft:black_concrete"@,
            _ => "minecraft:white_concrete"@,
        },
        173 => "minecraft:coal_block"@,
        _ => "minecraft:air"@,
    }
}

fn contextual_modern_name_high(id: u8, meta: u8) -> (r: &'static str)
    ensures
        r@ == modern_name_high(id, meta),
{
    match id {
        96 => "minecraft:trapdoor",
        98 => "minecraft:stone_bricks",
        101 => "minecraft:iron_bars",
        102 => "minecraft:glass_pane",
        103 => "minecraft:melon",
        104 => "minecraft:pumpkin_stem",
        105 => "minecraft:melon_stem",
        106 => "minecraft:vine",
        107 => "minecraft:oak_fence_gate",
        108 => "minecraft:brick_stairs",
        109 => "minecraft:stone_brick_stairs",
        110 => "minecraft:mycelium",
        111 => "minecraft:lily_pad",
        112 => "minecraft:nether_bricks",
        113 => "minecraft:nether_brick_fence",
        114 => "minecraft:nether_brick_stairs",
        115 => "minecraft:nether_wart",
        116 => "minecraft:enchanting_table",
        117 => "minecraft:brewing_stand",
        118 => "minecraft:cauldron",
        121 => "minecraft:end_stone",
        122 => "minecraft:dragon_egg",
        123 => "minecraft:redstone_lamp",
        124 => "minecraft:redstone_lamp",
        125 => "minecraft:double_wooden_slab",
        126 => "minecraft:wooden_slab",
        127 => "minecraft:cocoa",
        128 => "minecraft:sandstone_stairs",
        129 => "minecraft:emerald_ore",
        130 => "minecraft:ender_chest",
        131 => "minecraft:tripwire_hook",
        132 => "minecraft:tripwire",
        133 => "minecraft:emerald_block",
        134 => "minecraft:spruce_stairs",
        135 => "minecraft:birch_stairs",
        136 => "minecraft:jungle_stairs",
        138 => "minecraft:beacon",
        139 => "minecraft:cobblestone_wall",
        140 => "minecraft:flower_pot",
        141 => "minecraft:carrots",
        142 => "minecraft:potatoes",
        143 => "minecraft:wooden_button",
        144 => "minecraft:skull",
        145 => "minecraft:anvil",
        146 => "minecraft:trapped_chest",
        147 => "minecraft:light_weighted_pressure_plate",
        148 => "minecraft:heavy_weighted_pressure_plate",
        149 => "minecraft:unpowered_comparator",
        150 => "minecraft:powered_comparator",
        151 => "minecraft:daylight_detector",
        152 => "minecraft:redstone_block",
        153 => "minecraft:nether_quartz_ore",
        154 => "minecraft:hopper",
        155 => match meta {
            1 => "minecraft:chiseled_quartz_block",
            2 => "minecraft:quartz_pillar",
            3 => "minecraft:quartz_pillar",
            _ => "minecraft:quartz_block",
        },
        156 => "minecraft:quartz_stairs",
        157 => "minecraft:activator_rail",
        158 => "minecraft:dropper",
        159 => match meta {
            0 => "minecraft:white_stained_hardened_clay",
            1 => "minecraft:orange_stained_hardened_clay",
            2 => "minecraft:magenta_stained_hardened_clay",
            3 => "minecraft:light_blue_stained_hardened_clay",
            4 => "minecraft:yellow_stained_hardened_clay",
            5 => "minecraft:lime_stained_hardened_clay",
            6 => "minecraft:pink_stained_hardened_clay",
            7 => "minecraft:gray_stained_hardened_clay",
            8 => "minecraft:light_gray_stained_hardened_clay",
            9 => "minecraft:cyan_stained_hardened_clay",
            10 => "minecraft:purple_stained_hardened_clay",
            11 => "minecraft:blue_stained_hardened_clay",
            12 => "minecraft:brown_stained_hardened_clay",
            13 => "minecraft:green_stained_hardened_clay",
            14 => "minecraft:red_stained_hardened_clay",
            15 => "minecraft:black_stained_hardened_clay",
            _ => "minecraft:white_stained_hardened_clay",
        },
        160 => match meta {
            0 => "minecraft:white_stained_glass_pane",
            1 => "minecraft:orange_stained_glass_pane",
            2 => "minecraft:magenta_stained_glass_pane",
            3 => "minecraft:light_blue_stained_glass_pane",
            4 => "minecraft:yellow_stained_glass_pane",
            5 => "minecraft:lime_stained_glass_pane",
            6 => "minecraft:pink_stained_glass_pane",
            7 => "minecraft:gray_stained_glass_pane",
            8 => "minecraft:light_gray_stained_glass_pane",
            9 => "minecraft:cyan_stained_glass_pane",
            10 => "minecraft:purple_stained_glass_pane",
            11 => "minecraft:blue_stained_glass_pane",
            12 => "minecraft:brown_stained_glass_pane",
            13 => "minecraft:green_stained_glass_pane",
            14 => "minecraft:red_stained_glass_pane",
            15 => "minecraft:black_stained_glass_pane",
            _ => "minecraft:white_stained_glass_pane",
        },
        161 => match meta & 3u8 {
            1 => "minecraft:acacia_leaves",
            _ => "minecraft:dark_oak_leaves",
        },
        162 => match meta & 3u8 {
            1 => "minecraft:acacia_log",
            _ => "minecraft:dark_oak_log",
        },
        163 => "minecraft:acacia_stairs",
        164 => "minecraft:dark_oak_stairs",
        170 => "minecraft:hay_block",
        171 => match meta {
            0 => "minecraft:white_carpet",
            1 => "minecraft:orange_carpet",
            2 => "minecraft:magenta_carpet",
            3 => "minecraft:light_blue_carpet",
            4 => "minecraft:yellow_carpet",
            5 => "minecraft:lime_carpet",
            6 => "minecraft:pink_carpet",
            7 => "minecraft:gray_carpet",
            8 => "minecraft:light_gray_carpet",
            9 => "minecraft:cyan_carpet",
            10 => "minecraft:purple_carpet",
            11 => "minecraft:blue_carpet",
            12 => "minecraft:brown_carpet",
            13 => "minecraft:green_carpet",
            14 => "minecraft:red_carpet",
            15 => "minecraft:black_carpet",
            _ => "minecraft:white_carpet",
        },
        172 => match meta {
            0 => "minecraft:white_concrete",
            1 => "minecraft:orange_concrete",
            2 => "minecraft:magenta_concrete",
            3 => "minecraft:light_blue_concrete",
            4 => "minecraft:yellow_concrete",
            5 => "minecraft:lime_concrete",
            6 => "minecraft:pink_concrete",
            7 => "minecraft:gray_concrete",
            8 => "minecraft:light_gray_concrete",
            9 => "minecraft:cyan_concrete",
            10 => "minecraft:purple_concrete",
            11 => "minecraft:blue_concrete",
            12 => "minecraft:brown_concrete",
            13 => "minecraft:green_concrete",
            14 => "minecraft:red_concrete",
            15 => "minecraft:black_concrete",
            _ => "minecraft:white_concrete",
        },
        173 => "minecraft:coal_block",
        _ => "minecraft:air",
    }
}

} // verus!
