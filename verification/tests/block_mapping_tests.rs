use emerald_legacy::block_mapping::{
    is_valid_lce_tile_id, is_wood_family, map_modern_block_state, map_modern_block_state_with_context, remap_blocks,
};
use emerald_legacy::nbt::{NbtCompound, NbtValue};

fn state(name: &str, props: &[(&str, &str)]) -> NbtCompound {
    let mut c = NbtCompound::new("");
    c.insert("Name", NbtValue::String(name.to_string()));
    if !props.is_empty() {
        let mut p = NbtCompound::new("Properties");
        for (k, v) in props {
            p.insert(k, NbtValue::String(v.to_string()));
        }
        c.insert("Properties", NbtValue::Compound(p));
    }
    c
}

fn ids(c: &NbtCompound) -> (u8, u8) {
    let s = map_modern_block_state(c);
    (s.id, s.data)
}

#[test]
fn direct_blocks_map_to_their_ids() {
    assert_eq!(ids(&state("minecraft:stone", &[])), (1, 0));
    assert_eq!(ids(&state("grass_block", &[])), (2, 0));
    assert_eq!(ids(&state("minecraft:chest", &[])), (54, 0));
    assert_eq!(ids(&NbtCompound::new("")), (0, 0));
}

#[test]
fn fluids_keep_their_level() {
    assert_eq!(ids(&state("minecraft:water", &[("level", "3")])), (8, 3));
    assert_eq!(ids(&state("minecraft:water", &[("level", "99")])), (8, 15));
    assert_eq!(ids(&state("minecraft:lava", &[])), (11, 0));
    assert_eq!(ids(&state("minecraft:water", &[("level", "x")])), (9, 0));
}

#[test]
fn stairs_slabs_and_ladders_keep_their_facing() {
    assert_eq!(ids(&state("minecraft:oak_stairs", &[("facing", "north"), ("half", "top")])), (53, 7));
    assert_eq!(ids(&state("minecraft:brick_stairs", &[("facing", "west")])), (108, 1));
    assert_eq!(ids(&state("minecraft:stone_brick_slab", &[("type", "top")])), (44, 13));
    assert_eq!(ids(&state("minecraft:spruce_slab", &[("type", "double")])), (125, 1));
    assert_eq!(ids(&state("minecraft:ladder", &[("facing", "east")])), (65, 5));
    assert_eq!(ids(&state("minecraft:oak_button", &[("facing", "south"), ("powered", "TRUE")])), (143, 11));
}

#[test]
fn unknown_blocks_are_reported() {
    let mut unknown = Vec::new();
    let s = map_modern_block_state_with_context(&state("minecraft:frobnicator", &[]), &mut unknown);
    assert_eq!((s.id, s.data), (0, 0));
    assert_eq!(unknown, vec!["frobnicator".to_string()]);
    let s = map_modern_block_state_with_context(&state("minecraft:cave_air", &[]), &mut unknown);
    assert_eq!((s.id, s.data), (0, 0));
    assert_eq!(unknown.len(), 1);
}

#[test]
fn ids_are_remapped_for_the_console() {
    let mut blocks = vec![137u8, 174, 175, 200, 160, 170, 161, 1];
    let mut data = vec![0u8; 4];
    remap_blocks(&mut blocks, &mut data);
    assert_eq!(blocks, vec![1, 79, 0, 0, 160, 170, 0, 1]);
    assert!(is_valid_lce_tile_id(173));
    assert!(!is_valid_lce_tile_id(165));
    assert!(is_wood_family("dark_oak_button"));
    assert!(!is_wood_family("stone_button"));
}
