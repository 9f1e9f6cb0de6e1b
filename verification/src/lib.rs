//! Save-format and launcher logic of the Emerald Legacy launcher, with
//! their contracts: NBT, Java and console region files, save containers,
//! chunk payload storage, block mapping in both directions, world and
//! console save conversion, server lists, launch command lines and
//! workshop package handling.
pub mod anvil;
pub mod block_mapping;
pub mod block_names;
pub mod bytes;
pub mod chunk;
pub mod compress;
pub mod console;
pub mod convert;
pub mod java_region;
pub mod launcher;
pub mod level_dat;
pub mod modern_names;
pub mod nbt;
pub mod payload;
pub mod region;
pub mod rle;
pub mod servers;
pub mod sign_text;
pub mod text;
pub mod workshop;
