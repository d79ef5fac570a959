//! Loudstone's game rules: blocks, items, inventories, crafting, the
//! sub-voxel chunk store and the binary save format.

pub mod block;
pub mod item;
pub mod inventory;
pub mod crafting;
pub mod chunk;
pub mod ui;
pub mod audio;
pub mod mob;
pub mod mesh;
pub mod ordered_map;
pub mod save;
pub mod save_write;
pub mod save_read;
pub mod save_laws;
pub mod camera;
pub mod gauntlet;
pub mod cli;
pub mod save_truncation;
pub mod furnaces;
