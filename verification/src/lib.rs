//! Map-generation core of the Bangladesh RPG: terrain classification,
//! tile grids and identifiers, and the raster pyramid that reduces
//! terrain cells level by level.

pub mod world;
pub mod cells;
pub mod passes;
pub mod pyramid;
pub mod components;
pub mod stubs;
pub mod text;
pub mod tags;
pub mod sorted;
pub mod tile_ids;
pub mod reducer;
pub mod refine;
pub mod tiles;
pub mod features;
pub mod rings;
pub mod config;
pub mod raster;
pub mod row_order;
pub mod lineage;
pub mod road_changes;
pub mod tag_tables;
