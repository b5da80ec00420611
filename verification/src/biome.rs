//! Biome identifiers used by the generators. A biome is represented by its
//! numeric vanilla identifier, two biomes being the same biome exactly when
//! their identifiers are equal.

use vstd::prelude::*;

verus! {

/// The numeric identifier of a vanilla biome.
pub type BiomeId = i32;

pub const OCEAN: BiomeId = 0;
pub const PLAINS: BiomeId = 1;
pub const DESERT: BiomeId = 2;
pub const MOUNTAINS: BiomeId = 3;
pub const FOREST: BiomeId = 4;
pub const TAIGA: BiomeId = 5;
pub const SWAMP: BiomeId = 6;
pub const RIVER: BiomeId = 7;
pub const FROZEN_OCEAN: BiomeId = 10;
pub const FROZEN_RIVER: BiomeId = 11;
pub const SNOWY_TUNDRA: BiomeId = 12;
pub const SNOWY_MOUNTAINS: BiomeId = 13;
pub const MUSHROOM_FIELDS: BiomeId = 14;
pub const MUSHROOM_FIELD_SHORE: BiomeId = 15;
pub const BEACH: BiomeId = 16;
pub const DESERT_HILLS: BiomeId = 17;
pub const WOODED_HILLS: BiomeId = 18;
pub const TAIGA_HILLS: BiomeId = 19;
pub const MOUNTAIN_EDGE: BiomeId = 20;
pub const JUNGLE: BiomeId = 21;
pub const JUNGLE_HILLS: BiomeId = 22;

} // verus!
