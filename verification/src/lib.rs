//! World generation for Minecraft release 1.2: biome layers, feature
//! distributions and the integer logic of the terrain and feature generators.

pub mod biome;
pub mod util;
pub mod layer;
pub mod layer_new;
pub mod java;
pub mod feature;
pub mod gen;
pub mod view;
pub mod noise;
