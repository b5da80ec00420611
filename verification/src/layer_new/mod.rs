//! Grid based biome layers: each layer generates a rectangle of cells at once from
//! the rectangles generated by its parents. Also holds the random number generator
//! and the per-cell rules shared by all biome layers.

use vstd::prelude::*;

use crate::biome::BiomeId;
use crate::util::Rect;

pub mod rand;
pub mod state;
pub mod cell;
pub mod grid;
pub mod island;
pub mod snow;
pub mod river;
pub mod smooth;
pub mod biome;
pub mod zoom;

pub use rand::LayerRand;
pub use state::{State, state_eq};

verus! {

/// Type alias for a layer data.
pub type LayerData = Rect<State>;

/// Every cell of the grid is a biome.
pub open spec fn all_biomes(data: &LayerData) -> bool {
    forall|i: int| 0 <= i < data.data@.len() ==> #[trigger] data.data@[i] is Biome
}

/// The biome of the cell at `x`/`z`.
pub open spec fn biome_at(data: &LayerData, x: int, z: int) -> BiomeId {
    data.at(x, z)->Biome_0
}

} // verus!
