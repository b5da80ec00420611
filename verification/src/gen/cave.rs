//! The integer rule of the cave carver: what a cave does to a block it carves.

use vstd::prelude::*;

use crate::view::FeatureBlock;

verus! {

/// What carving the block `state` of a cave gives: the block set in its place (none
/// where it is kept), whether the column's carving has met grass so far (`pierced`
/// before), and whether the block `below` it turns into the biome's top block; `by` is
/// the carved height less one. Stone, dirt and grass are carved: into lava below the
/// height 10, else into air, the dirt below then taking the top block once grass was met.
pub open spec fn cave_carve_spec(state: FeatureBlock, below: FeatureBlock, by: i32, pierced: bool) -> (Option<FeatureBlock>, bool, bool) {
    let met = pierced || state == FeatureBlock::GrassBlock;
    if state == FeatureBlock::Stone || state == FeatureBlock::Dirt || state == FeatureBlock::GrassBlock {
        if by < 10 {
            (Some(FeatureBlock::Lava), met, false)
        } else {
            (Some(FeatureBlock::Air), met, met && below == FeatureBlock::Dirt)
        }
    } else {
        (None, met, false)
    }
}

/// Carves the block `state` of a cave, see `cave_carve_spec`.
pub fn cave_carve(state: FeatureBlock, below: FeatureBlock, by: i32, pierced: bool) -> (r: (Option<FeatureBlock>, bool, bool))
    ensures
        r == cave_carve_spec(state, below, by, pierced),
{
    let met = pierced || state == FeatureBlock::GrassBlock;
    if state == FeatureBlock::Stone || state == FeatureBlock::Dirt || state == FeatureBlock::GrassBlock {
        if by < 10 {
            (Some(FeatureBlock::Lava), met, false)
        } else {
            (Some(FeatureBlock::Air), met, met && below == FeatureBlock::Dirt)
        }
    } else {
        (None, met, false)
    }
}

} // verus!
