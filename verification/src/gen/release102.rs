//! The chunk admission of the grid layer based release 1.2 generator.

use vstd::prelude::*;

use super::r102::{terrain_seed, terrain_seed_spec};

verus! {

/// The limit of the chunk coordinates the generator accepts, on both axes and both
/// sides (excluded on the positive side).
pub const POS_LIMIT: i32 = 1_875_004;

/// The generator does not support the chunk position.
#[derive(Clone, Copy, Debug, PartialEq, Eq, Structural)]
pub enum LevelSourceError {
    UnsupportedChunkPosition,
}

/// The seed of the random generator of the chunk `cx`/`cz`, or an error for a chunk
/// outside `[-POS_LIMIT; POS_LIMIT[` on either axis.
pub fn chunk_seed(cx: i32, cz: i32) -> (r: Result<i64, LevelSourceError>)
    ensures
        (-POS_LIMIT <= cx < POS_LIMIT && -POS_LIMIT <= cz < POS_LIMIT) <==> r is Ok,
        r matches Ok(s) ==> s == terrain_seed_spec(cx, cz),
        r matches Err(e) ==> e == LevelSourceError::UnsupportedChunkPosition,
{
    if cx < -POS_LIMIT || cz < -POS_LIMIT || cx >= POS_LIMIT || cz >= POS_LIMIT {
        Err(LevelSourceError::UnsupportedChunkPosition)
    } else {
        Ok(terrain_seed(cx, cz))
    }
}

} // verus!
