//! The state of a cell of the grid layers.

use vstd::prelude::*;

use crate::biome::BiomeId;

verus! {

/// The state of a cell of a grid layer.
#[derive(Copy, Clone)]
pub enum State {
    /// Special state for initial vec. Must not be set by any layer.
    Uninit,
    /// For river layers if no river.
    NoRiver,
    /// For river layers, a random value in `[2;4[` is used for final river layer.
    PotentialRiver(u8),
    /// Temporary biome state, to be converted to real river biome by biomes layer.
    River,
    /// A real biome, the final state that must be returned by last layer.
    Biome(BiomeId),
}

/// Two states are equal when they are the same biome, the same river potential, or of
/// the same kind otherwise.
pub open spec fn state_eq(a: State, b: State) -> bool {
    match (a, b) {
        (State::Biome(b0), State::Biome(b1)) => b0 == b1,
        (State::Uninit, State::Uninit) => true,
        (State::NoRiver, State::NoRiver) => true,
        (State::PotentialRiver(p0), State::PotentialRiver(p1)) => p0 == p1,
        (State::River, State::River) => true,
        _ => false,
    }
}

impl PartialEq for State {
    fn eq(&self, other: &Self) -> (r: bool) {
        match self {
            State::Biome(b0) => match other {
                State::Biome(b1) => *b0 == *b1,
                _ => false,
            },
            State::Uninit => match other {
                State::Uninit => true,
                _ => false,
            },
            State::NoRiver => match other {
                State::NoRiver => true,
                _ => false,
            },
            State::PotentialRiver(p0) => match other {
                State::PotentialRiver(p1) => *p0 == *p1,
                _ => false,
            },
            State::River => match other {
                State::River => true,
                _ => false,
            },
        }
    }
}

impl vstd::std_specs::cmp::PartialEqSpecImpl for State {
    open spec fn obeys_eq_spec() -> bool {
        true
    }

    open spec fn eq_spec(&self, other: &Self) -> bool {
        state_eq(*self, *other)
    }
}

impl State {

    /// The biome of a biome state.
    pub fn expect_biome(&self) -> (r: BiomeId)
        requires
            self is Biome,
        ensures
            *self == State::Biome(r),
    {
        match self {
            State::Biome(b) => *b,
            _ => 0,
        }
    }

}

} // verus!
