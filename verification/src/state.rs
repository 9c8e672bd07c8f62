//! The four states of a run.

use vstd::prelude::*;

verus! {

/// State of a run. A run starts idle, plays from the first press on, and ends
/// dead on the ground, with or without a hit on the way.
#[derive(Clone, Copy, Debug, PartialEq, Eq, Structural)]
pub enum State {
    Idle,
    Playing,
    Hit,
    Dead,
}

impl State {
    /// Place of the state in the order idle, playing, hit, dead.
    pub open spec fn rank(self) -> int {
        match self {
            State::Idle => 0,
            State::Playing => 1,
            State::Hit => 2,
            State::Dead => 3,
        }
    }

    /// The state as the number under which it is known: 0 for idle, 1 for
    /// playing, 2 for hit and 3 for dead.
    pub fn code(self) -> (c: i32)
        ensures
            c == self.rank(),
    {
        match self {
            State::Idle => 0,
            State::Playing => 1,
            State::Hit => 2,
            State::Dead => 3,
        }
    }
}

} // verus!
