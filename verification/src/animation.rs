//! The frames of a sprite sheet that an animation runs through.

use vstd::prelude::*;

verus! {

/// The first and the last frame of an animation.
#[derive(Clone, Copy, Debug, PartialEq, Eq)]
pub struct AnimationIndices {
    pub first: usize,
    pub last: usize,
}

impl AnimationIndices {
    /// The frame that follows `index`: the first frame after the last one,
    /// the next frame of the sheet after any other.
    pub open spec fn following(self, index: int) -> int {
        if index == self.last {
            self.first as int
        } else {
            index + 1
        }
    }

    /// Steps from the frame `index` to the one that follows it.
    pub fn next(&self, index: usize) -> (frame: usize)
        requires
            index == self.last || index < usize::MAX,
        ensures
            frame == self.following(index as int),
    {
        if index == self.last {
            self.first
        } else {
            index + 1
        }
    }
}

} // verus!
