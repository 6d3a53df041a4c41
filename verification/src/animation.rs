//! Which frames of the sprite sheet belong to which animation.
//!
//! The sheet holds the animations one after the other, eight frames each.

use vstd::prelude::*;

verus! {

/// Frames per animation on the sprite sheet.
pub const FRAMES_PER_STATE: usize = 8;

/// What a player's sprite is doing.
#[derive(Clone, Copy, PartialEq, Eq, Hash, Debug)]
pub enum SpriteState {
    Idle,
    LeftRun,
    RightRun,
}

/// The number of frames of the animation that is playing.
#[derive(Clone, Copy, Debug, PartialEq, Eq)]
pub struct AnimationFrameCount(pub usize);

impl AnimationFrameCount {
    /// A frame count of `size`.
    pub fn new(size: usize) -> (count: AnimationFrameCount)
        ensures
            count.0 == size,
    {
        AnimationFrameCount(size)
    }
}

impl SpriteState {
    /// The place of this state's animation on the sheet, counting from zero.
    pub open spec fn ordinal(self) -> int {
        match self {
            SpriteState::Idle => 0,
            SpriteState::LeftRun => 1,
            SpriteState::RightRun => 2,
        }
    }

    /// The frames of this state's animation: a half-open range of eight
    /// frames, `0..8` for idling, `8..16` for running left and `16..24` for
    /// running right.
    pub fn animation_indices(&self) -> (frames: core::ops::Range<usize>)
        ensures
            frames.start == 8 * self.ordinal(),
            frames.end == 8 * self.ordinal() + 8,
    {
        match self {
            SpriteState::Idle => 0..8,
            SpriteState::LeftRun => 8..16,
            SpriteState::RightRun => 16..24,
        }
    }
}

} // verus!
