//! Units and the fixed measures of the playfield.
//!
//! Every length is a whole number of micro-pixels, every angle a whole number
//! of micro-degrees and every span of time a whole number of microseconds.
//! A speed is in pixels per second, so that `speed * microseconds` is a
//! distance in micro-pixels, with nothing rounded. Heights are measured
//! upwards from the middle of the screen, places to the right of the bird.

use vstd::prelude::*;

verus! {

/// Micro-pixels in one pixel.
pub const PIXEL: i64 = 1_000_000;

/// Micro-degrees in one degree.
pub const DEGREE: i64 = 1_000_000;

/// Height of the screen.
pub const HEIGHT_SCREEN: i64 = 576_000_000;

/// Height of the ground strip at the top and at the bottom of the screen.
pub const GROUND_HEIGHT: i64 = 121_000_000;

/// Lower edge of the upper ground strip: half the screen height less the
/// height of the ground. The bird's box cannot rise above it.
pub const CEILING_LINE: i64 = 167_000_000;

/// Upper edge of the lower ground strip. A bird whose box reaches it is dead.
pub const GROUND_LINE: i64 = -167_000_000;

/// Height of the centre of a ground strip above or below the middle of the
/// screen: half the screen less half the ground.
pub const GROUND_Y: i64 = 227_500_000;

/// Left bound of the playfield: what lies left of it is moved to the right end.
pub const MIN_SCREEN: i64 = -552_000_000;

/// Value from which the search for the rightmost tile or pipe starts.
pub const TRACK_FLOOR: i64 = -1_000_000_000;

/// Scroll speed of the world, in pixels per second.
pub const SCROLL_SPEED: i64 = 150;

/// Furthest that the world scrolls in one frame: the scroll speed times the
/// longest span of time that fits in 32 bits.
pub const MAX_SHIFT: i64 = SCROLL_SPEED * 4_294_967_295;

/// Number of background and ground tiles: four columns of three.
pub const TILE_COUNT: usize = 12;

/// Distance between two neighbouring columns of tiles.
pub const HALF_WIDTH_BACKGROUND: i64 = 368_000_000;

/// Furthest that two tiles are apart: three columns.
pub const TILE_SPREAD: i64 = 3 * HALF_WIDTH_BACKGROUND;

/// Rightmost place of a tile: one spacing and one spread right of the left bound.
pub const TILE_X_MAX: i64 = MIN_SCREEN + TILE_SPREAD + HALF_WIDTH_BACKGROUND;

/// Number of pipes.
pub const PIPE_COUNT: usize = 6;

/// Distance between two neighbouring pipes.
pub const DISTANCE_X_BETWEEN_PIPE: i64 = 300_000_000;

/// Furthest that two pipes are apart: five spacings.
pub const PIPE_SPREAD: i64 = 5 * DISTANCE_X_BETWEEN_PIPE;

/// Rightmost place of a pipe: that of the last pipe as a run starts.
pub const PIPE_X_MAX: i64 = 6 * DISTANCE_X_BETWEEN_PIPE;

/// Width of a pipe.
pub const WIDTH_PIPE: i64 = 54_000_000;

/// Height of one half of a pipe.
pub const HEIGHT_PIPE: i64 = 319_000_000;

/// Half the height of one half of a pipe.
pub const HALF_HEIGHT_PIPE: i64 = 159_500_000;

/// Height of the opening between the two halves of a pipe.
pub const DISTANCE_BETWEEN_UP_DOWN_PIPES: i64 = 160_000_000;

/// Lowest height of the top of a lower pipe half, in pixels.
pub const GAP_LOW: i32 = -100;

/// One more than the highest height of the top of a lower pipe half, in pixels.
pub const GAP_HIGH: i32 = -50;

/// Horizontal position of the bird, which never changes.
pub const BIRD_X: i64 = 0;

/// Width and height of the bird's box.
pub const BIRD_SIZE: i64 = 26_000_000;

/// Half the height of the bird's box.
pub const HALF_BIRD: i64 = 13_000_000;

/// Speed of the bird right after a press, in pixels per second.
pub const FLAP_SPEED: i64 = 200;

/// Change of the bird's speed in each frame.
pub const GRAVITY: i64 = -5;

/// Speed of the bird after it touched the ceiling.
pub const CEILING_SPEED: i64 = -3;

/// Speed of the bird after it ran into a pipe.
pub const KNOCKBACK_SPEED: i64 = -300;

/// Rate at which the bird tilts, in degrees per second.
pub const TILT_RATE: i64 = -60;

/// Tilt of the bird right after a press, and the turn it gets at the ceiling.
pub const FLAP_TILT: i64 = 60_000_000;

/// Steepest downward tilt, also the tilt of a bird that ran into a pipe.
pub const MIN_TILT: i64 = -90_000_000;

/// Lowest speed from which the bird can still be moved within machine range.
pub const SPEED_FLOOR: i64 = -1_000_000_000;

/// Highest tilt from which the bird can still be moved within machine range.
pub const TILT_LIMIT: i64 = 1_000_000_000_000_000_000;

/// The measures that are written out above agree with those from which
/// they follow.
pub proof fn law_measures_agree()
    ensures
        2 * CEILING_LINE == HEIGHT_SCREEN - 2 * GROUND_HEIGHT,
        GROUND_LINE == -CEILING_LINE,
        2 * GROUND_Y == HEIGHT_SCREEN - GROUND_HEIGHT,
        2 * HALF_HEIGHT_PIPE == HEIGHT_PIPE,
        2 * HALF_BIRD == BIRD_SIZE,
        MAX_SHIFT == SCROLL_SPEED * u32::MAX,
{
}

} // verus!
