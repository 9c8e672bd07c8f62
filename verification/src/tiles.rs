//! Background and ground tiles: three layers of four columns that scroll to
//! the left and wrap around.

use vstd::prelude::*;
use crate::geometry::Point;
use crate::row::{
    has_right_neighbour, is_rightmost, lemma_scrolled_row_ok, lemma_tracked_max_push,
    recycled_x, row_ok, scrolled, shifted, tracked_max,
};
use crate::units::{
    GROUND_Y, HALF_WIDTH_BACKGROUND, MAX_SHIFT, MIN_SCREEN, TILE_COUNT, TILE_SPREAD, TILE_X_MAX,
    TRACK_FLOOR,
};

verus! {

/// A tile: the place of its centre, in micro-pixels.
#[derive(Clone, Copy, Debug, PartialEq, Eq)]
pub struct Tile {
    pub x: i64,
    pub y: i64,
}

impl View for Tile {
    type V = Point;

    open spec fn view(&self) -> Point {
        Point { x: self.x as int, y: self.y as int }
    }
}

/// The places of a sequence of tiles.
pub open spec fn tile_views(tiles: Seq<Tile>) -> Seq<Point> {
    Seq::new(tiles.len(), |i: int| tiles[i]@)
}

/// The horizontal places of a sequence of points.
pub open spec fn xs_of(points: Seq<Point>) -> Seq<int> {
    Seq::new(points.len(), |i: int| points[i].x)
}

/// Height of the tiles of a layer: the background in the middle, a ground
/// strip at the top and one at the bottom.
pub open spec fn layer_y(layer: int) -> int {
    if layer == 0 {
        0
    } else if layer == 1 {
        GROUND_Y as int
    } else {
        -GROUND_Y
    }
}

/// The tiles as a run starts: tile `3 * k + l` is the tile of column `k` in
/// layer `l`, and the columns stand one spacing apart, the second of them in
/// the middle of the screen.
pub open spec fn initial_tiles() -> Seq<Point> {
    Seq::new(
        TILE_COUNT as nat,
        |i: int| Point { x: (i / 3 - 1) * HALF_WIDTH_BACKGROUND, y: layer_y(i % 3) },
    )
}

/// The tiles after a frame that moves them to the left by `d`: every tile
/// that has left the playfield stands one spacing right of the tracked
/// maximum of the row, at its old height.
pub open spec fn scrolled_tiles(points: Seq<Point>, d: int) -> Seq<Point> {
    Seq::new(
        points.len(),
        |i: int|
            Point {
                x: scrolled(xs_of(points), d, HALF_WIDTH_BACKGROUND as int)[i],
                y: points[i].y,
            },
    )
}

/// What holds of the tiles between two frames.
pub open spec fn tiles_ok(points: Seq<Point>) -> bool {
    &&& points.len() == TILE_COUNT
    &&& row_ok(
        xs_of(points),
        HALF_WIDTH_BACKGROUND as int,
        TILE_SPREAD as int,
        TILE_X_MAX as int,
    )
}

/// A frame keeps the tiles in order.
pub proof fn lemma_scrolled_tiles_ok(points: Seq<Point>, d: int)
    requires
        tiles_ok(points),
        0 <= d,
    ensures
        tiles_ok(scrolled_tiles(points, d)),
{
    lemma_scrolled_row_ok(
        xs_of(points),
        d,
        HALF_WIDTH_BACKGROUND as int,
        TILE_SPREAD as int,
        TILE_X_MAX as int,
    );
    assert(xs_of(scrolled_tiles(points, d)) =~= scrolled(
        xs_of(points),
        d,
        HALF_WIDTH_BACKGROUND as int,
    ));
}

/// The tiles of a new run are in order.
pub proof fn lemma_initial_tiles_ok()
    ensures
        tiles_ok(initial_tiles()),
{
    let xs: Seq<int> = xs_of(initial_tiles());
    assert forall|i: int, j: int| 0 <= i < xs.len() && 0 <= j < xs.len() implies {
        &&& (#[trigger] xs[i] - #[trigger] xs[j]) % (HALF_WIDTH_BACKGROUND as int) == 0
        &&& xs[i] - xs[j] <= TILE_SPREAD
    } by {
        assert(xs[i] - xs[j] == (i / 3 - j / 3) * 368_000_000);
    }
    assert forall|i: int| 0 <= i < xs.len() implies #[trigger] is_rightmost(xs, i)
        || has_right_neighbour(xs, i, HALF_WIDTH_BACKGROUND as int) by {
        if i + 3 < xs.len() {
            assert(xs[i + 3] == xs[i] + HALF_WIDTH_BACKGROUND);
        }
    }
}

/// The tiles as a run starts.
pub(crate) fn new_tiles() -> (tiles: Vec<Tile>)
    ensures
        tile_views(tiles@) == initial_tiles(),
{
    let mut tiles: Vec<Tile> = Vec::new();
    let mut column: i64 = 0;
    while column < 4
        invariant
            0 <= column <= 4,
            tiles.len() == 3 * column,
            forall|i: int|
                0 <= i < tiles.len() ==> (#[trigger] tiles[i])@ == initial_tiles()[i],
        decreases 4 - column,
    {
        let x: i64 = (column - 1) * HALF_WIDTH_BACKGROUND;
        tiles.push(Tile { x: x, y: 0 });
        tiles.push(Tile { x: x, y: GROUND_Y });
        tiles.push(Tile { x: x, y: -GROUND_Y });
        column = column + 1;
    }
    assert(tile_views(tiles@) =~= initial_tiles());
    tiles
}

/// Moves the tiles through a frame that scrolls the world to the left by `d`.
pub(crate) fn scroll_tiles(tiles: &mut Vec<Tile>, d: i64)
    requires
        tiles_ok(tile_views(old(tiles)@)),
        0 <= d <= MAX_SHIFT,
    ensures
        tile_views(final(tiles)@) == scrolled_tiles(tile_views(old(tiles)@), d as int),
        tiles_ok(tile_views(final(tiles)@)),
{
    let ghost before: Seq<Point> = tile_views(tiles@);
    let ghost moved: Seq<int> = shifted(xs_of(before), d as int);
    let n: usize = tiles.len();
    let mut max: i64 = TRACK_FLOOR;
    let mut i: usize = 0;
    while i < n
        invariant
            i <= n,
            n == tiles.len(),
            n == before.len(),
            tiles_ok(before),
            0 <= d <= MAX_SHIFT,
            moved == shifted(xs_of(before), d as int),
            forall|j: int| 0 <= j < i ==> (#[trigger] tiles[j])@ == (Point {
                x: moved[j],
                y: before[j].y,
            }),
            forall|j: int| i <= j < n ==> (#[trigger] tiles[j])@ == before[j],
            max == tracked_max(moved.take(i as int)),
        decreases n - i,
    {
        let tile: Tile = tiles[i];
        assert(tile@ == before[i as int]);
        assert(xs_of(before)[i as int] == before[i as int].x);
        let x: i64 = tile.x - d;
        tiles.set(i, Tile { x: x, y: tile.y });
        proof {
            lemma_tracked_max_push(moved.take(i as int), moved[i as int]);
            assert(moved.take(i as int + 1) =~= moved.take(i as int).push(moved[i as int]));
        }
        if x > max {
            max = x;
        }
        i = i + 1;
    }
    assert(moved.take(n as int) =~= moved);
    proof {
        lemma_scrolled_tiles_ok(before, d as int);
    }
    let ghost after: Seq<Point> = scrolled_tiles(before, d as int);
    i = 0;
    while i < n
        invariant
            i <= n,
            n == tiles.len(),
            n == before.len(),
            moved == shifted(xs_of(before), d as int),
            after == scrolled_tiles(before, d as int),
            tiles_ok(after),
            max == tracked_max(moved),
            forall|j: int| 0 <= j < i ==> (#[trigger] tiles[j])@ == after[j],
            forall|j: int| i <= j < n ==> (#[trigger] tiles[j])@ == (Point {
                x: moved[j],
                y: before[j].y,
            }),
        decreases n - i,
    {
        let tile: Tile = tiles[i];
        assert(after[i as int].x == recycled_x(
            moved[i as int],
            max as int,
            HALF_WIDTH_BACKGROUND as int,
        ));
        assert(xs_of(after)[i as int] == after[i as int].x);
        if tile.x < MIN_SCREEN {
            tiles.set(i, Tile { x: max + HALF_WIDTH_BACKGROUND, y: tile.y });
        }
        i = i + 1;
    }
    assert(tile_views(tiles@) =~= after);
}

} // verus!
