//! Pipes: pairs of an upper and a lower half around an opening, numbered in
//! the order in which they come into the playfield.

use vstd::prelude::*;
use crate::geometry::{collide, Point, Rect, RectView};
use crate::row::{
    has_right_neighbour, is_out, is_rightmost, lemma_scrolled_row_ok, lemma_tracked_max_push,
    row_ok, scrolled, shifted, tracked_max,
};
use crate::units::{
    BIRD_X, DISTANCE_BETWEEN_UP_DOWN_PIPES, DISTANCE_X_BETWEEN_PIPE, GAP_HIGH, GAP_LOW,
    HALF_HEIGHT_PIPE, HEIGHT_PIPE, MAX_SHIFT, MIN_SCREEN, PIPE_COUNT, PIPE_SPREAD, PIPE_X_MAX,
    PIXEL, TRACK_FLOOR, WIDTH_PIPE,
};

verus! {

/// One half of a pipe: the place of its centre, in micro-pixels.
#[derive(Clone, Copy, Debug, PartialEq, Eq)]
pub struct PipePart {
    pub x: i64,
    pub y: i64,
}

/// A pipe: its two halves and its number.
#[derive(Clone, Copy, Debug, PartialEq, Eq)]
pub struct Pipe {
    pub upper: PipePart,
    pub below: PipePart,
    pub idx: i32,
}

/// A pipe over the integers.
pub struct PipeView {
    pub upper: Point,
    pub below: Point,
    pub idx: int,
}

impl View for PipePart {
    type V = Point;

    open spec fn view(&self) -> Point {
        Point { x: self.x as int, y: self.y as int }
    }
}

impl View for Pipe {
    type V = PipeView;

    open spec fn view(&self) -> PipeView {
        PipeView { upper: self.upper@, below: self.below@, idx: self.idx as int }
    }
}

/// Whether `gap`, in pixels, is a height at which the top of a lower half may stand.
pub open spec fn in_band(gap: int) -> bool {
    GAP_LOW <= gap < GAP_HIGH
}

/// Whether there is one height for each pipe, each of them in the band.
pub open spec fn gaps_ok(gaps: Seq<int>) -> bool {
    &&& gaps.len() == PIPE_COUNT
    &&& forall|i: int| 0 <= i < gaps.len() ==> in_band(#[trigger] gaps[i])
}

/// The heights of a slice as integers.
pub open spec fn gap_ints(gaps: Seq<i32>) -> Seq<int> {
    Seq::new(gaps.len(), |i: int| gaps[i] as int)
}

/// The pipe with the number `idx` at `x` whose lower half ends `gap` pixels
/// above the middle of the screen. The upper half begins one opening higher.
pub open spec fn placed(x: int, gap: int, idx: int) -> PipeView {
    PipeView {
        upper: Point {
            x: x,
            y: gap * PIXEL + DISTANCE_BETWEEN_UP_DOWN_PIPES + HALF_HEIGHT_PIPE,
        },
        below: Point { x: x, y: gap * PIXEL - HALF_HEIGHT_PIPE },
        idx: idx,
    }
}

impl PipeView {
    /// Height of the top edge of the lower half.
    pub open spec fn gap_bottom(self) -> int {
        self.below.y + HALF_HEIGHT_PIPE
    }

    /// Height of the bottom edge of the upper half.
    pub open spec fn gap_top(self) -> int {
        self.upper.y - HALF_HEIGHT_PIPE
    }

    /// What holds of every pipe: its halves stand above one another, the
    /// opening between them has the fixed height, and its lower edge is a
    /// whole number of pixels within the band.
    pub open spec fn wf(self) -> bool {
        &&& self.upper.x == self.below.x
        &&& self.gap_top() - self.gap_bottom() == DISTANCE_BETWEEN_UP_DOWN_PIPES
        &&& self.gap_bottom() % (PIXEL as int) == 0
        &&& GAP_LOW * PIXEL <= self.gap_bottom() < GAP_HIGH * PIXEL
    }

    /// The pipe moved to the left by `d`.
    pub open spec fn moved(self, d: int) -> PipeView {
        PipeView {
            upper: Point { x: self.upper.x - d, y: self.upper.y },
            below: Point { x: self.below.x - d, y: self.below.y },
            idx: self.idx,
        }
    }
}

/// The pipes of a sequence over the integers.
pub open spec fn pipe_views(pipes: Seq<Pipe>) -> Seq<PipeView> {
    Seq::new(pipes.len(), |i: int| pipes[i]@)
}

/// The horizontal places of a sequence of pipes.
pub open spec fn pipe_xs(pipes: Seq<PipeView>) -> Seq<int> {
    Seq::new(pipes.len(), |i: int| pipes[i].upper.x)
}

/// How many of the first `n` places have left the playfield.
pub open spec fn out_before(xs: Seq<int>, n: int) -> int
    decreases n,
{
    if n <= 0 {
        0
    } else if is_out(xs[n - 1]) {
        out_before(xs, n - 1) + 1
    } else {
        out_before(xs, n - 1)
    }
}

/// The pipes as a run starts: one spacing apart, the first of them one
/// spacing right of the bird, numbered from 1.
pub open spec fn initial_pipes(gaps: Seq<int>) -> Seq<PipeView> {
    Seq::new(
        PIPE_COUNT as nat,
        |i: int| placed((i + 1) * DISTANCE_X_BETWEEN_PIPE, gaps[i], i + 1),
    )
}

/// The pipes after a frame that moves them to the left by `d`.
///
/// A pipe that has left the playfield stands one spacing right of the
/// tracked maximum of the row, with its opening at the height that `gaps`
/// holds for it. The pipes that come back are numbered on from `counter` in
/// the order of the sequence.
pub open spec fn scrolled_pipes(pipes: Seq<PipeView>, d: int, gaps: Seq<int>, counter: int) -> Seq<
    PipeView,
> {
    let xs: Seq<int> = shifted(pipe_xs(pipes), d);
    Seq::new(
        pipes.len(),
        |i: int|
            if is_out(xs[i]) {
                placed(
                    tracked_max(xs) + DISTANCE_X_BETWEEN_PIPE,
                    gaps[i],
                    counter + out_before(xs, i + 1),
                )
            } else {
                pipes[i].moved(d)
            },
    )
}

/// The counter after a frame that moves the pipes to the left by `d`: one
/// more for each pipe that came back.
pub open spec fn scrolled_counter(pipes: Seq<PipeView>, d: int, counter: int) -> int {
    counter + out_before(shifted(pipe_xs(pipes), d), pipes.len() as int)
}

/// What holds of the pipes between two frames: each is well formed, they are
/// a row in order, and their numbers differ and lie between 1 and the counter.
pub open spec fn pipes_ok(pipes: Seq<PipeView>, counter: int) -> bool {
    &&& pipes.len() == PIPE_COUNT
    &&& forall|i: int| 0 <= i < pipes.len() ==> (#[trigger] pipes[i]).wf()
    &&& row_ok(
        pipe_xs(pipes),
        DISTANCE_X_BETWEEN_PIPE as int,
        PIPE_SPREAD as int,
        PIPE_X_MAX as int,
    )
    &&& forall|i: int| 0 <= i < pipes.len() ==> 1 <= (#[trigger] pipes[i]).idx <= counter
    &&& forall|i: int, j: int|
        0 <= i < j < pipes.len() ==> (#[trigger] pipes[i]).idx != (#[trigger] pipes[j]).idx
}

/// The box of one half of a pipe.
pub open spec fn part_box(part: Point) -> RectView {
    RectView { x: part.x, y: part.y, width: WIDTH_PIPE as int, height: HEIGHT_PIPE as int }
}

/// Whether a box overlaps one of the halves of a pipe.
pub open spec fn touches(body: RectView, pipe: PipeView) -> bool {
    body.overlaps(part_box(pipe.upper)) || body.overlaps(part_box(pipe.below))
}

/// Whether a box overlaps a half of any of the pipes.
pub open spec fn touches_any(body: RectView, pipes: Seq<PipeView>) -> bool {
    exists|i: int| 0 <= i < pipes.len() && touches(body, #[trigger] pipes[i])
}

/// The score after the pipes were looked at in order: each pipe that the
/// bird has passed and whose number is above the score raises the score to
/// its number.
pub open spec fn best_passed(pipes: Seq<PipeView>, score: int) -> int
    decreases pipes.len(),
{
    if pipes.len() == 0 {
        score
    } else {
        let so_far: int = best_passed(pipes.drop_last(), score);
        if pipes.last().upper.x < BIRD_X && so_far < pipes.last().idx {
            pipes.last().idx
        } else {
            so_far
        }
    }
}

/// The score after a look at the pipes is the score before it or the number
/// of a pipe that the bird has passed, whichever is highest.
pub proof fn lemma_best_passed(pipes: Seq<PipeView>, score: int)
    ensures
        score <= best_passed(pipes, score),
        forall|i: int|
            0 <= i < pipes.len() && (#[trigger] pipes[i]).upper.x < BIRD_X ==> pipes[i].idx
                <= best_passed(pipes, score),
        best_passed(pipes, score) == score || exists|i: int|
            0 <= i < pipes.len() && (#[trigger] pipes[i]).upper.x < BIRD_X && pipes[i].idx
                == best_passed(pipes, score),
    decreases pipes.len(),
{
    if pipes.len() > 0 {
        let rest: Seq<PipeView> = pipes.drop_last();
        let best: int = best_passed(pipes, score);
        lemma_best_passed(rest, score);
        assert forall|i: int|
            0 <= i < pipes.len() && (#[trigger] pipes[i]).upper.x < BIRD_X implies pipes[i].idx
            <= best by {
            if i < rest.len() {
                assert(rest[i] == pipes[i]);
            }
        }
        if best != score {
            if best == best_passed(rest, score) {
                let k: int = choose|k: int|
                    0 <= k < rest.len() && (#[trigger] rest[k]).upper.x < BIRD_X && rest[k].idx
                        == best_passed(rest, score);
                assert(pipes[k] == rest[k]);
            } else {
                assert(pipes[pipes.len() - 1].idx == best);
            }
        }
    }
}

/// The count of the places that have left the playfield grows with `n`, by
/// at most one for each place.
pub proof fn lemma_out_before(xs: Seq<int>, a: int, b: int)
    requires
        0 <= a <= b,
    ensures
        0 <= out_before(xs, a) <= out_before(xs, b) <= out_before(xs, a) + (b - a),
    decreases b,
{
    if a < b {
        lemma_out_before(xs, a, b - 1);
    } else {
        lemma_out_before_nonnegative(xs, a);
    }
}

/// A count is never negative.
proof fn lemma_out_before_nonnegative(xs: Seq<int>, n: int)
    ensures
        0 <= out_before(xs, n),
    decreases n,
{
    if n > 0 {
        lemma_out_before_nonnegative(xs, n - 1);
    }
}

/// A pipe put at a height within the band is well formed.
pub proof fn lemma_placed_wf(x: int, gap: int, idx: int)
    requires
        in_band(gap),
    ensures
        placed(x, gap, idx).wf(),
{
    assert((gap * 1_000_000) % 1_000_000 == 0);
}

/// The pipes of a new run are in order.
pub proof fn lemma_initial_pipes_ok(gaps: Seq<int>)
    requires
        gaps_ok(gaps),
    ensures
        pipes_ok(initial_pipes(gaps), PIPE_COUNT as int),
{
    let pipes: Seq<PipeView> = initial_pipes(gaps);
    let xs: Seq<int> = pipe_xs(pipes);
    assert forall|i: int| 0 <= i < pipes.len() implies (#[trigger] pipes[i]).wf() by {
        assert(in_band(gaps[i]));
        lemma_placed_wf((i + 1) * DISTANCE_X_BETWEEN_PIPE, gaps[i], i + 1);
    }
    assert forall|i: int, j: int| 0 <= i < xs.len() && 0 <= j < xs.len() implies {
        &&& (#[trigger] xs[i] - #[trigger] xs[j]) % (DISTANCE_X_BETWEEN_PIPE as int) == 0
        &&& xs[i] - xs[j] <= PIPE_SPREAD
    } by {
        assert(xs[i] - xs[j] == (i - j) * 300_000_000);
    }
    assert forall|i: int| 0 <= i < xs.len() implies #[trigger] is_rightmost(xs, i)
        || has_right_neighbour(xs, i, DISTANCE_X_BETWEEN_PIPE as int) by {
        if i + 1 < xs.len() {
            assert(xs[i + 1] == xs[i] + DISTANCE_X_BETWEEN_PIPE);
        }
    }
}

/// A frame keeps the pipes in order.
pub proof fn lemma_scrolled_pipes_ok(pipes: Seq<PipeView>, d: int, gaps: Seq<int>, counter: int)
    requires
        pipes_ok(pipes, counter),
        gaps_ok(gaps),
        0 <= d,
    ensures
        pipes_ok(scrolled_pipes(pipes, d, gaps, counter), scrolled_counter(pipes, d, counter)),
{
    let xs: Seq<int> = shifted(pipe_xs(pipes), d);
    let after: Seq<PipeView> = scrolled_pipes(pipes, d, gaps, counter);
    let next: int = scrolled_counter(pipes, d, counter);
    let n: int = pipes.len() as int;
    lemma_scrolled_row_ok(
        pipe_xs(pipes),
        d,
        DISTANCE_X_BETWEEN_PIPE as int,
        PIPE_SPREAD as int,
        PIPE_X_MAX as int,
    );
    assert(pipe_xs(after) =~= scrolled(pipe_xs(pipes), d, DISTANCE_X_BETWEEN_PIPE as int));
    assert forall|i: int| 0 <= i < after.len() implies (#[trigger] after[i]).wf() by {
        assert(pipes[i].wf());
        if is_out(xs[i]) {
            assert(in_band(gaps[i]));
            lemma_placed_wf(
                tracked_max(xs) + DISTANCE_X_BETWEEN_PIPE,
                gaps[i],
                counter + out_before(xs, i + 1),
            );
        }
    }
    assert forall|i: int| 0 <= i < after.len() implies 1 <= (#[trigger] after[i]).idx
        <= next by {
        assert(1 <= pipes[i].idx <= counter);
        lemma_out_before(xs, 0, i + 1);
        lemma_out_before(xs, i + 1, n);
    }
    assert forall|i: int, j: int| 0 <= i < j < after.len() implies (#[trigger] after[i]).idx != (
    #[trigger] after[j]).idx by {
        assert(1 <= pipes[i].idx <= counter);
        assert(1 <= pipes[j].idx <= counter);
        assert(pipes[i].idx != pipes[j].idx);
        lemma_out_before(xs, 0, i);
        lemma_out_before(xs, i + 1, j);
        lemma_out_before(xs, 0, j);
        if is_out(xs[i]) {
            assert(out_before(xs, i + 1) == out_before(xs, i) + 1);
        }
        if is_out(xs[j]) {
            assert(out_before(xs, j + 1) == out_before(xs, j) + 1);
        }
    }
}

/// The pipes as a run starts, with their openings at the given heights.
pub(crate) fn new_pipes(gaps: &[i32]) -> (pipes: Vec<Pipe>)
    requires
        gaps_ok(gap_ints(gaps@)),
    ensures
        pipe_views(pipes@) == initial_pipes(gap_ints(gaps@)),
{
    let mut pipes: Vec<Pipe> = Vec::new();
    let mut i: usize = 0;
    while i < PIPE_COUNT
        invariant
            i <= PIPE_COUNT,
            pipes.len() == i,
            gaps_ok(gap_ints(gaps@)),
            forall|j: int|
                0 <= j < i ==> (#[trigger] pipes[j])@ == initial_pipes(gap_ints(gaps@))[j],
        decreases PIPE_COUNT - i,
    {
        assert(in_band(gap_ints(gaps@)[i as int]));
        let number: i32 = i as i32 + 1;
        let x: i64 = (number as i64) * DISTANCE_X_BETWEEN_PIPE;
        pipes.push(place(x, gaps[i], number));
        i = i + 1;
    }
    assert(pipe_views(pipes@) =~= initial_pipes(gap_ints(gaps@)));
    pipes
}

/// The pipe with the number `idx` at `x` whose lower half ends `gap` pixels
/// above the middle of the screen.
pub(crate) fn place(x: i64, gap: i32, idx: i32) -> (pipe: Pipe)
    ensures
        pipe@ == placed(x as int, gap as int, idx as int),
{
    let edge: i64 = (gap as i64) * PIXEL;
    Pipe {
        upper: PipePart { x: x, y: edge + DISTANCE_BETWEEN_UP_DOWN_PIPES + HALF_HEIGHT_PIPE },
        below: PipePart { x: x, y: edge - HALF_HEIGHT_PIPE },
        idx: idx,
    }
}

/// Tells whether a box overlaps a half of any of the pipes.
pub(crate) fn collides_with_any(body: Rect, pipes: &Vec<Pipe>) -> (hit: bool)
    ensures
        hit == touches_any(body@, pipe_views(pipes@)),
{
    let ghost views: Seq<PipeView> = pipe_views(pipes@);
    let mut i: usize = 0;
    while i < pipes.len()
        invariant
            i <= pipes.len(),
            views == pipe_views(pipes@),
            forall|j: int| 0 <= j < i ==> !touches(body@, #[trigger] views[j]),
        decreases pipes.len() - i,
    {
        let pipe: Pipe = pipes[i];
        assert(views[i as int] == pipe@);
        let upper: Rect = Rect {
            x: pipe.upper.x,
            y: pipe.upper.y,
            width: WIDTH_PIPE,
            height: HEIGHT_PIPE,
        };
        let below: Rect = Rect {
            x: pipe.below.x,
            y: pipe.below.y,
            width: WIDTH_PIPE,
            height: HEIGHT_PIPE,
        };
        if collide(body, upper) || collide(body, below) {
            assert(touches(body@, views[i as int]));
            return true;
        }
        i = i + 1;
    }
    false
}

/// Looks at the pipes in order and returns the score after it.
pub(crate) fn raise_score(pipes: &Vec<Pipe>, score: i32) -> (best: i32)
    ensures
        best == best_passed(pipe_views(pipes@), score as int),
{
    let ghost views: Seq<PipeView> = pipe_views(pipes@);
    let mut best: i32 = score;
    let mut i: usize = 0;
    while i < pipes.len()
        invariant
            i <= pipes.len(),
            views == pipe_views(pipes@),
            best == best_passed(views.take(i as int), score as int),
        decreases pipes.len() - i,
    {
        let pipe: Pipe = pipes[i];
        assert(views[i as int] == pipe@);
        assert(views.take(i as int + 1).drop_last() =~= views.take(i as int));
        if pipe.upper.x < BIRD_X && best < pipe.idx {
            best = pipe.idx;
        }
        i = i + 1;
    }
    assert(views.take(pipes.len() as int) =~= views);
    best
}

/// Moves the pipes through a frame that scrolls the world to the left by
/// `d`, and returns the counter after it.
pub(crate) fn scroll_pipes(pipes: &mut Vec<Pipe>, d: i64, gaps: &[i32], counter: i32) -> (next: i32)
    requires
        pipes_ok(pipe_views(old(pipes)@), counter as int),
        gaps_ok(gap_ints(gaps@)),
        0 <= d <= MAX_SHIFT,
        counter + PIPE_COUNT <= i32::MAX,
    ensures
        pipe_views(final(pipes)@) == scrolled_pipes(
            pipe_views(old(pipes)@),
            d as int,
            gap_ints(gaps@),
            counter as int,
        ),
        next == scrolled_counter(pipe_views(old(pipes)@), d as int, counter as int),
        counter <= next,
        pipes_ok(pipe_views(final(pipes)@), next as int),
{
    let ghost before: Seq<PipeView> = pipe_views(pipes@);
    let ghost xs: Seq<int> = shifted(pipe_xs(before), d as int);
    let n: usize = pipes.len();
    let mut max: i64 = TRACK_FLOOR;
    let mut i: usize = 0;
    while i < n
        invariant
            i <= n,
            n == pipes.len(),
            n == before.len(),
            pipes_ok(before, counter as int),
            0 <= d <= MAX_SHIFT,
            xs == shifted(pipe_xs(before), d as int),
            forall|j: int| 0 <= j < i ==> (#[trigger] pipes[j])@ == before[j].moved(d as int),
            forall|j: int| i <= j < n ==> (#[trigger] pipes[j])@ == before[j],
            max == tracked_max(xs.take(i as int)),
        decreases n - i,
    {
        let pipe: Pipe = pipes[i];
        assert(pipe@ == before[i as int]);
        assert(before[i as int].wf());
        assert(pipe_xs(before)[i as int] == before[i as int].upper.x);
        let x: i64 = pipe.upper.x - d;
        pipes.set(
            i,
            Pipe {
                upper: PipePart { x: x, y: pipe.upper.y },
                below: PipePart { x: pipe.below.x - d, y: pipe.below.y },
                idx: pipe.idx,
            },
        );
        proof {
            lemma_tracked_max_push(xs.take(i as int), xs[i as int]);
            assert(xs.take(i as int + 1) =~= xs.take(i as int).push(xs[i as int]));
        }
        if x > max {
            max = x;
        }
        i = i + 1;
    }
    assert(xs.take(n as int) =~= xs);
    proof {
        lemma_scrolled_pipes_ok(before, d as int, gap_ints(gaps@), counter as int);
    }
    let ghost after: Seq<PipeView> = scrolled_pipes(
        before,
        d as int,
        gap_ints(gaps@),
        counter as int,
    );
    let mut next: i32 = counter;
    i = 0;
    while i < n
        invariant
            i <= n,
            n == pipes.len(),
            n == before.len(),
            n == PIPE_COUNT,
            gaps_ok(gap_ints(gaps@)),
            counter + PIPE_COUNT <= i32::MAX,
            xs == shifted(pipe_xs(before), d as int),
            after == scrolled_pipes(before, d as int, gap_ints(gaps@), counter as int),
            pipes_ok(after, scrolled_counter(before, d as int, counter as int)),
            max == tracked_max(xs),
            next == counter + out_before(xs, i as int),
            counter <= next <= counter + i,
            forall|j: int| 0 <= j < i ==> (#[trigger] pipes[j])@ == after[j],
            forall|j: int| i <= j < n ==> (#[trigger] pipes[j])@ == before[j].moved(d as int),
        decreases n - i,
    {
        let pipe: Pipe = pipes[i];
        assert(pipe@ == before[i as int].moved(d as int));
        assert(pipe_xs(after)[i as int] == after[i as int].upper.x);
        if pipe.upper.x < MIN_SCREEN {
            next = next + 1;
            pipes.set(i, place(max + DISTANCE_X_BETWEEN_PIPE, gaps[i], next));
        }
        i = i + 1;
    }
    assert(pipe_views(pipes@) =~= after);
    next
}

} // verus!
