//! What holds of every run, whatever the input and however long the frames.

use vstd::prelude::*;
use crate::bird::lemma_advanced_wf;
use crate::game::GameView;
use crate::pipes::{
    gaps_ok, lemma_best_passed, lemma_out_before, lemma_scrolled_pipes_ok, out_before, pipe_xs,
    scrolled_pipes,
};
use crate::row::{
    aligned, chained, is_out, lemma_short_frame_keeps_apart, lemma_tracked_max, scrolled,
    shifted, tracked_max, within,
};
use crate::state::State;
use crate::tiles::{lemma_scrolled_tiles_ok, xs_of};
use crate::units::{
    BIRD_X, DISTANCE_BETWEEN_UP_DOWN_PIPES, DISTANCE_X_BETWEEN_PIPE, GAP_HIGH, GAP_LOW,
    HALF_WIDTH_BACKGROUND, MIN_SCREEN, PIPE_SPREAD, PIPE_X_MAX, PIXEL, SCROLL_SPEED, TILE_SPREAD,
    TILE_X_MAX, TRACK_FLOOR,
};

verus! {

/// One call of one of the four routines, with what it is given.
pub enum Step {
    /// The world is scrolled through `dt` microseconds; `gaps` holds the
    /// heights for the pipes that come back.
    Scroll { dt: int, gaps: Seq<int> },
    /// The input is polled.
    Click { pressed: bool },
    /// The bird is moved through `dt` microseconds.
    Bird { dt: int },
    /// The bird is checked against the pipes.
    Collisions,
}

impl Step {
    /// Whether the step is one that a run can take: time does not run
    /// backwards, and the heights lie within the band.
    pub open spec fn valid(self) -> bool {
        match self {
            Step::Scroll { dt, gaps } => 0 <= dt && gaps_ok(gaps),
            Step::Click { pressed } => true,
            Step::Bird { dt } => 0 <= dt,
            Step::Collisions => true,
        }
    }
}

impl GameView {
    /// The game after one step.
    pub open spec fn after(self, step: Step) -> GameView {
        match step {
            Step::Scroll { dt, gaps } => self.scrolled(dt, gaps),
            Step::Click { pressed } => self.clicked(pressed),
            Step::Bird { dt } => self.bird_moved(dt),
            Step::Collisions => self.collided(),
        }
    }

    /// Whether a step finds a collision.
    pub open spec fn fires(self, step: Step) -> bool {
        step is Collisions && self.collides()
    }

    /// The game after a sequence of steps.
    pub open spec fn after_all(self, steps: Seq<Step>) -> GameView
        decreases steps.len(),
    {
        if steps.len() == 0 {
            self
        } else {
            self.after_all(steps.drop_last()).after(steps.last())
        }
    }

    /// How many steps of a sequence find a collision.
    pub open spec fn collisions(self, steps: Seq<Step>) -> nat
        decreases steps.len(),
    {
        if steps.len() == 0 {
            0
        } else if self.after_all(steps.drop_last()).fires(steps.last()) {
            self.collisions(steps.drop_last()) + 1
        } else {
            self.collisions(steps.drop_last())
        }
    }
}

/// Whether every step of a sequence is one that a run can take.
pub open spec fn all_valid(steps: Seq<Step>) -> bool {
    forall|i: int| 0 <= i < steps.len() ==> (#[trigger] steps[i]).valid()
}

/// A game that is in order is in order after any step: tiles and pipes
/// stand on their grids without a hole, every pipe keeps its opening, the
/// numbers of the pipes differ, and the bird is terminal in the dead state
/// and in no other.
pub proof fn law_order_is_kept(game: GameView, step: Step)
    requires
        game.wf(),
        step.valid(),
    ensures
        game.after(step).wf(),
{
    match step {
        Step::Scroll { dt, gaps } => {
            if game.state == State::Playing {
                assert(0 <= SCROLL_SPEED * dt) by (nonlinear_arith)
                    requires
                        0 <= dt,
                ;
                lemma_scrolled_tiles_ok(game.tiles, SCROLL_SPEED * dt);
                lemma_scrolled_pipes_ok(game.pipes, SCROLL_SPEED * dt, gaps, game.current_inc);
                lemma_best_passed(game.after(step).pipes, game.score);
                lemma_out_before(
                    shifted(pipe_xs(game.pipes), SCROLL_SPEED * dt),
                    0,
                    game.pipes.len() as int,
                );
            }
        },
        Step::Click { pressed } => {},
        Step::Bird { dt } => {
            lemma_advanced_wf(game.bird, dt);
        },
        Step::Collisions => {},
    }
}

/// A game that is in order is in order after any sequence of steps.
pub proof fn law_order_is_kept_over_a_run(game: GameView, steps: Seq<Step>)
    requires
        game.wf(),
        all_valid(steps),
    ensures
        game.after_all(steps).wf(),
    decreases steps.len(),
{
    if steps.len() > 0 {
        assert(all_valid(steps.drop_last())) by {
            assert forall|i: int| 0 <= i < steps.drop_last().len() implies (
            #[trigger] steps.drop_last()[i]).valid() by {
                assert(steps[i].valid());
            }
        }
        law_order_is_kept_over_a_run(game, steps.drop_last());
        assert(steps[steps.len() - 1].valid());
        law_order_is_kept(game.after_all(steps.drop_last()), steps.last());
    }
}

/// After any step, the two halves of every pipe stand above one another
/// around an opening of the fixed height, whose lower edge lies within the
/// band.
pub proof fn law_pipes_keep_their_opening(game: GameView, step: Step, i: int)
    requires
        game.wf(),
        step.valid(),
        0 <= i < game.pipes.len(),
    ensures
        game.after(step).pipes.len() == game.pipes.len(),
        game.after(step).pipes[i].upper.x == game.after(step).pipes[i].below.x,
        game.after(step).pipes[i].gap_top() - game.after(step).pipes[i].gap_bottom()
            == DISTANCE_BETWEEN_UP_DOWN_PIPES,
        GAP_LOW * PIXEL <= game.after(step).pipes[i].gap_bottom() < GAP_HIGH * PIXEL,
{
    law_order_is_kept(game, step);
    assert(game.after(step).pipes[i].wf());
}

/// No step lowers the score.
pub proof fn law_score_never_falls(game: GameView, step: Step)
    ensures
        game.score <= game.after(step).score,
{
    match step {
        Step::Scroll { dt, gaps } => {
            lemma_best_passed(
                scrolled_pipes(game.pipes, SCROLL_SPEED * dt, gaps, game.current_inc),
                game.score,
            );
        },
        Step::Click { pressed } => {},
        Step::Bird { dt } => {},
        Step::Collisions => {},
    }
}

/// No sequence of steps lowers the score.
pub proof fn law_score_never_falls_over_a_run(game: GameView, steps: Seq<Step>)
    ensures
        game.score <= game.after_all(steps).score,
    decreases steps.len(),
{
    if steps.len() > 0 {
        law_score_never_falls_over_a_run(game, steps.drop_last());
        law_score_never_falls(game.after_all(steps.drop_last()), steps.last());
    }
}

/// A score that changes becomes the number of a pipe that the bird has
/// passed, and that number is higher than the score was.
pub proof fn law_score_follows_the_pipes(game: GameView, dt: int, gaps: Seq<int>)
    requires
        game.scrolled(dt, gaps).score != game.score,
    ensures
        game.score < game.scrolled(dt, gaps).score,
        exists|i: int|
            0 <= i < game.scrolled(dt, gaps).pipes.len() && (#[trigger] game.scrolled(
                dt,
                gaps,
            ).pipes[i]).idx == game.scrolled(dt, gaps).score && game.scrolled(
                dt,
                gaps,
            ).pipes[i].upper.x < BIRD_X,
{
    lemma_best_passed(game.scrolled(dt, gaps).pipes, game.score);
}

/// Once the bird is terminal, no step changes it: neither its speed nor its
/// tilt nor its height, and it stays terminal.
pub proof fn law_terminal_bird_is_left_alone(game: GameView, step: Step)
    requires
        game.bird.terminal,
    ensures
        game.after(step).bird == game.bird,
{
}

/// Once the bird is terminal, no sequence of steps changes it.
pub proof fn law_terminal_bird_is_left_alone_over_a_run(game: GameView, steps: Seq<Step>)
    requires
        game.bird.terminal,
    ensures
        game.after_all(steps).bird == game.bird,
    decreases steps.len(),
{
    if steps.len() > 0 {
        law_terminal_bird_is_left_alone_over_a_run(game, steps.drop_last());
        law_terminal_bird_is_left_alone(game.after_all(steps.drop_last()), steps.last());
    }
}

/// A run that is dead stays dead, and nothing in it changes any more:
/// neither the bird nor the tiles nor the pipes nor the score.
pub proof fn law_dead_run_stands_still(game: GameView, step: Step)
    requires
        game.state == State::Dead,
    ensures
        game.after(step) == game,
{
}

/// No step takes the run back to an earlier state, and no step clears the
/// terminal flag of the bird.
pub proof fn law_state_never_goes_back(game: GameView, step: Step)
    ensures
        game.state.rank() <= game.after(step).state.rank(),
        game.bird.terminal ==> game.after(step).bird.terminal,
{
}

/// No sequence of steps takes the run back to an earlier state.
pub proof fn law_state_never_goes_back_over_a_run(game: GameView, steps: Seq<Step>)
    ensures
        game.state.rank() <= game.after_all(steps).state.rank(),
    decreases steps.len(),
{
    if steps.len() > 0 {
        law_state_never_goes_back_over_a_run(game, steps.drop_last());
        law_state_never_goes_back(game.after_all(steps.drop_last()), steps.last());
    }
}

/// A check finds a collision just when the run is in play and the bird's box
/// overlaps a half of a pipe; the run is hit after it and the bird thrown
/// downwards. After a hit and after death no step finds a collision, and the
/// check changes nothing.
pub proof fn law_collision_ends_play(game: GameView, step: Step)
    ensures
        game.fires(Step::Collisions) <==> game.state == State::Playing && game.bird_hits(),
        game.fires(step) ==> game.after(step).state == State::Hit && game.after(step).bird
            == game.bird.knocked(),
        game.state == State::Hit || game.state == State::Dead ==> !game.fires(step)
            && game.collided() == game,
{
}

/// However a run goes, at most one of its steps finds a collision, and the
/// run is past play from that step on.
pub proof fn law_at_most_one_collision(game: GameView, steps: Seq<Step>)
    ensures
        game.collisions(steps) <= 1,
        game.collisions(steps) == 1 ==> game.after_all(steps).state.rank() >= 2,
    decreases steps.len(),
{
    if steps.len() > 0 {
        law_at_most_one_collision(game, steps.drop_last());
        law_state_never_goes_back(game.after_all(steps.drop_last()), steps.last());
    }
}

/// A tile that has left the playfield comes back one spacing right of the
/// tracked maximum, at its old height. The tracked maximum is the place of
/// the rightmost tile after the move, unless every tile lies at or left of
/// the floor from which the search starts.
pub proof fn law_tile_comes_back_right_of_the_rightmost(game: GameView, dt: int, gaps: Seq<int>, i: int)
    requires
        game.state == State::Playing,
        0 <= i < game.tiles.len(),
        is_out(game.tiles[i].x - SCROLL_SPEED * dt),
    ensures
        game.scrolled(dt, gaps).tiles[i].x == tracked_max(
            shifted(xs_of(game.tiles), SCROLL_SPEED * dt),
        ) + HALF_WIDTH_BACKGROUND,
        game.scrolled(dt, gaps).tiles[i].y == game.tiles[i].y,
        forall|k: int|
            0 <= k < game.tiles.len() ==> (#[trigger] game.tiles[k]).x - SCROLL_SPEED * dt
                <= tracked_max(shifted(xs_of(game.tiles), SCROLL_SPEED * dt)),
        (exists|k: int|
            0 <= k < game.tiles.len() && (#[trigger] game.tiles[k]).x - SCROLL_SPEED * dt
                > TRACK_FLOOR) ==> exists|k: int|
            0 <= k < game.tiles.len() && (#[trigger] game.tiles[k]).x - SCROLL_SPEED * dt
                == tracked_max(shifted(xs_of(game.tiles), SCROLL_SPEED * dt)),
{
    let xs: Seq<int> = shifted(xs_of(game.tiles), SCROLL_SPEED * dt);
    lemma_tracked_max(xs);
    assert forall|k: int| 0 <= k < game.tiles.len() implies (#[trigger] game.tiles[k]).x
        - SCROLL_SPEED * dt <= tracked_max(xs) by {
        assert(xs[k] == game.tiles[k].x - SCROLL_SPEED * dt);
    }
    if exists|k: int|
        0 <= k < game.tiles.len() && (#[trigger] game.tiles[k]).x - SCROLL_SPEED * dt
            > TRACK_FLOOR {
        let k: int = choose|k: int|
            0 <= k < game.tiles.len() && (#[trigger] game.tiles[k]).x - SCROLL_SPEED * dt
                > TRACK_FLOOR;
        assert(xs[k] > TRACK_FLOOR);
        let r: int = choose|r: int| 0 <= r < xs.len() && #[trigger] xs[r] == tracked_max(xs);
        assert(game.tiles[r].x - SCROLL_SPEED * dt == tracked_max(xs));
    }
}

/// A pipe that has left the playfield comes back one spacing right of the
/// tracked maximum, both halves above one another, with the next number.
/// The tracked maximum is the place of the rightmost pipe after the move,
/// unless every pipe lies at or left of the floor from which the search
/// starts.
pub proof fn law_pipe_comes_back_right_of_the_rightmost(game: GameView, dt: int, gaps: Seq<int>, i: int)
    requires
        game.state == State::Playing,
        0 <= i < game.pipes.len(),
        is_out(game.pipes[i].upper.x - SCROLL_SPEED * dt),
    ensures
        game.scrolled(dt, gaps).pipes[i].upper.x == tracked_max(
            shifted(pipe_xs(game.pipes), SCROLL_SPEED * dt),
        ) + DISTANCE_X_BETWEEN_PIPE,
        game.scrolled(dt, gaps).pipes[i].below.x == game.scrolled(dt, gaps).pipes[i].upper.x,
        game.current_inc < game.scrolled(dt, gaps).pipes[i].idx <= game.scrolled(
            dt,
            gaps,
        ).current_inc,
        forall|k: int|
            0 <= k < game.pipes.len() ==> (#[trigger] game.pipes[k]).upper.x - SCROLL_SPEED * dt
                <= tracked_max(shifted(pipe_xs(game.pipes), SCROLL_SPEED * dt)),
        (exists|k: int|
            0 <= k < game.pipes.len() && (#[trigger] game.pipes[k]).upper.x - SCROLL_SPEED * dt
                > TRACK_FLOOR) ==> exists|k: int|
            0 <= k < game.pipes.len() && (#[trigger] game.pipes[k]).upper.x - SCROLL_SPEED * dt
                == tracked_max(shifted(pipe_xs(game.pipes), SCROLL_SPEED * dt)),
{
    let xs: Seq<int> = shifted(pipe_xs(game.pipes), SCROLL_SPEED * dt);
    lemma_tracked_max(xs);
    lemma_out_before(xs, 0, i);
    lemma_out_before(xs, i + 1, game.pipes.len() as int);
    assert(out_before(xs, i + 1) == out_before(xs, i) + 1);
    assert forall|k: int| 0 <= k < game.pipes.len() implies (#[trigger] game.pipes[k]).upper.x
        - SCROLL_SPEED * dt <= tracked_max(xs) by {
        assert(xs[k] == game.pipes[k].upper.x - SCROLL_SPEED * dt);
    }
    if exists|k: int|
        0 <= k < game.pipes.len() && (#[trigger] game.pipes[k]).upper.x - SCROLL_SPEED * dt
            > TRACK_FLOOR {
        let k: int = choose|k: int|
            0 <= k < game.pipes.len() && (#[trigger] game.pipes[k]).upper.x - SCROLL_SPEED * dt
                > TRACK_FLOOR;
        assert(xs[k] > TRACK_FLOOR);
        let r: int = choose|r: int| 0 <= r < xs.len() && #[trigger] xs[r] == tracked_max(xs);
        assert(game.pipes[r].upper.x - SCROLL_SPEED * dt == tracked_max(xs));
    }
}

/// Scrolling keeps the spacing even, however many tiles and pipes come back
/// in a frame: after it the tiles stand on one grid of their spacing, no two
/// of them further apart than three columns and with no hole between them,
/// and so do the pipes on theirs.
pub proof fn law_spacing_stays_even(game: GameView, dt: int, gaps: Seq<int>)
    requires
        game.wf(),
        0 <= dt,
        gaps_ok(gaps),
    ensures
        aligned(
            xs_of(game.scrolled(dt, gaps).tiles),
            HALF_WIDTH_BACKGROUND as int,
            TILE_SPREAD as int,
        ),
        chained(xs_of(game.scrolled(dt, gaps).tiles), HALF_WIDTH_BACKGROUND as int),
        aligned(
            pipe_xs(game.scrolled(dt, gaps).pipes),
            DISTANCE_X_BETWEEN_PIPE as int,
            PIPE_SPREAD as int,
        ),
        chained(pipe_xs(game.scrolled(dt, gaps).pipes), DISTANCE_X_BETWEEN_PIPE as int),
{
    law_order_is_kept(game, Step::Scroll { dt, gaps });
}

/// A frame in which the world scrolls no further than one pipe spacing
/// keeps the pipes apart: if every pipe stood in the playfield before it,
/// every pipe stands in the playfield after it, and two pipes share a place
/// after it just when they shared one before. Pipes that start one spacing
/// apart, as a run sets them up, so stay exactly one spacing apart.
pub proof fn law_short_frame_keeps_the_pipes_apart(game: GameView, dt: int, gaps: Seq<int>)
    requires
        game.wf(),
        within(pipe_xs(game.pipes), MIN_SCREEN as int, PIPE_X_MAX as int),
        0 <= dt,
        SCROLL_SPEED * dt <= DISTANCE_X_BETWEEN_PIPE,
    ensures
        within(pipe_xs(game.scrolled(dt, gaps).pipes), MIN_SCREEN as int, PIPE_X_MAX as int),
        forall|i: int, j: int|
            0 <= i < game.pipes.len() && 0 <= j < game.pipes.len() ==> (#[trigger] game.scrolled(
                dt,
                gaps,
            ).pipes[i].upper.x == #[trigger] game.scrolled(dt, gaps).pipes[j].upper.x) == (
            game.pipes[i].upper.x == game.pipes[j].upper.x),
{
    if game.state == State::Playing {
        let d: int = SCROLL_SPEED * dt;
        assert(0 <= d) by (nonlinear_arith)
            requires
                d == SCROLL_SPEED * dt,
                0 <= dt,
        ;
        let xs: Seq<int> = pipe_xs(game.pipes);
        let after: GameView = game.scrolled(dt, gaps);
        lemma_short_frame_keeps_apart(
            xs,
            d,
            DISTANCE_X_BETWEEN_PIPE as int,
            PIPE_SPREAD as int,
            PIPE_X_MAX as int,
        );
        assert(pipe_xs(after.pipes) =~= scrolled(xs, d, DISTANCE_X_BETWEEN_PIPE as int));
        assert forall|i: int, j: int|
            0 <= i < game.pipes.len() && 0 <= j < game.pipes.len() implies (
        #[trigger] after.pipes[i].upper.x == #[trigger] after.pipes[j].upper.x) == (
        game.pipes[i].upper.x == game.pipes[j].upper.x) by {
            assert(pipe_xs(after.pipes)[i] == after.pipes[i].upper.x);
            assert(pipe_xs(after.pipes)[j] == after.pipes[j].upper.x);
            assert(xs[i] == game.pipes[i].upper.x);
            assert(xs[j] == game.pipes[j].upper.x);
        }
    }
}

/// A frame in which the world scrolls no further than one tile spacing
/// keeps the columns of tiles apart: if every tile stood in the playfield
/// before it, every tile stands in the playfield after it, and two tiles
/// share a place after it just when they shared one before.
pub proof fn law_short_frame_keeps_the_columns_apart(game: GameView, dt: int, gaps: Seq<int>)
    requires
        game.wf(),
        within(xs_of(game.tiles), MIN_SCREEN as int, TILE_X_MAX as int),
        0 <= dt,
        SCROLL_SPEED * dt <= HALF_WIDTH_BACKGROUND,
    ensures
        within(xs_of(game.scrolled(dt, gaps).tiles), MIN_SCREEN as int, TILE_X_MAX as int),
        forall|i: int, j: int|
            0 <= i < game.tiles.len() && 0 <= j < game.tiles.len() ==> (#[trigger] game.scrolled(
                dt,
                gaps,
            ).tiles[i].x == #[trigger] game.scrolled(dt, gaps).tiles[j].x) == (game.tiles[i].x
                == game.tiles[j].x),
{
    if game.state == State::Playing {
        let d: int = SCROLL_SPEED * dt;
        assert(0 <= d) by (nonlinear_arith)
            requires
                d == SCROLL_SPEED * dt,
                0 <= dt,
        ;
        let xs: Seq<int> = xs_of(game.tiles);
        let after: GameView = game.scrolled(dt, gaps);
        lemma_short_frame_keeps_apart(
            xs,
            d,
            HALF_WIDTH_BACKGROUND as int,
            TILE_SPREAD as int,
            TILE_X_MAX as int,
        );
        assert(xs_of(after.tiles) =~= scrolled(xs, d, HALF_WIDTH_BACKGROUND as int));
        assert forall|i: int, j: int|
            0 <= i < game.tiles.len() && 0 <= j < game.tiles.len() implies (
        #[trigger] after.tiles[i].x == #[trigger] after.tiles[j].x) == (game.tiles[i].x
            == game.tiles[j].x) by {
            assert(xs_of(after.tiles)[i] == after.tiles[i].x);
            assert(xs_of(after.tiles)[j] == after.tiles[j].x);
            assert(xs[i] == game.tiles[i].x);
            assert(xs[j] == game.tiles[j].x);
        }
    }
}

} // verus!
