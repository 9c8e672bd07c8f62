//! The game: one record that four routines read and change in every frame.

use vstd::prelude::*;
use crate::geometry::{Point, Rect, RectView};
use crate::bird::{Bird, BirdView};
use crate::chance::random_in;
use crate::label::{decimal, decimal_text};
use crate::pipes::{
    best_passed, collides_with_any, gap_ints, gaps_ok, in_band, initial_pipes,
    lemma_best_passed, lemma_initial_pipes_ok, new_pipes, pipe_views, pipe_xs, pipes_ok,
    raise_score, scroll_pipes, scrolled_counter, scrolled_pipes, touches_any, Pipe, PipeView,
};
use crate::state::State;
use crate::tiles::{
    initial_tiles, lemma_initial_tiles_ok, new_tiles, scroll_tiles, scrolled_tiles, tile_views,
    tiles_ok, Tile,
};
use crate::units::{
    BIRD_SIZE, BIRD_X, GAP_HIGH, GAP_LOW, MIN_SCREEN, PIPE_COUNT, SCROLL_SPEED,
};

verus! {

/// The game over the integers.
pub struct GameView {
    pub tiles: Seq<Point>,
    pub pipes: Seq<PipeView>,
    pub bird: BirdView,
    pub state: State,
    pub score: int,
    pub current_inc: int,
}

impl GameView {
    /// The game as a run starts, with the openings of the pipes at the given heights.
    pub open spec fn initial(gaps: Seq<int>) -> GameView {
        GameView {
            tiles: initial_tiles(),
            pipes: initial_pipes(gaps),
            bird: BirdView::initial(),
            state: State::Idle,
            score: 0,
            current_inc: PIPE_COUNT as int,
        }
    }

    /// What holds of the game between any two routines: tiles, pipes and
    /// bird are in order, the bird is terminal in the dead state and in no
    /// other, and the score lies between 0 and the counter.
    pub open spec fn wf(self) -> bool {
        &&& tiles_ok(self.tiles)
        &&& pipes_ok(self.pipes, self.current_inc)
        &&& self.bird.wf()
        &&& (self.bird.terminal <==> self.state == State::Dead)
        &&& 0 <= self.score <= self.current_inc
    }

    /// Whether a press is listened to: before and during play, by a bird
    /// that is not terminal.
    pub open spec fn takes_press(self) -> bool {
        (self.state == State::Idle || self.state == State::Playing) && !self.bird.terminal
    }

    /// The game after the input was polled.
    pub open spec fn clicked(self, pressed: bool) -> GameView {
        if pressed && self.takes_press() {
            GameView { bird: self.bird.flapped(), state: State::Playing, ..self }
        } else {
            self
        }
    }

    /// Whether the bird is moved: during play and after a hit, until it is terminal.
    pub open spec fn bird_moves(self) -> bool {
        (self.state == State::Playing || self.state == State::Hit) && !self.bird.terminal
    }

    /// The game after the bird was moved through a frame of `dt` microseconds.
    pub open spec fn bird_moved(self, dt: int) -> GameView {
        if self.bird_moves() {
            GameView {
                bird: self.bird.advanced(dt),
                state: if self.bird.advanced(dt).terminal {
                    State::Dead
                } else {
                    self.state
                },
                ..self
            }
        } else {
            self
        }
    }

    /// The box of the bird.
    pub open spec fn bird_box(self) -> RectView {
        RectView {
            x: BIRD_X as int,
            y: self.bird.y,
            width: BIRD_SIZE as int,
            height: BIRD_SIZE as int,
        }
    }

    /// Whether the bird's box overlaps a half of any pipe.
    pub open spec fn bird_hits(self) -> bool {
        touches_any(self.bird_box(), self.pipes)
    }

    /// Whether a collision is found: only during play.
    pub open spec fn collides(self) -> bool {
        self.state == State::Playing && self.bird_hits()
    }

    /// The game after the check for collisions.
    pub open spec fn collided(self) -> GameView {
        if self.collides() {
            GameView { bird: self.bird.knocked(), state: State::Hit, ..self }
        } else {
            self
        }
    }

    /// The game after the world was scrolled through a frame of `dt`
    /// microseconds. Nothing scrolls outside play. `gaps` holds, for each
    /// pipe, the height of its opening should it come back in this frame.
    pub open spec fn scrolled(self, dt: int, gaps: Seq<int>) -> GameView {
        if self.state == State::Playing {
            GameView {
                tiles: scrolled_tiles(self.tiles, SCROLL_SPEED * dt),
                pipes: scrolled_pipes(self.pipes, SCROLL_SPEED * dt, gaps, self.current_inc),
                score: best_passed(
                    scrolled_pipes(self.pipes, SCROLL_SPEED * dt, gaps, self.current_inc),
                    self.score,
                ),
                current_inc: scrolled_counter(self.pipes, SCROLL_SPEED * dt, self.current_inc),
                ..self
            }
        } else {
            self
        }
    }
}

/// The game: tiles, pipes and bird, the state of the run, the score, and
/// the counter from which the pipes are numbered.
#[derive(Debug)]
pub struct Game {
    pipes: Vec<Pipe>,
    tiles: Vec<Tile>,
    bird: Bird,
    state: State,
    score: i32,
    current_inc: i32,
}

impl View for Game {
    type V = GameView;

    closed spec fn view(&self) -> GameView {
        GameView {
            tiles: tile_views(self.tiles@),
            pipes: pipe_views(self.pipes@),
            bird: self.bird@,
            state: self.state,
            score: self.score as int,
            current_inc: self.current_inc as int,
        }
    }
}

/// Tells whether a slice holds one height for each pipe, each within the band.
pub fn check_gaps(gaps: &[i32]) -> (ok: bool)
    ensures
        ok == gaps_ok(gap_ints(gaps@)),
{
    if gaps.len() != PIPE_COUNT {
        return false;
    }
    let mut i: usize = 0;
    while i < gaps.len()
        invariant
            i <= gaps.len(),
            gaps.len() == PIPE_COUNT,
            forall|j: int| 0 <= j < i ==> in_band(#[trigger] gap_ints(gaps@)[j]),
        decreases gaps.len() - i,
    {
        if gaps[i] < GAP_LOW || gaps[i] >= GAP_HIGH {
            assert(!in_band(gap_ints(gaps@)[i as int]));
            return false;
        }
        i = i + 1;
    }
    true
}

impl Game {
    /// Whether the game is in order.
    pub open spec fn wf(&self) -> bool {
        self@.wf()
    }

    /// Whether the world can be scrolled within machine range: during play
    /// the counter must have room for one more number for each pipe.
    pub open spec fn can_scroll(&self) -> bool {
        self@.state == State::Playing ==> self@.current_inc + PIPE_COUNT <= i32::MAX
    }

    /// Whether the bird can be moved within machine range: a bird that is
    /// moved must be far enough from the limits of speed and tilt.
    pub open spec fn can_move_bird(&self) -> bool {
        self@.bird_moves() ==> self@.bird.has_room()
    }

    /// Sets up a run with the openings of the pipes at the given heights.
    pub fn with_gaps(gaps: &[i32]) -> (game: Game)
        requires
            gaps_ok(gap_ints(gaps@)),
        ensures
            game@ == GameView::initial(gap_ints(gaps@)),
            game.wf(),
    {
        proof {
            lemma_initial_tiles_ok();
            lemma_initial_pipes_ok(gap_ints(gaps@));
        }
        Game {
            pipes: new_pipes(gaps),
            tiles: new_tiles(),
            bird: Bird::new(),
            state: State::Idle,
            score: 0,
            current_inc: PIPE_COUNT as i32,
        }
    }

    /// Sets up a run with the opening of each pipe at a height drawn by chance.
    pub fn setup() -> (game: Game)
        ensures
            game.wf(),
            exists|gaps: Seq<int>| gaps_ok(gaps) && game@ == GameView::initial(gaps),
    {
        let mut gaps: Vec<i32> = Vec::new();
        while gaps.len() < PIPE_COUNT
            invariant
                gaps.len() <= PIPE_COUNT,
                forall|j: int| 0 <= j < gaps.len() ==> GAP_LOW <= #[trigger] gaps[j] < GAP_HIGH,
            decreases PIPE_COUNT - gaps.len(),
        {
            let gap: i32 = random_in(GAP_LOW, GAP_HIGH);
            gaps.push(gap);
        }
        assert(gaps_ok(gap_ints(gaps@)));
        let game: Game = Game::with_gaps(gaps.as_slice());
        assert(gaps_ok(gap_ints(gaps@)) && game@ == GameView::initial(gap_ints(gaps@)));
        game
    }

    /// The state of the run.
    pub fn state(&self) -> (state: State)
        ensures
            state == self@.state,
    {
        self.state
    }

    /// The score.
    pub fn score(&self) -> (score: i32)
        ensures
            score == self@.score,
    {
        self.score
    }

    /// The number given to the pipe that came into the playfield last.
    pub fn current_inc(&self) -> (counter: i32)
        ensures
            counter == self@.current_inc,
    {
        self.current_inc
    }

    /// The bird.
    pub fn bird(&self) -> (bird: Bird)
        ensures
            bird@ == self@.bird,
    {
        self.bird
    }

    /// The pipes.
    pub fn pipes(&self) -> (pipes: &Vec<Pipe>)
        ensures
            pipe_views(pipes@) == self@.pipes,
    {
        &self.pipes
    }

    /// The tiles.
    pub fn tiles(&self) -> (tiles: &Vec<Tile>)
        ensures
            tile_views(tiles@) == self@.tiles,
    {
        &self.tiles
    }

    /// The score as the text of the label.
    pub fn score_text(&self) -> (text: String)
        ensures
            text@ == decimal(self@.score),
    {
        decimal_text(self.score)
    }

    /// Tells whether the world can be scrolled within machine range.
    pub fn has_room_to_scroll(&self) -> (ok: bool)
        ensures
            ok == self.can_scroll(),
    {
        match self.state {
            State::Playing => self.current_inc <= i32::MAX - PIPE_COUNT as i32,
            _ => true,
        }
    }

    /// Tells whether the bird can be moved within machine range.
    pub fn has_room_to_move_bird(&self) -> (ok: bool)
        ensures
            ok == self.can_move_bird(),
    {
        match self.state {
            State::Playing | State::Hit => self.bird.has_room(),
            _ => true,
        }
    }

    /// Polls the input: a press before or during play sends the bird
    /// upwards and starts play.
    pub fn mouse_click(&mut self, pressed: bool)
        requires
            old(self).wf(),
        ensures
            final(self)@ == old(self)@.clicked(pressed),
            final(self).wf(),
    {
        let listening: bool = match self.state {
            State::Idle | State::Playing => !self.bird.terminal,
            _ => false,
        };
        if listening && pressed {
            self.bird.flap();
            self.state = State::Playing;
        }
    }

    /// Moves the bird through a frame of `dt` microseconds, and ends the run
    /// when it reaches the ground.
    pub fn bird_movement(&mut self, dt: u32)
        requires
            old(self).wf(),
            old(self).can_move_bird(),
        ensures
            final(self)@ == old(self)@.bird_moved(dt as int),
            final(self).wf(),
    {
        let moving: bool = match self.state {
            State::Playing | State::Hit => !self.bird.terminal,
            _ => false,
        };
        if moving {
            self.bird.advance(dt);
            if self.bird.terminal {
                self.state = State::Dead;
            }
        }
    }

    /// Checks the bird against the pipes. During play, a bird that overlaps
    /// a half of a pipe is thrown downwards and the run goes on as hit. The
    /// result tells whether that happened.
    pub fn check_for_collisions(&mut self) -> (collision: bool)
        requires
            old(self).wf(),
        ensures
            final(self)@ == old(self)@.collided(),
            collision == old(self)@.collides(),
            final(self).wf(),
    {
        let playing: bool = match self.state {
            State::Playing => true,
            _ => false,
        };
        if playing {
            let body: Rect = Rect {
                x: BIRD_X,
                y: self.bird.y,
                width: BIRD_SIZE,
                height: BIRD_SIZE,
            };
            if collides_with_any(body, &self.pipes) {
                self.bird.knock();
                self.state = State::Hit;
                return true;
            }
        }
        false
    }

    /// Scrolls the world through a frame of `dt` microseconds and brings the
    /// score up to date. `gaps` holds, for each pipe, the height of its
    /// opening should it come back in this frame. The result tells whether
    /// the score has changed.
    pub fn sprite_movement_with(&mut self, dt: u32, gaps: &[i32]) -> (changed: bool)
        requires
            old(self).wf(),
            old(self).can_scroll(),
            gaps_ok(gap_ints(gaps@)),
        ensures
            final(self)@ == old(self)@.scrolled(dt as int, gap_ints(gaps@)),
            changed == (final(self)@.score != old(self)@.score),
            final(self).wf(),
    {
        let playing: bool = match self.state {
            State::Playing => true,
            _ => false,
        };
        if !playing {
            return false;
        }
        let d: i64 = SCROLL_SPEED * (dt as i64);
        scroll_tiles(&mut self.tiles, d);
        self.current_inc = scroll_pipes(&mut self.pipes, d, gaps, self.current_inc);
        let before: i32 = self.score;
        self.score = raise_score(&self.pipes, before);
        proof {
            lemma_best_passed(pipe_views(self.pipes@), before as int);
        }
        self.score != before
    }

    /// Scrolls the world through a frame of `dt` microseconds and brings the
    /// score up to date. The opening of each pipe that comes back is put at
    /// a height drawn by chance. The result tells whether the score has
    /// changed.
    pub fn sprite_movement(&mut self, dt: u32) -> (changed: bool)
        requires
            old(self).wf(),
            old(self).can_scroll(),
        ensures
            exists|gaps: Seq<int>|
                gaps_ok(gaps) && final(self)@ == old(self)@.scrolled(dt as int, gaps),
            changed == (final(self)@.score != old(self)@.score),
            final(self).wf(),
    {
        let gaps: Vec<i32> = self.draw_gaps(dt);
        let changed: bool = self.sprite_movement_with(dt, gaps.as_slice());
        assert(gaps_ok(gap_ints(gaps@)) && self@ == old(self)@.scrolled(
            dt as int,
            gap_ints(gaps@),
        ));
        changed
    }

    /// Draws a height for each pipe that comes back in a frame of `dt`
    /// microseconds; the others get a height that is never used.
    fn draw_gaps(&self, dt: u32) -> (gaps: Vec<i32>)
        requires
            self.wf(),
        ensures
            gaps_ok(gap_ints(gaps@)),
    {
        let playing: bool = match self.state {
            State::Playing => true,
            _ => false,
        };
        let d: i64 = SCROLL_SPEED * (dt as i64);
        let mut gaps: Vec<i32> = Vec::new();
        while gaps.len() < PIPE_COUNT
            invariant
                gaps.len() <= PIPE_COUNT,
                self.wf(),
                0 <= d <= 150 * u32::MAX,
                forall|j: int| 0 <= j < gaps.len() ==> GAP_LOW <= #[trigger] gaps[j] < GAP_HIGH,
            decreases PIPE_COUNT - gaps.len(),
        {
            let i: usize = gaps.len();
            assert(pipe_views(self.pipes@)[i as int] == self.pipes[i as int]@);
            assert(pipe_xs(pipe_views(self.pipes@))[i as int] == self.pipes[i as int]@.upper.x);
            if playing && self.pipes[i].upper.x - d < MIN_SCREEN {
                let gap: i32 = random_in(GAP_LOW, GAP_HIGH);
                gaps.push(gap);
            } else {
                gaps.push(GAP_LOW);
            }
        }
        assert(gaps_ok(gap_ints(gaps@)));
        gaps
    }
}

} // verus!
