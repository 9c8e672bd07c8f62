use flappy::game::Game;
use flappy::state::State;

// The same rules over floating-point numbers, in pixels, degrees and seconds.
// The game computes in whole micro-units, so the two may differ by rounding
// only.

const GROUND_HEIGHT: f64 = 121.0;
const HALF_WIDTH_BACKGROUND: f64 = 736.0 / 2.0;
const HEIGHT_SCREEN: f64 = 576.0;
const DISTANCE_BETWEEN_UP_DOWN_PIPES: f64 = 160.0;
const HEIGHT_PIPE: f64 = 319.0;
const DISTANCE_X_BETWEEN_PIPE: f64 = 300.0;
const MIN_SCREEN: f64 = -552.0;
const BIRD_HEIGHT: f64 = 26.0;

struct FloatPipe {
    x: f64,
    upper_y: f64,
    below_y: f64,
    idx: i32,
}

struct FloatGame {
    tiles: Vec<(f64, f64)>,
    pipes: Vec<FloatPipe>,
    bird_y: f64,
    bird_tilt: f64,
    speed: f64,
    terminal: bool,
    state: i32,
    score: i32,
    current_inc: i32,
}

fn overlap(ax: f64, ay: f64, aw: f64, ah: f64, bx: f64, by: f64, bw: f64, bh: f64) -> bool {
    ax - aw / 2.0 < bx + bw / 2.0
        && ax + aw / 2.0 > bx - bw / 2.0
        && ay - ah / 2.0 < by + bh / 2.0
        && ay + ah / 2.0 > by - bh / 2.0
}

impl FloatGame {
    fn new(gaps: &[i32; 6]) -> FloatGame {
        let mut tiles = Vec::new();
        for x in 0..4 {
            let at = (x as f64 - 1.0) * HALF_WIDTH_BACKGROUND;
            tiles.push((at, 0.0));
            tiles.push((at, HEIGHT_SCREEN / 2.0 - GROUND_HEIGHT / 2.0));
            tiles.push((at, -(HEIGHT_SCREEN / 2.0 - GROUND_HEIGHT / 2.0)));
        }
        let mut pipes = Vec::new();
        let mut current_inc = 0;
        for x in 0..6 {
            let top = gaps[x] as f64;
            pipes.push(FloatPipe {
                x: (x as f64 + 1.0) * DISTANCE_X_BETWEEN_PIPE,
                below_y: top - HEIGHT_PIPE / 2.0,
                upper_y: top + DISTANCE_BETWEEN_UP_DOWN_PIPES + HEIGHT_PIPE / 2.0,
                idx: x as i32 + 1,
            });
            current_inc += 1;
        }
        FloatGame {
            tiles,
            pipes,
            bird_y: 0.0,
            bird_tilt: 0.0,
            speed: 200.0,
            terminal: false,
            state: 0,
            score: 0,
            current_inc,
        }
    }

    fn sprite_movement(&mut self, dt: f64, gaps: &[i32; 6]) {
        if self.state != 1 {
            return;
        }
        let mut max_tile = -1000.0;
        let mut max_pipe = -1000.0;
        for tile in self.tiles.iter_mut() {
            tile.0 -= 150.0 * dt;
            if tile.0 > max_tile {
                max_tile = tile.0;
            }
        }
        for pipe in self.pipes.iter_mut() {
            pipe.x -= 150.0 * dt;
            if pipe.x > max_pipe {
                max_pipe = pipe.x;
            }
        }
        for tile in self.tiles.iter_mut() {
            if tile.0 < MIN_SCREEN {
                tile.0 = max_tile + HALF_WIDTH_BACKGROUND;
            }
        }
        for (i, pipe) in self.pipes.iter_mut().enumerate() {
            if pipe.x < MIN_SCREEN {
                let top = gaps[i] as f64;
                pipe.x = max_pipe + DISTANCE_X_BETWEEN_PIPE;
                pipe.below_y = top - HEIGHT_PIPE / 2.0;
                pipe.upper_y = top + DISTANCE_BETWEEN_UP_DOWN_PIPES + HEIGHT_PIPE / 2.0;
                self.current_inc += 1;
                pipe.idx = self.current_inc;
            }
        }
        for pipe in self.pipes.iter() {
            if pipe.x < 0.0 && self.score < pipe.idx {
                self.score = pipe.idx;
            }
        }
    }

    fn mouse_click(&mut self, pressed: bool) {
        if (self.state == 0 || self.state == 1) && !self.terminal && pressed {
            self.speed = 200.0;
            self.bird_tilt = 60.0;
            self.state = 1;
        }
    }

    fn bird_movement(&mut self, dt: f64) {
        if (self.state == 1 || self.state == 2) && !self.terminal {
            self.speed += -5.0;
            self.bird_y += self.speed * dt;
            self.bird_tilt += -60.0 * dt;
            if self.bird_tilt <= -90.0 {
                self.bird_tilt = -90.0;
            }
            if self.bird_y + BIRD_HEIGHT / 2.0 >= HEIGHT_SCREEN / 2.0 - GROUND_HEIGHT {
                self.bird_y = HEIGHT_SCREEN / 2.0 - GROUND_HEIGHT - BIRD_HEIGHT / 2.0;
                self.speed = -3.0;
                self.bird_tilt += 60.0;
            }
            if self.bird_y - BIRD_HEIGHT / 2.0 <= -HEIGHT_SCREEN / 2.0 + GROUND_HEIGHT {
                self.terminal = true;
                self.state = 3;
            }
        }
    }

    fn check_for_collisions(&mut self) -> bool {
        if self.state != 1 {
            return false;
        }
        for pipe in self.pipes.iter() {
            if overlap(0.0, self.bird_y, 26.0, 26.0, pipe.x, pipe.upper_y, 54.0, 319.0)
                || overlap(0.0, self.bird_y, 26.0, 26.0, pipe.x, pipe.below_y, 54.0, 319.0)
            {
                self.speed = -300.0;
                self.bird_tilt = -90.0;
                self.state = 2;
                return true;
            }
        }
        false
    }
}

fn close(micro: i64, float: f64) -> bool {
    (micro as f64 / 1_000_000.0 - float).abs() < 0.001
}

fn agree(game: &Game, float: &FloatGame) {
    assert_eq!(game.state().code(), float.state);
    assert_eq!(game.score(), float.score);
    assert_eq!(game.current_inc(), float.current_inc);
    assert_eq!(game.bird().terminal, float.terminal);
    assert_eq!(game.bird().speed as f64, float.speed);
    assert!(close(game.bird().y, float.bird_y));
    assert!(close(game.bird().tilt, float.bird_tilt));
    for (tile, other) in game.tiles().iter().zip(float.tiles.iter()) {
        assert!(close(tile.x, other.0));
        assert!(close(tile.y, other.1));
    }
    for (pipe, other) in game.pipes().iter().zip(float.pipes.iter()) {
        assert_eq!(pipe.idx, other.idx);
        assert!(close(pipe.upper.x, other.x));
        assert!(close(pipe.below.x, other.x));
        assert!(close(pipe.upper.y, other.upper_y));
        assert!(close(pipe.below.y, other.below_y));
    }
}

/// A pattern of frames: how long each frame is, whether the player presses
/// in it, at which height a pipe that comes back gets its opening, and
/// whether the bird is checked against the pipes.
struct Play {
    frames: u32,
    dt_of: fn(u32) -> u32,
    press_at: fn(u32, i64) -> bool,
    gap_of: fn(u32, u32) -> i32,
    collisions: bool,
}

/// Runs both games through the same frames and presses and compares them
/// after every routine.
fn run_both(gaps: [i32; 6], play: Play) -> Game {
    let mut game = Game::with_gaps(&gaps);
    let mut float = FloatGame::new(&gaps);
    agree(&game, &float);
    for frame in 0..play.frames {
        let dt = (play.dt_of)(frame);
        let seconds = dt as f64 / 1_000_000.0;
        let fresh = [
            (play.gap_of)(frame, 0),
            (play.gap_of)(frame, 1),
            (play.gap_of)(frame, 2),
            (play.gap_of)(frame, 3),
            (play.gap_of)(frame, 4),
            (play.gap_of)(frame, 5),
        ];
        game.sprite_movement_with(dt, &fresh);
        float.sprite_movement(seconds, &fresh);
        agree(&game, &float);
        let pressed = (play.press_at)(frame, game.bird().y);
        game.mouse_click(pressed);
        float.mouse_click(pressed);
        agree(&game, &float);
        game.bird_movement(dt);
        float.bird_movement(seconds);
        agree(&game, &float);
        if play.collisions {
            assert_eq!(game.check_for_collisions(), float.check_for_collisions());
            agree(&game, &float);
        }
    }
    game
}

fn mixed_gap(frame: u32, pipe: u32) -> i32 {
    -100 + ((frame * 7 + pipe * 13) % 50) as i32
}

#[test]
fn steady_player_agrees_with_the_floating_point_rules() {
    // A player who presses whenever the bird sinks below a line inside the
    // openings keeps the bird in the air.
    let game = run_both(
        [-60; 6],
        Play {
            frames: 4000,
            dt_of: |frame| 16_000 + (frame * 37) % 1_500,
            press_at: |frame, y| frame == 0 || y < -20_000_000,
            gap_of: |_, _| -60,
            collisions: true,
        },
    );
    assert_eq!(game.state(), State::Playing);
    assert!(game.current_inc() > 20);
    assert!(game.score() > 20);
}

#[test]
fn idle_player_agrees_with_the_floating_point_rules() {
    let game = run_both(
        [-75; 6],
        Play {
            frames: 600,
            dt_of: |_| 16_667,
            press_at: |frame, _| frame == 10,
            gap_of: mixed_gap,
            collisions: true,
        },
    );
    assert_eq!(game.state(), State::Dead);
    assert_eq!(game.score(), 0);
}

#[test]
fn eager_player_agrees_with_the_floating_point_rules() {
    // A player who keeps pressing holds the bird at the ceiling until it
    // runs into the upper half of the first pipe, and falls from there.
    let game = run_both(
        [-51; 6],
        Play {
            frames: 2000,
            dt_of: |frame| 8_000 + (frame * 91) % 9_000,
            press_at: |_, _| true,
            gap_of: mixed_gap,
            collisions: true,
        },
    );
    assert_eq!(game.state(), State::Dead);
    assert_eq!(game.score(), 0);
}

#[test]
fn long_frames_agree_with_the_floating_point_rules() {
    // Frames of two to five seconds bring back several pipes at once.
    let game = run_both(
        [-99, -51, -75, -60, -88, -70],
        Play {
            frames: 300,
            dt_of: |frame| 1_900_000 + (frame * 104_729) % 3_000_000,
            press_at: |_, _| true,
            gap_of: mixed_gap,
            collisions: false,
        },
    );
    assert_eq!(game.state(), State::Playing);
    assert!(game.current_inc() > 100);
}
