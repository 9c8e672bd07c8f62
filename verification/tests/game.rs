use flappy::game::Game;
use flappy::state::State;

const GAPS: [i32; 6] = [-75; 6];

const PX: i64 = 1_000_000;

fn playing() -> Game {
    let mut game = Game::with_gaps(&GAPS);
    game.mouse_click(true);
    game
}

/// A game in play whose bird hangs 71.5 pixels below the middle of the
/// screen, lower than the top of every lower pipe half.
fn low_bird() -> Game {
    let mut game = playing();
    for _ in 0..50 {
        game.bird_movement(0);
    }
    assert_eq!(game.bird().speed, -50);
    game.bird_movement(1_300_000);
    assert_eq!(game.bird().speed, -55);
    assert_eq!(game.bird().y, -71_500_000);
    game
}

#[test]
fn first_press_starts_play() {
    let mut game = Game::with_gaps(&GAPS);
    assert_eq!(game.state(), State::Idle);
    game.mouse_click(false);
    assert_eq!(game.state(), State::Idle);
    game.mouse_click(true);
    assert_eq!(game.state(), State::Playing);
    assert_eq!(game.bird().speed, 200);
    assert_eq!(game.bird().tilt, 60_000_000);
    assert_eq!(game.bird().y, 0);
}

#[test]
fn bird_does_not_move_before_the_first_press() {
    let mut game = Game::with_gaps(&GAPS);
    game.bird_movement(1_000_000);
    assert_eq!(game.bird().y, 0);
    assert_eq!(game.bird().speed, 200);
    assert_eq!(game.bird().tilt, 0);
    assert_eq!(game.state(), State::Idle);
    assert!(!game.check_for_collisions());
    assert_eq!(game.state(), State::Idle);
}

#[test]
fn press_during_play_sends_the_bird_up_again() {
    let mut game = playing();
    for _ in 0..10 {
        game.bird_movement(16_667);
    }
    assert_eq!(game.bird().speed, 150);
    game.mouse_click(true);
    assert_eq!(game.bird().speed, 200);
    assert_eq!(game.bird().tilt, 60_000_000);
    assert_eq!(game.state(), State::Playing);
}

#[test]
fn bird_at_the_ceiling_is_held_and_slowed() {
    let mut game = playing();
    game.bird_movement(1_000_000);
    assert_eq!(game.bird().y, (576 / 2 - 121 - 13) * PX);
    assert_eq!(game.bird().speed, -3);
    assert_eq!(game.state(), State::Playing);
    // The next frame starts from the small downward speed.
    game.bird_movement(1_000_000);
    assert_eq!(game.bird().speed, -8);
    assert_eq!(game.bird().y, (154 - 8) * PX);
}

#[test]
fn bird_that_falls_to_the_ground_ends_the_run() {
    let mut game = playing();
    let mut frames = 0;
    while game.state() == State::Playing {
        game.bird_movement(16_667);
        frames += 1;
        assert!(frames < 10_000);
    }
    assert_eq!(game.state(), State::Dead);
    assert!(game.bird().terminal);
    assert!(game.bird().y - 13 * PX <= -167 * PX);
}

#[test]
fn dead_bird_is_left_alone() {
    let mut game = playing();
    while game.state() != State::Dead {
        game.bird_movement(16_667);
    }
    let bird = game.bird();
    let score = game.score();
    let tiles = game.tiles().clone();
    let pipes = game.pipes().clone();
    for _ in 0..10 {
        game.mouse_click(true);
        game.bird_movement(16_667);
        assert!(!game.check_for_collisions());
        assert!(!game.sprite_movement_with(16_667, &GAPS));
        assert!(!game.sprite_movement(16_667));
        assert_eq!(game.bird(), bird);
        assert_eq!(game.state(), State::Dead);
        assert_eq!(game.score(), score);
        assert_eq!(game.tiles(), &tiles);
        assert_eq!(game.pipes(), &pipes);
    }
    assert!(game.has_room_to_move_bird());
    assert!(game.has_room_to_scroll());
}

#[test]
fn bird_in_the_opening_passes() {
    let mut game = playing();
    // 280 pixels: the first pipe stands 20 pixels right of the bird.
    game.sprite_movement_with(1_866_667, &GAPS);
    assert_eq!(game.pipes()[0].upper.x, 300 * PX - 150 * 1_866_667);
    assert!(!game.check_for_collisions());
    assert_eq!(game.state(), State::Playing);
    assert_eq!(game.bird().speed, 200);
}

#[test]
fn bird_below_the_opening_hits_the_lower_half() {
    let mut game = low_bird();
    assert!(!game.check_for_collisions());
    game.sprite_movement_with(1_866_667, &GAPS);
    assert!(game.check_for_collisions());
    assert_eq!(game.state(), State::Hit);
    assert_eq!(game.bird().speed, -300);
    assert_eq!(game.bird().tilt, -90_000_000);
    assert_eq!(game.bird().y, -71_500_000);
    assert!(!game.bird().terminal);
}

#[test]
fn bird_above_the_opening_hits_the_upper_half() {
    let mut game = playing();
    // 195 pixels per second for half a second: 97.5 pixels up, the top of
    // the box at 110.5; the upper half begins at 85.
    game.bird_movement(500_000);
    assert_eq!(game.bird().y, 97_500_000);
    game.sprite_movement_with(1_866_667, &GAPS);
    assert!(game.check_for_collisions());
    assert_eq!(game.state(), State::Hit);
}

#[test]
fn boxes_that_only_touch_do_not_collide() {
    let mut game = low_bird();
    // 260 pixels: the pipe's left edge at 40 - 27 = 13, the bird's right edge.
    game.sprite_movement_with(1_733_333, &GAPS);
    game.sprite_movement_with(1, &GAPS);
    assert_eq!(game.pipes()[0].upper.x, 40 * PX - 100);
    assert!(game.check_for_collisions());
    let mut game = low_bird();
    game.sprite_movement_with(1_733_333, &GAPS);
    assert_eq!(game.pipes()[0].upper.x, 40 * PX + 50);
    assert!(!game.check_for_collisions());
}

#[test]
fn collision_is_found_once() {
    let mut game = low_bird();
    game.sprite_movement_with(1_866_667, &GAPS);
    let mut found = 0;
    for _ in 0..200 {
        if game.check_for_collisions() {
            found += 1;
        }
        game.mouse_click(true);
        game.sprite_movement_with(16_667, &GAPS);
        if game.has_room_to_move_bird() {
            game.bird_movement(16_667);
        }
    }
    assert_eq!(found, 1);
    assert_eq!(game.state(), State::Dead);
}

#[test]
fn hit_bird_falls_but_the_world_stands_still() {
    let mut game = low_bird();
    game.sprite_movement_with(1_866_667, &GAPS);
    assert!(game.check_for_collisions());
    let tiles = game.tiles().clone();
    let pipes = game.pipes().clone();
    game.mouse_click(true);
    assert_eq!(game.bird().speed, -300);
    assert_eq!(game.state(), State::Hit);
    assert!(!game.sprite_movement_with(1_000_000, &GAPS));
    assert_eq!(game.tiles(), &tiles);
    assert_eq!(game.pipes(), &pipes);
    game.bird_movement(100_000);
    assert_eq!(game.bird().speed, -305);
    assert_eq!(game.bird().y, -71_500_000 - 30_500_000);
    assert_eq!(game.bird().tilt, -90_000_000);
    assert_eq!(game.state(), State::Hit);
    game.bird_movement(1_000_000);
    assert_eq!(game.state(), State::Dead);
    assert!(game.bird().terminal);
}

#[test]
fn state_only_moves_forward() {
    let mut game = Game::with_gaps(&GAPS);
    let mut last = game.state().code();
    for frame in 0..3000u32 {
        game.sprite_movement_with(16_667, &GAPS);
        game.mouse_click(frame % 40 == 0 && frame < 400);
        game.bird_movement(16_667);
        game.check_for_collisions();
        let code = game.state().code();
        assert!(code >= last);
        last = code;
    }
    assert_eq!(last, 3);
}

#[test]
fn label_shows_the_score() {
    let mut game = playing();
    assert_eq!(game.score_text(), "0");
    game.sprite_movement_with(2_000_001, &GAPS);
    assert_eq!(game.score(), 1);
    assert_eq!(game.score_text(), "1");
    game.sprite_movement_with(u32::MAX, &GAPS);
    assert_eq!(game.score(), 12);
    assert_eq!(game.score_text(), "12");
}

#[test]
fn room_to_move_the_bird() {
    let game = Game::with_gaps(&GAPS);
    assert!(game.has_room_to_move_bird());
    let mut game = playing();
    assert!(game.has_room_to_move_bird());
    game.bird_movement(16_667);
    assert!(game.has_room_to_move_bird());
}
