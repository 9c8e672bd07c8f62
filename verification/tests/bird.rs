use flappy::bird::Bird;
use flappy::units::{
    CEILING_LINE, CEILING_SPEED, FLAP_SPEED, FLAP_TILT, GRAVITY, GROUND_LINE, HALF_BIRD,
    KNOCKBACK_SPEED, MIN_TILT, SPEED_FLOOR, TILT_LIMIT, TILT_RATE,
};

#[test]
fn new_bird_is_level_at_mid_height() {
    let bird = Bird::new();
    assert_eq!(bird.y, 0);
    assert_eq!(bird.tilt, 0);
    assert_eq!(bird.speed, 200);
    assert_eq!(bird.acc, -5);
    assert_eq!(bird.acc_rotation, -60);
    assert!(!bird.terminal);
}

#[test]
fn constants_of_the_bird() {
    assert_eq!(FLAP_SPEED, 200);
    assert_eq!(GRAVITY, -5);
    assert_eq!(CEILING_SPEED, -3);
    assert_eq!(KNOCKBACK_SPEED, -300);
    assert_eq!(TILT_RATE, -60);
    assert_eq!(FLAP_TILT, 60_000_000);
    assert_eq!(MIN_TILT, -90_000_000);
    assert_eq!(CEILING_LINE, 576_000_000 / 2 - 121_000_000);
    assert_eq!(GROUND_LINE, -576_000_000 / 2 + 121_000_000);
    assert_eq!(HALF_BIRD, 26_000_000 / 2);
}

#[test]
fn one_frame_adds_gravity_before_it_moves() {
    let mut bird = Bird::new();
    bird.advance(100_000);
    // 195 pixels per second for a tenth of a second.
    assert_eq!(bird.speed, 195);
    assert_eq!(bird.y, 19_500_000);
    // 60 degrees per second downwards for a tenth of a second.
    assert_eq!(bird.tilt, -6_000_000);
    assert!(!bird.terminal);
}

#[test]
fn frame_of_no_length_only_adds_gravity() {
    let mut bird = Bird::new();
    bird.advance(0);
    assert_eq!(bird.speed, 195);
    assert_eq!(bird.y, 0);
    assert_eq!(bird.tilt, 0);
}

#[test]
fn second_frame_builds_on_the_first() {
    let mut bird = Bird::new();
    bird.advance(16_667);
    bird.advance(16_667);
    assert_eq!(bird.speed, 190);
    assert_eq!(bird.y, 195 * 16_667 + 190 * 16_667);
    assert_eq!(bird.tilt, -2 * 60 * 16_667);
}

#[test]
fn flap_sets_speed_and_tilt() {
    let mut bird = Bird::new();
    bird.advance(50_000);
    bird.advance(50_000);
    bird.flap();
    assert_eq!(bird.speed, 200);
    assert_eq!(bird.tilt, 60_000_000);
    assert_eq!(bird.y, 195 * 50_000 + 190 * 50_000);
}

#[test]
fn knock_throws_the_bird_down() {
    let mut bird = Bird::new();
    bird.knock();
    assert_eq!(bird.speed, -300);
    assert_eq!(bird.tilt, -90_000_000);
    assert_eq!(bird.y, 0);
    assert!(!bird.terminal);
}

#[test]
fn bird_from_mid_height_is_held_under_the_ceiling() {
    // From height 0 the bird rises at 195 pixels per second; after one second
    // its box would be far above the ceiling.
    let mut bird = Bird::new();
    bird.advance(1_000_000);
    assert_eq!(bird.y, CEILING_LINE - HALF_BIRD);
    assert_eq!(bird.y, 167_000_000 - 13_000_000);
    assert_eq!(bird.speed, -3);
    // One second of tilting takes the bird from 0 to -60 degrees, and the
    // ceiling turns it up by 60.
    assert_eq!(bird.tilt, 0);
    assert!(!bird.terminal);
}

#[test]
fn bird_reaches_the_ceiling_over_many_frames() {
    let mut bird = Bird::new();
    let mut frames = 0;
    while bird.speed != CEILING_SPEED {
        bird.flap();
        bird.advance(16_667);
        frames += 1;
        assert!(frames < 1000);
        assert!(bird.y + HALF_BIRD <= CEILING_LINE);
    }
    assert_eq!(bird.y, 154_000_000);
    assert_eq!(bird.speed, -3);
    // 154 pixels at 195 pixels per second and 16.667 ms a frame.
    assert_eq!(frames, 48);
}

#[test]
fn box_that_just_touches_the_ceiling_is_held() {
    let mut bird = Bird::new();
    // 195 * dt == 154_000_000 has no whole solution; take the frame after
    // which the box lies exactly on the line instead: 154 = 195 * a + 190 * b.
    bird.advance(400_000);
    assert_eq!(bird.y, 78_000_000);
    bird.advance(400_000);
    assert_eq!(bird.y, 78_000_000 + 76_000_000);
    assert_eq!(bird.speed, -3);
    assert_eq!(bird.tilt, -48_000_000 + 60_000_000);
}

#[test]
fn tilt_stops_at_the_steepest() {
    let mut bird = Bird::new();
    bird.knock();
    bird.advance(10_000);
    assert_eq!(bird.tilt, -90_000_000);
    let mut other = Bird::new();
    other.speed = -100;
    other.advance(2_000_000);
    // -120 degrees would be steeper than the steepest tilt.
    assert_eq!(other.tilt, -90_000_000);
}

#[test]
fn bird_that_reaches_the_ground_is_terminal() {
    let mut bird = Bird::new();
    bird.knock();
    // -305 pixels per second for one second, from height 0.
    bird.advance(1_000_000);
    assert_eq!(bird.speed, -305);
    assert_eq!(bird.y, -305_000_000);
    assert!(bird.terminal);
}

#[test]
fn box_that_just_touches_the_ground_is_terminal() {
    let mut bird = Bird::new();
    bird.speed = -149;
    bird.advance(1_000_000);
    assert_eq!(bird.y, -154_000_000);
    assert_eq!(bird.y - HALF_BIRD, GROUND_LINE);
    assert!(bird.terminal);
    let mut other = Bird::new();
    other.speed = -149;
    other.advance(999_999);
    assert_eq!(other.y, -153_999_846);
    assert!(!other.terminal);
}

#[test]
fn room_of_the_bird() {
    let mut bird = Bird::new();
    assert!(bird.has_room());
    bird.speed = SPEED_FLOOR;
    assert!(bird.has_room());
    bird.speed = SPEED_FLOOR - 1;
    assert!(!bird.has_room());
    bird.speed = 0;
    bird.tilt = TILT_LIMIT;
    assert!(bird.has_room());
    bird.tilt = TILT_LIMIT + 1;
    assert!(!bird.has_room());
}

#[test]
fn longest_frame_at_the_lowest_speed_stays_in_range() {
    let mut bird = Bird::new();
    bird.speed = SPEED_FLOOR;
    bird.advance(u32::MAX);
    assert_eq!(bird.speed, SPEED_FLOOR - 5);
    assert_eq!(bird.y, (SPEED_FLOOR - 5) * (u32::MAX as i64));
    assert!(bird.terminal);
}

#[test]
fn terminal_bird_is_never_changed() {
    let mut bird = Bird::new();
    bird.knock();
    bird.advance(1_000_000);
    assert!(bird.terminal);
    let before = bird;
    bird.flap();
    assert_eq!(bird, before);
    bird.knock();
    assert_eq!(bird, before);
    bird.advance(16_667);
    assert_eq!(bird, before);
    bird.advance(u32::MAX);
    assert_eq!(bird, before);
    assert!(bird.has_room());
}
