use flappy::animation::AnimationIndices;

#[test]
fn animation_runs_through_the_frames_and_starts_over() {
    let frames = AnimationIndices { first: 0, last: 2 };
    assert_eq!(frames.next(0), 1);
    assert_eq!(frames.next(1), 2);
    assert_eq!(frames.next(2), 0);
}

#[test]
fn frame_past_the_last_steps_on() {
    let frames = AnimationIndices { first: 3, last: 5 };
    assert_eq!(frames.next(7), 8);
    assert_eq!(frames.next(5), 3);
    assert_eq!(frames.next(0), 1);
}

#[test]
fn last_frame_at_the_end_of_the_range_wraps() {
    let frames = AnimationIndices { first: 1, last: usize::MAX };
    assert_eq!(frames.next(usize::MAX), 1);
    assert_eq!(frames.next(usize::MAX - 1), usize::MAX);
}
