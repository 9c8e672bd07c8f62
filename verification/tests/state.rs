use flappy::state::State;

#[test]
fn states_are_numbered_in_order() {
    assert_eq!(State::Idle.code(), 0);
    assert_eq!(State::Playing.code(), 1);
    assert_eq!(State::Hit.code(), 2);
    assert_eq!(State::Dead.code(), 3);
}
