use snake_core::direction::Direction;

#[test]
fn reversal_is_rejected() {
    let mut d = Direction::Right;
    d.apply_input(Direction::Left);
    assert_eq!(d, Direction::Right);
}

#[test]
fn perpendicular_turns_are_accepted() {
    let mut d = Direction::Right;
    d.apply_input(Direction::Up);
    assert_eq!(d, Direction::Up);
    let mut d2 = Direction::Right;
    d2.apply_input(Direction::Down);
    assert_eq!(d2, Direction::Down);
}

#[test]
fn same_direction_is_a_no_op_request() {
    let mut d = Direction::Right;
    d.apply_input(Direction::Right);
    assert_eq!(d, Direction::Right);
}

#[test]
fn every_opposite_pair_is_rejected() {
    let mut d = Direction::Left;
    d.apply_input(Direction::Right);
    assert_eq!(d, Direction::Left);
    let mut d = Direction::Up;
    d.apply_input(Direction::Down);
    assert_eq!(d, Direction::Up);
    let mut d = Direction::Down;
    d.apply_input(Direction::Up);
    assert_eq!(d, Direction::Down);
}

#[test]
fn default_heading_is_right() {
    assert_eq!(Direction::default(), Direction::Right);
}

#[test]
fn deltas_are_unit_steps() {
    assert_eq!(Direction::Right.to_delta(), (1, 0));
    assert_eq!(Direction::Left.to_delta(), (-1, 0));
    assert_eq!(Direction::Up.to_delta(), (0, 1));
    assert_eq!(Direction::Down.to_delta(), (0, -1));
}
