use gaji::Direction;

fn pair(d: Direction) -> (i8, i8) {
    (d.dr(), d.dc())
}

#[test]
fn the_four_directions_are_unit_steps() {
    assert_eq!(pair(Direction::Right), (0, 1));
    assert_eq!(pair(Direction::Up), (-1, 0));
    assert_eq!(pair(Direction::Left), (0, -1));
    assert_eq!(pair(Direction::Down), (1, 0));
}

#[test]
fn left_turns_go_right_up_left_down_and_round() {
    let start = Direction::Right;
    let first = start.turn_left();
    assert_eq!(pair(first), (-1, 0));
    let second = first.turn_left();
    assert_eq!(pair(second), (0, -1));
    let third = second.turn_left();
    assert_eq!(pair(third), (1, 0));
    let fourth = third.turn_left();
    assert_eq!(pair(fourth), (0, 1));
    assert_eq!(fourth, start);
}

#[test]
fn a_left_turn_takes_dr_dc_to_minus_dc_dr() {
    for d in [Direction::Right, Direction::Up, Direction::Left, Direction::Down] {
        let (dr, dc) = pair(d);
        assert_eq!(pair(d.turn_left()), (-dc, dr));
        assert_eq!(pair(d.turn_right()), (dc, -dr));
    }
}

#[test]
fn right_turns_go_the_other_way_round() {
    assert_eq!(Direction::Right.turn_right(), Direction::Down);
    assert_eq!(Direction::Down.turn_right(), Direction::Left);
    assert_eq!(Direction::Left.turn_right(), Direction::Up);
    assert_eq!(Direction::Up.turn_right(), Direction::Right);
    for d in [Direction::Right, Direction::Up, Direction::Left, Direction::Down] {
        assert_eq!(d.turn_left().turn_right(), d);
        assert_eq!(d.turn_right().turn_left(), d);
        assert_eq!(d.turn_right().turn_right().turn_right().turn_right(), d);
    }
}
