use snake_engine::geometry::{
    next_coord_towards, next_orientation, Action, Coordinate, Orientation, BOARD_HEIGHT,
    BOARD_WIDTH, NB_CELLS,
};

const ORIENTATIONS: [Orientation; 4] =
    [Orientation::North, Orientation::East, Orientation::South, Orientation::West];
const ACTIONS: [Action; 3] = [Action::Left, Action::Front, Action::Right];

fn inverse(action: Action) -> Action {
    match action {
        Action::Left => Action::Right,
        Action::Front => Action::Front,
        Action::Right => Action::Left,
    }
}

#[test]
fn position_of_a_coordinate_is_x_plus_y_times_width() {
    assert_eq!(Coordinate { x: 0, y: 0 }.to_pos(), 0);
    assert_eq!(Coordinate { x: 5, y: 3 }.to_pos(), 5 + 3 * 32);
    assert_eq!(Coordinate { x: 31, y: 15 }.to_pos(), 511);
    assert_eq!(Coordinate { x: -1, y: 0 }.to_pos(), -1);
    assert_eq!(Coordinate { x: 0, y: 16 }.to_pos(), 512);
}

#[test]
fn coordinate_of_a_position_is_remainder_and_quotient() {
    assert_eq!(Coordinate::from_pos(0), Coordinate { x: 0, y: 0 });
    assert_eq!(Coordinate::from_pos(101), Coordinate { x: 5, y: 3 });
    assert_eq!(Coordinate::from_pos(511), Coordinate { x: 31, y: 15 });
    assert_eq!(Coordinate::from_pos(512), Coordinate { x: 0, y: 16 });
}

#[test]
fn coordinate_of_a_negative_position_rounds_towards_zero() {
    assert_eq!(Coordinate::from_pos(-1), Coordinate { x: -1, y: 0 });
    assert_eq!(Coordinate::from_pos(-33), Coordinate { x: -1, y: -1 });
    assert_eq!(Coordinate::from_pos(-64), Coordinate { x: 0, y: -2 });
}

#[test]
fn coordinates_and_positions_correspond_on_the_whole_board() {
    assert_eq!(NB_CELLS, BOARD_WIDTH * BOARD_HEIGHT);
    for y in 0..BOARD_HEIGHT {
        for x in 0..BOARD_WIDTH {
            let coord = Coordinate { x, y };
            let pos = coord.to_pos();
            assert!(pos >= 0 && pos < NB_CELLS);
            assert_eq!(Coordinate::from_pos(pos), coord);
        }
    }
    for pos in 0..NB_CELLS {
        let coord = Coordinate::from_pos(pos);
        assert!(!coord.is_out_of_bounds());
        assert_eq!(coord.to_pos(), pos);
    }
}

#[test]
fn out_of_bounds_is_told_on_each_side() {
    assert!(!Coordinate { x: 0, y: 0 }.is_out_of_bounds());
    assert!(!Coordinate { x: 31, y: 15 }.is_out_of_bounds());
    assert!(Coordinate { x: -1, y: 0 }.is_out_of_bounds());
    assert!(Coordinate { x: 32, y: 0 }.is_out_of_bounds());
    assert!(Coordinate { x: 0, y: -1 }.is_out_of_bounds());
    assert!(Coordinate { x: 0, y: 16 }.is_out_of_bounds());
}

#[test]
fn turning_follows_the_compass() {
    let (north, east, south, west) =
        (Orientation::North, Orientation::East, Orientation::South, Orientation::West);
    let (left, front, right) = (Action::Left, Action::Front, Action::Right);
    assert_eq!(next_orientation(&north, &left), west);
    assert_eq!(next_orientation(&north, &front), north);
    assert_eq!(next_orientation(&north, &right), east);
    assert_eq!(next_orientation(&east, &left), north);
    assert_eq!(next_orientation(&east, &front), east);
    assert_eq!(next_orientation(&east, &right), south);
    assert_eq!(next_orientation(&south, &left), east);
    assert_eq!(next_orientation(&south, &front), south);
    assert_eq!(next_orientation(&south, &right), west);
    assert_eq!(next_orientation(&west, &left), south);
    assert_eq!(next_orientation(&west, &front), west);
    assert_eq!(next_orientation(&west, &right), north);
}

#[test]
fn a_turn_and_its_inverse_give_the_orientation_back() {
    for orientation in ORIENTATIONS.iter() {
        for action in ACTIONS.iter() {
            let turned = next_orientation(orientation, action);
            assert_eq!(next_orientation(&turned, &inverse(*action)), *orientation);
        }
    }
}

#[test]
fn four_turns_to_the_same_side_give_the_orientation_back() {
    for orientation in ORIENTATIONS.iter() {
        for action in [Action::Left, Action::Right].iter() {
            let mut turned = *orientation;
            for _ in 0..4 {
                turned = next_orientation(&turned, action);
            }
            assert_eq!(turned, *orientation);
        }
    }
}

#[test]
fn a_step_moves_one_cell() {
    let from = Coordinate { x: 5, y: 5 };
    assert_eq!(next_coord_towards(&from, &Orientation::North), Some(Coordinate { x: 5, y: 4 }));
    assert_eq!(next_coord_towards(&from, &Orientation::East), Some(Coordinate { x: 6, y: 5 }));
    assert_eq!(next_coord_towards(&from, &Orientation::South), Some(Coordinate { x: 5, y: 6 }));
    assert_eq!(next_coord_towards(&from, &Orientation::West), Some(Coordinate { x: 4, y: 5 }));
}

#[test]
fn a_step_off_the_board_is_refused() {
    assert_eq!(next_coord_towards(&Coordinate { x: 0, y: 3 }, &Orientation::West), None);
    assert_eq!(next_coord_towards(&Coordinate { x: 31, y: 3 }, &Orientation::East), None);
    assert_eq!(next_coord_towards(&Coordinate { x: 7, y: 0 }, &Orientation::North), None);
    assert_eq!(next_coord_towards(&Coordinate { x: 7, y: 15 }, &Orientation::South), None);
    assert_eq!(
        next_coord_towards(&Coordinate { x: 0, y: 0 }, &Orientation::East),
        Some(Coordinate { x: 1, y: 0 })
    );
    assert_eq!(
        next_coord_towards(&Coordinate { x: 31, y: 15 }, &Orientation::North),
        Some(Coordinate { x: 31, y: 14 })
    );
}

#[test]
fn a_step_from_the_board_stays_on_the_board() {
    for pos in 0..NB_CELLS {
        let from = Coordinate::from_pos(pos);
        for orientation in ORIENTATIONS.iter() {
            match next_coord_towards(&from, orientation) {
                Some(next) => assert!(!next.is_out_of_bounds()),
                None => {}
            }
        }
    }
}
