use snake_engine::board::{Cell, GameBoard};
use snake_engine::geometry::{Action, Coordinate, Orientation, NB_CELLS};

fn count_free(board: &GameBoard) -> i32 {
    let mut count = 0;
    for pos in 0..NB_CELLS {
        match board.get_tile_at_pos(&pos) {
            Cell::Empty | Cell::Food => count += 1,
            _ => {}
        }
    }
    count
}

fn snapshot(board: &GameBoard) -> Vec<Cell> {
    (0..NB_CELLS).map(|pos| board.get_tile_at_pos(&pos)).collect()
}

#[test]
fn a_new_board_is_empty() {
    let board = GameBoard::new();
    for pos in 0..NB_CELLS {
        assert_eq!(board.get_tile_at_pos(&pos), Cell::Empty);
    }
    assert_eq!(board.nb_free_cells(), 512);
    assert_eq!(board.nb_alive_snakes(), 0);
}

#[test]
fn a_tile_that_was_set_is_read_back() {
    let mut board = GameBoard::new();
    board.set_tile_at_pos(40, Cell::Obstacle);
    board.set_tile_at_coord(&Coordinate { x: 3, y: 2 }, Cell::SnakeHead(7));
    assert_eq!(board.get_tile_at_pos(&40), Cell::Obstacle);
    assert_eq!(board.get_tile_at_coord(&Coordinate { x: 8, y: 1 }), Cell::Obstacle);
    assert_eq!(board.get_tile_at_pos(&(3 + 2 * 32)), Cell::SnakeHead(7));
    assert_eq!(board.get_tile_at_pos(&41), Cell::Empty);
}

#[test]
fn beyond_the_board_is_wall() {
    let board = GameBoard::new();
    assert_eq!(board.get_tile_at_coord(&Coordinate { x: -1, y: 0 }), Cell::Wall);
    assert_eq!(board.get_tile_at_coord(&Coordinate { x: 32, y: 0 }), Cell::Wall);
    assert_eq!(board.get_tile_at_coord(&Coordinate { x: 0, y: -1 }), Cell::Wall);
    assert_eq!(board.get_tile_at_coord(&Coordinate { x: 0, y: 16 }), Cell::Wall);
    assert_eq!(board.get_tile_at_pos(&-1), Cell::Wall);
    assert_eq!(board.get_tile_at_pos(&512), Cell::Wall);
}

#[test]
fn free_means_empty_or_food() {
    let mut board = GameBoard::new();
    board.set_tile_at_pos(1, Cell::Food);
    board.set_tile_at_pos(2, Cell::Obstacle);
    board.set_tile_at_pos(3, Cell::SnakeBody(0));
    board.set_tile_at_pos(4, Cell::SnakeTail(0));
    board.set_tile_at_pos(5, Cell::SnakeHead(0));
    assert!(board.is_pos_free_or_food(&0));
    assert!(board.is_pos_free_or_food(&1));
    assert!(!board.is_pos_free_or_food(&2));
    assert!(!board.is_pos_free_or_food(&3));
    assert!(!board.is_pos_free_or_food(&4));
    assert!(!board.is_pos_free_or_food(&5));
    assert!(!board.is_pos_free_or_food(&-7));
    assert!(board.is_coord_free_or_food(&Coordinate { x: 1, y: 0 }));
    assert!(!board.is_coord_free_or_food(&Coordinate { x: 2, y: 0 }));
    assert!(!board.is_coord_free_or_food(&Coordinate { x: 32, y: 0 }));
}

#[test]
fn a_move_off_the_board_is_suicide() {
    let board = GameBoard::new();
    let corner = Coordinate { x: 0, y: 0 };
    assert!(board.is_suicide_moves(&corner, &Orientation::North, &Action::Front));
    assert!(board.is_suicide_moves(&corner, &Orientation::North, &Action::Left));
    assert!(!board.is_suicide_moves(&corner, &Orientation::North, &Action::Right));
}

#[test]
fn a_move_onto_an_occupied_cell_is_suicide() {
    let mut board = GameBoard::new();
    let from = Coordinate { x: 5, y: 5 };
    board.set_tile_at_coord(&Coordinate { x: 5, y: 4 }, Cell::Obstacle);
    board.set_tile_at_coord(&Coordinate { x: 4, y: 5 }, Cell::Food);
    board.set_tile_at_coord(&Coordinate { x: 6, y: 5 }, Cell::SnakeTail(3));
    assert!(board.is_suicide_moves(&from, &Orientation::North, &Action::Front));
    assert!(!board.is_suicide_moves(&from, &Orientation::North, &Action::Left));
    assert!(board.is_suicide_moves(&from, &Orientation::North, &Action::Right));
}

#[test]
fn safe_moves_come_in_the_order_left_front_right() {
    let mut board = GameBoard::new();
    let from = Coordinate { x: 5, y: 5 };
    assert_eq!(
        board.get_non_suicide_moves(&from, &Orientation::East),
        vec![Action::Left, Action::Front, Action::Right]
    );
    board.set_tile_at_coord(&Coordinate { x: 6, y: 5 }, Cell::Obstacle);
    assert_eq!(
        board.get_non_suicide_moves(&from, &Orientation::East),
        vec![Action::Left, Action::Right]
    );
    board.set_tile_at_coord(&Coordinate { x: 5, y: 4 }, Cell::SnakeBody(1));
    assert_eq!(board.get_non_suicide_moves(&from, &Orientation::East), vec![Action::Right]);
    board.set_tile_at_coord(&Coordinate { x: 5, y: 6 }, Cell::SnakeHead(1));
    assert_eq!(board.get_non_suicide_moves(&from, &Orientation::East), Vec::<Action>::new());
}

#[test]
fn safe_moves_in_a_corner() {
    let board = GameBoard::new();
    assert_eq!(
        board.get_non_suicide_moves(&Coordinate { x: 31, y: 15 }, &Orientation::South),
        vec![Action::Right]
    );
    assert_eq!(
        board.get_non_suicide_moves(&Coordinate { x: 31, y: 15 }, &Orientation::North),
        vec![Action::Left, Action::Front]
    );
}

#[test]
fn an_obstacle_covers_its_square_and_is_taken_off_the_counter() {
    let mut board = GameBoard::new();
    board.place_obstacle(3, 4, 2);
    for y in 0..16 {
        for x in 0..32 {
            let expected = if (3..5).contains(&x) && (4..6).contains(&y) {
                Cell::Obstacle
            } else {
                Cell::Empty
            };
            assert_eq!(board.get_tile_at_coord(&Coordinate { x, y }), expected);
        }
    }
    assert_eq!(board.nb_free_cells(), 512 - 4);
}

#[test]
fn overlapping_obstacles_are_counted_twice_until_the_recount() {
    let mut board = GameBoard::new();
    board.place_obstacle(0, 0, 2);
    board.place_obstacle(1, 1, 2);
    assert_eq!(board.nb_free_cells(), 512 - 8);
    board.recount_free_cells();
    assert_eq!(board.nb_free_cells(), 512 - 7);
}

#[test]
fn random_obstacles_stay_in_their_limits() {
    for _ in 0..50 {
        let mut board = GameBoard::new();
        board.add_random_obstacles(5, 2);
        let free = count_free(&board);
        // Obstacles may overlap, so that fewer cells are taken than counted.
        assert!(free >= 512 - 20 && free <= 512 - 1);
        assert!(board.nb_free_cells() >= 512 - 20 && board.nb_free_cells() <= 512 - 5);
        assert!(board.nb_free_cells() <= free);
        for pos in 0..NB_CELLS {
            let cell = board.get_tile_at_pos(&pos);
            assert!(cell == Cell::Empty || cell == Cell::Obstacle);
        }
        // An obstacle never reaches the last column or the last row.
        for y in 0..16 {
            assert_eq!(board.get_tile_at_coord(&Coordinate { x: 31, y }), Cell::Empty);
        }
        for x in 0..32 {
            assert_eq!(board.get_tile_at_coord(&Coordinate { x, y: 15 }), Cell::Empty);
        }
    }
}

#[test]
fn the_recount_counts_empty_and_food_cells() {
    let mut board = GameBoard::new();
    board.set_tile_at_pos(0, Cell::Food);
    board.set_tile_at_pos(1, Cell::Obstacle);
    board.set_tile_at_pos(2, Cell::SnakeHead(0));
    board.set_tile_at_pos(3, Cell::SnakeBody(0));
    board.set_tile_at_pos(4, Cell::SnakeTail(0));
    assert_eq!(board.nb_free_cells(), 512);
    board.recount_free_cells();
    assert_eq!(board.nb_free_cells(), 508);
    assert_eq!(board.get_tile_at_pos(&0), Cell::Food);
}

#[test]
fn food_grows_on_a_free_cell_only() {
    let mut board = GameBoard::new();
    board.set_tile_at_pos(10, Cell::Obstacle);
    board.set_tile_at_pos(11, Cell::SnakeHead(2));
    board.set_tile_at_pos(12, Cell::SnakeBody(2));
    board.set_tile_at_pos(13, Cell::SnakeTail(2));
    board.grow_food_at(9);
    board.grow_food_at(10);
    board.grow_food_at(11);
    board.grow_food_at(12);
    board.grow_food_at(13);
    board.grow_food_at(-1);
    board.grow_food_at(512);
    assert_eq!(board.get_tile_at_pos(&9), Cell::Food);
    assert_eq!(board.get_tile_at_pos(&10), Cell::Obstacle);
    assert_eq!(board.get_tile_at_pos(&11), Cell::SnakeHead(2));
    assert_eq!(board.get_tile_at_pos(&12), Cell::SnakeBody(2));
    assert_eq!(board.get_tile_at_pos(&13), Cell::SnakeTail(2));
}

#[test]
fn growing_food_twice_is_growing_it_once() {
    let mut board = GameBoard::new();
    board.set_tile_at_pos(10, Cell::Obstacle);
    board.grow_food_at(9);
    board.grow_food_at(10);
    let once = snapshot(&board);
    board.grow_food_at(9);
    board.grow_food_at(10);
    assert_eq!(snapshot(&board), once);
}

#[test]
fn random_food_never_touches_an_occupied_cell() {
    let mut board = GameBoard::new();
    for pos in 0..NB_CELLS {
        let cell = match pos % 4 {
            0 => Cell::Obstacle,
            1 => Cell::SnakeBody(1),
            2 => Cell::SnakeHead(1),
            _ => Cell::Empty,
        };
        board.set_tile_at_pos(pos, cell);
    }
    let before = snapshot(&board);
    let free_before = count_free(&board);
    for _ in 0..5_000 {
        board.update_food();
    }
    let mut food = 0;
    for pos in 0..NB_CELLS {
        let cell = board.get_tile_at_pos(&pos);
        if before[pos as usize] == Cell::Empty {
            assert!(cell == Cell::Empty || cell == Cell::Food);
            if cell == Cell::Food {
                food += 1;
            }
        } else {
            assert_eq!(cell, before[pos as usize]);
        }
    }
    assert!(food > 0);
    assert_eq!(count_free(&board), free_before);
}

#[test]
fn at_most_one_cell_gets_food_in_a_tick() {
    for _ in 0..500 {
        let mut board = GameBoard::new();
        board.update();
        let mut food = 0;
        for pos in 0..NB_CELLS {
            if board.get_tile_at_pos(&pos) == Cell::Food {
                food += 1;
            }
        }
        assert!(food <= 1);
        assert_eq!(board.nb_free_cells(), 512);
    }
}

#[test]
fn the_place_rolled_for_food_is_on_the_board() {
    let mut board = GameBoard::new();
    let mut rolled = 0;
    for _ in 0..5_000 {
        match board.roll_food() {
            Some(pos) => {
                assert!(pos >= 0 && pos < NB_CELLS);
                rolled += 1;
            }
            None => {}
        }
    }
    // One roll in ten on average.
    assert!(rolled > 200 && rolled < 1_000);
}

#[test]
fn the_count_of_living_snakes_is_kept() {
    let mut board = GameBoard::new();
    board.set_nb_alive_snakes(3);
    assert_eq!(board.nb_alive_snakes(), 3);
    assert_eq!(board.nb_free_cells(), 512);
}

#[test]
fn food_is_due_on_one_roll_in_ten() {
    let mut due = 0;
    for roll in 0..100 {
        if GameBoard::is_food_due(roll) {
            assert!(roll < 10);
            due += 1;
        }
    }
    assert_eq!(due, 10);
    assert!(GameBoard::is_food_due(9));
    assert!(!GameBoard::is_food_due(10));
}
