use snake_engine::board::{Cell, GameBoard};
use snake_engine::geometry::{Action, Coordinate, Orientation, Position};
use snake_engine::snake::{Snake, GROWTH_RATE};

fn pos(x: i32, y: i32) -> Position {
    Coordinate { x, y }.to_pos()
}

fn body(snake: &Snake) -> Vec<Position> {
    snake.state.positions.iter().cloned().collect()
}

/// A snake with its head at `(x, y)`, put on the board.
fn placed(board: &mut GameBoard, id: u32, x: i32, y: i32) -> Snake {
    let mut snake = Snake::new(id);
    snake.place(pos(x, y));
    board.set_tile_at_pos(pos(x, y), Cell::SnakeHead(id));
    snake
}

#[test]
fn a_new_snake_lives_and_has_no_body() {
    let snake = Snake::new(4);
    assert_eq!(snake.id(), 4);
    assert!(snake.is_alive());
    assert!(!snake.has_just_died());
    assert_eq!(snake.growth_state(), GROWTH_RATE);
    assert_eq!(GROWTH_RATE, 3);
    assert!(body(&snake).is_empty());
    assert_eq!(snake.state.id, 4);
}

#[test]
fn a_placed_snake_faces_north() {
    let mut board = GameBoard::new();
    let snake = placed(&mut board, 1, 5, 5);
    assert_eq!(body(&snake), vec![pos(5, 5)]);
    assert_eq!(snake.state.current_orientation, Orientation::North);
    assert_eq!(snake.state.get_head_pos(), pos(5, 5));
    assert_eq!(snake.state.get_head_coord(), Coordinate { x: 5, y: 5 });
    assert_eq!(snake.state().get_head_pos(), pos(5, 5));
}

#[test]
fn a_plain_move_takes_head_and_tail_along() {
    let mut board = GameBoard::new();
    let mut snake = placed(&mut board, 1, 5, 5);
    snake.execute_action(&mut board, &Action::Front);
    assert_eq!(body(&snake), vec![pos(5, 4)]);
    assert_eq!(board.get_tile_at_pos(&pos(5, 4)), Cell::SnakeHead(1));
    assert_eq!(board.get_tile_at_pos(&pos(5, 5)), Cell::Empty);
    assert_eq!(snake.growth_state(), 2);
    assert!(!snake.has_just_died());
    assert!(snake.is_alive());
}

#[test]
fn a_turn_changes_the_orientation() {
    let mut board = GameBoard::new();
    let mut snake = placed(&mut board, 1, 5, 5);
    snake.execute_action(&mut board, &Action::Right);
    assert_eq!(snake.state.current_orientation, Orientation::East);
    assert_eq!(body(&snake), vec![pos(6, 5)]);
    snake.execute_action(&mut board, &Action::Right);
    assert_eq!(snake.state.current_orientation, Orientation::South);
    assert_eq!(body(&snake), vec![pos(6, 6)]);
    snake.execute_action(&mut board, &Action::Left);
    assert_eq!(snake.state.current_orientation, Orientation::East);
}

#[test]
fn the_snake_grows_on_every_third_move() {
    let mut board = GameBoard::new();
    let mut snake = placed(&mut board, 1, 5, 12);
    let mut lengths = vec![];
    let mut countdowns = vec![];
    for _ in 0..9 {
        snake.execute_action(&mut board, &Action::Front);
        lengths.push(body(&snake).len());
        countdowns.push(snake.growth_state());
    }
    assert_eq!(lengths, vec![1, 1, 2, 2, 2, 3, 3, 3, 4]);
    assert_eq!(countdowns, vec![2, 1, 3, 2, 1, 3, 2, 1, 3]);
}

#[test]
fn head_body_and_tail_are_marked_on_the_board() {
    let mut board = GameBoard::new();
    let mut snake = placed(&mut board, 2, 5, 12);
    for _ in 0..6 {
        snake.execute_action(&mut board, &Action::Front);
    }
    assert_eq!(body(&snake), vec![pos(5, 6), pos(5, 7), pos(5, 8)]);
    assert_eq!(board.get_tile_at_pos(&pos(5, 6)), Cell::SnakeHead(2));
    assert_eq!(board.get_tile_at_pos(&pos(5, 7)), Cell::SnakeBody(2));
    assert_eq!(board.get_tile_at_pos(&pos(5, 8)), Cell::SnakeTail(2));
    assert_eq!(board.get_tile_at_pos(&pos(5, 9)), Cell::Empty);
}

#[test]
fn a_snake_that_eats_keeps_its_tail() {
    let mut board = GameBoard::new();
    let mut snake = placed(&mut board, 1, 5, 5);
    board.set_tile_at_pos(pos(5, 4), Cell::Food);
    snake.execute_action(&mut board, &Action::Front);
    assert_eq!(body(&snake), vec![pos(5, 4), pos(5, 5)]);
    assert_eq!(board.get_tile_at_pos(&pos(5, 4)), Cell::SnakeHead(1));
    assert_eq!(board.get_tile_at_pos(&pos(5, 5)), Cell::SnakeTail(1));
    assert_eq!(snake.growth_state(), 2);
    assert!(!snake.has_just_died());
}

#[test]
fn a_move_off_the_board_kills_and_leaves_the_snake_where_it_is() {
    let mut board = GameBoard::new();
    let mut snake = placed(&mut board, 1, 5, 0);
    snake.execute_action(&mut board, &Action::Front);
    assert!(snake.has_just_died());
    assert!(snake.is_alive());
    assert_eq!(body(&snake), vec![pos(5, 0)]);
    assert_eq!(board.get_tile_at_pos(&pos(5, 0)), Cell::SnakeBody(1));
    assert_eq!(snake.growth_state(), 3);
    assert_eq!(snake.state.current_orientation, Orientation::North);
}

#[test]
fn a_move_onto_an_obstacle_kills_and_leaves_the_obstacle() {
    let mut board = GameBoard::new();
    let mut snake = placed(&mut board, 1, 5, 5);
    board.set_tile_at_pos(pos(5, 4), Cell::Obstacle);
    snake.execute_action(&mut board, &Action::Front);
    assert!(snake.has_just_died());
    assert!(snake.is_alive());
    assert_eq!(body(&snake), vec![pos(5, 5)]);
    assert_eq!(board.get_tile_at_pos(&pos(5, 4)), Cell::Obstacle);
    assert_eq!(board.get_tile_at_pos(&pos(5, 5)), Cell::SnakeBody(1));
    assert_eq!(snake.growth_state(), 2);
    assert_eq!(snake.state.current_orientation, Orientation::North);
}

#[test]
fn a_move_onto_a_body_kills_and_leaves_that_body() {
    for hit in [Cell::SnakeBody(2), Cell::SnakeTail(2), Cell::SnakeBody(1)].iter() {
        let mut board = GameBoard::new();
        let mut snake = placed(&mut board, 1, 5, 5);
        board.set_tile_at_pos(pos(6, 5), *hit);
        snake.execute_action(&mut board, &Action::Right);
        assert!(snake.has_just_died());
        assert!(snake.is_alive());
        assert_eq!(body(&snake), vec![pos(5, 5)]);
        assert_eq!(board.get_tile_at_pos(&pos(6, 5)), *hit);
        assert_eq!(board.get_tile_at_pos(&pos(5, 5)), Cell::SnakeBody(1));
        assert_eq!(snake.growth_state(), 2);
        assert_eq!(snake.state.current_orientation, Orientation::North);
    }
}

#[test]
fn a_move_onto_a_snake_kills_and_leaves_that_snake() {
    let mut board = GameBoard::new();
    let mut other = placed(&mut board, 2, 6, 6);
    other.execute_action(&mut board, &Action::Front);
    assert_eq!(board.get_tile_at_pos(&pos(6, 5)), Cell::SnakeHead(2));
    let mut snake = placed(&mut board, 1, 5, 5);
    snake.execute_action(&mut board, &Action::Right);
    assert!(snake.has_just_died());
    assert_eq!(body(&snake), vec![pos(5, 5)]);
    assert_eq!(board.get_tile_at_pos(&pos(5, 5)), Cell::SnakeBody(1));
    assert_eq!(snake.growth_state(), 2);
    assert_eq!(snake.state.current_orientation, Orientation::North);
    // The other snake is as it was, but for the mark on its head.
    assert_eq!(body(&other), vec![pos(6, 5)]);
    assert!(!other.has_just_died());
    assert_eq!(board.get_tile_at_pos(&pos(6, 5)), Cell::SnakeHead(1));
    other.check_head_collision(&board);
    assert!(other.has_just_died());
}

#[test]
fn the_countdown_of_a_blocked_snake_starts_again_after_its_last_step() {
    let mut board = GameBoard::new();
    let mut snake = placed(&mut board, 1, 5, 5);
    snake.execute_action(&mut board, &Action::Front);
    snake.execute_action(&mut board, &Action::Front);
    assert_eq!(snake.growth_state(), 1);
    assert_eq!(body(&snake), vec![pos(5, 3)]);
    board.set_tile_at_pos(pos(5, 2), Cell::Obstacle);
    snake.execute_action(&mut board, &Action::Front);
    assert!(snake.has_just_died());
    assert_eq!(snake.growth_state(), 3);
    assert_eq!(body(&snake), vec![pos(5, 3)]);
    assert_eq!(board.get_tile_at_pos(&pos(5, 3)), Cell::SnakeBody(1));
    assert_eq!(board.get_tile_at_pos(&pos(5, 2)), Cell::Obstacle);
}

#[test]
fn a_long_snake_that_is_blocked_keeps_its_body() {
    let mut board = GameBoard::new();
    let mut snake = placed(&mut board, 2, 5, 5);
    for _ in 0..5 {
        snake.execute_action(&mut board, &Action::Front);
    }
    assert_eq!(body(&snake), vec![pos(5, 0), pos(5, 1)]);
    snake.execute_action(&mut board, &Action::Front);
    assert!(snake.has_just_died());
    assert_eq!(body(&snake), vec![pos(5, 0), pos(5, 1)]);
    assert_eq!(board.get_tile_at_pos(&pos(5, 0)), Cell::SnakeBody(2));
    assert_eq!(board.get_tile_at_pos(&pos(5, 1)), Cell::SnakeTail(2));
    assert_eq!(snake.growth_state(), 1);
}

#[test]
fn a_dead_snake_does_not_move() {
    let mut board = GameBoard::new();
    let mut snake = placed(&mut board, 1, 5, 0);
    snake.execute_action(&mut board, &Action::Front);
    snake.remove_snake_from_board(&mut board);
    snake.bury();
    assert!(!snake.is_alive());
    assert!(!snake.has_just_died());
    assert_eq!(board.get_tile_at_pos(&pos(5, 0)), Cell::Empty);
    snake.execute_action(&mut board, &Action::Right);
    assert_eq!(body(&snake), vec![pos(5, 0)]);
    assert_eq!(board.get_tile_at_pos(&pos(6, 0)), Cell::Empty);
    assert!(!snake.has_just_died());
}

#[test]
fn removing_a_snake_empties_all_its_cells() {
    let mut board = GameBoard::new();
    let mut snake = placed(&mut board, 2, 5, 12);
    for _ in 0..6 {
        snake.execute_action(&mut board, &Action::Front);
    }
    board.set_tile_at_pos(pos(9, 9), Cell::Obstacle);
    snake.remove_snake_from_board(&mut board);
    for p in [pos(5, 6), pos(5, 7), pos(5, 8)].iter() {
        assert_eq!(board.get_tile_at_pos(p), Cell::Empty);
    }
    assert_eq!(board.get_tile_at_pos(&pos(9, 9)), Cell::Obstacle);
}

#[test]
fn a_head_under_another_head_is_found() {
    let mut board = GameBoard::new();
    let mut snake = placed(&mut board, 1, 5, 5);
    snake.check_head_collision(&board);
    assert!(!snake.has_just_died());
    board.set_tile_at_pos(pos(5, 5), Cell::SnakeBody(2));
    snake.check_head_collision(&board);
    assert!(!snake.has_just_died());
    board.set_tile_at_pos(pos(5, 5), Cell::SnakeHead(2));
    snake.check_head_collision(&board);
    assert!(snake.has_just_died());
}
