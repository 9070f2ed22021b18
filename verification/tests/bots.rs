use snake_engine::board::{Cell, GameBoard};
use snake_engine::game::SnakeBot;
use snake_engine::geometry::{Action, Coordinate};
use snake_engine::interactive_bot::{InteractiveBot, DEFAULT_CHOICE};
use snake_engine::random_bot::{get_non_suicide_random_action, pick_action, RandomBot};
use snake_engine::snake::Snake;

fn at(x: i32, y: i32) -> Coordinate {
    Coordinate { x, y }
}

/// A board with one living snake, and that snake, facing north at `(x, y)`.
fn one_snake(x: i32, y: i32) -> (GameBoard, Snake) {
    let mut board = GameBoard::new();
    board.set_nb_alive_snakes(1);
    let mut snake = Snake::new(0);
    snake.place(at(x, y).to_pos());
    board.set_tile_at_coord(&at(x, y), Cell::SnakeHead(0));
    (board, snake)
}

fn tally(actions: &[Action]) -> (usize, usize, usize) {
    let mut seen = (0, 0, 0);
    for action in actions {
        match action {
            Action::Left => seen.0 += 1,
            Action::Front => seen.1 += 1,
            Action::Right => seen.2 += 1,
        }
    }
    seen
}

#[test]
fn picking_takes_the_action_at_the_index() {
    let actions = vec![Action::Left, Action::Right];
    assert_eq!(pick_action(&actions, 0), Action::Left);
    assert_eq!(pick_action(&actions, 1), Action::Right);
}

#[test]
fn picking_from_nothing_goes_straight_on() {
    assert_eq!(pick_action(&vec![], 0), Action::Front);
    assert_eq!(pick_action(&vec![], 7), Action::Front);
}

#[test]
fn a_random_action_is_any_of_the_safe_ones() {
    let (board, snake) = one_snake(5, 5);
    let mut rng = rand::thread_rng();
    let mut drawn = vec![];
    for _ in 0..300 {
        drawn.push(get_non_suicide_random_action(&mut rng, snake.state(), &board));
    }
    let (left, front, right) = tally(&drawn);
    assert!(left > 0 && front > 0 && right > 0);
}

#[test]
fn a_random_action_is_never_certain_death() {
    let (mut board, snake) = one_snake(5, 5);
    board.set_tile_at_coord(&at(5, 4), Cell::Obstacle);
    let mut rng = rand::thread_rng();
    let mut drawn = vec![];
    for _ in 0..300 {
        drawn.push(get_non_suicide_random_action(&mut rng, snake.state(), &board));
    }
    let (left, front, right) = tally(&drawn);
    assert!(left > 0 && right > 0);
    assert_eq!(front, 0);
}

#[test]
fn the_only_safe_action_is_taken() {
    let (mut board, snake) = one_snake(0, 5);
    board.set_tile_at_coord(&at(0, 4), Cell::SnakeBody(3));
    let mut rng = rand::thread_rng();
    for _ in 0..50 {
        assert_eq!(get_non_suicide_random_action(&mut rng, snake.state(), &board), Action::Right);
    }
}

#[test]
fn a_doomed_snake_goes_straight_on() {
    let (mut board, snake) = one_snake(0, 5);
    board.set_tile_at_coord(&at(0, 4), Cell::Obstacle);
    board.set_tile_at_coord(&at(1, 5), Cell::Obstacle);
    let mut rng = rand::thread_rng();
    for _ in 0..50 {
        assert_eq!(get_non_suicide_random_action(&mut rng, snake.state(), &board), Action::Front);
    }
}

#[test]
fn the_random_bot_takes_safe_actions() {
    let (mut board, snake) = one_snake(31, 5);
    board.set_tile_at_coord(&at(31, 4), Cell::Food);
    let mut bot = RandomBot::new();
    let mut drawn = vec![];
    for _ in 0..300 {
        drawn.push(bot.get_next_action(snake.state(), &board));
    }
    let (left, front, right) = tally(&drawn);
    assert!(left > 0 && front > 0);
    assert_eq!(right, 0);
    let mut other = RandomBot::default();
    let action = other.get_next_action(snake.state(), &board);
    assert!(action == Action::Left || action == Action::Front);
}

#[test]
fn the_menu_entries_are_left_front_right() {
    let bot = InteractiveBot::default();
    assert_eq!(bot.action_of_choice(Some(0)), Action::Left);
    assert_eq!(bot.action_of_choice(Some(1)), Action::Front);
    assert_eq!(bot.action_of_choice(Some(2)), Action::Right);
}

#[test]
fn no_answer_means_straight_on() {
    assert_eq!(DEFAULT_CHOICE, 1);
    assert_eq!(InteractiveBot.action_of_choice(None), Action::Front);
}
