use std::cell::Cell as Counter;
use std::rc::Rc;

use snake_engine::board::{Cell, GameBoard};
use snake_engine::game::{BoardObserver, Game, PlacementExhausted, SnakeBot};
use snake_engine::geometry::{Action, Coordinate, Orientation, Position, NB_CELLS};
use snake_engine::random_bot::RandomBot;
use snake_engine::rules::{GameResultWinner, GameResults};
use snake_engine::snake::SnakeState;

fn pos(x: i32, y: i32) -> Position {
    Coordinate { x, y }.to_pos()
}

/// A controller that plays the actions it was given, then goes straight on,
/// and counts how often it was asked.
struct Script {
    actions: Vec<Action>,
    asked: Rc<Counter<u32>>,
}

impl Script {
    fn of(actions: Vec<Action>) -> Box<Script> {
        Box::new(Script { actions, asked: Rc::new(Counter::new(0)) })
    }

    fn counted(actions: Vec<Action>, asked: &Rc<Counter<u32>>) -> Box<Script> {
        Box::new(Script { actions, asked: asked.clone() })
    }

    fn straight() -> Box<Script> {
        Script::of(vec![])
    }
}

impl SnakeBot for Script {
    fn get_next_action(&mut self, myself: &SnakeState, board: &GameBoard) -> Action {
        assert!(myself.alive);
        assert!(!myself.positions.is_empty());
        assert!(board.nb_alive_snakes() >= 1);
        let asked = self.asked.get();
        self.asked.set(asked + 1);
        match self.actions.get(asked as usize) {
            Some(action) => *action,
            None => Action::Front,
        }
    }
}

/// An observer that counts its calls.
struct Watch {
    calls: Rc<Counter<u32>>,
}

impl BoardObserver for Watch {
    fn observe(&self, _board: &GameBoard) {
        self.calls.set(self.calls.get() + 1);
    }
}

fn empty_game<'a>() -> Game<'a> {
    Game::with_board(GameBoard::new())
}

fn body(game: &Game, index: usize) -> Vec<Position> {
    game.snake(index).state.positions.iter().cloned().collect()
}

fn winner_of(results: &GameResults) -> Option<u32> {
    match results.winner {
        Some(GameResultWinner::Winner(id)) => Some(id),
        _ => None,
    }
}

fn is_draw(results: &GameResults) -> bool {
    matches!(results.winner, Some(GameResultWinner::Draw))
}

#[test]
fn a_game_begins_unplayed() {
    let game = empty_game();
    assert!(!game.is_game_over());
    assert_eq!(game.get_results(), None);
    assert_eq!(game.nb_steps(), 0);
    assert_eq!(game.nb_snakes(), 0);
}

#[test]
fn a_new_game_has_a_few_obstacles() {
    for _ in 0..20 {
        let game = Game::new();
        let mut obstacles = 0;
        for p in 0..NB_CELLS {
            match game.board().get_tile_at_pos(&p) {
                Cell::Obstacle => obstacles += 1,
                Cell::Empty => {}
                other => panic!("{:?} on a new board", other),
            }
        }
        assert!(obstacles >= 1 && obstacles <= 20);
    }
}

#[test]
fn snakes_are_kept_in_the_order_in_which_they_came() {
    let mut game = empty_game();
    game.add_snake(7, Script::straight()).add_snake(3, Script::straight());
    assert_eq!(game.nb_snakes(), 2);
    assert_eq!(game.snake(0).id(), 7);
    assert_eq!(game.snake(1).id(), 3);
    assert!(game.snake(0).is_alive());
    assert!(game.snake(0).state.positions.is_empty());
}

#[test]
fn placing_puts_the_heads_on_the_board() {
    let mut game = empty_game();
    game.add_snake(7, Script::straight()).add_snake(3, Script::straight());
    game.place_snakes(&vec![pos(5, 5), pos(9, 9)]);
    assert_eq!(body(&game, 0), vec![pos(5, 5)]);
    assert_eq!(body(&game, 1), vec![pos(9, 9)]);
    assert_eq!(game.snake(0).state.current_orientation, Orientation::North);
    assert_eq!(game.board().get_tile_at_pos(&pos(5, 5)), Cell::SnakeHead(7));
    assert_eq!(game.board().get_tile_at_pos(&pos(9, 9)), Cell::SnakeHead(3));
    assert_eq!(game.nb_steps(), 0);
    assert!(!game.is_game_over());
}

#[test]
fn a_solo_snake_that_dies_ends_the_game_without_a_winner() {
    let mut game = empty_game();
    game.add_snake(0, Script::straight());
    game.place_snakes(&vec![pos(5, 2)]);
    let results = game.run_to_end();
    assert_eq!(results.winner, None);
    assert_eq!(results.steps, 3);
    assert_eq!(game.nb_steps(), 3);
    assert!(game.is_game_over());
    assert!(!game.snake(0).is_alive());
    assert_eq!(game.get_results(), Some(results));
}

#[test]
fn a_solo_snake_is_played_tick_by_tick_until_it_dies() {
    let mut game = empty_game();
    game.add_snake(0, Script::straight());
    game.place_snakes(&vec![pos(5, 2)]);
    game.step();
    assert_eq!(game.get_results(), None);
    assert_eq!(body(&game, 0), vec![pos(5, 1)]);
    game.step();
    assert_eq!(game.get_results(), None);
    assert_eq!(body(&game, 0), vec![pos(5, 0)]);
    game.step();
    assert_eq!(game.get_results(), Some(GameResults { winner: None, steps: 3 }));
    assert_eq!(game.board().get_tile_at_pos(&pos(5, 0)), Cell::Empty);
}

#[test]
fn the_last_snake_alive_wins_and_a_lazy_run_stops_there() {
    let mut game = empty_game();
    game.add_snake(10, Script::straight()).add_snake(20, Script::straight());
    // Snake 10 reaches the edge with its fourth move and leaves the board
    // with its fifth; snake 20 has room for ten moves.
    game.place_snakes(&vec![pos(5, 4), pos(20, 10)]);
    let results = game.run_to_end();
    assert_eq!(winner_of(&results), Some(20));
    assert_eq!(results.steps, 5);
    assert_eq!(game.nb_steps(), 5);
    assert!(!game.snake(0).is_alive());
    assert!(game.snake(1).is_alive());
    assert_eq!(game.snake(1).state.get_head_pos(), pos(20, 5));
}

#[test]
fn a_run_that_is_not_lazy_goes_on_until_the_last_snake_has_died() {
    let mut game = empty_game();
    game.continue_simulation_if_known_winner(true)
        .add_snake(10, Script::straight())
        .add_snake(20, Script::straight());
    game.place_snakes(&vec![pos(5, 4), pos(20, 10)]);
    let results = game.run_to_end();
    assert_eq!(winner_of(&results), Some(20));
    assert_eq!(results.steps, 5);
    assert_eq!(game.nb_steps(), 11);
    assert!(!game.snake(1).is_alive());
    assert_eq!(game.get_results(), Some(results));
}

#[test]
fn an_outcome_that_is_set_is_never_changed() {
    let mut game = empty_game();
    game.add_snake(10, Script::straight()).add_snake(20, Script::straight());
    game.place_snakes(&vec![pos(5, 4), pos(20, 10)]);
    let results = game.run_to_end();
    for _ in 0..10 {
        game.step();
        assert_eq!(game.get_results(), Some(results));
    }
    assert_eq!(game.nb_steps(), 15);
    assert!(!game.snake(1).is_alive());
    assert_eq!(game.run_to_end(), results);
    assert_eq!(game.nb_steps(), 15);
}

#[test]
fn two_snakes_that_die_in_the_same_tick_draw() {
    let mut game = empty_game();
    game.add_snake(1, Script::straight()).add_snake(2, Script::straight());
    game.place_snakes(&vec![pos(5, 1), pos(9, 1)]);
    let results = game.run_to_end();
    assert!(is_draw(&results));
    assert_eq!(results.steps, 2);
    assert_eq!(game.nb_steps(), 2);
}

#[test]
fn two_snakes_that_go_for_the_same_cell_both_die() {
    let mut game = empty_game();
    game.add_snake(1, Script::straight()).add_snake(2, Script::straight());
    game.place_snakes(&vec![pos(5, 5), pos(7, 5)]);
    game.advance(&vec![Action::Right, Action::Left], None);
    assert!(!game.snake(0).is_alive());
    assert!(!game.snake(1).is_alive());
    assert!(!game.snake(0).has_just_died());
    assert!(!game.snake(1).has_just_died());
    for p in [pos(5, 5), pos(6, 5), pos(7, 5)].iter() {
        assert_eq!(game.board().get_tile_at_pos(p), Cell::Empty);
    }
    for p in 0..NB_CELLS {
        assert_eq!(owner(game.board().get_tile_at_pos(&p)), None);
    }
    // The board tells how many snakes lived when the tick began.
    assert_eq!(game.board().nb_alive_snakes(), 2);
    let results = game.get_results().unwrap();
    assert!(is_draw(&results));
    assert_eq!(results.steps, 1);
    assert_eq!(game.nb_steps(), 1);
}

#[test]
fn the_order_of_two_snakes_that_meet_does_not_matter() {
    let mut game = empty_game();
    game.add_snake(1, Script::straight()).add_snake(2, Script::straight());
    game.place_snakes(&vec![pos(7, 5), pos(5, 5)]);
    game.advance(&vec![Action::Left, Action::Right], None);
    assert!(!game.snake(0).is_alive());
    assert!(!game.snake(1).is_alive());
    for p in [pos(5, 5), pos(6, 5), pos(7, 5)].iter() {
        assert_eq!(game.board().get_tile_at_pos(p), Cell::Empty);
    }
    let results = game.get_results().unwrap();
    assert!(is_draw(&results));
    assert_eq!(results.steps, 1);
}

#[test]
fn three_snakes_that_go_for_the_same_cell_all_die() {
    let mut game = empty_game();
    game.add_snake(1, Script::straight())
        .add_snake(2, Script::straight())
        .add_snake(3, Script::straight());
    game.place_snakes(&vec![pos(5, 5), pos(7, 5), pos(6, 6)]);
    game.advance(&vec![Action::Right, Action::Left, Action::Front], None);
    assert!(!game.snake(0).is_alive());
    assert!(!game.snake(1).is_alive());
    assert!(!game.snake(2).is_alive());
    for p in [pos(5, 5), pos(7, 5), pos(6, 6), pos(6, 5)].iter() {
        assert_eq!(game.board().get_tile_at_pos(p), Cell::Empty);
    }
    let results = game.get_results().unwrap();
    assert!(is_draw(&results));
    assert_eq!(results.steps, 1);
}

#[test]
fn food_that_two_snakes_go_for_is_eaten_by_neither() {
    let mut board = GameBoard::new();
    board.set_tile_at_pos(pos(6, 5), Cell::Food);
    let mut game = Game::with_board(board);
    game.add_snake(1, Script::straight())
        .add_snake(2, Script::straight())
        .add_snake(3, Script::straight());
    game.place_snakes(&vec![pos(5, 5), pos(7, 5), pos(20, 10)]);
    game.advance(&vec![Action::Right, Action::Left, Action::Front], None);
    assert!(!game.snake(0).is_alive());
    assert!(!game.snake(1).is_alive());
    assert!(game.snake(2).is_alive());
    assert_eq!(game.board().get_tile_at_pos(&pos(6, 5)), Cell::Empty);
    assert_eq!(winner_of(&game.get_results().unwrap()), Some(3));
}

#[test]
fn a_cell_where_two_snakes_died_can_hold_the_food_of_that_tick() {
    let mut game = empty_game();
    game.add_snake(1, Script::straight()).add_snake(2, Script::straight());
    game.place_snakes(&vec![pos(5, 5), pos(7, 5)]);
    game.advance(&vec![Action::Right, Action::Left], Some(pos(6, 5)));
    assert!(!game.snake(0).is_alive());
    assert!(!game.snake(1).is_alive());
    assert_eq!(game.board().get_tile_at_pos(&pos(6, 5)), Cell::Food);
}

#[test]
fn long_snakes_that_meet_are_both_taken_off_the_board() {
    let mut game = empty_game();
    game.add_snake(1, Script::straight()).add_snake(2, Script::straight());
    game.place_snakes(&vec![pos(5, 13), pos(7, 13)]);
    for _ in 0..6 {
        game.advance(&vec![Action::Front, Action::Front], None);
    }
    assert_eq!(body(&game, 0), vec![pos(5, 7), pos(5, 8), pos(5, 9)]);
    assert_eq!(body(&game, 1), vec![pos(7, 7), pos(7, 8), pos(7, 9)]);
    game.advance(&vec![Action::Right, Action::Left], None);
    assert!(!game.snake(0).is_alive());
    assert!(!game.snake(1).is_alive());
    for p in 0..NB_CELLS {
        assert_eq!(game.board().get_tile_at_pos(&p), Cell::Empty);
    }
    let results = game.get_results().unwrap();
    assert!(is_draw(&results));
    assert_eq!(results.steps, 7);
}

#[test]
fn a_snake_that_runs_into_a_head_that_stays_dies_with_it() {
    let mut board = GameBoard::new();
    board.set_tile_at_pos(pos(6, 4), Cell::Obstacle);
    let mut game = Game::with_board(board);
    game.add_snake(1, Script::straight())
        .add_snake(2, Script::straight())
        .add_snake(3, Script::straight());
    game.place_snakes(&vec![pos(5, 5), pos(6, 5), pos(20, 10)]);
    // Snake 1 turns into the head of snake 2, which runs into an obstacle.
    game.advance(&vec![Action::Right, Action::Front, Action::Front], None);
    assert!(!game.snake(0).is_alive());
    assert!(!game.snake(1).is_alive());
    assert!(game.snake(2).is_alive());
    assert_eq!(game.board().get_tile_at_pos(&pos(5, 5)), Cell::Empty);
    assert_eq!(game.board().get_tile_at_pos(&pos(6, 5)), Cell::Empty);
    assert_eq!(game.board().get_tile_at_pos(&pos(6, 4)), Cell::Obstacle);
    assert_eq!(winner_of(&game.get_results().unwrap()), Some(3));
}

#[test]
fn a_snake_that_runs_into_another_dies_alone() {
    let mut game = empty_game();
    game.add_snake(1, Script::straight()).add_snake(2, Script::straight());
    game.place_snakes(&vec![pos(5, 5), pos(6, 5)]);
    // Snake 1 turns into the cell that snake 2 has not left yet.
    game.advance(&vec![Action::Right, Action::Front], None);
    assert!(!game.snake(0).is_alive());
    assert!(game.snake(1).is_alive());
    assert_eq!(body(&game, 1), vec![pos(6, 4)]);
    assert_eq!(game.board().get_tile_at_pos(&pos(6, 4)), Cell::SnakeHead(2));
    assert_eq!(game.board().get_tile_at_pos(&pos(5, 5)), Cell::Empty);
    let results = game.get_results().unwrap();
    assert_eq!(winner_of(&results), Some(2));
    assert_eq!(results.steps, 1);
}

#[test]
fn a_cell_left_earlier_in_the_tick_is_free() {
    let mut game = empty_game();
    game.add_snake(2, Script::straight()).add_snake(1, Script::straight());
    game.place_snakes(&vec![pos(6, 5), pos(5, 5)]);
    // Snake 2 moves first and leaves the cell that snake 1 turns into.
    game.advance(&vec![Action::Front, Action::Right], None);
    assert!(game.snake(0).is_alive());
    assert!(game.snake(1).is_alive());
    assert_eq!(body(&game, 0), vec![pos(6, 4)]);
    assert_eq!(body(&game, 1), vec![pos(6, 5)]);
    assert_eq!(game.board().get_tile_at_pos(&pos(6, 5)), Cell::SnakeHead(1));
    assert_eq!(game.get_results(), None);
    assert_eq!(game.nb_steps(), 1);
}

#[test]
fn a_snake_that_runs_into_an_obstacle_dies() {
    let mut board = GameBoard::new();
    board.set_tile_at_pos(pos(5, 4), Cell::Obstacle);
    let mut game = Game::with_board(board);
    game.add_snake(1, Script::straight()).add_snake(2, Script::straight());
    game.place_snakes(&vec![pos(5, 5), pos(20, 10)]);
    game.advance(&vec![Action::Front, Action::Front], None);
    assert!(!game.snake(0).is_alive());
    assert!(game.snake(1).is_alive());
    assert_eq!(winner_of(&game.get_results().unwrap()), Some(2));
    // The obstacle stays, and the dead snake is taken off the board.
    assert_eq!(game.board().get_tile_at_pos(&pos(5, 4)), Cell::Obstacle);
    assert_eq!(game.board().get_tile_at_pos(&pos(5, 5)), Cell::Empty);
    assert_eq!(body(&game, 0), vec![pos(5, 5)]);
}

#[test]
fn the_action_of_a_dead_snake_is_not_looked_at() {
    let mut game = empty_game();
    game.continue_simulation_if_known_winner(true)
        .add_snake(1, Script::straight())
        .add_snake(2, Script::straight());
    game.place_snakes(&vec![pos(5, 0), pos(20, 10)]);
    game.advance(&vec![Action::Front, Action::Front], None);
    assert!(!game.snake(0).is_alive());
    let dead = body(&game, 0);
    game.advance(&vec![Action::Right, Action::Front], None);
    assert_eq!(body(&game, 0), dead);
    assert_eq!(game.board().get_tile_at_pos(&pos(6, 0)), Cell::Empty);
    assert_eq!(body(&game, 1), vec![pos(20, 8)]);
}

#[test]
fn a_tick_counts_the_living_and_the_free_cells() {
    let mut game = empty_game();
    game.add_snake(1, Script::straight()).add_snake(2, Script::straight());
    game.place_snakes(&vec![pos(5, 5), pos(20, 10)]);
    game.advance(&vec![Action::Front, Action::Front], None);
    assert_eq!(game.board().nb_alive_snakes(), 2);
    assert_eq!(game.board().nb_free_cells(), 510);
    game.advance(&vec![Action::Front, Action::Front], None);
    game.advance(&vec![Action::Front, Action::Front], None);
    // Both snakes have grown on their third move.
    assert_eq!(game.board().nb_free_cells(), 508);
    assert_eq!(game.nb_steps(), 3);
}

#[test]
fn food_grows_where_the_tick_is_told() {
    let mut game = empty_game();
    game.add_snake(1, Script::straight());
    game.place_snakes(&vec![pos(5, 5)]);
    game.advance(&vec![Action::Front], Some(pos(9, 9)));
    assert_eq!(game.board().get_tile_at_pos(&pos(9, 9)), Cell::Food);
    // Not on the snake.
    game.advance(&vec![Action::Front], Some(pos(5, 3)));
    assert_eq!(game.board().get_tile_at_pos(&pos(5, 3)), Cell::SnakeHead(1));
    assert_eq!(game.board().nb_free_cells(), 511);
}

#[test]
fn a_snake_that_eats_grows() {
    let mut game = empty_game();
    game.add_snake(1, Script::straight());
    game.place_snakes(&vec![pos(5, 5)]);
    game.advance(&vec![Action::Front], Some(pos(5, 3)));
    game.advance(&vec![Action::Front], None);
    assert_eq!(body(&game, 0), vec![pos(5, 3), pos(5, 4)]);
    assert_eq!(game.board().get_tile_at_pos(&pos(5, 4)), Cell::SnakeTail(1));
}

#[test]
fn every_living_snake_is_asked_once_in_a_tick() {
    let first = Rc::new(Counter::new(0));
    let second = Rc::new(Counter::new(0));
    let mut game = empty_game();
    game.continue_simulation_if_known_winner(true)
        .add_snake(1, Script::counted(vec![], &first))
        .add_snake(2, Script::counted(vec![], &second));
    game.place_snakes(&vec![pos(5, 1), pos(20, 10)]);
    game.run_to_end();
    // Snake 1 dies with its second move, snake 2 with its eleventh.
    assert_eq!(first.get(), 2);
    assert_eq!(second.get(), 11);
    assert_eq!(game.nb_steps(), 11);
    game.step();
    assert_eq!(first.get(), 2);
    assert_eq!(second.get(), 11);
}

#[test]
fn the_script_is_followed() {
    let mut game = empty_game();
    game.add_snake(1, Script::of(vec![Action::Right, Action::Right, Action::Left, Action::Front]));
    game.place_snakes(&vec![pos(5, 5)]);
    for _ in 0..4 {
        game.step();
    }
    assert_eq!(game.snake(0).state.get_head_pos(), pos(8, 6));
    assert_eq!(game.snake(0).state.current_orientation, Orientation::East);
}

#[test]
fn observers_are_called_before_and_after_each_tick() {
    let before = Rc::new(Counter::new(0));
    let after = Rc::new(Counter::new(0));
    let also_after = Rc::new(Counter::new(0));
    let mut game = empty_game();
    game.before_each_step(Box::new(Watch { calls: before.clone() }))
        .after_each_step(Box::new(Watch { calls: after.clone() }))
        .after_each_step(Box::new(Watch { calls: also_after.clone() }))
        .add_snake(0, Script::straight());
    game.place_snakes(&vec![pos(5, 2)]);
    assert_eq!(before.get(), 0);
    game.step();
    assert_eq!((before.get(), after.get(), also_after.get()), (1, 1, 1));
    game.run_to_end();
    assert_eq!((before.get(), after.get(), also_after.get()), (3, 3, 3));
}

#[test]
fn a_game_begins_with_every_snake_on_a_free_cell_of_its_own() {
    for _ in 0..20 {
        let mut game = Game::new();
        let mut obstacles = vec![];
        for p in 0..NB_CELLS {
            if game.board().get_tile_at_pos(&p) == Cell::Obstacle {
                obstacles.push(p);
            }
        }
        for id in 0..5 {
            game.add_snake(id, Script::straight());
        }
        assert_eq!(game.initialize(), Ok(()));
        let mut heads = vec![];
        for i in 0..5 {
            let snake = game.snake(i);
            assert_eq!(snake.state.positions.len(), 1);
            assert_eq!(snake.state.current_orientation, Orientation::North);
            let head = snake.state.get_head_pos();
            assert!(head >= 0 && head < NB_CELLS);
            assert!(!obstacles.contains(&head));
            assert!(!heads.contains(&head));
            assert_eq!(game.board().get_tile_at_pos(&head), Cell::SnakeHead(i as u32));
            heads.push(head);
        }
        for p in 0..NB_CELLS {
            if obstacles.contains(&p) {
                assert_eq!(game.board().get_tile_at_pos(&p), Cell::Obstacle);
            } else if !heads.contains(&p) {
                assert_eq!(game.board().get_tile_at_pos(&p), Cell::Empty);
            }
        }
    }
}

#[test]
fn a_game_does_not_begin_on_a_board_without_a_free_cell() {
    let mut board = GameBoard::new();
    for p in 0..NB_CELLS {
        board.set_tile_at_pos(p, Cell::Obstacle);
    }
    let mut game = Game::with_board(board);
    game.add_snake(4, Script::straight());
    assert_eq!(game.initialize(), Err(PlacementExhausted { snake: 4 }));
    assert!(game.snake(0).state.positions.is_empty());
    assert_eq!(game.nb_steps(), 0);
    for p in 0..NB_CELLS {
        assert_eq!(game.board().get_tile_at_pos(&p), Cell::Obstacle);
    }
}

#[test]
fn a_game_does_not_begin_with_more_snakes_than_free_cells() {
    let mut board = GameBoard::new();
    for p in 2..NB_CELLS {
        board.set_tile_at_pos(p, Cell::Obstacle);
    }
    let mut game = Game::with_board(board);
    game.add_snake(1, Script::straight())
        .add_snake(2, Script::straight())
        .add_snake(3, Script::straight());
    assert_eq!(game.initialize(), Err(PlacementExhausted { snake: 3 }));
    assert_eq!(game.board().get_tile_at_pos(&0), Cell::Empty);
    assert_eq!(game.board().get_tile_at_pos(&1), Cell::Empty);
}

#[test]
fn random_games_come_to_an_end() {
    for _ in 0..30 {
        let mut game = Game::new();
        game.add_snake(0, Box::new(RandomBot::new())).add_snake(1, Box::new(RandomBot::default()));
        assert_eq!(game.initialize(), Ok(()));
        let results = game.run_to_end();
        assert!(results.steps >= 1 && results.steps <= 1536);
        assert_eq!(results.steps, game.nb_steps());
        match results.winner {
            Some(GameResultWinner::Winner(id)) => {
                assert!(game.snake(id as usize).is_alive());
                assert!(!game.snake(1 - id as usize).is_alive());
            }
            Some(GameResultWinner::Draw) => {
                assert!(!game.snake(0).is_alive());
                assert!(!game.snake(1).is_alive());
            }
            None => panic!("a game of two has a winner or is a draw"),
        }
    }
}

#[test]
fn random_games_played_to_the_last_snake_leave_no_snake_on_the_board() {
    for _ in 0..10 {
        let mut game = Game::new();
        game.continue_simulation_if_known_winner(true);
        for id in 0..4 {
            game.add_snake(id, Box::new(RandomBot::new()));
        }
        assert_eq!(game.initialize(), Ok(()));
        let results = game.run_to_end();
        assert!(results.steps <= game.nb_steps());
        for i in 0..4 {
            assert!(!game.snake(i).is_alive());
        }
        for p in 0..NB_CELLS {
            match game.board().get_tile_at_pos(&p) {
                Cell::Empty | Cell::Food | Cell::Obstacle => {}
                other => panic!("{:?} is left on the board", other),
            }
        }
    }
}

fn owner(cell: Cell) -> Option<u32> {
    match cell {
        Cell::SnakeHead(id) | Cell::SnakeBody(id) | Cell::SnakeTail(id) => Some(id),
        _ => None,
    }
}

#[test]
fn living_snakes_never_share_a_cell() {
    let mut game = empty_game();
    game.add_snake(1, Script::straight())
        .add_snake(2, Script::straight())
        .add_snake(3, Script::straight());
    game.place_snakes(&vec![pos(5, 12), pos(6, 12), pos(8, 14)]);
    let script = [
        [Action::Front, Action::Front, Action::Left],
        [Action::Front, Action::Front, Action::Front],
        [Action::Front, Action::Front, Action::Right],
        [Action::Left, Action::Right, Action::Front],
        [Action::Right, Action::Left, Action::Front],
        [Action::Front, Action::Front, Action::Left],
        [Action::Front, Action::Front, Action::Front],
    ];
    for actions in script.iter() {
        game.advance(&actions.to_vec(), None);
        let mut seen: Vec<Position> = vec![];
        for i in 0..3 {
            let snake = game.snake(i);
            assert!(snake.is_alive());
            let cells = body(&game, i);
            for (k, p) in cells.iter().enumerate() {
                assert!(!seen.contains(p));
                seen.push(*p);
                let cell = game.board().get_tile_at_pos(p);
                assert_eq!(owner(cell), Some(snake.id()));
                if k == 0 {
                    assert_eq!(cell, Cell::SnakeHead(snake.id()));
                } else if k == cells.len() - 1 {
                    assert_eq!(cell, Cell::SnakeTail(snake.id()));
                } else {
                    assert_eq!(cell, Cell::SnakeBody(snake.id()));
                }
            }
        }
        for p in 0..NB_CELLS {
            if !seen.contains(&p) {
                assert_eq!(game.board().get_tile_at_pos(&p), Cell::Empty);
            }
        }
    }
    assert_eq!(game.get_results(), None);
}

#[test]
fn a_snake_that_dies_on_another_leaves_it_whole() {
    let mut game = empty_game();
    game.add_snake(1, Script::straight()).add_snake(2, Script::straight());
    game.place_snakes(&vec![pos(5, 13), pos(6, 12)]);
    for _ in 0..6 {
        game.advance(&vec![Action::Front, Action::Front], None);
    }
    assert_eq!(body(&game, 0), vec![pos(5, 7), pos(5, 8), pos(5, 9)]);
    assert_eq!(body(&game, 1), vec![pos(6, 6), pos(6, 7), pos(6, 8)]);
    // Snake 1 turns into the body of snake 2.
    game.advance(&vec![Action::Right, Action::Front], None);
    assert!(!game.snake(0).is_alive());
    assert!(game.snake(1).is_alive());
    assert_eq!(body(&game, 1), vec![pos(6, 5), pos(6, 6), pos(6, 7)]);
    assert_eq!(game.board().get_tile_at_pos(&pos(6, 5)), Cell::SnakeHead(2));
    assert_eq!(game.board().get_tile_at_pos(&pos(6, 6)), Cell::SnakeBody(2));
    assert_eq!(game.board().get_tile_at_pos(&pos(6, 7)), Cell::SnakeTail(2));
    for p in [pos(5, 7), pos(5, 8), pos(5, 9)].iter() {
        assert_eq!(game.board().get_tile_at_pos(p), Cell::Empty);
    }
    assert_eq!(winner_of(&game.get_results().unwrap()), Some(2));
    assert_eq!(game.get_results().unwrap().steps, 7);
}

/// Whether the board shows every living snake on the cells of its body,
/// and no snake anywhere else.
fn board_and_bodies_agree(game: &Game) -> bool {
    let mut shown: Vec<Option<u32>> = vec![None; NB_CELLS as usize];
    for i in 0..game.nb_snakes() {
        let snake = game.snake(i);
        if snake.is_alive() {
            for p in snake.state.positions.iter() {
                if shown[*p as usize].is_some() {
                    return false;
                }
                shown[*p as usize] = Some(snake.id());
            }
        }
    }
    (0..NB_CELLS).all(|p| owner(game.board().get_tile_at_pos(&p)) == shown[p as usize])
}

#[test]
fn board_and_bodies_agree_after_every_tick_of_a_random_game() {
    for _ in 0..20 {
        let mut game = Game::new();
        game.continue_simulation_if_known_winner(true);
        for id in 0..5 {
            game.add_snake(id, Box::new(RandomBot::new()));
        }
        assert_eq!(game.initialize(), Ok(()));
        let mut obstacles = vec![];
        for p in 0..NB_CELLS {
            if game.board().get_tile_at_pos(&p) == Cell::Obstacle {
                obstacles.push(p);
            }
        }
        assert!(board_and_bodies_agree(&game));
        while (0..5).any(|i| game.snake(i).is_alive()) {
            game.step();
            assert!(board_and_bodies_agree(&game));
            for p in 0..NB_CELLS {
                let is_obstacle = game.board().get_tile_at_pos(&p) == Cell::Obstacle;
                assert_eq!(is_obstacle, obstacles.contains(&p));
            }
            assert!(game.nb_steps() <= 1536);
        }
        assert!(game.get_results().unwrap().steps <= 1536);
    }
}

#[test]
fn the_first_draw_that_is_a_free_cell_of_its_own_is_picked() {
    let mut board = GameBoard::new();
    board.set_tile_at_pos(3, Cell::Obstacle);
    let game = Game::with_board(board);
    let heads = vec![7, 9];
    assert_eq!(game.pick_head(&heads, &vec![3, 9, 7, 12, 5]), Some(12));
    assert_eq!(game.pick_head(&heads, &vec![5, 12]), Some(5));
    assert_eq!(game.pick_head(&heads, &vec![3, 9, 7, 3]), None);
    assert_eq!(game.pick_head(&heads, &vec![]), None);
    assert!(game.is_free_for_head(&heads, 8));
    assert!(!game.is_free_for_head(&heads, 9));
    assert!(!game.is_free_for_head(&heads, 3));
}

#[test]
fn a_game_tells_whether_it_has_begun() {
    let mut game = empty_game();
    game.add_snake(0, Script::straight());
    assert!(!game.is_initialized());
    game.place_snakes(&vec![pos(5, 5)]);
    assert!(game.is_initialized());
}

#[test]
fn ids_in_use_are_told() {
    let mut game = empty_game();
    assert!(!game.is_id_used(3));
    game.add_snake(3, Script::straight());
    assert!(game.is_id_used(3));
    assert!(!game.is_id_used(4));
}

/// An observer that writes its name into a log that it shares.
struct Named {
    name: u32,
    log: Rc<std::cell::RefCell<Vec<u32>>>,
}

impl BoardObserver for Named {
    fn observe(&self, _board: &GameBoard) {
        self.log.borrow_mut().push(self.name);
    }
}

#[test]
fn observers_are_called_in_the_order_in_which_they_were_registered() {
    let log = Rc::new(std::cell::RefCell::new(vec![]));
    let mut game = empty_game();
    game.after_each_step(Box::new(Named { name: 3, log: log.clone() }))
        .before_each_step(Box::new(Named { name: 1, log: log.clone() }))
        .after_each_step(Box::new(Named { name: 4, log: log.clone() }))
        .before_each_step(Box::new(Named { name: 2, log: log.clone() }))
        .add_snake(0, Script::straight());
    game.place_snakes(&vec![pos(5, 5)]);
    assert!(log.borrow().is_empty());
    game.step();
    assert_eq!(*log.borrow(), vec![1, 2, 3, 4]);
    game.step();
    assert_eq!(*log.borrow(), vec![1, 2, 3, 4, 1, 2, 3, 4]);
}
