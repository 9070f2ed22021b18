use snake_engine::board::{Cell, GameBoard};
use snake_engine::geometry::{Coordinate, NB_CELLS};
use snake_engine::heuristic_bot::{compute_stats_from, Stats, BOARD_DIAG_SIZE, MAX_DEPTH};

fn at(x: i32, y: i32) -> Coordinate {
    Coordinate { x, y }
}

/// An empty board on which `alive` snakes are said to live.
fn board_with(alive: usize) -> GameBoard {
    let mut board = GameBoard::new();
    board.set_nb_alive_snakes(alive);
    board
}

fn wall_in(board: &mut GameBoard, x: i32, y: i32) {
    for c in [at(x - 1, y), at(x + 1, y), at(x, y - 1), at(x, y + 1)].iter() {
        board.set_tile_at_coord(c, Cell::Obstacle);
    }
}

fn stats(board: &GameBoard, x: i32, y: i32) -> Stats {
    compute_stats_from(&0, &Some(at(x, y)), board)
}

#[test]
fn the_limits_of_the_search() {
    assert_eq!(MAX_DEPTH, 30);
    assert_eq!(BOARD_DIAG_SIZE, 36);
    let diag = ((32.0f64 * 32.0 + 16.0 * 16.0).sqrt()).ceil();
    assert_eq!(diag, 36.0);
}

#[test]
fn a_closed_pocket_of_one_cell() {
    let mut board = board_with(2);
    wall_in(&mut board, 5, 5);
    board.recount_free_cells();
    let found = stats(&board, 5, 5);
    assert_eq!(found.accessible_area, 1);
    assert_eq!(found.num_accessible_food, 0);
    assert_eq!(found.nb_free_cells, 508);
    assert_eq!(found.min_dist_to_food, 36);
    assert_eq!(found.board_diag_size, 36);
    assert_eq!(found.max_sum_dist_enemy, 36);
    assert_eq!(found.sum_dist_enemy_heads, 36);
    assert_eq!(found.sum_dist_enemy_tails, 36);
    let area = found.accessible_area as f64 / found.nb_free_cells as f64;
    assert!((area - 1.0 / 508.0).abs() < 1e-12);
    assert_eq!(found.len(), 5);
}

#[test]
fn a_pocket_with_enemies_beyond_its_walls() {
    let mut board = board_with(3);
    wall_in(&mut board, 5, 5);
    board.set_tile_at_coord(&at(7, 5), Cell::SnakeHead(1));
    board.set_tile_at_coord(&at(5, 7), Cell::SnakeTail(1));
    board.set_tile_at_coord(&at(3, 5), Cell::Food);
    let found = stats(&board, 5, 5);
    assert_eq!(found.accessible_area, 1);
    assert_eq!(found.num_accessible_food, 0);
    assert_eq!(found.min_dist_to_food, 36);
    assert_eq!(found.max_sum_dist_enemy, 72);
    assert_eq!(found.sum_dist_enemy_heads, 72);
    assert_eq!(found.sum_dist_enemy_tails, 72);
}

#[test]
fn the_whole_board_from_its_middle() {
    let board = board_with(2);
    let found = stats(&board, 16, 8);
    assert_eq!(found.accessible_area, 512);
    assert_eq!(found.nb_free_cells, 512);
    assert_eq!(found.num_accessible_food, 0);
}

#[test]
fn the_search_stops_at_its_depth() {
    let board = board_with(2);
    let found = stats(&board, 0, 0);
    let mut expected = 0;
    for pos in 0..NB_CELLS {
        let c = Coordinate::from_pos(pos);
        if c.x + c.y <= 30 {
            expected += 1;
        }
    }
    assert_eq!(expected, 376);
    assert_eq!(found.accessible_area, 376);
}

#[test]
fn a_corridor_longer_than_the_depth() {
    let mut board = board_with(2);
    for x in 0..32 {
        board.set_tile_at_coord(&at(x, 1), Cell::Obstacle);
    }
    let found = stats(&board, 0, 0);
    assert_eq!(found.accessible_area, 31);
    // Food at the very end of the corridor is one step too far.
    board.set_tile_at_coord(&at(31, 0), Cell::Food);
    let found = stats(&board, 0, 0);
    assert_eq!(found.accessible_area, 31);
    assert_eq!(found.num_accessible_food, 0);
    assert_eq!(found.min_dist_to_food, 36);
    board.set_tile_at_coord(&at(30, 0), Cell::Food);
    let found = stats(&board, 0, 0);
    assert_eq!(found.num_accessible_food, 1);
    assert_eq!(found.min_dist_to_food, 30);
}

#[test]
fn an_enemy_at_the_end_of_a_corridor() {
    let mut board = board_with(2);
    for x in 0..32 {
        board.set_tile_at_coord(&at(x, 1), Cell::Obstacle);
    }
    board.set_tile_at_coord(&at(31, 0), Cell::SnakeHead(4));
    let found = stats(&board, 0, 0);
    assert_eq!(found.accessible_area, 31);
    assert_eq!(found.sum_dist_enemy_heads, 30);
    assert_eq!(found.sum_dist_enemy_tails, 36);
    let found = stats(&board, 1, 0);
    assert_eq!(found.accessible_area, 31);
    assert_eq!(found.sum_dist_enemy_heads, 29);
}

#[test]
fn food_is_counted_and_the_nearest_is_told() {
    let mut board = board_with(2);
    board.set_tile_at_coord(&at(19, 8), Cell::Food);
    board.set_tile_at_coord(&at(16, 13), Cell::Food);
    board.set_tile_at_coord(&at(15, 7), Cell::Food);
    let found = stats(&board, 16, 8);
    assert_eq!(found.num_accessible_food, 3);
    assert_eq!(found.min_dist_to_food, 2);
    assert_eq!(found.accessible_area, 512);
    // From a corner, 22 cells of the board are more than 30 steps away.
    let found = stats(&board, 5, 5);
    assert_eq!(found.accessible_area, 490);
    assert_eq!(found.min_dist_to_food, 12);
}

#[test]
fn food_at_the_start_is_at_distance_zero() {
    let mut board = board_with(2);
    board.set_tile_at_coord(&at(5, 5), Cell::Food);
    let found = stats(&board, 5, 5);
    assert_eq!(found.num_accessible_food, 1);
    assert_eq!(found.min_dist_to_food, 0);
}

#[test]
fn food_behind_an_obstacle_is_further() {
    let mut board = board_with(2);
    // A wall across the board with one gap at the bottom.
    for y in 0..15 {
        board.set_tile_at_coord(&at(10, y), Cell::Obstacle);
    }
    board.set_tile_at_coord(&at(11, 0), Cell::Food);
    let found = stats(&board, 9, 0);
    // Down 15, across 2, up 15.
    assert_eq!(found.min_dist_to_food, 36);
    assert_eq!(found.num_accessible_food, 0);
    let found = stats(&board, 9, 3);
    // Down 12, across 2, up 15.
    assert_eq!(found.min_dist_to_food, 29);
    let found = stats(&board, 9, 8);
    // Down 7, across 2, up 15.
    assert_eq!(found.min_dist_to_food, 24);
    assert_eq!(found.num_accessible_food, 1);
}

#[test]
fn an_enemy_head_counts_with_the_distance_of_the_nearest_cell_next_to_it() {
    let mut board = board_with(2);
    board.set_tile_at_coord(&at(19, 8), Cell::SnakeHead(1));
    let found = stats(&board, 16, 8);
    assert_eq!(found.sum_dist_enemy_heads, 2);
    assert_eq!(found.sum_dist_enemy_tails, 36);
    assert_eq!(found.accessible_area, 511);
}

#[test]
fn enemy_heads_and_tails_add_up() {
    let mut board = board_with(4);
    board.set_tile_at_coord(&at(19, 8), Cell::SnakeHead(1));
    board.set_tile_at_coord(&at(16, 12), Cell::SnakeHead(2));
    board.set_tile_at_coord(&at(16, 3), Cell::SnakeTail(1));
    board.set_tile_at_coord(&at(11, 8), Cell::SnakeTail(2));
    board.set_tile_at_coord(&at(13, 5), Cell::SnakeBody(2));
    let found = stats(&board, 16, 8);
    assert_eq!(found.sum_dist_enemy_heads, 2 + 3);
    assert_eq!(found.sum_dist_enemy_tails, 4 + 4);
    assert_eq!(found.max_sum_dist_enemy, 3 * 36);
    assert_eq!(found.accessible_area, 512 - 5);
}

#[test]
fn an_enemy_next_to_the_start_is_met_at_distance_zero() {
    let mut board = board_with(2);
    board.set_tile_at_coord(&at(6, 5), Cell::SnakeHead(1));
    board.set_tile_at_coord(&at(5, 4), Cell::SnakeTail(1));
    let found = stats(&board, 5, 5);
    assert_eq!(found.sum_dist_enemy_heads, 0);
    assert_eq!(found.sum_dist_enemy_tails, 0);
}

#[test]
fn the_snakes_own_head_and_tail_are_not_enemies() {
    let mut board = board_with(2);
    board.set_tile_at_coord(&at(8, 5), Cell::SnakeHead(7));
    board.set_tile_at_coord(&at(5, 8), Cell::SnakeTail(7));
    let found = compute_stats_from(&7, &Some(at(5, 5)), &board);
    assert_eq!(found.sum_dist_enemy_heads, 36);
    assert_eq!(found.sum_dist_enemy_tails, 36);
    let found = compute_stats_from(&6, &Some(at(5, 5)), &board);
    assert_eq!(found.sum_dist_enemy_heads, 2);
    assert_eq!(found.sum_dist_enemy_tails, 2);
}

#[test]
fn enemies_that_are_not_met_count_as_far_as_the_board_is_wide() {
    for alive in 1..6usize {
        let board = board_with(alive);
        let found = stats(&board, 5, 5);
        assert_eq!(found.max_sum_dist_enemy, (alive as u128 - 1) * 36);
        assert_eq!(found.sum_dist_enemy_heads, (alive as u128 - 1) * 36);
        assert_eq!(found.sum_dist_enemy_tails, (alive as u128 - 1) * 36);
    }
}

#[test]
fn nothing_is_within_reach_of_a_start_that_is_not_free() {
    let mut board = board_with(2);
    board.set_tile_at_coord(&at(5, 5), Cell::Obstacle);
    board.set_tile_at_coord(&at(5, 6), Cell::Food);
    board.set_tile_at_coord(&at(5, 4), Cell::SnakeHead(3));
    let found = stats(&board, 5, 5);
    assert_eq!(found.accessible_area, 0);
    assert_eq!(found.num_accessible_food, 0);
    assert_eq!(found.min_dist_to_food, 36);
    assert_eq!(found.sum_dist_enemy_heads, 36);
    assert_eq!(found.sum_dist_enemy_tails, 36);
}

#[test]
fn nothing_is_within_reach_of_a_start_off_the_board() {
    let board = board_with(2);
    for coord in [None, Some(at(-1, 5)), Some(at(32, 5)), Some(at(3, 16)), Some(at(3, -1))].iter() {
        let found = compute_stats_from(&0, coord, &board);
        assert_eq!(found.accessible_area, 0);
        assert_eq!(found.num_accessible_food, 0);
        assert_eq!(found.min_dist_to_food, 36);
        assert_eq!(found.sum_dist_enemy_heads, 36);
    }
}

#[test]
fn the_count_of_free_cells_is_the_boards() {
    let mut board = board_with(2);
    board.place_obstacle(0, 0, 2);
    board.place_obstacle(1, 1, 2);
    let found = stats(&board, 16, 8);
    assert_eq!(found.nb_free_cells, 504);
    assert_eq!(found.accessible_area, 505);
}
