//! The statistics by which a move is scored: a breadth-first search of
//! bounded depth from the cell that the move leads to, which counts the free
//! cells and the food within reach and sums the distances at which the
//! heads and tails of other snakes are met.
//!
//! The statistics are whole numbers, each with the number that it is to be
//! divided by.

use crate::board::{Cell, GameBoard};
use crate::geometry::{pos_in_bounds, Coordinate, Orientation, SnakeId, NB_CELLS};
use crate::reach::{
    first_food_from, first_touch_from, food_within, lemma_no_food, lemma_step_back,
    lemma_tally_bounds, lemma_tally_changes_at, opposite, step_to, tally, touched, within,
    within_depth,
};
use crate::search::search;
use vstd::prelude::*;

verus! {

/// The greatest number of steps that the search goes from its start.
pub const MAX_DEPTH: i32 = 30;

/// The length of the board's diagonal, rounded up.
pub const BOARD_DIAG_SIZE: i32 = 36;

/// The diagonal is the least whole number whose square is not below the sum
/// of the squares of the board's sides.
pub proof fn lemma_board_diag_size()
    ensures
        (BOARD_DIAG_SIZE - 1) * (BOARD_DIAG_SIZE - 1) < crate::geometry::BOARD_WIDTH
            * crate::geometry::BOARD_WIDTH + crate::geometry::BOARD_HEIGHT
            * crate::geometry::BOARD_HEIGHT <= BOARD_DIAG_SIZE * BOARD_DIAG_SIZE,
{
    assert(35 * 35 < 32 * 32 + 16 * 16 <= 36 * 36) by (nonlinear_arith);
}

/// The position that a search begins at: that of `coord`, or -1 if there
/// is none on the board.
pub open spec fn start_pos(coord: Option<Coordinate>) -> int {
    match coord {
        Some(c) => if c.spec_is_out_of_bounds() {
            -1
        } else {
            c.spec_to_pos()
        },
        None => -1,
    }
}

/// Whether `pos` holds the head of a snake other than `me`.
pub open spec fn enemy_head(cells: Seq<Cell>, me: SnakeId, pos: int) -> bool {
    cells[pos] matches Cell::SnakeHead(id) && id != me
}

/// Whether `pos` holds the tail of a snake other than `me`.
pub open spec fn enemy_tail(cells: Seq<Cell>, me: SnakeId, pos: int) -> bool {
    cells[pos] matches Cell::SnakeTail(id) && id != me
}

/// Whether `pos` holds a head (if `heads`) or a tail (if not) of a snake
/// other than `me`.
pub open spec fn enemy_end(cells: Seq<Cell>, me: SnakeId, heads: bool, pos: int) -> bool {
    if heads {
        enemy_head(cells, me, pos)
    } else {
        enemy_tail(cells, me, pos)
    }
}

/// 1 for a cell within `MAX_DEPTH` steps of `start`, else 0.
pub open spec fn in_reach(cells: Seq<Cell>, start: int) -> spec_fn(int) -> int {
    |pos: int|
        if within_depth(cells, start, pos, MAX_DEPTH as int) {
            1int
        } else {
            0int
        }
}

/// 1 for a cell with food within `MAX_DEPTH` steps of `start`, else 0.
pub open spec fn food_in_reach(cells: Seq<Cell>, start: int) -> spec_fn(int) -> int {
    |pos: int|
        if within_depth(cells, start, pos, MAX_DEPTH as int) && cells[pos] == Cell::Food {
            1int
        } else {
            0int
        }
}

/// 1 for an enemy head (or tail) next to a cell within `MAX_DEPTH` steps of
/// `start`, else 0.
pub open spec fn end_met(cells: Seq<Cell>, start: int, me: SnakeId, heads: bool) -> spec_fn(
    int,
) -> int {
    |pos: int|
        if enemy_end(cells, me, heads, pos) && touched(cells, start, pos, MAX_DEPTH as int) {
            1int
        } else {
            0int
        }
}

/// For an enemy head (or tail) next to a cell within `MAX_DEPTH` steps of
/// `start`, the least number of steps to such a cell; else 0.
pub open spec fn end_distance(cells: Seq<Cell>, start: int, me: SnakeId, heads: bool) -> spec_fn(
    int,
) -> int {
    |pos: int|
        if enemy_end(cells, me, heads, pos) && touched(cells, start, pos, MAX_DEPTH as int) {
            first_touch_from(cells, start, pos, 0, MAX_DEPTH + 1)
        } else {
            0int
        }
}

/// The number of free cells within `MAX_DEPTH` steps of `start`.
pub open spec fn accessible_area(cells: Seq<Cell>, start: int) -> int {
    tally(NB_CELLS as nat, in_reach(cells, start))
}

/// The number of cells with food within `MAX_DEPTH` steps of `start`.
pub open spec fn accessible_food(cells: Seq<Cell>, start: int) -> int {
    tally(NB_CELLS as nat, food_in_reach(cells, start))
}

/// The number of enemy heads (or tails) that the search meets.
pub open spec fn ends_met(cells: Seq<Cell>, start: int, me: SnakeId, heads: bool) -> int {
    tally(NB_CELLS as nat, end_met(cells, start, me, heads))
}

/// The sum, over the enemy heads (or tails) that the search meets, of the
/// steps to the nearest cell next to each.
pub open spec fn sum_dist_ends(cells: Seq<Cell>, start: int, me: SnakeId, heads: bool) -> int {
    tally(NB_CELLS as nat, end_distance(cells, start, me, heads))
}

/// The steps to the nearest food within `MAX_DEPTH` steps of `start`, or
/// the board's diagonal if there is none.
pub open spec fn min_dist_to_food(cells: Seq<Cell>, start: int) -> int {
    let first = first_food_from(cells, start, 0, MAX_DEPTH + 1);
    if first <= MAX_DEPTH {
        first
    } else {
        BOARD_DIAG_SIZE as int
    }
}

/// The distance that stands for enemies that were not met: the board's
/// diagonal for each snake but one.
pub open spec fn max_sum_dist_enemy(nb_alive_snakes: int) -> int {
    (nb_alive_snakes - 1) * BOARD_DIAG_SIZE
}

/// A sum of distances to enemies, or what stands for it if none was met.
pub open spec fn sum_or_far(met: int, sum: int, nb_alive_snakes: int) -> int {
    if met == 0 {
        max_sum_dist_enemy(nb_alive_snakes)
    } else {
        sum
    }
}

/// What a search found. Each of the first five fields is to be divided by
/// one of the last three.
#[derive(Debug, Clone, Copy, PartialEq, Eq)]
pub struct Stats {
    /// Free cells within reach; to be divided by `nb_free_cells`.
    pub accessible_area: u32,
    /// Cells with food within reach; to be divided by `nb_free_cells`.
    pub num_accessible_food: u32,
    /// Sum of the distances to the enemy heads met, or
    /// `max_sum_dist_enemy` if none was met; to be divided by
    /// `max_sum_dist_enemy`.
    pub sum_dist_enemy_heads: u128,
    /// Sum of the distances to the enemy tails met, or
    /// `max_sum_dist_enemy` if none was met; to be divided by
    /// `max_sum_dist_enemy`.
    pub sum_dist_enemy_tails: u128,
    /// Distance to the nearest food, or `board_diag_size` if none is within
    /// reach; to be divided by `board_diag_size`.
    pub min_dist_to_food: u32,
    /// The board's count of free cells.
    pub nb_free_cells: i32,
    /// The board's diagonal for each living snake but one.
    pub max_sum_dist_enemy: u128,
    /// The length of the board's diagonal, rounded up.
    pub board_diag_size: u32,
}

impl Stats {
    /// The number of statistics.
    pub fn len(&self) -> (len: usize)
        ensures
            len == 5,
    {
        5
    }
}

/// The first depth with food lies between where the search for it begins
/// and its limit.
pub proof fn lemma_first_food_bounds(cells: Seq<Cell>, start: int, from: int, limit: int)
    requires
        from <= limit,
    ensures
        from <= first_food_from(cells, start, from, limit) <= limit,
    decreases limit - from,
{
    if from < limit && !food_within(cells, start, from) {
        lemma_first_food_bounds(cells, start, from + 1, limit);
    }
}

/// The statistics of the move of snake `snake_id` to `coord`, on `board`.
///
/// `coord` is `None` for a move that leads off the board; then, and when
/// `coord` is not a free cell, nothing is within reach.
pub fn compute_stats_from(snake_id: &SnakeId, coord: &Option<Coordinate>, board: &GameBoard) -> (stats:
    Stats)
    requires
        board.wf(),
        board.nb_alive_snakes() >= 1,
    ensures
        stats.accessible_area == accessible_area(board@, start_pos(*coord)),
        stats.num_accessible_food == accessible_food(board@, start_pos(*coord)),
        stats.sum_dist_enemy_heads == sum_or_far(
            ends_met(board@, start_pos(*coord), *snake_id, true),
            sum_dist_ends(board@, start_pos(*coord), *snake_id, true),
            board.nb_alive_snakes() as int,
        ),
        stats.sum_dist_enemy_tails == sum_or_far(
            ends_met(board@, start_pos(*coord), *snake_id, false),
            sum_dist_ends(board@, start_pos(*coord), *snake_id, false),
            board.nb_alive_snakes() as int,
        ),
        stats.min_dist_to_food == min_dist_to_food(board@, start_pos(*coord)),
        stats.nb_free_cells == board.nb_free_cells(),
        stats.max_sum_dist_enemy == max_sum_dist_enemy(board.nb_alive_snakes() as int),
        stats.board_diag_size == BOARD_DIAG_SIZE,
{
    let counts = search(board, *snake_id, coord);
    proof {
        lemma_first_food_bounds(board@, start_pos(*coord), 0, MAX_DEPTH + 1);
    }
    // Enemies that were not met count as far away.
    let max_sum_dist_enemy: u128 = (board.nb_alive_snakes() as u128 - 1) * 36;
    let sum_dist_enemy_heads: u128 = if counts.heads_met == 0 {
        max_sum_dist_enemy
    } else {
        counts.heads_sum as u128
    };
    let sum_dist_enemy_tails: u128 = if counts.tails_met == 0 {
        max_sum_dist_enemy
    } else {
        counts.tails_sum as u128
    };
    Stats {
        accessible_area: counts.area,
        num_accessible_food: counts.food,
        sum_dist_enemy_heads,
        sum_dist_enemy_tails,
        min_dist_to_food: counts.min_food as u32,
        nb_free_cells: board.nb_free_cells(),
        max_sum_dist_enemy,
        board_diag_size: 36,
    }
}

/// Whether the cell `start` is an empty cell with an obstacle or the edge of
/// the board on each of its four sides.
pub open spec fn closed_pocket(cells: Seq<Cell>, start: int) -> bool {
    &&& cells.len() == NB_CELLS
    &&& pos_in_bounds(start)
    &&& cells[start] == Cell::Empty
    &&& forall|dir: Orientation|
        #![trigger step_to(start, dir)]
        step_to(start, dir) >= 0 ==> cells[step_to(start, dir)] == Cell::Obstacle
}

/// From a closed pocket, only the pocket itself is within reach.
proof fn lemma_pocket_reach(cells: Seq<Cell>, start: int, pos: int, depth: nat)
    requires
        closed_pocket(cells, start),
        within(cells, start, pos, depth),
    ensures
        pos == start,
    decreases depth,
{
    if pos != start {
        let d = (depth - 1) as nat;
        let dir = if within(cells, start, step_to(pos, Orientation::West), d) {
            Orientation::West
        } else if within(cells, start, step_to(pos, Orientation::East), d) {
            Orientation::East
        } else if within(cells, start, step_to(pos, Orientation::North), d) {
            Orientation::North
        } else {
            Orientation::South
        };
        lemma_pocket_reach(cells, start, step_to(pos, dir), d);
        lemma_step_back(pos, dir);
        assert(step_to(start, opposite(dir)) == pos);
    }
}

/// In a closed pocket no enemy head (or tail) is met, so that their number
/// and the sum of their distances are zero.
proof fn lemma_pocket_meets_nobody(cells: Seq<Cell>, start: int, me: SnakeId, heads: bool)
    requires
        closed_pocket(cells, start),
    ensures
        ends_met(cells, start, me, heads) == 0,
        sum_dist_ends(cells, start, me, heads) == 0,
{
    let n = NB_CELLS as nat;
    let nothing = |pos: int| 0int;
    lemma_tally_bounds(n, nothing, 0, 0);
    assert forall|pos: int| 0 <= pos < n implies !(enemy_end(cells, me, heads, pos) && touched(
        cells,
        start,
        pos,
        MAX_DEPTH as int,
    )) by {
        if touched(cells, start, pos, MAX_DEPTH as int) {
            let dir = if within_depth(
                cells,
                start,
                step_to(pos, Orientation::West),
                MAX_DEPTH as int,
            ) {
                Orientation::West
            } else if within_depth(cells, start, step_to(pos, Orientation::East), MAX_DEPTH as int) {
                Orientation::East
            } else if within_depth(cells, start, step_to(pos, Orientation::North), MAX_DEPTH as int) {
                Orientation::North
            } else {
                Orientation::South
            };
            lemma_pocket_reach(cells, start, step_to(pos, dir), MAX_DEPTH as nat);
            lemma_step_back(pos, dir);
            assert(step_to(start, opposite(dir)) == pos);
        }
    }
    assert forall|pos: int| 0 <= pos < n implies #[trigger] nothing(pos) == end_met(
        cells,
        start,
        me,
        heads,
    )(pos) && nothing(pos) == end_distance(cells, start, me, heads)(pos) by {
        assert(!(enemy_end(cells, me, heads, pos) && touched(cells, start, pos, MAX_DEPTH as int)));
    }
    lemma_tally_changes_at(n, nothing, end_met(cells, start, me, heads), -1);
    lemma_tally_changes_at(n, nothing, end_distance(cells, start, me, heads), -1);
}

/// The statistics of a closed pocket: one cell is within reach, no food,
/// and no enemy is met.
pub proof fn lemma_closed_pocket(cells: Seq<Cell>, start: int, me: SnakeId)
    requires
        closed_pocket(cells, start),
    ensures
        accessible_area(cells, start) == 1,
        accessible_food(cells, start) == 0,
        ends_met(cells, start, me, true) == 0,
        ends_met(cells, start, me, false) == 0,
        sum_dist_ends(cells, start, me, true) == 0,
        sum_dist_ends(cells, start, me, false) == 0,
        min_dist_to_food(cells, start) == BOARD_DIAG_SIZE,
{
    let n = NB_CELLS as nat;
    let nothing = |pos: int| 0int;
    lemma_tally_bounds(n, nothing, 0, 0);
    assert forall|pos: int, depth: int| #[trigger]
        within_depth(cells, start, pos, depth) implies pos == start by {
        lemma_pocket_reach(cells, start, pos, depth as nat);
    }
    assert(within_depth(cells, start, start, MAX_DEPTH as int));
    lemma_tally_changes_at(n, nothing, in_reach(cells, start), start);
    lemma_tally_changes_at(n, nothing, food_in_reach(cells, start), -1);
    lemma_pocket_meets_nobody(cells, start, me, true);
    lemma_pocket_meets_nobody(cells, start, me, false);
    if food_within(cells, start, MAX_DEPTH as int) {
        let food = choose|food: int| #[trigger]
            within_depth(cells, start, food, MAX_DEPTH as int) && cells[food] == Cell::Food;
        assert(food == start);
    }
    lemma_no_food(cells, start, MAX_DEPTH + 1, 0);
}

} // verus!
