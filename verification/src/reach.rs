//! Reachability on the board: which free cells lie within a number of steps
//! of a start cell, going through free cells only, and sums over the cells
//! of the board.

use crate::board::Cell;
use crate::geometry::{pos_in_bounds, spec_next_coord_towards, Coordinate, Orientation, NB_CELLS};
use vstd::prelude::*;

verus! {

/// The position one step from `pos` in `dir`, or -1 off the board.
pub open spec fn step_to(pos: int, dir: Orientation) -> int {
    match spec_next_coord_towards(Coordinate::spec_from_pos(pos), dir) {
        Some(next) => next.spec_to_pos(),
        None => -1,
    }
}

pub open spec fn opposite(dir: Orientation) -> Orientation {
    match dir {
        Orientation::North => Orientation::South,
        Orientation::East => Orientation::West,
        Orientation::South => Orientation::North,
        Orientation::West => Orientation::East,
    }
}

/// The order in which the neighbours of a cell are looked at.
pub open spec fn rank(dir: Orientation) -> int {
    match dir {
        Orientation::West => 0,
        Orientation::East => 1,
        Orientation::North => 2,
        Orientation::South => 3,
    }
}

/// Whether `pos` is a free cell that a walk of at most `depth` steps
/// reaches from `start`, through free cells only. Nothing is within reach
/// of a start that is not itself a free cell of the board.
pub open spec fn within(cells: Seq<Cell>, start: int, pos: int, depth: nat) -> bool
    decreases depth,
{
    &&& pos_in_bounds(pos)
    &&& pos < cells.len()
    &&& cells[pos].is_free()
    &&& pos == start || (depth > 0 && {
        ||| within(cells, start, step_to(pos, Orientation::West), (depth - 1) as nat)
        ||| within(cells, start, step_to(pos, Orientation::East), (depth - 1) as nat)
        ||| within(cells, start, step_to(pos, Orientation::North), (depth - 1) as nat)
        ||| within(cells, start, step_to(pos, Orientation::South), (depth - 1) as nat)
    })
}

/// `within` for a depth that may be negative: nothing is within a negative
/// depth.
pub open spec fn within_depth(cells: Seq<Cell>, start: int, pos: int, depth: int) -> bool {
    depth >= 0 && within(cells, start, pos, depth as nat)
}

/// Whether `pos` lies next to a cell within `depth` steps of `start`.
pub open spec fn touched(cells: Seq<Cell>, start: int, pos: int, depth: int) -> bool {
    ||| within_depth(cells, start, step_to(pos, Orientation::West), depth)
    ||| within_depth(cells, start, step_to(pos, Orientation::East), depth)
    ||| within_depth(cells, start, step_to(pos, Orientation::North), depth)
    ||| within_depth(cells, start, step_to(pos, Orientation::South), depth)
}

/// The least depth from `depth` on at which `pos` is touched, or `limit`
/// if there is none below it.
pub open spec fn first_touch_from(cells: Seq<Cell>, start: int, pos: int, depth: int, limit: int)
    -> int
    decreases limit - depth,
{
    if depth >= limit || touched(cells, start, pos, depth) {
        depth
    } else {
        first_touch_from(cells, start, pos, depth + 1, limit)
    }
}

/// Whether food lies within `depth` steps of `start`.
pub open spec fn food_within(cells: Seq<Cell>, start: int, depth: int) -> bool {
    exists|pos: int| #[trigger] within_depth(cells, start, pos, depth) && cells[pos] == Cell::Food
}

/// The least depth from `depth` on at which food is within reach, or
/// `limit` if there is none below it.
pub open spec fn first_food_from(cells: Seq<Cell>, start: int, depth: int, limit: int) -> int
    decreases limit - depth,
{
    if depth >= limit || food_within(cells, start, depth) {
        depth
    } else {
        first_food_from(cells, start, depth + 1, limit)
    }
}

/// The sum of `value` over the first `count` positions.
pub open spec fn tally(count: nat, value: spec_fn(int) -> int) -> int
    decreases count,
{
    if count == 0 {
        0
    } else {
        tally((count - 1) as nat, value) + value(count - 1)
    }
}

/// Sums of values that agree but at one position differ by the values
/// there.
pub proof fn lemma_tally_changes_at(
    count: nat,
    before: spec_fn(int) -> int,
    after: spec_fn(int) -> int,
    at: int,
)
    requires
        forall|pos: int| 0 <= pos < count && pos != at ==> #[trigger] before(pos) == after(pos),
    ensures
        tally(count, after) == tally(count, before) + (if 0 <= at < count {
            after(at) - before(at)
        } else {
            0
        }),
    decreases count,
{
    if count > 0 {
        lemma_tally_changes_at((count - 1) as nat, before, after, at);
    }
}

/// A sum of values between two bounds lies between the bounds times the
/// number of positions.
pub proof fn lemma_tally_bounds(count: nat, value: spec_fn(int) -> int, low: int, high: int)
    requires
        forall|pos: int| 0 <= pos < count ==> low <= #[trigger] value(pos) <= high,
    ensures
        low * count <= tally(count, value) <= high * count,
    decreases count,
{
    if count > 0 {
        lemma_tally_bounds((count - 1) as nat, value, low, high);
        assert(low * count == low * (count - 1) + low) by (nonlinear_arith);
        assert(high * count == high * (count - 1) + high) by (nonlinear_arith);
    } else {
        assert(low * count == 0 && high * count == 0) by (nonlinear_arith)
            requires
                count == 0,
        ;
    }
}

/// What is within some depth is within every greater depth.
pub proof fn lemma_within_grows(cells: Seq<Cell>, start: int, pos: int, depth: nat, more: nat)
    requires
        within(cells, start, pos, depth),
        depth <= more,
    ensures
        within(cells, start, pos, more),
    decreases depth,
{
    if pos != start && depth > 0 {
        let d = (depth - 1) as nat;
        let m = (more - 1) as nat;
        if within(cells, start, step_to(pos, Orientation::West), d) {
            lemma_within_grows(cells, start, step_to(pos, Orientation::West), d, m);
        } else if within(cells, start, step_to(pos, Orientation::East), d) {
            lemma_within_grows(cells, start, step_to(pos, Orientation::East), d, m);
        } else if within(cells, start, step_to(pos, Orientation::North), d) {
            lemma_within_grows(cells, start, step_to(pos, Orientation::North), d, m);
        } else {
            lemma_within_grows(cells, start, step_to(pos, Orientation::South), d, m);
        }
    }
}

/// A step can be taken back: from where it leads, the opposite step leads
/// to where it began.
pub proof fn lemma_step_back(pos: int, dir: Orientation)
    requires
        pos_in_bounds(pos),
        step_to(pos, dir) >= 0,
    ensures
        pos_in_bounds(step_to(pos, dir)),
        step_to(pos, dir) != pos,
        step_to(step_to(pos, dir), opposite(dir)) == pos,
{
}

/// A free cell next to a cell within `depth` is within `depth + 1`.
pub proof fn lemma_within_next(cells: Seq<Cell>, start: int, from: int, dir: Orientation, depth: nat)
    requires
        cells.len() == NB_CELLS,
        within(cells, start, from, depth),
        step_to(from, dir) >= 0,
        cells[step_to(from, dir)].is_free(),
    ensures
        within(cells, start, step_to(from, dir), depth + 1),
{
    lemma_step_back(from, dir);
}

/// A cell within `depth + 1` is the start or lies next to a cell within
/// `depth`.
pub proof fn lemma_within_previous(cells: Seq<Cell>, start: int, pos: int, depth: nat) -> (dir:
    Orientation)
    requires
        within(cells, start, pos, depth + 1),
        pos != start,
    ensures
        within(cells, start, step_to(pos, dir), depth),
        step_to(pos, dir) >= 0,
{
    reveal_with_fuel(within, 2);
    if within(cells, start, step_to(pos, Orientation::West), depth) {
        Orientation::West
    } else if within(cells, start, step_to(pos, Orientation::East), depth) {
        Orientation::East
    } else if within(cells, start, step_to(pos, Orientation::North), depth) {
        Orientation::North
    } else {
        Orientation::South
    }
}

/// A cell touched at some depth is touched at every greater depth.
pub proof fn lemma_touched_grows(cells: Seq<Cell>, start: int, pos: int, depth: int, more: int)
    requires
        touched(cells, start, pos, depth),
        depth <= more,
    ensures
        touched(cells, start, pos, more),
{
    if within_depth(cells, start, step_to(pos, Orientation::West), depth) {
        lemma_within_grows(cells, start, step_to(pos, Orientation::West), depth as nat, more as nat);
    }
    if within_depth(cells, start, step_to(pos, Orientation::East), depth) {
        lemma_within_grows(cells, start, step_to(pos, Orientation::East), depth as nat, more as nat);
    }
    if within_depth(cells, start, step_to(pos, Orientation::North), depth) {
        lemma_within_grows(
            cells,
            start,
            step_to(pos, Orientation::North),
            depth as nat,
            more as nat,
        );
    }
    if within_depth(cells, start, step_to(pos, Orientation::South), depth) {
        lemma_within_grows(
            cells,
            start,
            step_to(pos, Orientation::South),
            depth as nat,
            more as nat,
        );
    }
}

/// The first touch of a cell is the depth at which it is touched and
/// below which it is not.
pub proof fn lemma_first_touch(cells: Seq<Cell>, start: int, pos: int, depth: int, limit: int, from: int)
    requires
        0 <= from <= depth < limit,
        touched(cells, start, pos, depth),
        !touched(cells, start, pos, depth - 1),
    ensures
        first_touch_from(cells, start, pos, from, limit) == depth,
    decreases depth - from,
{
    if from < depth {
        if touched(cells, start, pos, from) {
            lemma_touched_grows(cells, start, pos, from, depth - 1);
        }
        lemma_first_touch(cells, start, pos, depth, limit, from + 1);
    }
}

/// The first depth with food is the depth at which food is within reach
/// and below which it is not.
pub proof fn lemma_first_food(cells: Seq<Cell>, start: int, depth: int, limit: int, from: int)
    requires
        0 <= from <= depth < limit,
        food_within(cells, start, depth),
        !food_within(cells, start, depth - 1),
    ensures
        first_food_from(cells, start, from, limit) == depth,
    decreases depth - from,
{
    if from < depth {
        if food_within(cells, start, from) {
            let pos = choose|pos: int| #[trigger]
                within_depth(cells, start, pos, from) && cells[pos] == Cell::Food;
            lemma_within_grows(cells, start, pos, from as nat, (depth - 1) as nat);
            assert(within_depth(cells, start, pos, depth - 1));
        }
        lemma_first_food(cells, start, depth, limit, from + 1);
    }
}

/// Without food within `limit - 1`, the first depth with food is `limit`.
pub proof fn lemma_no_food(cells: Seq<Cell>, start: int, limit: int, from: int)
    requires
        0 <= from <= limit,
        !food_within(cells, start, limit - 1),
    ensures
        first_food_from(cells, start, from, limit) == limit,
    decreases limit - from,
{
    if from < limit {
        if food_within(cells, start, from) {
            let pos = choose|pos: int| #[trigger]
                within_depth(cells, start, pos, from) && cells[pos] == Cell::Food;
            lemma_within_grows(cells, start, pos, from as nat, (limit - 1) as nat);
            assert(within_depth(cells, start, pos, limit - 1));
        }
        lemma_no_food(cells, start, limit, from + 1);
    }
}

} // verus!
