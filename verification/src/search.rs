//! The breadth-first search behind the statistics: a queue of free cells in
//! the order of their distance from the start, the set of cells already
//! seen, and the counts kept on the way; with what holds of them at every
//! step.

use crate::board::{Cell, GameBoard};
use crate::geometry::{
    next_coord_towards, pos_in_bounds, Coordinate, Orientation, Position, SnakeId, NB_CELLS,
};
use crate::heuristic_bot::{
    accessible_area, accessible_food, end_distance, end_met, ends_met, enemy_end, food_in_reach,
    in_reach, min_dist_to_food, start_pos, sum_dist_ends, BOARD_DIAG_SIZE, MAX_DEPTH,
};
use crate::reach::{
    first_touch_from, food_within, lemma_first_food, lemma_first_touch, lemma_no_food,
    lemma_step_back, lemma_tally_bounds, lemma_tally_changes_at, lemma_within_grows,
    lemma_within_next, lemma_within_previous, opposite, rank, step_to, tally, touched, within,
    within_depth,
};
use crate::snake::lies_on;
use vstd::prelude::*;

verus! {

/// Whether a cell of `queue` whose neighbours have been looked at has `pos`
/// as one of them. The first `next` cells are done; of the one after
/// them, the first `dirs_done` neighbours.
pub open spec fn looked(queue: Seq<Position>, next: int, dirs_done: int, pos: int) -> bool {
    exists|k: int, dir: Orientation|
        0 <= k < queue.len() && k <= next && #[trigger] step_to(queue[k] as int, dir) == pos && (k
            < next || rank(dir) < dirs_done)
}

/// What holds of the queue while the cells at `depth` steps are being
/// done: its cells are free, seen and all different; those before
/// `level_end` lie within `depth`, the others one step further; and every
/// cell within `depth` is in it.
pub open spec fn queue_ok(
    cells: Seq<Cell>,
    start: int,
    queue: Seq<Position>,
    next: int,
    added: Seq<bool>,
    depth: int,
    level_end: int,
) -> bool {
    &&& cells.len() == NB_CELLS
    &&& added.len() == NB_CELLS
    &&& 0 <= depth
    &&& 0 <= next <= level_end <= queue.len()
    &&& forall|k: int|
        0 <= k < queue.len() ==> pos_in_bounds(#[trigger] queue[k] as int)
            && cells[queue[k] as int].is_free() && added[queue[k] as int]
    &&& forall|k: int, j: int|
        0 <= k < j < queue.len() ==> #[trigger] queue[k] != #[trigger] queue[j]
    &&& forall|k: int|
        0 <= k < level_end ==> within_depth(cells, start, #[trigger] queue[k] as int, depth)
    &&& forall|k: int|
        0 <= k < queue.len() ==> within_depth(cells, start, #[trigger] queue[k] as int, depth + 1)
    &&& forall|k: int|
        level_end <= k < queue.len() ==> !within_depth(
            cells,
            start,
            #[trigger] queue[k] as int,
            depth,
        )
    &&& forall|k: int|
        next <= k < queue.len() ==> !within_depth(
            cells,
            start,
            #[trigger] queue[k] as int,
            depth - 1,
        )
    &&& forall|pos: int| #[trigger]
        within_depth(cells, start, pos, depth) ==> lies_on(queue.take(level_end), pos)
    &&& forall|pos: int| #[trigger]
        within_depth(cells, start, pos, depth - 1) ==> lies_on(queue.take(next), pos)
}

/// What holds of the cells seen: they are those of the queue and the
/// neighbours looked at; and a free neighbour looked at is in the queue.
pub open spec fn added_ok(
    cells: Seq<Cell>,
    queue: Seq<Position>,
    next: int,
    added: Seq<bool>,
    dirs_done: int,
) -> bool {
    &&& forall|pos: int|
        0 <= pos < NB_CELLS ==> (#[trigger] added[pos] <==> lies_on(queue, pos) || looked(
            queue,
            next,
            dirs_done,
            pos,
        ))
    &&& forall|pos: int|
        0 <= pos < NB_CELLS && cells[pos].is_free() && #[trigger] added[pos] ==> lies_on(
            queue,
            pos,
        )
}

/// 1 for a cell among the first `next` of the queue, else 0.
pub open spec fn done_cell(queue: Seq<Position>, next: int) -> spec_fn(int) -> int {
    |pos: int|
        if lies_on(queue.take(next), pos) {
            1int
        } else {
            0int
        }
}

/// 1 for a cell with food among the first `next` of the queue, else 0.
pub open spec fn done_food(cells: Seq<Cell>, queue: Seq<Position>, next: int) -> spec_fn(
    int,
) -> int {
    |pos: int|
        if lies_on(queue.take(next), pos) && cells[pos] == Cell::Food {
            1int
        } else {
            0int
        }
}

/// 1 for an enemy head (or tail) that was seen, else 0.
pub open spec fn seen_end(cells: Seq<Cell>, me: SnakeId, heads: bool, added: Seq<bool>) -> spec_fn(
    int,
) -> int {
    |pos: int|
        if enemy_end(cells, me, heads, pos) && added[pos] {
            1int
        } else {
            0int
        }
}

/// For an enemy head (or tail) that was seen, the least number of steps to
/// a cell next to it; else 0.
pub open spec fn seen_end_distance(
    cells: Seq<Cell>,
    start: int,
    me: SnakeId,
    heads: bool,
    added: Seq<bool>,
) -> spec_fn(int) -> int {
    |pos: int|
        if enemy_end(cells, me, heads, pos) && added[pos] {
            first_touch_from(cells, start, pos, 0, MAX_DEPTH + 1)
        } else {
            0int
        }
}

/// The counts of a search.
pub struct Counts {
    pub area: u32,
    pub food: u32,
    pub min_food: i32,
    pub heads_met: u32,
    pub heads_sum: u32,
    pub tails_met: u32,
    pub tails_sum: u32,
}

/// What holds of the counts: they count the cells of the queue that are
/// done and the enemy heads and tails seen.
pub open spec fn counts_ok(
    cells: Seq<Cell>,
    start: int,
    me: SnakeId,
    queue: Seq<Position>,
    next: int,
    added: Seq<bool>,
    depth: int,
    counts: Counts,
) -> bool {
    &&& counts.area == tally(NB_CELLS as nat, done_cell(queue, next))
    &&& counts.food == tally(NB_CELLS as nat, done_food(cells, queue, next))
    &&& counts.heads_met == tally(NB_CELLS as nat, seen_end(cells, me, true, added))
    &&& counts.heads_sum == tally(
        NB_CELLS as nat,
        seen_end_distance(cells, start, me, true, added),
    )
    &&& counts.tails_met == tally(NB_CELLS as nat, seen_end(cells, me, false, added))
    &&& counts.tails_sum == tally(
        NB_CELLS as nat,
        seen_end_distance(cells, start, me, false, added),
    )
    &&& if counts.food == 0 {
        &&& counts.min_food == BOARD_DIAG_SIZE
        &&& forall|k: int| 0 <= k < next ==> cells[#[trigger] queue[k] as int] != Cell::Food
    } else {
        &&& 0 <= counts.min_food <= depth
        &&& counts.min_food <= MAX_DEPTH
        &&& food_within(cells, start, counts.min_food as int)
        &&& !food_within(cells, start, counts.min_food - 1)
    }
}

/// The first touch of a cell lies between where the search for it begins
/// and its limit.
pub proof fn lemma_first_touch_bounds(cells: Seq<Cell>, start: int, pos: int, from: int, limit: int)
    requires
        from <= limit,
    ensures
        from <= first_touch_from(cells, start, pos, from, limit) <= limit,
    decreases limit - from,
{
    if from < limit && !touched(cells, start, pos, from) {
        lemma_first_touch_bounds(cells, start, pos, from + 1, limit);
    }
}

/// The counts fit the numbers that hold them.
pub proof fn lemma_counts_small(
    cells: Seq<Cell>,
    start: int,
    me: SnakeId,
    queue: Seq<Position>,
    next: int,
    added: Seq<bool>,
    depth: int,
    counts: Counts,
)
    requires
        counts_ok(cells, start, me, queue, next, added, depth, counts),
    ensures
        counts.area <= 512,
        counts.food <= 512,
        counts.heads_met <= 512,
        counts.tails_met <= 512,
        counts.heads_sum <= 31 * 512,
        counts.tails_sum <= 31 * 512,
{
    lemma_tally_bounds(NB_CELLS as nat, done_cell(queue, next), 0, 1);
    lemma_tally_bounds(NB_CELLS as nat, done_food(cells, queue, next), 0, 1);
    lemma_tally_bounds(NB_CELLS as nat, seen_end(cells, me, true, added), 0, 1);
    lemma_tally_bounds(NB_CELLS as nat, seen_end(cells, me, false, added), 0, 1);
    assert forall|pos: int| 0 <= pos < NB_CELLS implies 0 <= #[trigger] seen_end_distance(
        cells,
        start,
        me,
        true,
        added,
    )(pos) <= 31 by {
        lemma_first_touch_bounds(cells, start, pos, 0, MAX_DEPTH + 1);
    }
    assert forall|pos: int| 0 <= pos < NB_CELLS implies 0 <= #[trigger] seen_end_distance(
        cells,
        start,
        me,
        false,
        added,
    )(pos) <= 31 by {
        lemma_first_touch_bounds(cells, start, pos, 0, MAX_DEPTH + 1);
    }
    lemma_tally_bounds(NB_CELLS as nat, seen_end_distance(cells, start, me, true, added), 0, 31);
    lemma_tally_bounds(NB_CELLS as nat, seen_end_distance(cells, start, me, false, added), 0, 31);
}

/// Looking at one more neighbour of the cell being done adds that
/// neighbour to the cells looked at, and nothing else; cells that joined the
/// queue meanwhile make no difference.
pub proof fn lemma_looked_next(
    queue: Seq<Position>,
    longer: Seq<Position>,
    next: int,
    dir: Orientation,
    pos: int,
)
    requires
        0 <= next < queue.len(),
        queue.len() <= longer.len(),
        forall|k: int| 0 <= k < queue.len() ==> #[trigger] longer[k] == queue[k],
    ensures
        looked(longer, next, rank(dir) + 1, pos) <==> looked(queue, next, rank(dir), pos)
            || step_to(queue[next] as int, dir) == pos,
{
    if looked(longer, next, rank(dir) + 1, pos) {
        let (k, d) = choose|k: int, d: Orientation|
            0 <= k < longer.len() && k <= next && #[trigger] step_to(longer[k] as int, d) == pos
                && (k < next || rank(d) < rank(dir) + 1);
        assert(longer[k] == queue[k]);
        if k < next || rank(d) < rank(dir) {
            assert(step_to(queue[k] as int, d) == pos);
        } else {
            assert(d == dir);
        }
    }
    if looked(queue, next, rank(dir), pos) {
        let (k, d) = choose|k: int, d: Orientation|
            0 <= k < queue.len() && k <= next && #[trigger] step_to(queue[k] as int, d) == pos && (
            k < next || rank(d) < rank(dir));
        assert(longer[k] == queue[k]);
        assert(step_to(longer[k] as int, d) == pos);
    }
    if step_to(queue[next] as int, dir) == pos {
        assert(longer[next] == queue[next]);
        assert(step_to(longer[next] as int, dir) == pos);
    }
}

/// When all four neighbours of a cell have been looked at, the cell is
/// done.
pub proof fn lemma_looked_cell_done(queue: Seq<Position>, next: int, pos: int)
    requires
        0 <= next < queue.len(),
    ensures
        looked(queue, next, 4, pos) <==> looked(queue, next + 1, 0, pos),
{
    if looked(queue, next, 4, pos) {
        let (k, d) = choose|k: int, d: Orientation|
            0 <= k < queue.len() && k <= next && #[trigger] step_to(queue[k] as int, d) == pos && (
            k < next || rank(d) < 4);
        assert(step_to(queue[k] as int, d) == pos);
    }
    if looked(queue, next + 1, 0, pos) {
        let (k, d) = choose|k: int, d: Orientation|
            0 <= k < queue.len() && k <= next + 1 && #[trigger] step_to(queue[k] as int, d) == pos
                && (k < next + 1 || rank(d) < 0);
        assert(step_to(queue[k] as int, d) == pos);
    }
}

/// Being one of a sequence's positions, spelled out for a sequence with
/// one more.
pub proof fn lemma_lies_on_push(queue: Seq<Position>, last: Position, pos: int)
    ensures
        lies_on(queue.push(last), pos) <==> lies_on(queue, pos) || last == pos,
{
    let longer = queue.push(last);
    if lies_on(longer, pos) {
        let k = choose|k: int| 0 <= k < longer.len() && #[trigger] longer[k] == pos;
        if k < queue.len() {
            assert(queue[k] == pos);
        }
    }
    if lies_on(queue, pos) {
        let k = choose|k: int| 0 <= k < queue.len() && #[trigger] queue[k] == pos;
        assert(longer[k] == pos);
    }
    if last == pos {
        assert(longer[queue.len() as int] == pos);
    }
}

/// The queue after a look at the cell `seen` (-1 if there is none): a
/// free cell not seen before joins it.
pub open spec fn queue_after_look(
    cells: Seq<Cell>,
    queue: Seq<Position>,
    added: Seq<bool>,
    seen: int,
) -> Seq<Position> {
    if seen >= 0 && !added[seen] && cells[seen].is_free() {
        queue.push(seen as Position)
    } else {
        queue
    }
}

/// The cells seen after a look at the cell `seen` (-1 if there is none).
pub open spec fn added_after_look(added: Seq<bool>, seen: int) -> Seq<bool> {
    if seen >= 0 {
        added.update(seen, true)
    } else {
        added
    }
}

/// The counts after a look, from a cell at `depth` steps, at the cell
/// `seen` (-1 if there is none): an enemy head or tail not seen before is
/// counted, with the depth as its distance.
pub open spec fn counts_after_look(
    cells: Seq<Cell>,
    me: SnakeId,
    added: Seq<bool>,
    seen: int,
    depth: int,
    counts: Counts,
) -> Counts {
    if seen >= 0 && !added[seen] && enemy_end(cells, me, true, seen) {
        Counts {
            heads_met: (counts.heads_met + 1) as u32,
            heads_sum: (counts.heads_sum + depth) as u32,
            ..counts
        }
    } else if seen >= 0 && !added[seen] && enemy_end(cells, me, false, seen) {
        Counts {
            tails_met: (counts.tails_met + 1) as u32,
            tails_sum: (counts.tails_sum + depth) as u32,
            ..counts
        }
    } else {
        counts
    }
}

/// A look at a neighbour keeps the queue as it should be.
pub proof fn lemma_look_queue(
    cells: Seq<Cell>,
    start: int,
    queue: Seq<Position>,
    next: int,
    added: Seq<bool>,
    depth: int,
    level_end: int,
    dir: Orientation,
)
    requires
        queue_ok(cells, start, queue, next, added, depth, level_end),
        added_ok(cells, queue, next, added, rank(dir)),
        next < level_end,
    ensures
        ({
            let seen = step_to(queue[next] as int, dir);
            &&& seen >= 0 ==> pos_in_bounds(seen)
            &&& queue_ok(
                cells,
                start,
                queue_after_look(cells, queue, added, seen),
                next,
                added_after_look(added, seen),
                depth,
                level_end,
            )
        }),
{
    let from = queue[next] as int;
    let seen = step_to(from, dir);
    let longer = queue_after_look(cells, queue, added, seen);
    let more = added_after_look(added, seen);
    assert(pos_in_bounds(from));
    if seen >= 0 {
        lemma_step_back(from, dir);
    }
    assert forall|k: int| 0 <= k < queue.len() implies #[trigger] longer[k] == queue[k] by {}
    assert(longer.take(level_end) =~= queue.take(level_end));
    assert(longer.take(next) =~= queue.take(next));
    if seen >= 0 && !added[seen] && cells[seen].is_free() {
        assert(within_depth(cells, start, from, depth));
        lemma_within_next(cells, start, from, dir, depth as nat);
        assert(!lies_on(queue, seen));
        if within_depth(cells, start, seen, depth) {
            let k = choose|k: int|
                0 <= k < queue.take(level_end).len() && #[trigger] queue.take(level_end)[k]
                    == seen;
            assert(queue[k] == seen);
        }
        if within_depth(cells, start, seen, depth - 1) {
            lemma_within_grows(cells, start, seen, (depth - 1) as nat, depth as nat);
        }
        assert forall|k: int, j: int| 0 <= k < j < longer.len() implies #[trigger] longer[k]
            != #[trigger] longer[j] by {
            if j == queue.len() {
                assert(queue[k] == longer[k]);
                if queue[k] == seen {
                    assert(lies_on(queue, seen));
                }
            } else {
                assert(queue[k] != queue[j]);
            }
        }
    }
    assert forall|k: int| 0 <= k < longer.len() implies pos_in_bounds(#[trigger] longer[k] as int)
        && cells[longer[k] as int].is_free() && more[longer[k] as int] by {
        if k < queue.len() {
            assert(pos_in_bounds(queue[k] as int));
        }
    }
    assert forall|k: int| 0 <= k < level_end implies within_depth(
        cells,
        start,
        #[trigger] longer[k] as int,
        depth,
    ) by {
        assert(within_depth(cells, start, queue[k] as int, depth));
    }
    assert forall|k: int| 0 <= k < longer.len() implies within_depth(
        cells,
        start,
        #[trigger] longer[k] as int,
        depth + 1,
    ) by {
        if k < queue.len() {
            assert(within_depth(cells, start, queue[k] as int, depth + 1));
        }
    }
    assert forall|k: int| level_end <= k < longer.len() implies !within_depth(
        cells,
        start,
        #[trigger] longer[k] as int,
        depth,
    ) by {
        if k < queue.len() {
            assert(!within_depth(cells, start, queue[k] as int, depth));
        }
    }
    assert forall|k: int| next <= k < longer.len() implies !within_depth(
        cells,
        start,
        #[trigger] longer[k] as int,
        depth - 1,
    ) by {
        if k < queue.len() {
            assert(!within_depth(cells, start, queue[k] as int, depth - 1));
        }
    }
}

/// A look at a neighbour keeps the cells seen as they should be.
pub proof fn lemma_look_added(
    cells: Seq<Cell>,
    start: int,
    queue: Seq<Position>,
    next: int,
    added: Seq<bool>,
    depth: int,
    level_end: int,
    dir: Orientation,
)
    requires
        queue_ok(cells, start, queue, next, added, depth, level_end),
        added_ok(cells, queue, next, added, rank(dir)),
        next < level_end,
    ensures
        ({
            let seen = step_to(queue[next] as int, dir);
            added_ok(
                cells,
                queue_after_look(cells, queue, added, seen),
                next,
                added_after_look(added, seen),
                rank(dir) + 1,
            )
        }),
{
    let from = queue[next] as int;
    let seen = step_to(from, dir);
    let longer = queue_after_look(cells, queue, added, seen);
    let more = added_after_look(added, seen);
    assert(pos_in_bounds(from));
    if seen >= 0 {
        lemma_step_back(from, dir);
    }
    assert forall|pos: int| 0 <= pos < NB_CELLS implies (#[trigger] more[pos] <==> lies_on(
        longer,
        pos,
    ) || looked(longer, next, rank(dir) + 1, pos)) by {
        lemma_looked_next(queue, longer, next, dir, pos);
        if longer.len() > queue.len() {
            lemma_lies_on_push(queue, seen as Position, pos);
        }
        assert(added[pos] <==> lies_on(queue, pos) || looked(queue, next, rank(dir), pos));
    }
    assert forall|pos: int|
        0 <= pos < NB_CELLS && cells[pos].is_free() && #[trigger] more[pos] implies lies_on(
        longer,
        pos,
    ) by {
        if longer.len() > queue.len() {
            lemma_lies_on_push(queue, seen as Position, pos);
        }
        if pos != seen || added[pos] {
            assert(added[pos]);
        }
    }
}

/// A look at a neighbour keeps the counts as they should be.
pub proof fn lemma_look_counts(
    cells: Seq<Cell>,
    start: int,
    me: SnakeId,
    queue: Seq<Position>,
    next: int,
    added: Seq<bool>,
    depth: int,
    level_end: int,
    dir: Orientation,
    counts: Counts,
)
    requires
        queue_ok(cells, start, queue, next, added, depth, level_end),
        added_ok(cells, queue, next, added, rank(dir)),
        counts_ok(cells, start, me, queue, next, added, depth, counts),
        next < level_end,
        depth <= MAX_DEPTH,
    ensures
        ({
            let seen = step_to(queue[next] as int, dir);
            counts_ok(
                cells,
                start,
                me,
                queue_after_look(cells, queue, added, seen),
                next,
                added_after_look(added, seen),
                depth,
                counts_after_look(cells, me, added, seen, depth, counts),
            )
        }),
{
    let from = queue[next] as int;
    let seen = step_to(from, dir);
    let longer = queue_after_look(cells, queue, added, seen);
    let more = added_after_look(added, seen);
    let after = counts_after_look(cells, me, added, seen, depth, counts);
    let n = NB_CELLS as nat;
    assert(pos_in_bounds(from));
    if seen >= 0 {
        lemma_step_back(from, dir);
    }
    lemma_counts_small(cells, start, me, queue, next, added, depth, counts);
    assert(longer.take(next) =~= queue.take(next));
    assert(done_cell(longer, next) == done_cell(queue, next));
    assert(done_food(cells, longer, next) == done_food(cells, queue, next));
    assert forall|k: int| 0 <= k < next implies #[trigger] longer[k] == queue[k] by {}
    // The distance of a head or tail seen for the first time.
    if seen >= 0 && !added[seen] && !cells[seen].is_free() {
        assert(within_depth(cells, start, from, depth));
        assert(touched(cells, start, seen, depth)) by {
            assert(step_to(seen, opposite(dir)) == from);
        }
        if touched(cells, start, seen, depth - 1) {
            let back = if within_depth(cells, start, step_to(seen, Orientation::West), depth - 1) {
                Orientation::West
            } else if within_depth(cells, start, step_to(seen, Orientation::East), depth - 1) {
                Orientation::East
            } else if within_depth(cells, start, step_to(seen, Orientation::North), depth - 1) {
                Orientation::North
            } else {
                Orientation::South
            };
            let near = step_to(seen, back);
            assert(within_depth(cells, start, near, depth - 1));
            lemma_step_back(seen, back);
            let k = choose|k: int|
                0 <= k < queue.take(next).len() && #[trigger] queue.take(next)[k] == near;
            assert(queue[k] == near);
            assert(step_to(queue[k] as int, opposite(back)) == seen);
            assert(looked(queue, next, rank(dir), seen));
        }
        lemma_first_touch(cells, start, seen, depth, MAX_DEPTH + 1, 0);
    }
    lemma_tally_changes_at(
        n,
        seen_end(cells, me, true, added),
        seen_end(cells, me, true, more),
        seen,
    );
    lemma_tally_changes_at(
        n,
        seen_end(cells, me, false, added),
        seen_end(cells, me, false, more),
        seen,
    );
    lemma_tally_changes_at(
        n,
        seen_end_distance(cells, start, me, true, added),
        seen_end_distance(cells, start, me, true, more),
        seen,
    );
    lemma_tally_changes_at(
        n,
        seen_end_distance(cells, start, me, false, added),
        seen_end_distance(cells, start, me, false, more),
        seen,
    );
}

/// When the four neighbours of a cell have been looked at, counting the
/// cell makes it done.
pub open spec fn counts_after_cell(cells: Seq<Cell>, pos: int, depth: int, counts: Counts)
    -> Counts {
    if cells[pos] == Cell::Food {
        Counts {
            area: (counts.area + 1) as u32,
            food: (counts.food + 1) as u32,
            min_food: if depth < counts.min_food {
                depth as i32
            } else {
                counts.min_food
            },
            ..counts
        }
    } else {
        Counts { area: (counts.area + 1) as u32, ..counts }
    }
}

pub proof fn lemma_cell_done(
    cells: Seq<Cell>,
    start: int,
    me: SnakeId,
    queue: Seq<Position>,
    next: int,
    added: Seq<bool>,
    depth: int,
    level_end: int,
    counts: Counts,
)
    requires
        queue_ok(cells, start, queue, next, added, depth, level_end),
        added_ok(cells, queue, next, added, 4),
        counts_ok(cells, start, me, queue, next, added, depth, counts),
        next < level_end,
        depth <= MAX_DEPTH,
    ensures
        queue_ok(cells, start, queue, next + 1, added, depth, level_end),
        added_ok(cells, queue, next + 1, added, 0),
        counts_ok(
            cells,
            start,
            me,
            queue,
            next + 1,
            added,
            depth,
            counts_after_cell(cells, queue[next] as int, depth, counts),
        ),
{
    let pos = queue[next] as int;
    let n = NB_CELLS as nat;
    assert(pos_in_bounds(pos));
    lemma_counts_small(cells, start, me, queue, next, added, depth, counts);
    assert(queue.take(next + 1) =~= queue.take(next).push(queue[next]));
    assert forall|other: int| #[trigger]
        within_depth(cells, start, other, depth - 1) implies lies_on(
        queue.take(next + 1),
        other,
    ) by {
        lemma_lies_on_push(queue.take(next), queue[next], other);
    }
    assert forall|other: int| 0 <= other < NB_CELLS implies (#[trigger] added[other] <==> lies_on(
        queue,
        other,
    ) || looked(queue, next + 1, 0, other)) by {
        lemma_looked_cell_done(queue, next, other);
    }
    // The cell is counted for the first time.
    if lies_on(queue.take(next), pos) {
        let k = choose|k: int| 0 <= k < queue.take(next).len() && #[trigger] queue.take(next)[k]
            == pos;
        assert(queue[k] == queue[next]);
    }
    assert forall|other: int| 0 <= other < n && other != pos implies #[trigger] done_cell(
        queue,
        next,
    )(other) == done_cell(queue, next + 1)(other) by {
        lemma_lies_on_push(queue.take(next), queue[next], other);
    }
    assert forall|other: int| 0 <= other < n && other != pos implies #[trigger] done_food(
        cells,
        queue,
        next,
    )(other) == done_food(cells, queue, next + 1)(other) by {
        lemma_lies_on_push(queue.take(next), queue[next], other);
    }
    lemma_lies_on_push(queue.take(next), queue[next], pos);
    lemma_tally_changes_at(n, done_cell(queue, next), done_cell(queue, next + 1), pos);
    lemma_tally_changes_at(n, done_food(cells, queue, next), done_food(cells, queue, next + 1), pos);
    // The nearest food.
    let after = counts_after_cell(cells, pos, depth, counts);
    if cells[pos] == Cell::Food {
        assert(within_depth(cells, start, pos, depth));
        if counts.food == 0 {
            if food_within(cells, start, depth - 1) {
                let food = choose|food: int| #[trigger]
                    within_depth(cells, start, food, depth - 1) && cells[food] == Cell::Food;
                let k = choose|k: int|
                    0 <= k < queue.take(next).len() && #[trigger] queue.take(next)[k] == food;
                assert(queue[k] == food);
            }
        }
    } else {
        if counts.food == 0 {
            assert forall|k: int| 0 <= k < next + 1 implies cells[#[trigger] queue[k] as int]
                != Cell::Food by {}
        }
    }
}

/// When all cells at `depth` steps are done, the queue holds the cells at
/// one step more.
pub proof fn lemma_level_done(
    cells: Seq<Cell>,
    start: int,
    me: SnakeId,
    queue: Seq<Position>,
    next: int,
    added: Seq<bool>,
    depth: int,
    counts: Counts,
)
    requires
        queue_ok(cells, start, queue, next, added, depth, next),
        added_ok(cells, queue, next, added, 0),
        counts_ok(cells, start, me, queue, next, added, depth, counts),
    ensures
        queue_ok(cells, start, queue, next, added, depth + 1, queue.len() as int),
        counts_ok(cells, start, me, queue, next, added, depth + 1, counts),
        forall|k: int| 0 <= k < next ==> within_depth(cells, start, #[trigger] queue[k] as int, depth),
{
    assert(queue.take(queue.len() as int) =~= queue);
    assert forall|k: int| 0 <= k < queue.len() implies within_depth(
        cells,
        start,
        #[trigger] queue[k] as int,
        depth + 2,
    ) by {
        assert(within_depth(cells, start, queue[k] as int, depth + 1));
        lemma_within_grows(cells, start, queue[k] as int, (depth + 1) as nat, (depth + 2) as nat);
    }
    assert forall|pos: int| #[trigger] within_depth(cells, start, pos, depth + 1) implies lies_on(
        queue,
        pos,
    ) by {
        if within_depth(cells, start, pos, depth) {
            let k = choose|k: int| 0 <= k < queue.take(next).len() && #[trigger] queue.take(next)[k]
                == pos;
            assert(queue[k] == pos);
        } else {
            let dir = lemma_within_previous(cells, start, pos, depth as nat);
            let near = step_to(pos, dir);
            assert(within_depth(cells, start, near, depth));
            let k = choose|k: int| 0 <= k < queue.take(next).len() && #[trigger] queue.take(next)[k]
                == near;
            assert(queue[k] == near);
            lemma_step_back(pos, dir);
            assert(step_to(queue[k] as int, opposite(dir)) == pos);
            assert(looked(queue, next, 0, pos));
            assert(added[pos]);
        }
    }
}

/// When the cells at up to `MAX_DEPTH` steps are done, the counts are the
/// statistics.
pub proof fn lemma_search_ends(
    cells: Seq<Cell>,
    start: int,
    me: SnakeId,
    queue: Seq<Position>,
    next: int,
    added: Seq<bool>,
    counts: Counts,
)
    requires
        queue_ok(cells, start, queue, next, added, MAX_DEPTH + 1, queue.len() as int),
        added_ok(cells, queue, next, added, 0),
        counts_ok(cells, start, me, queue, next, added, MAX_DEPTH + 1, counts),
        forall|k: int|
            0 <= k < next ==> within_depth(cells, start, #[trigger] queue[k] as int, MAX_DEPTH as int),
    ensures
        counts.area == accessible_area(cells, start),
        counts.food == accessible_food(cells, start),
        counts.heads_met == ends_met(cells, start, me, true),
        counts.heads_sum == sum_dist_ends(cells, start, me, true),
        counts.tails_met == ends_met(cells, start, me, false),
        counts.tails_sum == sum_dist_ends(cells, start, me, false),
        counts.min_food == min_dist_to_food(cells, start),
{
    let n = NB_CELLS as nat;
    let depth = MAX_DEPTH as int;
    // The cells done are the cells within reach.
    assert forall|pos: int| 0 <= pos < n implies (lies_on(queue.take(next), pos) <==> within_depth(
        cells,
        start,
        pos,
        depth,
    )) by {
        if lies_on(queue.take(next), pos) {
            let k = choose|k: int| 0 <= k < queue.take(next).len() && #[trigger] queue.take(next)[k]
                == pos;
            assert(queue[k] == pos);
            assert(within_depth(cells, start, queue[k] as int, depth));
        }
        if within_depth(cells, start, pos, depth) {
            assert(within_depth(cells, start, pos, (MAX_DEPTH + 1) - 1));
            assert(lies_on(queue.take(next), pos));
        }
    }
    // The ends seen are the ends next to a cell within reach.
    assert forall|pos: int| 0 <= pos < n && !cells[pos].is_free() implies (added[pos] <==> touched(
        cells,
        start,
        pos,
        depth,
    )) by {
        if lies_on(queue, pos) {
            let k = choose|k: int| 0 <= k < queue.len() && #[trigger] queue[k] == pos;
            assert(cells[queue[k] as int].is_free());
        }
        if looked(queue, next, 0, pos) {
            let (k, d) = choose|k: int, d: Orientation|
                0 <= k < queue.len() && k <= next && #[trigger] step_to(queue[k] as int, d) == pos
                    && (k < next || rank(d) < 0);
            assert(within_depth(cells, start, queue[k] as int, depth));
            assert(pos_in_bounds(queue[k] as int));
            lemma_step_back(queue[k] as int, d);
            assert(step_to(pos, opposite(d)) == queue[k]);
        }
        if touched(cells, start, pos, depth) {
            let back = if within_depth(cells, start, step_to(pos, Orientation::West), depth) {
                Orientation::West
            } else if within_depth(cells, start, step_to(pos, Orientation::East), depth) {
                Orientation::East
            } else if within_depth(cells, start, step_to(pos, Orientation::North), depth) {
                Orientation::North
            } else {
                Orientation::South
            };
            let near = step_to(pos, back);
            assert(within_depth(cells, start, near, depth));
            lemma_step_back(pos, back);
            let k = choose|k: int| 0 <= k < queue.take(next).len() && #[trigger] queue.take(next)[k]
                == near;
            assert(queue[k] == near);
            assert(step_to(queue[k] as int, opposite(back)) == pos);
            assert(looked(queue, next, 0, pos));
        }
    }
    lemma_tally_changes_at(n, done_cell(queue, next), in_reach(cells, start), -1);
    lemma_tally_changes_at(n, done_food(cells, queue, next), food_in_reach(cells, start), -1);
    lemma_tally_changes_at(
        n,
        seen_end(cells, me, true, added),
        end_met(cells, start, me, true),
        -1,
    );
    lemma_tally_changes_at(
        n,
        seen_end(cells, me, false, added),
        end_met(cells, start, me, false),
        -1,
    );
    lemma_tally_changes_at(
        n,
        seen_end_distance(cells, start, me, true, added),
        end_distance(cells, start, me, true),
        -1,
    );
    lemma_tally_changes_at(
        n,
        seen_end_distance(cells, start, me, false, added),
        end_distance(cells, start, me, false),
        -1,
    );
    // The nearest food.
    if counts.food == 0 {
        if food_within(cells, start, depth) {
            let food = choose|food: int| #[trigger]
                within_depth(cells, start, food, depth) && cells[food] == Cell::Food;
            let k = choose|k: int| 0 <= k < queue.take(next).len() && #[trigger] queue.take(next)[k]
                == food;
            assert(queue[k] == food);
        }
        lemma_no_food(cells, start, MAX_DEPTH + 1, 0);
    } else {
        lemma_first_food(cells, start, counts.min_food as int, MAX_DEPTH + 1, 0);
    }
}

/// The state of a search.
struct Search {
    /// Whether a cell was seen, for each cell of the board.
    added: Vec<bool>,
    /// The free cells seen, in the order in which they were seen.
    queue: Vec<Position>,
    /// The number of cells of the queue that are done.
    next: usize,
    counts: Counts,
}

impl Search {
    spec fn ok(
        &self,
        cells: Seq<Cell>,
        start: int,
        me: SnakeId,
        depth: int,
        level_end: int,
        dirs_done: int,
    ) -> bool {
        &&& queue_ok(cells, start, self.queue@, self.next as int, self.added@, depth, level_end)
        &&& added_ok(cells, self.queue@, self.next as int, self.added@, dirs_done)
        &&& counts_ok(
            cells,
            start,
            me,
            self.queue@,
            self.next as int,
            self.added@,
            depth,
            self.counts,
        )
    }

    /// A search that has seen its start, if that is a free cell of the
    /// board, and nothing else.
    fn begin(board: &GameBoard, coord: &Option<Coordinate>, me: SnakeId) -> (search: Search)
        requires
            board.wf(),
        ensures
            search.ok(
                board@,
                start_pos(*coord),
                me,
                0,
                search.queue@.len() as int,
                0,
            ),
            search.next == 0,
    {
        let mut added: Vec<bool> = Vec::new();
        let mut i: i32 = 0;
        while i < NB_CELLS
            invariant
                0 <= i <= NB_CELLS,
                added@.len() == i,
                forall|pos: int| 0 <= pos < i ==> !(#[trigger] added@[pos]),
            decreases NB_CELLS - i,
        {
            added.push(false);
            i += 1;
        }
        let mut queue: Vec<Position> = Vec::new();
        if let Some(c) = coord {
            if board.is_coord_free_or_food(c) {
                let pos = c.to_pos();
                queue.push(pos);
                added[pos as usize] = true;
            }
        }
        let search = Search {
            added,
            queue,
            next: 0,
            counts: Counts {
                area: 0,
                food: 0,
                min_food: BOARD_DIAG_SIZE,
                heads_met: 0,
                heads_sum: 0,
                tails_met: 0,
                tails_sum: 0,
            },
        };
        proof {
            let cells = board@;
            let start = start_pos(*coord);
            let q = search.queue@;
            let n = NB_CELLS as nat;
            if q.len() > 0 {
                assert(q[0] == start);
                assert(q.take(1) =~= q);
            }
            assert forall|pos: int| #[trigger] within_depth(cells, start, pos, 0) implies lies_on(
                q.take(q.len() as int),
                pos,
            ) by {
                assert(pos == start);
                assert(q.take(q.len() as int)[0] == pos);
            }
            assert forall|pos: int| 0 <= pos < NB_CELLS implies (
            #[trigger] search.added@[pos] <==> lies_on(q, pos) || looked(q, 0, 0, pos)) by {
                if lies_on(q, pos) {
                    let k = choose|k: int| 0 <= k < q.len() && #[trigger] q[k] == pos;
                }
                if search.added@[pos] {
                    assert(q[0] == pos);
                }
            }
            assert forall|pos: int|
                0 <= pos < NB_CELLS && cells[pos].is_free() && #[trigger] search.added@[pos] implies lies_on(
                q,
                pos,
            ) by {
                assert(q[0] == pos);
            }
            assert(q.take(0) =~= Seq::<Position>::empty());
            lemma_tally_bounds(n, done_cell(q, 0), 0, 0);
            lemma_tally_bounds(n, done_food(cells, q, 0), 0, 0);
            lemma_tally_bounds(n, seen_end(cells, me, true, search.added@), 0, 0);
            lemma_tally_bounds(n, seen_end(cells, me, false, search.added@), 0, 0);
            lemma_tally_bounds(n, seen_end_distance(cells, start, me, true, search.added@), 0, 0);
            lemma_tally_bounds(n, seen_end_distance(cells, start, me, false, search.added@), 0, 0);
        }
        search
    }

    /// Looks at the neighbour in `dir` of the cell being done, which lies
    /// at `from`, `depth` steps from the start.
    fn look(
        &mut self,
        board: &GameBoard,
        me: SnakeId,
        from: &Coordinate,
        dir: Orientation,
        depth: i32,
        Ghost(start): Ghost<int>,
        Ghost(level_end): Ghost<int>,
    )
        requires
            board.wf(),
            old(self).ok(board@, start, me, depth as int, level_end, rank(dir)),
            old(self).next < level_end,
            depth <= MAX_DEPTH,
            *from == Coordinate::spec_from_pos(old(self).queue@[old(self).next as int] as int),
        ensures
            final(self).ok(board@, start, me, depth as int, level_end, rank(dir) + 1),
            final(self).next == old(self).next,
            final(self).queue@.len() >= old(self).queue@.len(),
            final(self).queue@[final(self).next as int] == old(self).queue@[old(self).next as int],
    {
        let ghost cells = board@;
        let ghost seen = step_to(self.queue@[self.next as int] as int, dir);
        proof {
            assert(pos_in_bounds(self.queue@[self.next as int] as int));
            lemma_look_queue(
                cells,
                start,
                self.queue@,
                self.next as int,
                self.added@,
                depth as int,
                level_end,
                dir,
            );
            lemma_look_added(
                cells,
                start,
                self.queue@,
                self.next as int,
                self.added@,
                depth as int,
                level_end,
                dir,
            );
            lemma_look_counts(
                cells,
                start,
                me,
                self.queue@,
                self.next as int,
                self.added@,
                depth as int,
                level_end,
                dir,
                self.counts,
            );
            lemma_counts_small(
                cells,
                start,
                me,
                self.queue@,
                self.next as int,
                self.added@,
                depth as int,
                self.counts,
            );
        }
        match next_coord_towards(from, &dir) {
            None => {},
            Some(next) => {
                let pos = next.to_pos();
                if !self.added[pos as usize] {
                    match board.get_tile_at_pos(&pos) {
                        Cell::SnakeHead(id) => {
                            if id != me {
                                self.counts.heads_met += 1;
                                self.counts.heads_sum += depth as u32;
                            }
                        },
                        Cell::SnakeTail(id) => {
                            if id != me {
                                self.counts.tails_met += 1;
                                self.counts.tails_sum += depth as u32;
                            }
                        },
                        Cell::Empty | Cell::Food => {
                            self.queue.push(pos);
                        },
                        _ => {},
                    }
                    self.added[pos as usize] = true;
                }
            },
        }
        proof {
            assert(self.queue@ == queue_after_look(cells, old(self).queue@, old(self).added@, seen));
            assert(self.added@ =~= added_after_look(old(self).added@, seen));
            assert(self.counts == counts_after_look(
                cells,
                me,
                old(self).added@,
                seen,
                depth as int,
                old(self).counts,
            ));
        }
    }

    /// Does the next cell of the queue: looks at its four neighbours and
    /// counts it.
    fn expand(
        &mut self,
        board: &GameBoard,
        me: SnakeId,
        depth: i32,
        Ghost(start): Ghost<int>,
        Ghost(level_end): Ghost<int>,
    )
        requires
            board.wf(),
            old(self).ok(board@, start, me, depth as int, level_end, 0),
            old(self).next < level_end,
            depth <= MAX_DEPTH,
        ensures
            final(self).ok(board@, start, me, depth as int, level_end, 0),
            final(self).next == old(self).next + 1,
            final(self).queue@.len() >= old(self).queue@.len(),
    {
        let pos = self.queue[self.next];
        let from = Coordinate::from_pos(pos);
        assert(self.next < self.queue.len());
        self.look(board, me, &from, Orientation::West, depth, Ghost(start), Ghost(level_end));
        self.look(board, me, &from, Orientation::East, depth, Ghost(start), Ghost(level_end));
        self.look(board, me, &from, Orientation::North, depth, Ghost(start), Ghost(level_end));
        self.look(board, me, &from, Orientation::South, depth, Ghost(start), Ghost(level_end));
        proof {
            lemma_cell_done(
                board@,
                start,
                me,
                self.queue@,
                self.next as int,
                self.added@,
                depth as int,
                level_end,
                self.counts,
            );
            lemma_counts_small(
                board@,
                start,
                me,
                self.queue@,
                self.next as int,
                self.added@,
                depth as int,
                self.counts,
            );
        }
        match board.get_tile_at_pos(&pos) {
            Cell::Food => {
                self.counts.area += 1;
                self.counts.food += 1;
                if depth < self.counts.min_food {
                    self.counts.min_food = depth;
                }
            },
            _ => {
                self.counts.area += 1;
            },
        }
        self.next += 1;
    }
}

/// Searches the board from `coord`, breadth first, to the depth
/// `MAX_DEPTH`, for the snake `me`.
pub fn search(board: &GameBoard, me: SnakeId, coord: &Option<Coordinate>) -> (counts: Counts)
    requires
        board.wf(),
    ensures
        ({
            let start = start_pos(*coord);
            &&& counts.area == accessible_area(board@, start)
            &&& counts.food == accessible_food(board@, start)
            &&& counts.heads_met == ends_met(board@, start, me, true)
            &&& counts.heads_sum == sum_dist_ends(board@, start, me, true)
            &&& counts.tails_met == ends_met(board@, start, me, false)
            &&& counts.tails_sum == sum_dist_ends(board@, start, me, false)
            &&& counts.min_food == min_dist_to_food(board@, start)
        }),
{
    let ghost start = start_pos(*coord);
    let mut search = Search::begin(board, coord, me);
    let mut depth: i32 = 0;
    while depth <= MAX_DEPTH
        invariant
            board.wf(),
            0 <= depth <= MAX_DEPTH + 1,
            search.ok(board@, start, me, depth as int, search.queue@.len() as int, 0),
            forall|k: int|
                0 <= k < search.next ==> within_depth(
                    board@,
                    start,
                    #[trigger] search.queue@[k] as int,
                    depth - 1,
                ),
        decreases MAX_DEPTH + 1 - depth,
    {
        let level_end = search.queue.len();
        while search.next < level_end
            invariant
                board.wf(),
                0 <= depth <= MAX_DEPTH,
                level_end <= search.queue@.len(),
                search.ok(board@, start, me, depth as int, level_end as int, 0),
            decreases level_end - search.next,
        {
            search.expand(board, me, depth, Ghost(start), Ghost(level_end as int));
        }
        proof {
            lemma_level_done(
                board@,
                start,
                me,
                search.queue@,
                search.next as int,
                search.added@,
                depth as int,
                search.counts,
            );
        }
        depth += 1;
    }
    proof {
        lemma_search_ends(
            board@,
            start,
            me,
            search.queue@,
            search.next as int,
            search.added@,
            search.counts,
        );
    }
    search.counts
}

} // verus!
