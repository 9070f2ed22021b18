//! That a game stays sound: what one move changes on the board and in the
//! snake, that a tick keeps board and snakes in agreement, and that no snake
//! outlives `MAX_TICKS` ticks.

use crate::board::Cell;
use crate::geometry::{pos_in_bounds, Action, Position, NB_CELLS};
use crate::rules::{
    alive_count, all_different, is_over, moves_made, valid_heads, Field, GameModel, MAX_TICKS,
};
use crate::snake::{lies_on, SnakeModel, GROWTH_RATE};
use vstd::prelude::*;

verus! {

/// Where no snake lives that did not live before, no more snakes live.
pub proof fn lemma_alive_count_grows(fewer: Seq<SnakeModel>, more: Seq<SnakeModel>)
    requires
        fewer.len() == more.len(),
        forall|i: int| 0 <= i < fewer.len() && (#[trigger] fewer[i]).alive ==> more[i].alive,
    ensures
        alive_count(fewer) <= alive_count(more),
    decreases fewer.len(),
{
    if fewer.len() > 0 {
        let n = fewer.len() - 1;
        assert(fewer[n].alive ==> more[n].alive);
        assert forall|i: int| 0 <= i < n && (#[trigger] fewer.drop_last()[i]).alive implies more.drop_last()[i].alive by {
            assert(fewer[i].alive ==> more[i].alive);
        }
        lemma_alive_count_grows(fewer.drop_last(), more.drop_last());
    }
}

/// Where a snake lives, the count of the living is not zero.
pub proof fn lemma_somebody_alive(snakes: Seq<SnakeModel>, at: int)
    requires
        0 <= at < snakes.len(),
        snakes[at].alive,
    ensures
        alive_count(snakes) >= 1,
    decreases snakes.len(),
{
    if at < snakes.len() - 1 {
        assert(snakes.drop_last()[at] == snakes[at]);
        lemma_somebody_alive(snakes.drop_last(), at);
    }
}

/// Where the count of the living is not zero, a snake lives.
pub proof fn lemma_alive_witness(snakes: Seq<SnakeModel>) -> (at: int)
    requires
        alive_count(snakes) > 0,
    ensures
        0 <= at < snakes.len(),
        snakes[at].alive,
    decreases snakes.len(),
{
    if snakes.last().alive {
        snakes.len() - 1
    } else {
        let at = lemma_alive_witness(snakes.drop_last());
        assert(snakes.drop_last()[at] == snakes[at]);
        at
    }
}

/// Snakes that all live count as many as they are.
pub proof fn lemma_all_alive(snakes: Seq<SnakeModel>)
    requires
        forall|i: int| 0 <= i < snakes.len() ==> (#[trigger] snakes[i]).alive,
    ensures
        alive_count(snakes) == snakes.len(),
    decreases snakes.len(),
{
    if snakes.len() > 0 {
        assert(snakes.last().alive);
        assert forall|i: int| 0 <= i < snakes.drop_last().len() implies (
        #[trigger] snakes.drop_last()[i]).alive by {
            assert(snakes.drop_last()[i] == snakes[i]);
        }
        lemma_all_alive(snakes.drop_last());
    }
}

/// Positions below `bound` that are all different are at most `bound`.
pub proof fn lemma_distinct_fit(positions: Seq<Position>, bound: int)
    requires
        bound >= 0,
        forall|i: int| 0 <= i < positions.len() ==> 0 <= #[trigger] positions[i] < bound,
        all_different(positions),
    ensures
        positions.len() <= bound,
    decreases bound,
{
    if positions.len() > 0 {
        if bound == 0 {
            assert(0 <= positions[0] < bound);
        } else if exists|k: int| 0 <= k < positions.len() && #[trigger] positions[k] == bound - 1 {
            let k = choose|k: int| 0 <= k < positions.len() && #[trigger] positions[k] == bound - 1;
            let rest = positions.remove(k);
            assert forall|i: int| 0 <= i < rest.len() implies 0 <= #[trigger] rest[i] < bound
                - 1 by {
                if i < k {
                    assert(rest[i] == positions[i]);
                    assert(positions[i] != positions[k]);
                } else {
                    assert(rest[i] == positions[i + 1]);
                    assert(positions[k] != positions[i + 1]);
                }
            }
            assert forall|a: int, b: int| 0 <= a < b < rest.len() implies #[trigger] rest[a]
                != #[trigger] rest[b] by {
                let a2 = if a < k {
                    a
                } else {
                    a + 1
                };
                let b2 = if b < k {
                    b
                } else {
                    b + 1
                };
                assert(rest[a] == positions[a2]);
                assert(rest[b] == positions[b2]);
                assert(positions[a2] != positions[b2]);
            }
            lemma_distinct_fit(rest, bound - 1);
        } else {
            assert forall|i: int| 0 <= i < positions.len() implies 0 <= #[trigger] positions[i]
                < bound - 1 by {
                assert(0 <= positions[i] < bound);
            }
            lemma_distinct_fit(positions, bound - 1);
        }
    }
}

/// The position that `action` leads the head of `snake` to, or -1 off the
/// board.
pub open spec fn target_pos(snake: SnakeModel, action: Action) -> int {
    match snake.destination(action) {
        Some(next) => next.spec_to_pos(),
        None => -1,
    }
}

/// The position that the head of `snake` goes to by `action`, or -1 if the
/// move is blocked.
pub open spec fn destination_pos(snake: SnakeModel, cells: Seq<Cell>, action: Action) -> int {
    if snake.is_blocked(cells, action) {
        -1
    } else {
        target_pos(snake, action)
    }
}

/// What one move of a living snake changes: on the board, only cells of the
/// snake and the destination, if that is free or shows the head of another
/// snake; it shows the head of this snake afterwards. The snake comes to
/// lie on the destination only if that is free, and else stays where it is.
pub proof fn lemma_move_frame(snake: SnakeModel, cells: Seq<Cell>, action: Action)
    requires
        snake.wf(),
        snake.alive,
        snake.positions.len() > 0,
        cells.len() == NB_CELLS,
    ensures
        ({
            let after = snake.after_move(cells, action);
            let board = snake.board_after_move(cells, action);
            let dest = destination_pos(snake, cells, action);
            let target = target_pos(snake, action);
            &&& board.len() == NB_CELLS
            &&& target < NB_CELLS
            &&& target != snake.positions[0]
            &&& forall|pos: int|
                0 <= pos < NB_CELLS && pos != target && !lies_on(snake.positions, pos)
                    ==> #[trigger] board[pos] == cells[pos]
            &&& forall|pos: int|
                lies_on(after.positions, pos) ==> pos == dest || lies_on(snake.positions, pos)
            &&& after.wf()
            &&& after.id == snake.id
            &&& after.alive
            &&& after.positions.len() > 0
            &&& dest < 0 ==> {
                &&& after.just_died
                &&& after.positions == snake.positions
                &&& board == (if snake.meets_head(cells, action) {
                    cells.update(snake.head() as int, Cell::SnakeBody(snake.id)).update(
                        target,
                        Cell::SnakeHead(snake.id),
                    )
                } else {
                    cells.update(snake.head() as int, Cell::SnakeBody(snake.id))
                })
            }
            &&& dest >= 0 ==> {
                &&& dest == target
                &&& cells[dest].is_free()
                &&& board[dest] == Cell::SnakeHead(snake.id)
                &&& after.positions[0] == dest
                &&& after.just_died == snake.just_died
                &&& moves_made(after) >= moves_made(snake) + 1
            }
        }),
{
    let after = snake.after_move(cells, action);
    let dest = destination_pos(snake, cells, action);
    assert(pos_in_bounds(snake.positions[0] as int));
    assert(pos_in_bounds(snake.positions[snake.positions.len() - 1] as int));
    assert(lies_on(snake.positions, snake.positions[0] as int));
    assert(lies_on(snake.positions, snake.positions[snake.positions.len() - 1] as int));
    if dest >= 0 {
        let longer = seq![dest as Position] + snake.positions;
        assert(longer[0] == dest);
        assert forall|k: int| 1 <= k < longer.len() implies longer[k] == snake.positions[k - 1] by {}
        let body = snake.body_after_move(cells, dest);
        assert(body.len() > 0);
        if body.last() != dest {
            let k = body.len() - 1;
            assert(body[k] == longer[k]);
            assert(body[k] == snake.positions[k - 1]);
            assert(lies_on(snake.positions, body.last() as int));
        }
        assert forall|pos: int| lies_on(after.positions, pos) implies pos == dest || lies_on(
            snake.positions,
            pos,
        ) by {
            let k = choose|k: int| 0 <= k < body.len() && #[trigger] body[k] == pos;
            assert(body[k] == longer[k]);
            if k > 0 {
                assert(snake.positions[k - 1] == pos);
            }
        }
        assert forall|i: int| 0 <= i < body.len() implies pos_in_bounds(
            #[trigger] body[i] as int,
        ) by {
            assert(body[i] == longer[i]);
            if i > 0 {
                assert(pos_in_bounds(snake.positions[i - 1] as int));
            }
        }
        assert(GROWTH_RATE * (body.len() - 1) + (GROWTH_RATE - after.growth_state) >= GROWTH_RATE
            * (snake.positions.len() - 1) + (GROWTH_RATE - snake.growth_state) + 1);
    }
}

/// A move that is not blocked, of a snake that lies on cells that are not
/// free and, but maybe for its head, marked as its own, on none of them
/// twice, leaves it on cells marked as its own, on none of them twice; and
/// the cell that its tail leaves is empty.
pub proof fn lemma_move_keeps_body(snake: SnakeModel, cells: Seq<Cell>, action: Action)
    requires
        snake.wf(),
        snake.alive,
        snake.positions.len() > 0,
        cells.len() == NB_CELLS,
        all_different(snake.positions),
        forall|pos: int|
            lies_on(snake.positions, pos) ==> {
                &&& !(#[trigger] cells[pos]).is_free()
                &&& pos != snake.positions[0] ==> cells[pos].owner() == Some(snake.id)
                    && !(cells[pos] is SnakeHead)
            },
        destination_pos(snake, cells, action) >= 0,
    ensures
        ({
            let after = snake.after_move(cells, action);
            let board = snake.board_after_move(cells, action);
            &&& all_different(after.positions)
            &&& forall|pos: int|
                lies_on(after.positions, pos) ==> (#[trigger] board[pos]).owner() == Some(
                    snake.id,
                ) && (board[pos] is SnakeHead ==> pos == after.positions[0])
            &&& forall|pos: int|
                lies_on(snake.positions, pos) && !lies_on(after.positions, pos) ==> (
                #[trigger] board[pos]) == Cell::Empty
        }),
{
    let after = snake.after_move(cells, action);
    let board = snake.board_after_move(cells, action);
    let dest = destination_pos(snake, cells, action);
    let old = snake.positions;
    let longer = seq![dest as Position] + old;
    let body = snake.body_after_move(cells, dest);
    let last = old.len() - 1;
    lemma_move_frame(snake, cells, action);
    assert(pos_in_bounds(old[0] as int));
    assert(pos_in_bounds(old[last] as int));
    assert(longer[0] == dest);
    assert forall|k: int| 1 <= k < longer.len() implies longer[k] == old[k - 1] by {}
    if lies_on(old, dest) {
        assert(!cells[dest].is_free());
    }
    assert forall|a: int, b: int| 0 <= a < b < body.len() implies #[trigger] body[a]
        != #[trigger] body[b] by {
        assert(body[a] == longer[a] && body[b] == longer[b]);
        if a == 0 {
            assert(old[b - 1] == body[b]);
            if body[b] == dest {
                assert(lies_on(old, dest));
            }
        } else {
            assert(old[a - 1] != old[b - 1]);
        }
    }
    assert forall|pos: int| lies_on(after.positions, pos) implies (#[trigger] board[pos]).owner()
        == Some(snake.id) && (board[pos] is SnakeHead ==> pos == after.positions[0]) by {
        let k = choose|k: int| 0 <= k < body.len() && #[trigger] body[k] == pos;
        assert(body[k] == longer[k]);
        if k > 0 {
            assert(old[k - 1] == pos);
            assert(lies_on(old, pos));
            assert(pos_in_bounds(old[k - 1] as int));
            if k - 1 > 0 {
                assert(old[0] != old[k - 1]);
            }
            if !snake.keeps_tail(cells, dest) && pos == old[last] {
                assert(k - 1 < last);
                assert(old[k - 1] != old[last]);
            }
        }
    }
    assert forall|pos: int| lies_on(old, pos) && !lies_on(after.positions, pos) implies (
    #[trigger] board[pos]) == Cell::Empty by {
        let k = choose|k: int| 0 <= k < old.len() && #[trigger] old[k] == pos;
        assert(pos_in_bounds(old[k] as int));
        if k + 1 < body.len() {
            assert(body[k + 1] == longer[k + 1]);
            assert(body[k + 1] == pos);
        }
        // Only the tail leaves the body, and only where the tail follows.
        assert(k == last && !snake.keeps_tail(cells, dest));
        if body.last() == pos {
            assert(lies_on(after.positions, pos));
        }
    }
}

/// The field after the snake at `i` took `action`.
pub open spec fn field_after_move(field: Field, i: int, action: Action) -> Field {
    Field {
        cells: field.snakes[i].board_after_move(field.cells, action),
        snakes: field.snakes.update(i, field.snakes[i].after_move(field.cells, action)),
    }
}

/// A game between ticks is sound as a field: where board and snakes agree,
/// they agree but for heads, and no cell lies on two living snakes.
pub proof fn lemma_agreement_is_sound(game: GameModel)
    requires
        game.wf(),
        game.initialized,
    ensures
        game.field().sound(),
{
    let field = game.field();
    assert forall|i: int, j: int, pos: int| #[trigger]
        field.lies(i, pos) && #[trigger] field.lies(j, pos) implies i == j by {
        let k = choose|k: int|
            0 <= k < field.snakes[i].positions.len() && #[trigger] field.snakes[i].positions[k]
                == pos;
        assert(field.snakes[i].wf());
        assert(pos_in_bounds(field.snakes[i].positions[k] as int));
        assert(field.cells[pos].owner() == Some(field.snakes[i].id));
        assert(field.cells[pos].owner() == Some(field.snakes[j].id));
    }
    assert forall|pos: int|
        0 <= pos < field.cells.len() && (#[trigger] field.cells[pos]).owner() is Some implies exists|
        i: int,
    | #[trigger] field.lies(i, pos) by {
        let i = choose|i: int| #[trigger]
            field.lies(i, pos) && field.cells[pos].owner() == Some(field.snakes[i].id);
        assert(field.lies(i, pos));
    }
    assert forall|i: int| 0 <= i < field.snakes.len() implies {
        &&& (#[trigger] field.snakes[i]).wf()
        &&& field.snakes[i].alive ==> field.snakes[i].positions.len() > 0
        &&& field.snakes[i].just_died ==> field.snakes[i].alive
    } by {}
}

/// One move keeps board and snakes sound and in agreement but for heads.
pub proof fn lemma_move_keeps_field(field: Field, i: int, action: Action)
    requires
        field.sound(),
        0 <= i < field.snakes.len(),
    ensures
        field_after_move(field, i, action).sound(),
{
    let snake = field.snakes[i];
    let next = field_after_move(field, i, action);
    assert(snake.wf());
    if !snake.alive {
        assert(next.snakes =~= field.snakes);
        assert(next == field);
    } else {
        let after = snake.after_move(field.cells, action);
        let dest = destination_pos(snake, field.cells, action);
        let target = target_pos(snake, action);
        let head = snake.positions[0] as int;
        let meets = snake.meets_head(field.cells, action);
        lemma_move_frame(snake, field.cells, action);
        assert(pos_in_bounds(snake.positions[0] as int));
        assert(field.lies(i, head));
        assert forall|pos: int| lies_on(snake.positions, pos) implies {
            &&& !(#[trigger] field.cells[pos]).is_free()
            &&& pos != snake.positions[0] ==> field.cells[pos].owner() == Some(snake.id)
                && !(field.cells[pos] is SnakeHead)
        } by {
            let k = choose|k: int|
                0 <= k < snake.positions.len() && #[trigger] snake.positions[k] == pos;
            assert(pos_in_bounds(snake.positions[k] as int));
            assert(field.lies(i, pos));
        }
        if dest >= 0 {
            lemma_move_keeps_body(snake, field.cells, action);
        }
        // Where the snake runs into a head, that is the head of another snake.
        if meets {
            assert(field.cells[target].owner() is Some);
            let w = choose|w: int| #[trigger] field.lies(w, target);
            assert(field.cells[target] is SnakeHead);
            assert(target == field.snakes[w].positions[0]);
            if lies_on(snake.positions, target) {
                assert(field.lies(i, target));
            }
        }
        assert forall|m: int| 0 <= m < next.snakes.len() implies {
            &&& (#[trigger] next.snakes[m]).wf()
            &&& next.snakes[m].alive ==> next.snakes[m].positions.len() > 0
            &&& next.snakes[m].just_died ==> next.snakes[m].alive
            &&& next.snakes[m].id == field.snakes[m].id
            &&& next.snakes[m].alive == field.snakes[m].alive
            &&& m != i ==> next.snakes[m] == field.snakes[m]
        } by {}
        assert forall|m: int, o: int|
            0 <= m < next.snakes.len() && 0 <= o < next.snakes.len() && m != o implies (
        #[trigger] next.snakes[m]).id != (#[trigger] next.snakes[o]).id by {
            assert(next.snakes[m].id == field.snakes[m].id);
            assert(next.snakes[o].id == field.snakes[o].id);
        }
        // No cell lies on two living snakes.
        assert forall|m: int, o: int, pos: int| #[trigger]
            next.lies(m, pos) && #[trigger] next.lies(o, pos) implies m == o by {
            if m != i {
                assert(field.lies(m, pos));
            }
            if o != i {
                assert(field.lies(o, pos));
            }
            if m == i && o != i {
                if lies_on(snake.positions, pos) {
                    assert(field.lies(i, pos));
                } else {
                    assert(pos == dest);
                    assert(field.snakes[o].wf());
                    let k = choose|k: int|
                        0 <= k < field.snakes[o].positions.len()
                            && #[trigger] field.snakes[o].positions[k] == pos;
                    assert(pos_in_bounds(field.snakes[o].positions[k] as int));
                    assert(!field.cells[pos].is_free());
                }
            }
            if o == i && m != i {
                if lies_on(snake.positions, pos) {
                    assert(field.lies(i, pos));
                } else {
                    assert(pos == dest);
                    assert(field.snakes[m].wf());
                    let k = choose|k: int|
                        0 <= k < field.snakes[m].positions.len()
                            && #[trigger] field.snakes[m].positions[k] == pos;
                    assert(pos_in_bounds(field.snakes[m].positions[k] as int));
                    assert(!field.cells[pos].is_free());
                }
            }
        }
        // Every living snake lies on cells that are its own, but maybe for its head.
        assert forall|m: int, pos: int|
            0 <= pos < next.cells.len() && #[trigger] next.lies(m, pos) implies {
            &&& next.cells[pos].owner() == Some(next.snakes[m].id) || (pos
                == next.snakes[m].positions[0] && next.cells[pos] is SnakeHead)
            &&& next.cells[pos] is SnakeHead ==> pos == next.snakes[m].positions[0]
        } by {
            if m != i {
                assert(next.snakes[m] == field.snakes[m]);
                assert(field.lies(m, pos));
                if lies_on(snake.positions, pos) {
                    assert(field.lies(i, pos));
                }
                if pos == target {
                    if dest >= 0 {
                        assert(field.cells[pos].is_free());
                    } else if meets {
                        assert(field.cells[pos] is SnakeHead);
                    }
                }
            } else if dest < 0 {
                assert(field.lies(i, pos));
                if pos == target {
                    assert(lies_on(snake.positions, target));
                }
            }
        }
        assert forall|m: int|
            0 <= m < next.snakes.len() && (#[trigger] next.snakes[m]).alive implies all_different(
            next.snakes[m].positions,
        ) by {
            if m != i {
                assert(next.snakes[m] == field.snakes[m]);
            }
            assert(field.snakes[m].alive);
        }
        // Every marked cell lies on a living snake.
        assert forall|pos: int|
            0 <= pos < next.cells.len() && (#[trigger] next.cells[pos]).owner() is Some implies exists|
            m: int,
        | #[trigger] next.lies(m, pos) by {
            if lies_on(after.positions, pos) {
                assert(next.lies(i, pos));
            } else if lies_on(snake.positions, pos) {
                // The move was not blocked and the tail left this cell.
                assert(dest >= 0);
            } else if pos == target && meets {
                let w = choose|w: int| #[trigger] field.lies(w, target);
                assert(w != i);
                assert(next.snakes[w] == field.snakes[w]);
                assert(next.lies(w, pos));
            } else {
                assert(next.cells[pos] == field.cells[pos]);
                let m = choose|m: int| #[trigger] field.lies(m, pos);
                assert(m != i);
                assert(next.snakes[m] == field.snakes[m]);
                assert(next.lies(m, pos));
            }
        }
    }
}

/// A move changes no obstacle and makes none.
pub proof fn lemma_move_marks(field: Field, i: int, action: Action)
    requires
        field.sound(),
        0 <= i < field.snakes.len(),
        field.snakes[i].alive,
    ensures
        forall|pos: int|
            0 <= pos < NB_CELLS ==> ({
                let before = field.cells[pos];
                let after = #[trigger] field_after_move(field, i, action).cells[pos];
                after == before || (before != Cell::Obstacle && after != Cell::Obstacle)
            }),
{
    let snake = field.snakes[i];
    let next = field_after_move(field, i, action);
    let target = target_pos(snake, action);
    assert(snake.wf());
    lemma_move_frame(snake, field.cells, action);
    lemma_move_keeps_field(field, i, action);
    assert forall|pos: int| 0 <= pos < NB_CELLS implies ({
        let before = field.cells[pos];
        let after = #[trigger] next.cells[pos];
        after == before || (before != Cell::Obstacle && after != Cell::Obstacle)
    }) by {
        if next.cells[pos] != field.cells[pos] {
            if pos != target {
                assert(lies_on(snake.positions, pos));
                assert(field.lies(i, pos));
            }
            assert(next.cells[pos] == Cell::Empty || next.cells[pos].owner() is Some);
        }
    }
}

/// What holds after the first `count` moves of a tick: board and snakes
/// are sound and agree, every snake has its id and lives if it lived, the
/// snakes that have not moved are as they were, and those that have moved
/// and stand have made one move more.
pub proof fn lemma_moves_keep_field(game: GameModel, actions: Seq<Action>, count: nat)
    requires
        game.wf(),
        game.initialized,
        actions.len() == game.snakes.len(),
        count <= game.snakes.len(),
    ensures
        ({
            let field = game.field().moved(actions, count);
            &&& field.sound()
            &&& field.snakes.len() == game.snakes.len()
            &&& forall|i: int|
                0 <= i < field.snakes.len() ==> {
                    &&& (#[trigger] field.snakes[i]).id == game.snakes[i].id
                    &&& field.snakes[i].alive == game.snakes[i].alive
                    &&& i < count && field.snakes[i].alive && !field.snakes[i].just_died
                        ==> moves_made(field.snakes[i]) >= game.step + 1
                }
            &&& forall|i: int|
                count <= i < field.snakes.len() ==> #[trigger] field.snakes[i] == game.snakes[i]
            &&& forall|i: int|
                0 <= i < field.snakes.len() && !game.snakes[i].alive
                    ==> #[trigger] field.snakes[i] == game.snakes[i]
            &&& forall|pos: int|
                0 <= pos < NB_CELLS ==> ((#[trigger] field.cells[pos]) == Cell::Obstacle
                    <==> game.cells[pos] == Cell::Obstacle)
        }),
    decreases count,
{
    if count == 0 {
        lemma_agreement_is_sound(game);
    } else {
        let i = count - 1;
        lemma_moves_keep_field(game, actions, i as nat);
        let before = game.field().moved(actions, i as nat);
        let field = game.field().moved(actions, count);
        let snake = before.snakes[i];
        assert(snake == game.snakes[i]);
        assert(field == field_after_move(before, i, actions[i]));
        lemma_move_keeps_field(before, i, actions[i]);
        assert(snake.wf());
        if snake.alive {
            lemma_move_frame(snake, before.cells, actions[i]);
            lemma_move_marks(before, i, actions[i]);
        }
        assert forall|pos: int| 0 <= pos < NB_CELLS implies ((#[trigger] field.cells[pos])
            == Cell::Obstacle <==> game.cells[pos] == Cell::Obstacle) by {
            assert(before.cells[pos] == Cell::Obstacle <==> game.cells[pos] == Cell::Obstacle);
        }
        assert forall|j: int| 0 <= j < field.snakes.len() implies {
            &&& (#[trigger] field.snakes[j]).id == game.snakes[j].id
            &&& field.snakes[j].alive == game.snakes[j].alive
            &&& j < count && field.snakes[j].alive && !field.snakes[j].just_died ==> moves_made(
                field.snakes[j],
            ) >= game.step + 1
            &&& !game.snakes[j].alive ==> field.snakes[j] == game.snakes[j]
        } by {
            if j != i {
                assert(field.snakes[j] == before.snakes[j]);
            }
        }
    }
}

/// While a snake lives, fewer than `MAX_TICKS` ticks have been played: the
/// snake has made a move in each, and its body, of cells that are all
/// different, fits the board.
pub proof fn lemma_alive_bounds_ticks(game: GameModel)
    requires
        game.wf(),
        game.initialized,
        game.alive_count() > 0,
    ensures
        game.step < MAX_TICKS,
{
    let at = lemma_alive_witness(game.snakes);
    let snake = game.snakes[at];
    assert(snake.wf());
    lemma_distinct_fit(snake.positions, NB_CELLS as int);
    assert(moves_made(snake) >= game.step);
    assert(GROWTH_RATE * (snake.positions.len() - 1) <= GROWTH_RATE * (NB_CELLS - 1))
        by (nonlinear_arith)
        requires
            snake.positions.len() <= NB_CELLS,
            GROWTH_RATE == 3,
    ;
}

/// A tick keeps a game sound, lets no snake come back to life, leaves the
/// dead and the obstacles as they are, and is not played after `MAX_TICKS`
/// ticks while a snake lives.
pub proof fn lemma_tick(game: GameModel, actions: Seq<Action>, food: Option<Position>)
    requires
        game.wf(),
        game.initialized,
        actions.len() == game.snakes.len(),
    ensures
        game.ticked(actions, food).wf(),
        game.ticked(actions, food).initialized,
        game.ticked(actions, food).snakes.len() == game.snakes.len(),
        game.ticked(actions, food).alive_count() <= game.alive_count(),
        game.alive_count() > 0 ==> game.step < MAX_TICKS,
        forall|i: int|
            0 <= i < game.snakes.len() ==> (#[trigger] game.ticked(actions, food).snakes[i]).id
                == game.snakes[i].id && (game.ticked(actions, food).snakes[i].alive
                ==> game.snakes[i].alive),
        forall|i: int|
            0 <= i < game.snakes.len() && !game.snakes[i].alive ==> #[trigger] game.ticked(
                actions,
                food,
            ).snakes[i] == game.snakes[i],
        forall|pos: int|
            0 <= pos < NB_CELLS ==> ((#[trigger] game.ticked(actions, food).cells[pos])
                == Cell::Obstacle <==> game.cells[pos] == Cell::Obstacle),
{
    let n = game.snakes.len();
    let moved = game.field().moved(actions, n);
    let checked = moved.head_checked();
    let purged = checked.purged();
    let next = game.ticked(actions, food);
    lemma_moves_keep_field(game, actions, n);
    if game.alive_count() > 0 {
        lemma_alive_bounds_ticks(game);
    }
    // Snake by snake, from the game to the end of the tick.
    assert forall|i: int| 0 <= i < n implies {
        &&& (#[trigger] purged.snakes[i]).wf()
        &&& !purged.snakes[i].just_died
        &&& purged.snakes[i].id == game.snakes[i].id
        &&& purged.snakes[i].alive ==> game.snakes[i].alive && moved.snakes[i].alive
            && !checked.snakes[i].just_died && !moved.snakes[i].head_overwritten(moved.cells)
            && purged.snakes[i] == moved.snakes[i]
        &&& purged.snakes[i].alive ==> purged.snakes[i].positions.len() > 0 && moves_made(
            purged.snakes[i],
        ) >= game.step + 1
    } by {
        assert(moved.snakes[i].wf());
    }
    lemma_alive_count_grows(purged.snakes, game.snakes);
    assert forall|i: int| 0 <= i < n && !game.snakes[i].alive implies #[trigger] next.snakes[i]
        == game.snakes[i] by {
        assert(moved.snakes[i] == game.snakes[i]);
        assert(!game.snakes[i].just_died);
    }
    // The snakes that are left lie on cells that are theirs, which stay.
    assert forall|i: int, pos: int|
        0 <= pos < purged.cells.len() && #[trigger] purged.lies(i, pos) implies purged.cells[pos]
        == moved.cells[pos] && moved.lies(i, pos) && purged.cells[pos].owner() == Some(
        purged.snakes[i].id,
    ) && (purged.cells[pos] is SnakeHead ==> pos == purged.snakes[i].positions[0]) by {
        assert(purged.snakes[i] == moved.snakes[i]);
        assert(moved.lies(i, pos));
        if checked.under_dying_snake(pos, n as int) {
            let k = choose|k: int|
                0 <= k < n && k < checked.snakes.len() && (#[trigger] checked.snakes[k]).just_died
                    && lies_on(checked.snakes[k].positions, pos);
            assert(moved.snakes[k].alive);
            assert(moved.lies(k, pos));
        }
        // The head of a snake that is left was not overwritten.
        assert(moved.snakes[i].wf());
        assert(pos_in_bounds(moved.snakes[i].positions[0] as int));
    }
    assert forall|pos: int|
        0 <= pos < purged.cells.len() && (#[trigger] purged.cells[pos]).owner() is Some implies exists|
        i: int,
    | #[trigger]
        purged.lies(i, pos) && purged.cells[pos].owner() == Some(purged.snakes[i].id) by {
        assert(!checked.under_dying_snake(pos, n as int));
        assert(purged.cells[pos] == moved.cells[pos]);
        let i = choose|i: int| #[trigger] moved.lies(i, pos);
        if checked.snakes[i].just_died {
            assert(checked.under_dying_snake(pos, n as int));
        }
        assert(purged.snakes[i] == moved.snakes[i]);
        assert(purged.lies(i, pos));
    }
    assert(purged.coherent());
    // Obstacles are where they were.
    assert forall|pos: int| 0 <= pos < NB_CELLS implies ((#[trigger] next.cells[pos])
        == Cell::Obstacle <==> game.cells[pos] == Cell::Obstacle) by {
        assert(moved.cells[pos] == Cell::Obstacle <==> game.cells[pos] == Cell::Obstacle);
        if checked.under_dying_snake(pos, n as int) {
            let k = choose|k: int|
                0 <= k < n && k < checked.snakes.len() && (#[trigger] checked.snakes[k]).just_died
                    && lies_on(checked.snakes[k].positions, pos);
            assert(moved.snakes[k].alive);
            assert(moved.lies(k, pos));
        }
    }
    // Food grows on free cells only.
    assert forall|pos: int| 0 <= pos < NB_CELLS implies (#[trigger] next.cells[pos]).owner()
        == purged.cells[pos].owner() && next.cells[pos] != Cell::Wall && (next.cells[pos]
        is SnakeHead ==> next.cells[pos] == purged.cells[pos]) by {
        assert(purged.cells[pos] != Cell::Wall);
    }
    assert(next.field().coherent()) by {
        assert forall|i: int, pos: int|
            0 <= pos < next.cells.len() && #[trigger] next.field().lies(i, pos) implies next.cells[pos].owner()
            == Some(next.snakes[i].id) && (next.cells[pos] is SnakeHead ==> pos
            == next.snakes[i].positions[0]) by {
            assert(purged.lies(i, pos));
            assert(next.cells[pos].owner() == purged.cells[pos].owner());
        }
        assert forall|pos: int|
            0 <= pos < next.cells.len() && (#[trigger] next.cells[pos]).owner() is Some implies exists|
            i: int,
        | #[trigger]
            next.field().lies(i, pos) && next.cells[pos].owner() == Some(next.snakes[i].id) by {
            assert(next.cells[pos].owner() == purged.cells[pos].owner());
            assert(purged.cells[pos].owner() is Some);
            let i = choose|i: int| #[trigger]
                purged.lies(i, pos) && purged.cells[pos].owner() == Some(purged.snakes[i].id);
            assert(next.field().lies(i, pos));
        }
    }
    // The outcome agrees with the snakes that are left.
    assert(next.results is Some <==> is_over(next.snakes));
    assert forall|i: int, j: int|
        0 <= i < next.snakes.len() && 0 <= j < next.snakes.len() && i != j implies (
    #[trigger] next.snakes[i]).id != (#[trigger] next.snakes[j]).id by {
        assert(purged.snakes[i].id == game.snakes[i].id);
        assert(purged.snakes[j].id == game.snakes[j].id);
    }
    assert(next.wf());
}

/// What holds after the first `count` snakes were put on the board, each
/// on a free cell of its own.
pub proof fn lemma_placed(game: GameModel, heads: Seq<Position>, count: nat)
    requires
        game.wf(),
        !game.initialized,
        valid_heads(game.cells, heads, game.snakes.len()),
        count <= game.snakes.len(),
    ensures
        ({
            let field = game.field().placed(heads, count);
            &&& field.cells.len() == NB_CELLS
            &&& field.snakes.len() == game.snakes.len()
            &&& forall|i: int|
                0 <= i < count ==> #[trigger] field.snakes[i] == game.snakes[i].placed_at(heads[i])
            &&& forall|i: int|
                count <= i < field.snakes.len() ==> #[trigger] field.snakes[i] == game.snakes[i]
            &&& forall|i: int|
                0 <= i < count ==> field.cells[#[trigger] heads[i] as int] == Cell::SnakeHead(
                    game.snakes[i].id,
                )
            &&& forall|pos: int|
                0 <= pos < NB_CELLS && !lies_on(heads.take(count as int), pos)
                    ==> #[trigger] field.cells[pos] == game.cells[pos]
        }),
    decreases count,
{
    if count > 0 {
        let i = count - 1;
        lemma_placed(game, heads, i as nat);
        let before = game.field().placed(heads, i as nat);
        let field = game.field().placed(heads, count);
        assert(0 <= heads[i] < NB_CELLS);
        assert(before.snakes[i] == game.snakes[i]);
        assert(heads.take(count as int)[i] == heads[i]);
        assert forall|k: int| 0 <= k < count implies field.cells[#[trigger] heads[k] as int]
            == Cell::SnakeHead(game.snakes[k].id) by {
            if k < i {
                assert(heads[k] != heads[i]);
                assert(before.cells[heads[k] as int] == Cell::SnakeHead(game.snakes[k].id));
            }
        }
        assert forall|pos: int|
            0 <= pos < NB_CELLS && !lies_on(heads.take(count as int), pos) implies #[trigger] field.cells[pos]
            == game.cells[pos] by {
            if lies_on(heads.take(i), pos) {
                let k = choose|k: int| 0 <= k < heads.take(i).len() && #[trigger] heads.take(i)[k]
                    == pos;
                assert(heads.take(count as int)[k] == pos);
            }
        }
    }
}

/// Putting the snakes on the board, each on a free cell of its own, makes a
/// sound game that has begun.
pub proof fn lemma_start(game: GameModel, heads: Seq<Position>)
    requires
        game.wf(),
        !game.initialized,
        valid_heads(game.cells, heads, game.snakes.len()),
    ensures
        game.started(heads).wf(),
        game.started(heads).snakes.len() == game.snakes.len(),
{
    let n = game.snakes.len();
    let next = game.started(heads);
    let field = next.field();
    lemma_placed(game, heads, n);
    assert(heads.take(n as int) =~= heads);
    assert forall|i: int| 0 <= i < n implies (#[trigger] next.snakes[i]).wf()
        && !next.snakes[i].just_died && next.snakes[i].alive && next.snakes[i].positions
        =~= seq![heads[i]] && next.snakes[i].id == game.snakes[i].id && moves_made(
        next.snakes[i],
    ) == 0 by {
        assert(game.snakes[i].wf());
        assert(game.snakes[i].positions.len() == 0);
        assert(next.snakes[i] == game.snakes[i].placed_at(heads[i]));
    }
    lemma_all_alive(next.snakes);
    assert forall|i: int, j: int| 0 <= i < n && 0 <= j < n && i != j implies (
    #[trigger] next.snakes[i]).id != (#[trigger] next.snakes[j]).id by {
        assert(next.snakes[i].id == game.snakes[i].id);
        assert(next.snakes[j].id == game.snakes[j].id);
    }
    // The board had no mark of a snake, and now has the heads.
    assert forall|pos: int| 0 <= pos < NB_CELLS implies (#[trigger] game.cells[pos]).owner() is None by {
        if game.cells[pos].owner() is Some {
            let i = choose|i: int| #[trigger]
                game.field().lies(i, pos) && game.cells[pos].owner() == Some(game.snakes[i].id);
            assert(game.snakes[i].positions.len() == 0);
        }
    }
    assert forall|i: int, pos: int|
        0 <= pos < field.cells.len() && #[trigger] field.lies(i, pos) implies field.cells[pos].owner()
        == Some(field.snakes[i].id) by {
        assert(field.snakes[i].positions =~= seq![heads[i]]);
        let k = choose|k: int|
            0 <= k < field.snakes[i].positions.len() && #[trigger] field.snakes[i].positions[k]
                == pos;
        assert(pos == heads[i]);
        assert(field.cells[heads[i] as int] == Cell::SnakeHead(game.snakes[i].id));
    }
    assert forall|i: int|
        0 <= i < field.snakes.len() && (#[trigger] field.snakes[i]).alive implies all_different(
        field.snakes[i].positions,
    ) by {
        assert(field.snakes[i].positions =~= seq![heads[i]]);
    }
    assert forall|pos: int|
        0 <= pos < field.cells.len() && (#[trigger] field.cells[pos]).owner() is Some implies exists|
        i: int,
    | #[trigger]
        field.lies(i, pos) && field.cells[pos].owner() == Some(field.snakes[i].id) by {
        if lies_on(heads, pos) {
            let i = choose|i: int| 0 <= i < heads.len() && #[trigger] heads[i] == pos;
            assert(field.snakes[i].positions =~= seq![heads[i]]);
            assert(field.snakes[i].positions[0] == pos);
            assert(field.lies(i, pos));
            assert(field.cells[heads[i] as int] == Cell::SnakeHead(game.snakes[i].id));
        } else {
            assert(field.cells[pos] == game.cells[pos]);
            assert(game.cells[pos].owner() is None);
        }
    }
    assert forall|pos: int| 0 <= pos < NB_CELLS implies #[trigger] next.cells[pos]
        != Cell::Wall by {
        if lies_on(heads, pos) {
            let i = choose|i: int| 0 <= i < heads.len() && #[trigger] heads[i] == pos;
            assert(field.cells[heads[i] as int] == Cell::SnakeHead(game.snakes[i].id));
        } else {
            assert(field.cells[pos] == game.cells[pos]);
        }
    }
}

} // verus!
