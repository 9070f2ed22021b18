//! What collisions do: a snake that runs into an obstacle or a body dies
//! where it is and leaves what it hit as it was; snakes that go for the same
//! free cell die together, and none of them keeps the cell; and board and
//! bodies agree after every tick.

use crate::board::{fed, Cell};
use crate::geometry::{pos_in_bounds, Action, Position, NB_CELLS};
use crate::outcome::lemma_tick_outcome;
use crate::rules::{
    all_different, alive_count, GameModel, GameResultWinner, GameResults,
};
use crate::snake::{lies_on, next_growth_state, SnakeModel};
use crate::soundness::{
    field_after_move, lemma_agreement_is_sound, lemma_alive_witness, lemma_move_frame,
    lemma_moves_keep_field, lemma_tick, target_pos,
};
use vstd::prelude::*;

verus! {

/// A move of a living snake off the board or onto a cell that is not free
/// kills the snake and leaves it where it is. On the board, the cell of its
/// head becomes body; the destination stays as it was, unless it showed the
/// head of another snake. The countdown goes on if the destination is on
/// the board.
pub proof fn lemma_blocked_move(snake: SnakeModel, cells: Seq<Cell>, action: Action)
    requires
        snake.wf(),
        snake.can_move(),
        cells.len() == NB_CELLS,
        snake.is_blocked(cells, action),
    ensures
        ({
            let after = snake.after_move(cells, action);
            let board = snake.board_after_move(cells, action);
            let target = target_pos(snake, action);
            &&& after.just_died
            &&& after.positions == snake.positions
            &&& after.orientation == snake.orientation
            &&& target < 0 ==> after.growth_state == snake.growth_state
            &&& target >= 0 ==> after.growth_state == next_growth_state(snake.growth_state)
            &&& board[snake.head() as int] == Cell::SnakeBody(snake.id)
            &&& forall|pos: int|
                0 <= pos < NB_CELLS && pos != snake.head() && !(pos == target && snake.meets_head(
                    cells,
                    action,
                )) ==> #[trigger] board[pos] == cells[pos]
            &&& snake.meets_head(cells, action) ==> board[target] == Cell::SnakeHead(snake.id)
        }),
{
    lemma_move_frame(snake, cells, action);
    assert(pos_in_bounds(snake.positions[0] as int));
}

/// In a sound game, every cell of a living snake's body shows that snake,
/// no cell belongs to two living snakes nor twice to one, and every cell
/// that shows a snake lies on the body of the living snake of that id.
pub proof fn lemma_board_and_bodies_agree(game: GameModel)
    requires
        game.wf(),
    ensures
        game.field().coherent(),
        forall|i: int, j: int, a: int, b: int|
            #![trigger game.snakes[i].positions[a], game.snakes[j].positions[b]]
            0 <= i < game.snakes.len() && 0 <= j < game.snakes.len() && game.snakes[i].alive
                && game.snakes[j].alive && 0 <= a < game.snakes[i].positions.len() && 0 <= b
                < game.snakes[j].positions.len() && (i != j || a != b)
                ==> game.snakes[i].positions[a] != game.snakes[j].positions[b],
{
    let field = game.field();
    assert forall|i: int, j: int, a: int, b: int|
        0 <= i < game.snakes.len() && 0 <= j < game.snakes.len() && game.snakes[i].alive
            && game.snakes[j].alive && 0 <= a < game.snakes[i].positions.len() && 0 <= b
            < game.snakes[j].positions.len() && (i != j || a != b) implies #[trigger] game.snakes[i].positions[a]
        != #[trigger] game.snakes[j].positions[b] by {
        let pos = game.snakes[i].positions[a] as int;
        assert(game.snakes[i].wf());
        assert(pos_in_bounds(game.snakes[i].positions[a] as int));
        if game.snakes[j].positions[b] == pos {
            assert(field.lies(i, pos));
            assert(field.lies(j, pos));
            assert(game.snakes[i].id == game.snakes[j].id);
            assert(all_different(game.snakes[i].positions));
            if a < b {
                assert(game.snakes[i].positions[a] != game.snakes[i].positions[b]);
            } else {
                assert(game.snakes[i].positions[b] != game.snakes[i].positions[a]);
            }
        }
    }
}

/// After every tick, board and bodies agree, and no cell shows a snake that
/// is dead.
pub proof fn lemma_tick_keeps_agreement(game: GameModel, actions: Seq<Action>, food: Option<Position>)
    requires
        game.wf(),
        game.initialized,
        actions.len() == game.snakes.len(),
    ensures
        game.ticked(actions, food).field().coherent(),
        forall|i: int, pos: int|
            0 <= i < game.snakes.len() && 0 <= pos < NB_CELLS && !(#[trigger] game.ticked(
                actions,
                food,
            ).snakes[i]).alive ==> (#[trigger] game.ticked(actions, food).cells[pos]).owner()
                != Some(game.snakes[i].id),
{
    let next = game.ticked(actions, food);
    lemma_tick(game, actions, food);
    assert forall|i: int, pos: int|
        0 <= i < game.snakes.len() && 0 <= pos < NB_CELLS && !(#[trigger] next.snakes[i]).alive implies (
    #[trigger] next.cells[pos]).owner() != Some(game.snakes[i].id) by {
        if next.cells[pos].owner() == Some(game.snakes[i].id) {
            let m = choose|m: int| #[trigger]
                next.field().lies(m, pos) && next.cells[pos].owner() == Some(next.snakes[m].id);
            assert(next.snakes[m].id == game.snakes[m].id);
            assert(next.snakes[i].id == game.snakes[i].id);
        }
    }
}

/// Whether the snake at `m` lives and its action leads its head to `dest`.
pub open spec fn goes_for(game: GameModel, actions: Seq<Action>, m: int, dest: int) -> bool {
    0 <= m < game.snakes.len() && game.snakes[m].alive && target_pos(game.snakes[m], actions[m])
        == dest
}

/// The first of the snakes up to `upto` that goes for `dest`.
proof fn lemma_first_to_go(game: GameModel, actions: Seq<Action>, dest: int, upto: int) -> (first:
    int)
    requires
        goes_for(game, actions, upto, dest),
    ensures
        0 <= first <= upto,
        goes_for(game, actions, first, dest),
        forall|m: int| 0 <= m < first ==> !goes_for(game, actions, m, dest),
    decreases upto,
{
    if exists|m: int| 0 <= m < upto && goes_for(game, actions, m, dest) {
        let m = choose|m: int| 0 <= m < upto && goes_for(game, actions, m, dest);
        lemma_first_to_go(game, actions, dest, m)
    } else {
        upto
    }
}

/// While the snakes take their moves, a free cell that some of them go for
/// is as it was until the first of them moves. From then on the first has
/// its head there, the cell shows the head of the last that went for it,
/// and all that went for it but the first have just died.
proof fn lemma_cell_contested(
    game: GameModel,
    actions: Seq<Action>,
    dest: int,
    first: int,
    count: nat,
)
    requires
        game.wf(),
        game.initialized,
        actions.len() == game.snakes.len(),
        count <= game.snakes.len(),
        0 <= dest < NB_CELLS,
        game.cells[dest].is_free(),
        goes_for(game, actions, first, dest),
        forall|m: int| 0 <= m < first ==> !goes_for(game, actions, m, dest),
    ensures
        ({
            let field = game.field().moved(actions, count);
            &&& count <= first ==> field.cells[dest] == game.cells[dest]
            &&& count > first ==> {
                &&& field.snakes[first].alive
                &&& !field.snakes[first].just_died
                &&& field.snakes[first].positions.len() > 0
                &&& field.snakes[first].positions[0] == dest
                &&& forall|m: int|
                    first < m < count && goes_for(game, actions, m, dest) ==> (
                    #[trigger] field.snakes[m]).just_died
                &&& exists|last: int|
                    first <= last < count && #[trigger] goes_for(game, actions, last, dest) && (
                    forall|m: int| last < m < count ==> !goes_for(game, actions, m, dest))
                        && field.cells[dest] == Cell::SnakeHead(game.snakes[last].id)
            }
        }),
    decreases count,
{
    if count > 0 {
        let i = count - 1;
        lemma_cell_contested(game, actions, dest, first, i as nat);
        lemma_moves_keep_field(game, actions, i as nat);
        lemma_moves_keep_field(game, actions, count);
        let before = game.field().moved(actions, i as nat);
        let field = game.field().moved(actions, count);
        let snake = before.snakes[i];
        assert(snake == game.snakes[i]);
        assert(snake.wf());
        assert(field == field_after_move(before, i, actions[i]));
        assert forall|m: int| 0 <= m < game.snakes.len() && m != i implies #[trigger] field.snakes[m]
            == before.snakes[m] by {}
        // No living snake lay on the cell when the tick began.
        if snake.alive && lies_on(snake.positions, dest) {
            assert(game.field().lies(i, dest));
        }
        if !snake.alive {
            assert(field.cells == before.cells);
            assert(field.snakes[i] == before.snakes[i]);
        } else {
            lemma_move_frame(snake, before.cells, actions[i]);
        }
        if i < first {
            assert(!goes_for(game, actions, i, dest));
            assert(field.cells[dest] == before.cells[dest]);
        } else if i == first {
            assert(before.cells[dest] == game.cells[dest]);
            assert(goes_for(game, actions, first, dest));
            assert(field.snakes[first].positions[0] == dest);
            assert(field.cells[dest] == Cell::SnakeHead(game.snakes[first].id));
            assert(!field.snakes[first].just_died);
        } else {
            let last = choose|last: int|
                first <= last < i && #[trigger] goes_for(game, actions, last, dest) && (forall|
                    m: int,
                |
                    last < m < i ==> !goes_for(game, actions, m, dest)) && before.cells[dest]
                    == Cell::SnakeHead(game.snakes[last].id);
            assert(game.snakes[last].id != game.snakes[i].id);
            assert(field.snakes[first] == before.snakes[first]);
            if goes_for(game, actions, i, dest) {
                assert(snake.meets_head(before.cells, actions[i]));
                assert(field.cells[dest] == Cell::SnakeHead(game.snakes[i].id));
                assert(field.snakes[i].just_died);
            } else {
                assert(field.cells[dest] == before.cells[dest]);
                assert(goes_for(game, actions, last, dest));
                assert(forall|m: int| last < m < count ==> !goes_for(game, actions, m, dest));
            }
            assert forall|m: int|
                first < m < count && goes_for(game, actions, m, dest) implies (
            #[trigger] field.snakes[m]).just_died by {
                if m < i {
                    assert(before.snakes[m].just_died);
                }
            }
        }
    }
}

/// Snakes of which none lives count none as living.
proof fn lemma_nobody_counts(snakes: Seq<SnakeModel>)
    requires
        forall|i: int| 0 <= i < snakes.len() ==> !(#[trigger] snakes[i]).alive,
    ensures
        alive_count(snakes) == 0,
{
    if alive_count(snakes) > 0 {
        let at = lemma_alive_witness(snakes);
    }
}

/// Two living snakes that go for the same cell, free when the tick begins,
/// are both dead after the tick, whichever of them moves first. Neither
/// keeps the cell: it is empty when the tick is resolved, so that it is
/// empty or holds the food of this tick afterwards, and no cell shows
/// either snake. If they are the only snakes of a game that is not over,
/// the game ends in a draw with this tick.
pub proof fn lemma_same_cell_both_die(
    game: GameModel,
    actions: Seq<Action>,
    food: Option<Position>,
    one: int,
    other: int,
)
    requires
        game.wf(),
        game.initialized,
        actions.len() == game.snakes.len(),
        0 <= one < game.snakes.len(),
        0 <= other < game.snakes.len(),
        one != other,
        game.snakes[one].alive,
        game.snakes[other].alive,
        target_pos(game.snakes[one], actions[one]) >= 0,
        target_pos(game.snakes[one], actions[one]) == target_pos(game.snakes[other], actions[other]),
        game.cells[target_pos(game.snakes[one], actions[one])].is_free(),
    ensures
        ({
            let next = game.ticked(actions, food);
            let dest = target_pos(game.snakes[one], actions[one]);
            &&& !next.snakes[one].alive
            &&& !next.snakes[other].alive
            &&& game.field().resolved(actions).cells[dest] == Cell::Empty
            &&& next.cells[dest] == Cell::Empty || next.cells[dest] == Cell::Food
            &&& food is None ==> next.cells[dest] == Cell::Empty
            &&& forall|pos: int|
                0 <= pos < NB_CELLS ==> (#[trigger] next.cells[pos]).owner() != Some(
                    game.snakes[one].id,
                ) && next.cells[pos].owner() != Some(game.snakes[other].id)
            &&& game.snakes.len() == 2 && game.results is None ==> next.results == Some(
                GameResults {
                    winner: Some(GameResultWinner::Draw),
                    steps: (game.step + 1) as u32,
                },
            )
        }),
{
    let n = game.snakes.len();
    let dest = target_pos(game.snakes[one], actions[one]);
    let next = game.ticked(actions, food);
    assert(game.snakes[one].wf());
    lemma_agreement_is_sound(game);
    lemma_move_frame(game.snakes[one], game.cells, actions[one]);
    let later = if one < other {
        other
    } else {
        one
    };
    let earlier = if one < other {
        one
    } else {
        other
    };
    assert(goes_for(game, actions, earlier, dest));
    assert(goes_for(game, actions, later, dest));
    let first = lemma_first_to_go(game, actions, dest, earlier);
    lemma_cell_contested(game, actions, dest, first, n);
    lemma_moves_keep_field(game, actions, n);
    lemma_tick(game, actions, food);
    lemma_tick_keeps_agreement(game, actions, food);
    let moved = game.field().moved(actions, n);
    let checked = moved.head_checked();
    let last = choose|last: int|
        first <= last < n && #[trigger] goes_for(game, actions, last, dest) && (forall|m: int|
            last < m < n ==> !goes_for(game, actions, m, dest)) && moved.cells[dest]
            == Cell::SnakeHead(game.snakes[last].id);
    // The last to go for the cell is not the first, whose head it overwrote.
    assert(last >= later);
    assert(game.snakes[last].id != game.snakes[first].id);
    assert(moved.snakes[first].id == game.snakes[first].id);
    assert(moved.snakes[first].head_overwritten(moved.cells));
    assert(checked.snakes[first].just_died);
    assert(checked.snakes[one].just_died) by {
        if one != first {
            assert(moved.snakes[one].just_died);
        }
    }
    assert(checked.snakes[other].just_died) by {
        if other != first {
            assert(moved.snakes[other].just_died);
        }
    }
    // The cell lies under the first, which is taken off the board.
    assert(lies_on(checked.snakes[first].positions, dest)) by {
        assert(checked.snakes[first].positions[0] == dest);
    }
    assert(checked.under_dying_snake(dest, n as int));
    if n == 2 && game.results is None {
        assert forall|i: int| 0 <= i < next.snakes.len() implies !(#[trigger] next.snakes[i]).alive by {
            assert(i == one || i == other);
        }
        lemma_nobody_counts(next.snakes);
        lemma_tick_outcome(game, actions, food);
    }
}

/// While the snakes take their moves, food that no living snake goes for
/// stays.
proof fn lemma_food_untouched(game: GameModel, actions: Seq<Action>, pos: int, count: nat)
    requires
        game.wf(),
        game.initialized,
        actions.len() == game.snakes.len(),
        count <= game.snakes.len(),
        0 <= pos < NB_CELLS,
        game.cells[pos] == Cell::Food,
        forall|m: int| 0 <= m < game.snakes.len() ==> !goes_for(game, actions, m, pos),
    ensures
        game.field().moved(actions, count).cells[pos] == Cell::Food,
    decreases count,
{
    if count > 0 {
        let i = count - 1;
        lemma_food_untouched(game, actions, pos, i as nat);
        lemma_moves_keep_field(game, actions, i as nat);
        let before = game.field().moved(actions, i as nat);
        let snake = before.snakes[i];
        assert(snake == game.snakes[i]);
        assert(snake.wf());
        if snake.alive {
            lemma_move_frame(snake, before.cells, actions[i]);
            assert(!goes_for(game, actions, i, pos));
            if lies_on(snake.positions, pos) {
                assert(game.field().lies(i, pos));
            }
        }
    }
}

/// Food that no living snake goes for in a tick is there after the tick.
pub proof fn lemma_food_stays_until_eaten(
    game: GameModel,
    actions: Seq<Action>,
    food: Option<Position>,
    pos: int,
)
    requires
        game.wf(),
        game.initialized,
        actions.len() == game.snakes.len(),
        0 <= pos < NB_CELLS,
        game.cells[pos] == Cell::Food,
        forall|m: int| 0 <= m < game.snakes.len() ==> !goes_for(game, actions, m, pos),
    ensures
        game.ticked(actions, food).cells[pos] == Cell::Food,
{
    let n = game.snakes.len();
    let moved = game.field().moved(actions, n);
    lemma_food_untouched(game, actions, pos, n);
    lemma_moves_keep_field(game, actions, n);
    let checked = moved.head_checked();
    if checked.under_dying_snake(pos, n as int) {
        let k = choose|k: int|
            0 <= k < n && k < checked.snakes.len() && (#[trigger] checked.snakes[k]).just_died
                && lies_on(checked.snakes[k].positions, pos);
        assert(moved.snakes[k].alive);
        assert(moved.lies(k, pos));
    }
    assert(fed(checked.purged().cells, food)[pos] == Cell::Food);
}

} // verus!
