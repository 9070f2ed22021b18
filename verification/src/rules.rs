//! The rules of one tick, stated on a model of the game: every living snake
//! moves in turn, heads that ran into each other are found on the board, the
//! snakes that died are taken off it, and the outcome is settled once.

use crate::board::{count_free, fed, Cell};
use crate::geometry::{Action, Position, SnakeId, NB_CELLS};
use crate::snake::{lies_on, SnakeModel, GROWTH_RATE};
use vstd::prelude::*;

verus! {

#[derive(Debug, Clone, Copy, PartialEq, Eq)]
pub enum GameResultWinner {
    Winner(SnakeId),
    Draw,
}

#[derive(Debug, Clone, Copy, PartialEq, Eq)]
pub struct GameResults {
    /// `None` if there is only one snake, so that nobody can win.
    pub winner: Option<GameResultWinner>,
    /// The number of the tick that ended the game, counted from 1.
    pub steps: u32,
}

/// Number of living snakes among `snakes`.
pub open spec fn alive_count(snakes: Seq<SnakeModel>) -> nat
    decreases snakes.len(),
{
    if snakes.len() == 0 {
        0
    } else {
        alive_count(snakes.drop_last()) + if snakes.last().alive {
            1nat
        } else {
            0nat
        }
    }
}

/// The id of the first living snake at or after index `from`, or 0 if none
/// lives.
pub open spec fn first_alive_id(snakes: Seq<SnakeModel>, from: int) -> SnakeId
    decreases snakes.len() - from,
{
    if from < 0 || from >= snakes.len() {
        0
    } else if snakes[from].alive {
        snakes[from].id
    } else {
        first_alive_id(snakes, from + 1)
    }
}

/// Board and snakes in the middle of a tick.
pub struct Field {
    pub cells: Seq<Cell>,
    pub snakes: Seq<SnakeModel>,
}

impl Field {
    /// The field after the first `count` snakes took their moves, one after
    /// the other, each on the board that the ones before it left.
    pub open spec fn moved(self, actions: Seq<Action>, count: nat) -> Field
        decreases count,
    {
        if count == 0 {
            self
        } else {
            let before = self.moved(actions, (count - 1) as nat);
            let i = count - 1;
            let snake = before.snakes[i];
            Field {
                cells: snake.board_after_move(before.cells, actions[i]),
                snakes: before.snakes.update(i, snake.after_move(before.cells, actions[i])),
            }
        }
    }

    /// The field after the first `count` snakes were put on the board, snake
    /// `i` with its head at `heads[i]`.
    pub open spec fn placed(self, heads: Seq<Position>, count: nat) -> Field
        decreases count,
    {
        if count == 0 {
            self
        } else {
            let before = self.placed(heads, (count - 1) as nat);
            let i = count - 1;
            Field {
                cells: before.cells.update(heads[i] as int, Cell::SnakeHead(before.snakes[i].id)),
                snakes: before.snakes.update(i, before.snakes[i].placed_at(heads[i])),
            }
        }
    }

    /// The field after every snake's head was checked against the board:
    /// a snake whose head lies under the head of another has just died.
    pub open spec fn head_checked(self) -> Field {
        Field {
            cells: self.cells,
            snakes: Seq::new(
                self.snakes.len(),
                |i: int| self.snakes[i].after_head_check(self.cells),
            ),
        }
    }

    /// Whether a snake that just died lies on `pos`; only the first `count`
    /// snakes are looked at.
    pub open spec fn under_dying_snake(self, pos: int, count: int) -> bool {
        exists|i: int|
            0 <= i < count && i < self.snakes.len() && (#[trigger] self.snakes[i]).just_died
                && lies_on(self.snakes[i].positions, pos)
    }

    /// The field after the snakes that just died were taken off the board
    /// and made dead for good.
    pub open spec fn purged(self) -> Field {
        Field {
            cells: Seq::new(
                self.cells.len(),
                |pos: int|
                    if self.under_dying_snake(pos, self.snakes.len() as int) {
                        Cell::Empty
                    } else {
                        self.cells[pos]
                    },
            ),
            snakes: Seq::new(
                self.snakes.len(),
                |i: int|
                    if self.snakes[i].just_died {
                        self.snakes[i].buried()
                    } else {
                        self.snakes[i]
                    },
            ),
        }
    }

    /// The field after all of a tick's moves and its resolution.
    pub open spec fn resolved(self, actions: Seq<Action>) -> Field {
        self.moved(actions, self.snakes.len()).head_checked().purged()
    }
}

/// Whether a game of these snakes is over: nobody is left, or one of
/// several.
pub open spec fn is_over(snakes: Seq<SnakeModel>) -> bool {
    snakes.len() >= 1 && alive_count(snakes) <= (if snakes.len() > 1 {
        1nat
    } else {
        0nat
    })
}

/// The outcome after a tick.
///
/// An outcome that is set stays. Else, if snakes lived when the tick began:
/// with nobody left it is a draw, or no winner in a solo game; with one left
/// of several, that one wins. `steps` counts the tick itself.
pub open spec fn settled(
    results: Option<GameResults>,
    alive_before: nat,
    snakes: Seq<SnakeModel>,
    step: int,
) -> Option<GameResults> {
    let alive = alive_count(snakes);
    if results is Some || alive_before == 0 {
        results
    } else if alive == 0 {
        Some(
            GameResults {
                winner: if snakes.len() > 1 {
                    Some(GameResultWinner::Draw)
                } else {
                    None
                },
                steps: (step + 1) as u32,
            },
        )
    } else if alive == 1 && snakes.len() > 1 {
        Some(
            GameResults {
                winner: Some(GameResultWinner::Winner(first_alive_id(snakes, 0))),
                steps: (step + 1) as u32,
            },
        )
    } else {
        None
    }
}

/// Whether `heads` can be the first positions of `count` snakes on the board
/// `cells`: each is a free cell, and no two are the same.
pub open spec fn valid_heads(cells: Seq<Cell>, heads: Seq<Position>, count: nat) -> bool {
    &&& heads.len() == count
    &&& forall|i: int|
        0 <= i < heads.len() ==> 0 <= #[trigger] heads[i] < cells.len() && cells[heads[i] as int].is_free()
    &&& forall|i: int, j: int|
        0 <= i < heads.len() && 0 <= j < heads.len() && i != j ==> #[trigger] heads[i]
            != #[trigger] heads[j]
}

/// Whether `pos` can be the first position of a snake when the snakes
/// before it begin at `heads`: it is a free cell of the board and none of
/// `heads`.
pub open spec fn is_free_for_head(cells: Seq<Cell>, heads: Seq<Position>, pos: int) -> bool {
    0 <= pos < cells.len() && cells[pos].is_free() && !lies_on(heads, pos)
}

/// The first of `draws` that can be the first position of a snake when the
/// snakes before it begin at `heads`, or none if none of them can.
pub open spec fn first_free_for_head(
    cells: Seq<Cell>,
    heads: Seq<Position>,
    draws: Seq<Position>,
) -> Option<Position>
    decreases draws.len(),
{
    if draws.len() == 0 {
        None
    } else if is_free_for_head(cells, heads, draws[0] as int) {
        Some(draws[0])
    } else {
        first_free_for_head(cells, heads, draws.drop_first())
    }
}

/// Draws none of which can be the first position of a snake give no
/// position.
pub proof fn lemma_all_draws_refused(cells: Seq<Cell>, heads: Seq<Position>, draws: Seq<Position>)
    requires
        forall|k: int|
            0 <= k < draws.len() ==> !is_free_for_head(cells, heads, #[trigger] draws[k] as int),
    ensures
        first_free_for_head(cells, heads, draws) is None,
    decreases draws.len(),
{
    if draws.len() > 0 {
        assert(!is_free_for_head(cells, heads, draws[0] as int));
        assert forall|k: int| 0 <= k < draws.drop_first().len() implies !is_free_for_head(
            cells,
            heads,
            #[trigger] draws.drop_first()[k] as int,
        ) by {
            assert(draws.drop_first()[k] == draws[k + 1]);
        }
        lemma_all_draws_refused(cells, heads, draws.drop_first());
    }
}

/// What a tick is played with: an action for each snake, and maybe a
/// place for food to grow at.
pub struct Tick {
    pub actions: Seq<Action>,
    pub food: Option<Position>,
}

/// A game as the rules see it.
pub struct GameModel {
    pub cells: Seq<Cell>,
    /// The board's count of free cells, as of the last tick.
    pub nb_free_cells: int,
    /// The board's count of the snakes alive when the last tick began.
    pub nb_alive_snakes: int,
    pub snakes: Seq<SnakeModel>,
    pub initialized: bool,
    /// Number of ticks played.
    pub step: int,
    pub results: Option<GameResults>,
    /// Whether a run ends as soon as the outcome is known.
    pub lazy_simulation: bool,
}

/// The number of ticks that no snake outlives: a snake grows by a cell
/// within every `GROWTH_RATE` ticks, and the board has `NB_CELLS` cells.
pub const MAX_TICKS: u32 = 1536;

/// `MAX_TICKS` is the growth rate times the number of cells.
pub proof fn lemma_max_ticks()
    ensures
        MAX_TICKS == GROWTH_RATE * NB_CELLS,
{
    assert(1536 == 3 * 512) by (nonlinear_arith);
}

/// Whether no two of `positions` are the same.
pub open spec fn all_different(positions: Seq<Position>) -> bool {
    forall|a: int, b: int|
        0 <= a < b < positions.len() ==> #[trigger] positions[a] != #[trigger] positions[b]
}

/// The least number of moves after which a snake that began with one cell
/// and a full countdown can be as long as `snake` is, with its countdown.
pub open spec fn moves_made(snake: SnakeModel) -> int {
    GROWTH_RATE * (snake.positions.len() - 1) + (GROWTH_RATE - snake.growth_state)
}

impl Field {
    /// Whether the snake at `i` lives and lies on `pos`.
    pub open spec fn lies(self, i: int, pos: int) -> bool {
        0 <= i < self.snakes.len() && self.snakes[i].alive && lies_on(
            self.snakes[i].positions,
            pos,
        )
    }

    /// Whether board and snakes agree: every cell of a living snake's body
    /// is marked as a part of that snake, and as its head only where its
    /// head is; no snake lies on a cell twice; and every cell that is marked
    /// as a part of a snake lies on the body of the living snake of that id.
    pub open spec fn coherent(self) -> bool {
        &&& forall|i: int, pos: int|
            0 <= pos < self.cells.len() && #[trigger] self.lies(i, pos) ==> self.cells[pos].owner()
                == Some(self.snakes[i].id) && (self.cells[pos] is SnakeHead ==> pos
                == self.snakes[i].positions[0])
        &&& forall|i: int|
            0 <= i < self.snakes.len() && (#[trigger] self.snakes[i]).alive ==> all_different(
                self.snakes[i].positions,
            )
        &&& forall|pos: int|
            0 <= pos < self.cells.len() && (#[trigger] self.cells[pos]).owner() is Some
                ==> exists|i: int| #[trigger]
                self.lies(i, pos) && self.cells[pos].owner() == Some(self.snakes[i].id)
    }

    /// Whether board and snakes agree as far as they do while the snakes
    /// take their moves: as in `coherent`, but that the cell of a snake's
    /// head may show the head of another snake, which ran into it.
    pub open spec fn agrees_but_heads(self) -> bool {
        &&& forall|i: int, pos: int|
            0 <= pos < self.cells.len() && #[trigger] self.lies(i, pos) ==> {
                &&& self.cells[pos].owner() == Some(self.snakes[i].id) || (pos
                    == self.snakes[i].positions[0] && self.cells[pos] is SnakeHead)
                &&& self.cells[pos] is SnakeHead ==> pos == self.snakes[i].positions[0]
            }
        &&& forall|i: int|
            0 <= i < self.snakes.len() && (#[trigger] self.snakes[i]).alive ==> all_different(
                self.snakes[i].positions,
            )
        &&& forall|i: int, j: int, pos: int|
            #[trigger] self.lies(i, pos) && #[trigger] self.lies(j, pos) ==> i == j
        &&& forall|pos: int|
            0 <= pos < self.cells.len() && (#[trigger] self.cells[pos]).owner() is Some
                ==> exists|i: int| #[trigger] self.lies(i, pos)
    }

    /// What holds of board and snakes at every moment of a game that has
    /// begun: the board has its cells, none of them a wall; every snake is
    /// sound, has a body while it lives, and has an id of its own; and board
    /// and snakes agree but for heads that were run into.
    pub open spec fn sound(self) -> bool {
        &&& self.cells.len() == NB_CELLS
        &&& forall|pos: int| 0 <= pos < NB_CELLS ==> #[trigger] self.cells[pos] != Cell::Wall
        &&& forall|i: int|
            0 <= i < self.snakes.len() ==> {
                &&& (#[trigger] self.snakes[i]).wf()
                &&& self.snakes[i].alive ==> self.snakes[i].positions.len() > 0
                &&& self.snakes[i].just_died ==> self.snakes[i].alive
            }
        &&& forall|i: int, j: int|
            0 <= i < self.snakes.len() && 0 <= j < self.snakes.len() && i != j ==> (
            #[trigger] self.snakes[i]).id != (#[trigger] self.snakes[j]).id
        &&& self.agrees_but_heads()
    }
}

impl GameModel {
    pub open spec fn field(self) -> Field {
        Field { cells: self.cells, snakes: self.snakes }
    }

    pub open spec fn alive_count(self) -> nat {
        alive_count(self.snakes)
    }

    /// What holds of a game between ticks: board and snakes are as they
    /// should be and agree; no snake has just died; a game that has begun
    /// has played no more ticks than its living snakes can have made moves;
    /// and the outcome is set exactly when the game is over.
    pub open spec fn wf(self) -> bool {
        &&& self.cells.len() == NB_CELLS
        &&& forall|pos: int| 0 <= pos < NB_CELLS ==> #[trigger] self.cells[pos] != Cell::Wall
        &&& forall|i: int|
            0 <= i < self.snakes.len() ==> (#[trigger] self.snakes[i]).wf()
                && !self.snakes[i].just_died
        &&& forall|i: int, j: int|
            0 <= i < self.snakes.len() && 0 <= j < self.snakes.len() && i != j ==> (
            #[trigger] self.snakes[i]).id != (#[trigger] self.snakes[j]).id
        &&& self.field().coherent()
        &&& 0 <= self.step
        &&& self.results matches Some(r) ==> 1 <= r.steps <= self.step && r.steps <= MAX_TICKS
        &&& if self.initialized {
            &&& forall|i: int|
                0 <= i < self.snakes.len() && (#[trigger] self.snakes[i]).alive
                    ==> self.snakes[i].positions.len() > 0 && moves_made(self.snakes[i])
                    >= self.step
            &&& self.results is Some <==> is_over(self.snakes)
        } else {
            &&& forall|i: int|
                0 <= i < self.snakes.len() ==> (#[trigger] self.snakes[i]).alive
                    && self.snakes[i].positions.len() == 0 && self.snakes[i].growth_state
                    == GROWTH_RATE
            &&& self.step == 0
            &&& self.results is None
        }
    }

    /// The game after one tick in which snake `i` takes `actions[i]` and
    /// food may grow at `food`.
    pub open spec fn ticked(self, actions: Seq<Action>, food: Option<Position>) -> GameModel {
        let resolved = self.field().resolved(actions);
        GameModel {
            cells: fed(resolved.cells, food),
            nb_free_cells: count_free(resolved.cells) as int,
            nb_alive_snakes: self.alive_count() as int,
            snakes: resolved.snakes,
            initialized: self.initialized,
            step: self.step + 1,
            results: settled(self.results, self.alive_count(), resolved.snakes, self.step),
            lazy_simulation: self.lazy_simulation,
        }
    }

    /// The game once its snakes are on the board, snake `i` with its head
    /// at `heads[i]`, all facing north.
    pub open spec fn started(self, heads: Seq<Position>) -> GameModel {
        let field = self.field().placed(heads, self.snakes.len());
        GameModel { cells: field.cells, snakes: field.snakes, initialized: true, ..self }
    }

    /// The game after the ticks of `history`, one after the other.
    pub open spec fn played(self, history: Seq<Tick>) -> GameModel
        decreases history.len(),
    {
        if history.len() == 0 {
            self
        } else {
            self.played(history.drop_last()).ticked(history.last().actions, history.last().food)
        }
    }

    /// Whether `history` is the course of a run: every tick of it gives each
    /// snake an action and is played on a game that goes on.
    pub open spec fn is_run(self, history: Seq<Tick>) -> bool {
        forall|k: int|
            0 <= k < history.len() ==> (#[trigger] self.played(history.take(k))).goes_on()
                && history[k].actions.len() == self.snakes.len()
    }

    /// Whether a run would play another tick: the outcome is open, or the
    /// run goes on to the last snake and one still lives.
    pub open spec fn goes_on(self) -> bool {
        self.results is None || (!self.lazy_simulation && self.alive_count() > 0)
    }
}

} // verus!
