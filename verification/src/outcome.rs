//! What the outcome of a game is, tick by tick: when it is set, what it
//! says, and that it stays.

use crate::geometry::{Action, Position};
use crate::geometry::NB_CELLS;
use crate::soundness::{lemma_alive_bounds_ticks, lemma_somebody_alive, lemma_tick};
use crate::rules::{
    alive_count, first_alive_id, GameModel, GameResultWinner, GameResults, MAX_TICKS,
};
use crate::snake::SnakeModel;
use vstd::prelude::*;

verus! {

/// An outcome that is set is the outcome after every further tick.
pub proof fn lemma_outcome_stays(game: GameModel, actions: Seq<Action>, food: Option<Position>)
    requires
        game.results is Some,
    ensures
        game.ticked(actions, food).results == game.results,
{
}

/// The snake at `at` does not live if none of the snakes lives.
proof fn lemma_nobody_alive(snakes: Seq<SnakeModel>, at: int)
    requires
        alive_count(snakes) == 0,
        0 <= at < snakes.len(),
    ensures
        !snakes[at].alive,
    decreases snakes.len(),
{
    if at < snakes.len() - 1 {
        assert(snakes.drop_last()[at] == snakes[at]);
        lemma_nobody_alive(snakes.drop_last(), at);
    }
}

/// If one snake lives, it is the first living snake from any place at or
/// before it.
proof fn lemma_first_alive_is(snakes: Seq<SnakeModel>, from: int, at: int)
    requires
        0 <= from <= at < snakes.len(),
        snakes[at].alive,
        forall|i: int| 0 <= i < snakes.len() && i != at ==> !(#[trigger] snakes[i]).alive,
    ensures
        first_alive_id(snakes, from) == snakes[at].id,
    decreases at - from,
{
    if from < at {
        lemma_first_alive_is(snakes, from + 1, at);
    }
}

/// Of snakes of which exactly one lives, no other than that one lives.
proof fn lemma_only_one_alive(snakes: Seq<SnakeModel>, at: int, other: int)
    requires
        alive_count(snakes) == 1,
        0 <= at < snakes.len(),
        0 <= other < snakes.len(),
        snakes[at].alive,
        other != at,
    ensures
        !snakes[other].alive,
    decreases snakes.len(),
{
    let last = snakes.len() - 1;
    let rest = snakes.drop_last();
    if at == last {
        assert(rest[other] == snakes[other]);
        lemma_nobody_alive(rest, other);
    } else if other == last {
        assert(rest[at] == snakes[at]);
        if snakes[other].alive {
            lemma_nobody_alive(rest, at);
        }
    } else {
        assert(rest[at] == snakes[at]);
        assert(rest[other] == snakes[other]);
        if snakes[last].alive {
            lemma_nobody_alive(rest, at);
        }
        lemma_only_one_alive(rest, at, other);
    }
}

/// If exactly one snake lives, its id is the id of the first living snake.
pub proof fn lemma_sole_survivor(snakes: Seq<SnakeModel>, at: int)
    requires
        alive_count(snakes) == 1,
        0 <= at < snakes.len(),
        snakes[at].alive,
    ensures
        first_alive_id(snakes, 0) == snakes[at].id,
{
    assert forall|i: int| 0 <= i < snakes.len() && i != at implies !(#[trigger] snakes[i]).alive by {
        lemma_only_one_alive(snakes, at, i);
    }
    lemma_first_alive_is(snakes, 0, at);
}

/// The outcome of a tick of a game that is not over.
///
/// A solo game ends, without a winner, with the tick in which its snake
/// dies. A game of several ends with the tick after which at most one of
/// them lives: the one that lives wins; if none lives, it is a draw. The
/// outcome counts the ticks played, the last one included.
pub proof fn lemma_tick_outcome(game: GameModel, actions: Seq<Action>, food: Option<Position>)
    requires
        game.wf(),
        game.initialized,
        game.results is None,
        game.snakes.len() > 0,
        actions.len() == game.snakes.len(),
    ensures
        ({
            let next = game.ticked(actions, food);
            let solo = game.snakes.len() == 1;
            &&& next.step == game.step + 1
            &&& next.step <= MAX_TICKS
            &&& next.results matches Some(results) ==> results.steps == next.step
            &&& solo && next.alive_count() == 0 ==> next.results == Some(
                GameResults { winner: None, steps: next.step as u32 },
            )
            &&& solo && next.alive_count() > 0 ==> next.results is None
            &&& !solo && next.alive_count() == 0 ==> next.results == Some(
                GameResults { winner: Some(GameResultWinner::Draw), steps: next.step as u32 },
            )
            &&& !solo && next.alive_count() == 1 ==> forall|i: int|
                0 <= i < next.snakes.len() && (#[trigger] next.snakes[i]).alive ==> next.results
                    == Some(
                    GameResults {
                        winner: Some(GameResultWinner::Winner(next.snakes[i].id)),
                        steps: next.step as u32,
                    },
                )
            &&& !solo && next.alive_count() > 1 ==> next.results is None
        }),
{
    let next = game.ticked(actions, food);
    lemma_tick(game, actions, food);
    assert(game.alive_count() > 0);
    lemma_alive_bounds_ticks(game);
    if game.snakes.len() > 1 && next.alive_count() == 1 {
        assert forall|i: int| 0 <= i < next.snakes.len() && (#[trigger] next.snakes[i]).alive implies next.results
            == Some(
            GameResults {
                winner: Some(GameResultWinner::Winner(next.snakes[i].id)),
                steps: next.step as u32,
            },
        ) by {
            lemma_sole_survivor(next.snakes, i);
        }
    }
}

/// When no snake lives, no cell of the board shows a snake.
pub proof fn lemma_nothing_left_of_the_dead(game: GameModel)
    requires
        game.wf(),
        game.alive_count() == 0,
    ensures
        forall|pos: int| 0 <= pos < NB_CELLS ==> (#[trigger] game.cells[pos]).owner() is None,
{
    assert forall|pos: int| 0 <= pos < NB_CELLS implies (#[trigger] game.cells[pos]).owner() is None by {
        if game.cells[pos].owner() is Some {
            let i = choose|i: int| #[trigger]
                game.field().lies(i, pos) && game.cells[pos].owner() == Some(game.snakes[i].id);
            lemma_somebody_alive(game.snakes, i);
        }
    }
}

/// The outcome of a game is set with one of its first `MAX_TICKS` ticks.
pub proof fn lemma_outcome_in_time(game: GameModel)
    requires
        game.wf(),
    ensures
        game.results matches Some(results) ==> 1 <= results.steps <= MAX_TICKS,
{
}

} // verus!
