//! A controller that takes, at random, one of the actions that are not
//! certain death.

use crate::board::{non_suicide_moves, GameBoard};
use crate::game::SnakeBot;
use crate::geometry::{Action, Coordinate};
use crate::rng::{gen_range, thread_rng};
use crate::snake::SnakeState;
use vstd::prelude::*;

verus! {

pub struct RandomBot {
    rng: rand::rngs::ThreadRng,
}

impl RandomBot {
    pub fn new() -> Self {
        RandomBot { rng: thread_rng() }
    }
}

impl Default for RandomBot {
    fn default() -> Self {
        Self::new()
    }
}

impl SnakeBot for RandomBot {
    fn get_next_action(&mut self, myself: &SnakeState, board: &GameBoard) -> (action: Action)
        ensures
            chosen_among(
                non_suicide_moves(
                    board@,
                    Coordinate::spec_from_pos(myself.positions@[0] as int),
                    myself.current_orientation,
                ),
                action,
            ),
    {
        get_non_suicide_random_action(&mut self.rng, myself, board)
    }
}

/// The action at `index` of `possible_actions`, or `Front` if there is
/// none to choose from.
pub open spec fn picked(possible_actions: Seq<Action>, index: int) -> Action {
    if possible_actions.len() == 0 {
        Action::Front
    } else {
        possible_actions[index]
    }
}

/// Whether `action` is a choice among `possible_actions`: one of them, or
/// `Front` if there is none.
pub open spec fn chosen_among(possible_actions: Seq<Action>, action: Action) -> bool {
    exists|index: int|
        0 <= index && (possible_actions.len() > 0 ==> index < possible_actions.len()) && action
            == #[trigger] picked(possible_actions, index)
}

/// The action at `index` of `possible_actions`, or `Front` if there is
/// none to choose from: a doomed snake goes straight on.
pub fn pick_action(possible_actions: &Vec<Action>, index: usize) -> (action: Action)
    requires
        possible_actions@.len() > 0 ==> index < possible_actions@.len(),
    ensures
        action == picked(possible_actions@, index as int),
{
    if possible_actions.len() == 0 {
        Action::Front
    } else {
        possible_actions[index]
    }
}

/// A random action among those that are not certain death for the snake
/// `myself`, or `Front` if there is none.
pub fn get_non_suicide_random_action(
    rng: &mut rand::rngs::ThreadRng,
    myself: &SnakeState,
    board: &GameBoard,
) -> (action: Action)
    requires
        myself.positions@.len() > 0,
        board.wf(),
    ensures
        chosen_among(
            non_suicide_moves(
                board@,
                Coordinate::spec_from_pos(myself.positions@[0] as int),
                myself.current_orientation,
            ),
            action,
        ),
{
    let possible_actions = board.get_non_suicide_moves(
        &myself.get_head_coord(),
        &myself.current_orientation,
    );
    let count = possible_actions.len();
    let index: usize = if count == 0 {
        0
    } else {
        gen_range(rng, 0, count as i32) as usize
    };
    pick_action(&possible_actions, index)
}

} // verus!
