//! The part of a controller played by a person that needs no terminal: which
//! action belongs to which entry of the menu that the person is shown.

use crate::geometry::Action;
use vstd::prelude::*;

verus! {

/// A controller that asks a person for the next action. The asking is left
/// to the program around it; here is what the answers mean.
#[derive(Default, Debug, Clone, Copy)]
pub struct InteractiveBot;

/// The entry of the menu that is taken when the person gives no answer.
pub const DEFAULT_CHOICE: usize = 1;

/// The action of the menu entry `choice`: left, front, right, in this
/// order.
pub open spec fn action_of_entry(choice: int) -> Action {
    if choice == 0 {
        Action::Left
    } else if choice == 1 {
        Action::Front
    } else {
        Action::Right
    }
}

impl InteractiveBot {
    /// The action for the answer `choice`, the index of a menu entry, or
    /// for no answer, which counts as the default entry.
    pub fn action_of_choice(&self, choice: Option<usize>) -> (action: Action)
        requires
            choice matches Some(entry) ==> entry < 3,
        ensures
            action == action_of_entry(
                match choice {
                    Some(entry) => entry as int,
                    None => DEFAULT_CHOICE as int,
                },
            ),
    {
        let entry = match choice {
            Some(entry) => entry,
            None => DEFAULT_CHOICE,
        };
        if entry == 0 {
            Action::Left
        } else if entry == 1 {
            Action::Front
        } else {
            Action::Right
        }
    }
}

} // verus!
