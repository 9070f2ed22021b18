//! A snake: its body on the board, its heading, its growth countdown, and
//! the rules by which one move changes the snake and the board.

use crate::board::{tile_at_pos, Cell, GameBoard};
use crate::geometry::{
    next_coord_towards, next_orientation, pos_in_bounds, spec_next_coord_towards,
    spec_next_orientation, Action, Coordinate, Orientation, Position, SnakeId, NB_CELLS,
};
use std::collections::VecDeque;
use vstd::prelude::*;

verus! {

/// Number of moves from one growth of a snake to the next.
pub const GROWTH_RATE: i32 = 3;

/// What a snake's controller may read of it.
pub struct SnakeState {
    pub id: SnakeId,
    /// The positions of the snake's body parts, the head at the front and
    /// the tail at the back.
    pub positions: VecDeque<Position>,
    pub current_orientation: Orientation,
    pub alive: bool,
}

impl SnakeState {
    /// The snake has a body, and all of it lies on the board.
    pub open spec fn is_placed(&self) -> bool {
        &&& self.positions@.len() > 0
        &&& forall|i: int|
            0 <= i < self.positions@.len() ==> pos_in_bounds(#[trigger] self.positions@[i] as int)
    }

    #[inline]
    pub fn get_head_pos(&self) -> (head: Position)
        requires
            self.positions@.len() > 0,
        ensures
            head == self.positions@[0],
    {
        self.positions[0]
    }

    #[inline]
    pub fn get_head_coord(&self) -> (head: Coordinate)
        requires
            self.positions@.len() > 0,
        ensures
            head == Coordinate::spec_from_pos(self.positions@[0] as int),
    {
        Coordinate::from_pos(self.get_head_pos())
    }
}

/// A snake as the rules see it.
pub struct SnakeModel {
    pub id: SnakeId,
    pub positions: Seq<Position>,
    pub orientation: Orientation,
    pub alive: bool,
    /// Set during a tick on a snake that the tick kills.
    pub just_died: bool,
    /// Moves left until the snake grows, the coming one included.
    pub growth_state: int,
}

/// The countdown after one more move: it restarts at `GROWTH_RATE` when it
/// runs out.
pub open spec fn next_growth_state(growth_state: int) -> int {
    if growth_state == 1 {
        GROWTH_RATE as int
    } else {
        growth_state - 1
    }
}

/// Whether `pos` is one of `positions`.
pub open spec fn lies_on(positions: Seq<Position>, pos: int) -> bool {
    exists|i: int| 0 <= i < positions.len() && #[trigger] positions[i] == pos
}

/// The board with every cell at one of `positions` emptied.
pub open spec fn cleared(cells: Seq<Cell>, positions: Seq<Position>) -> Seq<Cell> {
    Seq::new(
        cells.len(),
        |pos: int|
            if lies_on(positions, pos) {
                Cell::Empty
            } else {
                cells[pos]
            },
    )
}

impl SnakeModel {
    /// The countdown is running and the body lies on the board.
    pub open spec fn wf(self) -> bool {
        &&& 1 <= self.growth_state <= GROWTH_RATE
        &&& forall|i: int|
            0 <= i < self.positions.len() ==> pos_in_bounds(#[trigger] self.positions[i] as int)
    }

    /// The snake can take a move: it lives and has been placed.
    pub open spec fn can_move(self) -> bool {
        self.alive && self.positions.len() > 0
    }

    pub open spec fn head(self) -> Position {
        self.positions[0]
    }

    pub open spec fn tail(self) -> Position {
        self.positions.last()
    }

    /// Where the head would go by `action`, or `None` off the board.
    pub open spec fn destination(self, action: Action) -> Option<Coordinate> {
        spec_next_coord_towards(
            Coordinate::spec_from_pos(self.head() as int),
            spec_next_orientation(self.orientation, action),
        )
    }

    /// Whether the coming move is one on which the snake grows.
    pub open spec fn grows_next(self) -> bool {
        self.growth_state == 1
    }

    /// Whether a move to `dest` leaves the tail where it is: the snake
    /// grows, or eats.
    pub open spec fn keeps_tail(self, cells: Seq<Cell>, dest: int) -> bool {
        self.grows_next() || cells[dest] == Cell::Food
    }

    /// The body after a move to `dest`.
    pub open spec fn body_after_move(self, cells: Seq<Cell>, dest: int) -> Seq<Position> {
        let longer = seq![dest as Position] + self.positions;
        if self.keeps_tail(cells, dest) {
            longer
        } else {
            longer.drop_last()
        }
    }

    /// Whether `action` leads the head off the board or onto a cell that is
    /// not free.
    pub open spec fn is_blocked(self, cells: Seq<Cell>, action: Action) -> bool {
        match self.destination(action) {
            None => true,
            Some(next) => !cells[next.spec_to_pos()].is_free(),
        }
    }

    /// Whether `action` leads the head onto a cell that shows the head of
    /// another snake.
    pub open spec fn meets_head(self, cells: Seq<Cell>, action: Action) -> bool {
        &&& self.destination(action) matches Some(next)
        &&& cells[next.spec_to_pos()] matches Cell::SnakeHead(id)
        &&& id != self.id
    }

    /// The snake after it took `action` on the board `cells`.
    ///
    /// A dead snake stays as it is. A move off the board only marks the
    /// snake as just dead. A move onto a cell of the board that is not free
    /// marks it as just dead and advances its countdown, and leaves it where
    /// it is. Any other move is carried out: the countdown advances, the
    /// head goes to the destination, and the tail follows unless the snake
    /// grows or eats.
    pub open spec fn after_move(self, cells: Seq<Cell>, action: Action) -> SnakeModel {
        if !self.alive {
            self
        } else if self.destination(action) is None {
            SnakeModel { just_died: true, ..self }
        } else if self.is_blocked(cells, action) {
            SnakeModel {
                just_died: true,
                growth_state: next_growth_state(self.growth_state),
                ..self
            }
        } else {
            let dest = self.destination(action)->0.spec_to_pos();
            SnakeModel {
                positions: self.body_after_move(cells, dest),
                orientation: spec_next_orientation(self.orientation, action),
                growth_state: next_growth_state(self.growth_state),
                ..self
            }
        }
    }

    /// The board after the snake took `action` on it.
    ///
    /// The cell of the old head becomes body. On a move off the board or
    /// onto a cell that is not free, the destination stays as it is, unless
    /// it shows the head of another snake: then it shows the head of this
    /// snake afterwards, so that the other finds its head overwritten. On any
    /// other move the tail cell is emptied if the tail follows, then the
    /// cell of the new tail and the destination are marked, in this order.
    pub open spec fn board_after_move(self, cells: Seq<Cell>, action: Action) -> Seq<Cell> {
        if !self.alive {
            cells
        } else {
            let necked = cells.update(self.head() as int, Cell::SnakeBody(self.id));
            if self.meets_head(cells, action) {
                necked.update(
                    self.destination(action)->0.spec_to_pos(),
                    Cell::SnakeHead(self.id),
                )
            } else if self.is_blocked(cells, action) {
                necked
            } else {
                let dest = self.destination(action)->0.spec_to_pos();
                let body = self.body_after_move(cells, dest);
                let shrunk = if self.keeps_tail(cells, dest) {
                    necked
                } else {
                    necked.update(self.tail() as int, Cell::Empty)
                };
                shrunk.update(body.last() as int, Cell::SnakeTail(self.id)).update(
                    dest,
                    Cell::SnakeHead(self.id),
                )
            }
        }
    }

    /// Whether, on the board `cells`, the head of the snake lies under the
    /// head of another.
    pub open spec fn head_overwritten(self, cells: Seq<Cell>) -> bool {
        &&& self.can_move()
        &&& tile_at_pos(cells, self.head() as int) matches Cell::SnakeHead(id)
        &&& id != self.id
    }

    /// The snake after the check of its head against the board.
    pub open spec fn after_head_check(self, cells: Seq<Cell>) -> SnakeModel {
        SnakeModel { just_died: self.just_died || self.head_overwritten(cells), ..self }
    }

    /// The snake once dead for good.
    pub open spec fn buried(self) -> SnakeModel {
        SnakeModel { just_died: false, alive: false, ..self }
    }

    /// The snake after it was put on the board with its head at `pos`.
    pub open spec fn placed_at(self, pos: Position) -> SnakeModel {
        SnakeModel {
            positions: seq![pos] + self.positions,
            orientation: Orientation::North,
            ..self
        }
    }
}

pub struct Snake {
    pub state: SnakeState,
    just_died: bool,
    /// Goes down by one at each move. When it reaches zero, the snake
    /// grows and the field takes the value `GROWTH_RATE`.
    growth_state: i32,
}

impl View for Snake {
    type V = SnakeModel;

    closed spec fn view(&self) -> SnakeModel {
        SnakeModel {
            id: self.state.id,
            positions: self.state.positions@,
            orientation: self.state.current_orientation,
            alive: self.state.alive,
            just_died: self.just_died,
            growth_state: self.growth_state as int,
        }
    }
}

impl Snake {
    /// A living snake without a body yet.
    pub fn new(id: SnakeId) -> (snake: Self)
        ensures
            snake@ == (SnakeModel {
                id,
                positions: Seq::empty(),
                orientation: Orientation::North,
                alive: true,
                just_died: false,
                growth_state: GROWTH_RATE as int,
            }),
    {
        Snake {
            state: SnakeState {
                id,
                positions: VecDeque::with_capacity(64),
                current_orientation: Orientation::North,
                alive: true,
            },
            just_died: false,
            growth_state: GROWTH_RATE,
        }
    }

    /// What the snake's controller may read.
    pub fn state(&self) -> (state: &SnakeState)
        ensures
            state.id == self@.id,
            state.positions@ == self@.positions,
            state.current_orientation == self@.orientation,
            state.alive == self@.alive,
    {
        &self.state
    }

    pub fn id(&self) -> (id: SnakeId)
        ensures
            id == self@.id,
    {
        self.state.id
    }

    pub fn is_alive(&self) -> (alive: bool)
        ensures
            alive == self@.alive,
    {
        self.state.alive
    }

    /// Moves left until the snake grows, the coming one included.
    pub fn growth_state(&self) -> (growth_state: i32)
        ensures
            growth_state == self@.growth_state,
    {
        self.growth_state
    }

    pub fn has_just_died(&self) -> (just_died: bool)
        ensures
            just_died == self@.just_died,
    {
        self.just_died
    }

    /// Gives the snake a new head at `pos`, facing north.
    pub fn place(&mut self, pos: Position)
        ensures
            final(self)@ == old(self)@.placed_at(pos),
    {
        self.state.positions.push_front(pos);
        self.state.current_orientation = Orientation::North;
    }

    /// Moves the snake by `action`, on the board and in its own records. A
    /// move off the board or onto a cell that is not free kills the snake
    /// and leaves it where it is; if the cell shows the head of another
    /// snake, it is overwritten with the head of this one.
    pub fn execute_action(&mut self, board: &mut GameBoard, action: &Action)
        requires
            old(self)@.wf(),
            old(self)@.alive ==> old(self)@.positions.len() > 0,
            old(board).wf(),
        ensures
            final(self)@ == old(self)@.after_move(old(board)@, *action),
            final(board)@ == old(self)@.board_after_move(old(board)@, *action),
            final(self)@.wf(),
            final(self)@.alive ==> final(self)@.positions.len() > 0,
            final(board).wf(),
            final(board).nb_free_cells() == old(board).nb_free_cells(),
            final(board).nb_alive_snakes() == old(board).nb_alive_snakes(),
    {
        if !self.state.alive {
            return ;
        }
        let current_orientation: Orientation = self.state.current_orientation;
        let next_orientation = next_orientation(&current_orientation, action);
        let current_head_pos = self.state.positions[0];
        let current_head_coord = Coordinate::from_pos(current_head_pos);

        // Where the head goes; a move off the board is death.
        let next_head_coord = match next_coord_towards(&current_head_coord, &next_orientation) {
            None => {
                self.just_died = true;
                board.set_tile_at_pos(current_head_pos, Cell::SnakeBody(self.state.id));
                return ;
            },
            Some(coord) => coord,
        };

        // A destination that is not free is death as well; the countdown
        // goes on, and the head of another snake is overwritten.
        let next_head_pos = next_head_coord.to_pos();
        if !board.is_pos_free_or_food(&next_head_pos) {
            self.just_died = true;
            self.growth_state -= 1;
            if self.growth_state == 0 {
                self.growth_state = GROWTH_RATE;
            }
            board.set_tile_at_pos(current_head_pos, Cell::SnakeBody(self.state.id));
            if let Cell::SnakeHead(id) = board.get_tile_at_pos(&next_head_pos) {
                if id != self.state.id {
                    board.set_tile_at_pos(next_head_pos, Cell::SnakeHead(self.state.id));
                }
            }
            return ;
        }
        let food = match board.get_tile_at_pos(&next_head_pos) {
            Cell::Food => true,
            _ => false,
        };

        self.growth_state -= 1;
        let growing = self.growth_state == 0;
        if growing {
            self.growth_state = GROWTH_RATE;
        }
        self.state.positions.push_front(next_head_pos);
        self.state.current_orientation = next_orientation;

        // The old head is body now.
        board.set_tile_at_pos(current_head_pos, Cell::SnakeBody(self.state.id));

        // The tail follows unless the snake grows or eats.
        if !(food || growing) {
            if let Some(tail_pos) = self.state.positions.pop_back() {
                board.set_tile_at_pos(tail_pos, Cell::Empty);
            }
        }
        let tail_pos = self.state.positions[self.state.positions.len() - 1];
        board.set_tile_at_pos(tail_pos, Cell::SnakeTail(self.state.id));
        board.set_tile_at_pos(next_head_pos, Cell::SnakeHead(self.state.id));
        assert(self@.positions =~= old(self)@.body_after_move(old(board)@, next_head_pos as int));
    }

    /// Marks the snake as just dead if the board shows the head of another
    /// snake where its own head is.
    pub fn check_head_collision(&mut self, board: &GameBoard)
        requires
            board.wf(),
        ensures
            final(self)@ == old(self)@.after_head_check(board@),
    {
        if self.state.alive && self.state.positions.len() > 0 {
            let head = self.state.positions[0];
            if let Cell::SnakeHead(id) = board.get_tile_at_pos(&head) {
                if id != self.state.id {
                    self.just_died = true;
                }
            }
        }
    }

    /// Empties every cell of the board that the snake's body lies on.
    pub fn remove_snake_from_board(&self, board: &mut GameBoard)
        requires
            self@.wf(),
            old(board).wf(),
        ensures
            final(board)@ == cleared(old(board)@, self@.positions),
            final(board).wf(),
            final(board).nb_free_cells() == old(board).nb_free_cells(),
            final(board).nb_alive_snakes() == old(board).nb_alive_snakes(),
    {
        let n = self.state.positions.len();
        let mut i: usize = 0;
        assert(board@ =~= cleared(old(board)@, self@.positions.take(0)));
        while i < n
            invariant
                i <= n,
                n == self@.positions.len(),
                self@.wf(),
                board.wf(),
                board@ == cleared(old(board)@, self@.positions.take(i as int)),
                board.nb_free_cells() == old(board).nb_free_cells(),
                board.nb_alive_snakes() == old(board).nb_alive_snakes(),
            decreases n - i,
        {
            let position = self.state.positions[i];
            board.set_tile_at_pos(position, Cell::Empty);
            i += 1;
            assert(board@ =~= cleared(old(board)@, self@.positions.take(i as int))) by {
                let before = self@.positions.take(i - 1);
                let after = self@.positions.take(i as int);
                assert(after[i - 1] == position);
                assert forall|k: int| 0 <= k < before.len() implies before[k] == after[k] by {}
                assert forall|pos: int| 0 <= pos < NB_CELLS implies #[trigger] board@[pos]
                    == cleared(old(board)@, after)[pos] by {
                    if lies_on(after, pos) {
                        let k = choose|k: int| 0 <= k < after.len() && #[trigger] after[k] == pos;
                        if k < i - 1 {
                            assert(before[k] == pos);
                        }
                    } else {
                        if lies_on(before, pos) {
                            let k = choose|k: int|
                                0 <= k < before.len() && #[trigger] before[k] == pos;
                            assert(after[k] == pos);
                        }
                    }
                }
            }
        }
        assert(self@.positions.take(n as int) =~= self@.positions);
    }

    /// Makes a snake that just died dead for good.
    pub fn bury(&mut self)
        ensures
            final(self)@ == old(self)@.buried(),
    {
        self.just_died = false;
        self.state.alive = false;
    }
}

/// The growth countdown runs in a circle of `GROWTH_RATE` moves: it stays
/// between 1 and `GROWTH_RATE`, it is back where it was after `GROWTH_RATE`
/// moves, and of any `GROWTH_RATE` moves in a row, one is a move on which
/// the snake grows.
pub proof fn lemma_growth_countdown(growth_state: int)
    requires
        1 <= growth_state <= GROWTH_RATE,
    ensures
        1 <= next_growth_state(growth_state) <= GROWTH_RATE,
        next_growth_state(next_growth_state(next_growth_state(growth_state))) == growth_state,
        growth_state == 1 || next_growth_state(growth_state) == 1 || next_growth_state(
            next_growth_state(growth_state),
        ) == 1,
{
}

/// A move that is carried out lengthens the body by one if the snake grows
/// or eats, and keeps its length if not; the countdown goes on; and the
/// board shows the new head and the new tail.
pub proof fn lemma_move_length(snake: SnakeModel, cells: Seq<Cell>, action: Action)
    requires
        snake.wf(),
        snake.can_move(),
        cells.len() == NB_CELLS,
        !snake.is_blocked(cells, action),
    ensures
        ({
            let dest = snake.destination(action)->0.spec_to_pos();
            let after = snake.after_move(cells, action);
            let board = snake.board_after_move(cells, action);
            &&& after.just_died == snake.just_died
            &&& after.growth_state == next_growth_state(snake.growth_state)
            &&& 1 <= after.growth_state <= GROWTH_RATE
            &&& after.positions[0] == dest
            &&& board[dest] == Cell::SnakeHead(snake.id)
            &&& snake.keeps_tail(cells, dest) ==> after.positions == seq![dest as Position]
                + snake.positions
            &&& !snake.keeps_tail(cells, dest) ==> after.positions == (seq![dest as Position]
                + snake.positions).drop_last()
            &&& after.positions.last() != dest ==> board[after.positions.last() as int]
                == Cell::SnakeTail(snake.id)
        }),
{
    let dest = snake.destination(action)->0.spec_to_pos();
    let longer = seq![dest as Position] + snake.positions;
    let after = snake.after_move(cells, action);
    assert(longer[0] == dest);
    assert(pos_in_bounds(snake.positions[0] as int));
    assert(pos_in_bounds(snake.positions[snake.positions.len() - 1] as int));
    if after.positions.last() != dest {
        let k = after.positions.len() - 1;
        assert(after.positions[k] == longer[k]);
        assert(longer[k] == snake.positions[k - 1]);
        assert(pos_in_bounds(snake.positions[k - 1] as int));
    }
}

/// On a move on which the snake grows, to a free cell, the body gains the
/// destination and loses nothing, the countdown begins anew, and the board
/// shows the head on the destination and the tail where it was.
pub proof fn lemma_growth_move(snake: SnakeModel, cells: Seq<Cell>, action: Action)
    requires
        snake.wf(),
        snake.can_move(),
        snake.grows_next(),
        cells.len() == NB_CELLS,
        !snake.is_blocked(cells, action),
        snake.tail() != snake.destination(action)->0.spec_to_pos(),
    ensures
        ({
            let dest = snake.destination(action)->0.spec_to_pos();
            let after = snake.after_move(cells, action);
            let board = snake.board_after_move(cells, action);
            &&& after.positions == seq![dest as Position] + snake.positions
            &&& after.growth_state == GROWTH_RATE
            &&& board[snake.tail() as int] == Cell::SnakeTail(snake.id)
            &&& board[dest] == Cell::SnakeHead(snake.id)
        }),
{
    lemma_move_length(snake, cells, action);
    let dest = snake.destination(action)->0.spec_to_pos();
    let longer = seq![dest as Position] + snake.positions;
    assert(longer.last() == snake.positions.last());
    assert(pos_in_bounds(snake.positions[snake.positions.len() - 1] as int));
}

} // verus!
