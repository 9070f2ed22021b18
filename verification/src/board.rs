//! The game board: a fixed grid of cells with bounds-checked access, the
//! classification of moves that are certain death, obstacle placement, the
//! free-cell count and food regeneration.

use crate::geometry::{
    next_coord_towards, next_orientation, pos_in_bounds, spec_next_coord_towards,
    spec_next_orientation, Action, Coordinate, Orientation, Position, SnakeId, BOARD_HEIGHT,
    BOARD_WIDTH, NB_CELLS,
};
use crate::rng::gen_range;
use crate::rng::thread_rng;
use vstd::prelude::*;

verus! {

#[derive(Debug, Copy, Clone, PartialEq, Eq, Structural)]
pub enum Cell {
    Empty,
    Food,
    Obstacle,
    /// What lies beyond the board. Never stored in a board.
    Wall,
    SnakeHead(SnakeId),
    SnakeBody(SnakeId),
    SnakeTail(SnakeId),
}

impl Cell {
    /// A cell that a snake may move into.
    pub open spec fn is_free(self) -> bool {
        self == Cell::Empty || self == Cell::Food
    }

    /// The snake that a cell is part of, if any.
    pub open spec fn owner(self) -> Option<SnakeId> {
        match self {
            Cell::SnakeHead(id) => Some(id),
            Cell::SnakeBody(id) => Some(id),
            Cell::SnakeTail(id) => Some(id),
            _ => None,
        }
    }
}

/// Chances in a hundred that a tick tries to add food.
pub const FOOD_ADD_PERCENT: i32 = 10;

/// Number of free cells (empty or food) among `cells`.
pub open spec fn count_free(cells: Seq<Cell>) -> nat
    decreases cells.len(),
{
    if cells.len() == 0 {
        0
    } else {
        count_free(cells.drop_last()) + if cells.last().is_free() {
            1nat
        } else {
            0nat
        }
    }
}

/// What is seen at `pos`: the stored cell, or a wall beyond the board.
pub open spec fn tile_at_pos(cells: Seq<Cell>, pos: int) -> Cell {
    if 0 <= pos < cells.len() {
        cells[pos]
    } else {
        Cell::Wall
    }
}

/// What is seen at `coord`: the stored cell, or a wall beyond the board.
pub open spec fn tile_at_coord(cells: Seq<Cell>, coord: Coordinate) -> Cell {
    if coord.spec_is_out_of_bounds() {
        Cell::Wall
    } else {
        tile_at_pos(cells, coord.spec_to_pos())
    }
}

/// Whether turning as `action` says and moving one step from `from` ends
/// off the board or on a cell that is not free.
pub open spec fn is_suicide_move(
    cells: Seq<Cell>,
    from: Coordinate,
    orientation: Orientation,
    action: Action,
) -> bool {
    match spec_next_coord_towards(from, spec_next_orientation(orientation, action)) {
        None => true,
        Some(next) => !tile_at_coord(cells, next).is_free(),
    }
}

/// `action` alone if it is not certain death, else nothing.
pub open spec fn keep_if_safe(
    cells: Seq<Cell>,
    from: Coordinate,
    orientation: Orientation,
    action: Action,
) -> Seq<Action> {
    if is_suicide_move(cells, from, orientation, action) {
        Seq::empty()
    } else {
        seq![action]
    }
}

/// The actions that are not certain death, in the order left, front, right.
pub open spec fn non_suicide_moves(cells: Seq<Cell>, from: Coordinate, orientation: Orientation)
    -> Seq<Action> {
    keep_if_safe(cells, from, orientation, Action::Left) + keep_if_safe(
        cells,
        from,
        orientation,
        Action::Front,
    ) + keep_if_safe(cells, from, orientation, Action::Right)
}

/// The board after an attempt to grow food at `pos`: a free cell there
/// holds food, anything else stays.
pub open spec fn with_food_at(cells: Seq<Cell>, pos: int) -> Seq<Cell> {
    if tile_at_pos(cells, pos).is_free() {
        cells.update(pos, Cell::Food)
    } else {
        cells
    }
}

/// The board after the food of a tick: food grows at `food`, if that is a
/// free cell.
pub open spec fn fed(cells: Seq<Cell>, food: Option<Position>) -> Seq<Cell> {
    match food {
        Some(pos) => with_food_at(cells, pos as int),
        None => cells,
    }
}

/// Whether food is due on `roll`, a number drawn from 0 to 99: it is on
/// `FOOD_ADD_PERCENT` of them.
pub open spec fn spec_is_food_due(roll: i32) -> bool {
    roll < FOOD_ADD_PERCENT
}

/// Whether `roll`, `x` and `y` are numbers as they are drawn for the food
/// of a tick: `roll` from a hundred, `x` and `y` from the board's sides.
pub open spec fn food_draws(roll: int, x: int, y: int) -> bool {
    0 <= roll < 100 && 0 <= x < BOARD_WIDTH && 0 <= y < BOARD_HEIGHT
}

/// The place where the draws `roll`, `x` and `y` let food grow: the cell
/// `(x, y)` if food is due on `roll`, and none if not.
pub open spec fn food_place(roll: int, x: int, y: int) -> Option<Position> {
    if roll < FOOD_ADD_PERCENT {
        Some((x + y * BOARD_WIDTH) as Position)
    } else {
        None
    }
}

/// Whether `pos` lies in the square of side `side` whose corner nearest the
/// origin is `(x, y)`.
pub open spec fn in_square(pos: int, x: int, y: int, side: int) -> bool {
    let c = Coordinate::spec_from_pos(pos);
    x <= c.x < x + side && y <= c.y < y + side
}

/// The board after a square obstacle was laid over it.
pub open spec fn with_obstacle(cells: Seq<Cell>, x: int, y: int, side: int) -> Seq<Cell> {
    Seq::new(
        cells.len(),
        |pos: int|
            if in_square(pos, x, y, side) {
                Cell::Obstacle
            } else {
                cells[pos]
            },
    )
}

/// A board of empty cells.
pub open spec fn empty_cells() -> Seq<Cell> {
    Seq::new(NB_CELLS as nat, |pos: int| Cell::Empty)
}

/// A square obstacle: its corner nearest the origin, and its side.
pub struct Square {
    pub x: int,
    pub y: int,
    pub side: int,
}

impl Square {
    /// Whether the square is one that random placement can give, with
    /// sides up to `max_side`: it lies on the board and touches neither the
    /// last column nor the last row.
    pub open spec fn placeable(self, max_side: int) -> bool {
        &&& 1 <= self.side <= max_side
        &&& 0 <= self.x < BOARD_WIDTH - self.side
        &&& 0 <= self.y < BOARD_HEIGHT - self.side
    }
}

/// The board after the obstacles `squares` were laid over it, one after the
/// other.
pub open spec fn with_obstacles(cells: Seq<Cell>, squares: Seq<Square>) -> Seq<Cell>
    decreases squares.len(),
{
    if squares.len() == 0 {
        cells
    } else {
        with_obstacle(
            with_obstacles(cells, squares.drop_last()),
            squares.last().x,
            squares.last().y,
            squares.last().side,
        )
    }
}

/// The number of cells of `squares`, those that overlap counted for each
/// square.
pub open spec fn total_area(squares: Seq<Square>) -> int
    decreases squares.len(),
{
    if squares.len() == 0 {
        0
    } else {
        total_area(squares.drop_last()) + squares.last().side * squares.last().side
    }
}

/// The game board.
///
/// The cells are kept row after row, so `(x, y)` is the cell of index
/// `x + y * BOARD_WIDTH`.
pub struct GameBoard {
    nb_free_cells: i32,
    nb_alive_snakes: usize,
    cells: Vec<Cell>,
    rng: rand::rngs::ThreadRng,
}

impl View for GameBoard {
    type V = Seq<Cell>;

    closed spec fn view(&self) -> Seq<Cell> {
        self.cells@
    }
}

impl GameBoard {
    /// The board holds exactly its `NB_CELLS` cells, none of them a wall.
    pub open spec fn wf(&self) -> bool {
        &&& self@.len() == NB_CELLS
        &&& forall|pos: int| 0 <= pos < NB_CELLS ==> #[trigger] self@[pos] != Cell::Wall
    }

    /// The number of free cells, as of the last count.
    pub closed spec fn spec_nb_free_cells(&self) -> i32 {
        self.nb_free_cells
    }

    /// The number of snakes alive when the current tick began.
    pub closed spec fn spec_nb_alive_snakes(&self) -> usize {
        self.nb_alive_snakes
    }

    #[verifier::when_used_as_spec(spec_nb_free_cells)]
    pub fn nb_free_cells(&self) -> (n: i32)
        ensures
            n == self.spec_nb_free_cells(),
    {
        self.nb_free_cells
    }

    #[verifier::when_used_as_spec(spec_nb_alive_snakes)]
    pub fn nb_alive_snakes(&self) -> (n: usize)
        ensures
            n == self.spec_nb_alive_snakes(),
    {
        self.nb_alive_snakes
    }

    pub fn set_nb_alive_snakes(&mut self, nb_alive_snakes: usize)
        ensures
            final(self)@ == old(self)@,
            final(self).nb_free_cells() == old(self).nb_free_cells(),
            final(self).nb_alive_snakes() == nb_alive_snakes,
    {
        self.nb_alive_snakes = nb_alive_snakes;
    }

    /// A board of empty cells.
    pub fn new() -> (board: Self)
        ensures
            board.wf(),
            board@ == empty_cells(),
            board.nb_free_cells() == NB_CELLS,
            board.nb_alive_snakes() == 0,
    {
        let mut cells: Vec<Cell> = Vec::new();
        let mut i: i32 = 0;
        while i < NB_CELLS
            invariant
                0 <= i <= NB_CELLS,
                cells@.len() == i,
                forall|pos: int| 0 <= pos < i ==> #[trigger] cells@[pos] == Cell::Empty,
            decreases NB_CELLS - i,
        {
            cells.push(Cell::Empty);
            i += 1;
        }
        assert(cells@ =~= empty_cells());
        GameBoard { nb_free_cells: NB_CELLS, nb_alive_snakes: 0, cells, rng: thread_rng() }
    }

    pub fn get_tile_at_coord(&self, coord: &Coordinate) -> (cell: Cell)
        requires
            self.wf(),
        ensures
            cell == tile_at_coord(self@, *coord),
    {
        if coord.is_out_of_bounds() {
            return Cell::Wall;
        }
        self.get_tile_at_pos(&coord.to_pos())
    }

    pub fn get_tile_at_pos(&self, pos: &Position) -> (cell: Cell)
        requires
            self.wf(),
        ensures
            cell == tile_at_pos(self@, *pos as int),
    {
        if *pos >= 0 && *pos < NB_CELLS {
            self.cells[*pos as usize]
        } else {
            Cell::Wall
        }
    }

    pub fn set_tile_at_coord(&mut self, coord: &Coordinate, cell: Cell)
        requires
            old(self).wf(),
            cell != Cell::Wall,
            !coord.spec_is_out_of_bounds(),
        ensures
            final(self)@ == old(self)@.update(coord.spec_to_pos(), cell),
            final(self).wf(),
            final(self).nb_free_cells() == old(self).nb_free_cells(),
            final(self).nb_alive_snakes() == old(self).nb_alive_snakes(),
    {
        self.set_tile_at_pos(coord.to_pos(), cell)
    }

    pub fn set_tile_at_pos(&mut self, pos: Position, cell: Cell)
        requires
            old(self).wf(),
            cell != Cell::Wall,
            pos_in_bounds(pos as int),
        ensures
            final(self)@ == old(self)@.update(pos as int, cell),
            final(self).wf(),
            final(self).nb_free_cells() == old(self).nb_free_cells(),
            final(self).nb_alive_snakes() == old(self).nb_alive_snakes(),
    {
        self.cells[pos as usize] = cell;
    }

    pub fn is_suicide_moves(&self, from: &Coordinate, orientation: &Orientation, action: &Action)
        -> (suicide: bool)
        requires
            self.wf(),
            i32::MIN < from.x < i32::MAX,
            i32::MIN < from.y < i32::MAX,
        ensures
            suicide == is_suicide_move(self@, *from, *orientation, *action),
    {
        let next_orientation = next_orientation(orientation, action);
        let next_coord = next_coord_towards(from, &next_orientation);
        match next_coord {
            None => true,
            Some(next_coord) => !self.is_coord_free_or_food(&next_coord),
        }
    }

    #[inline]
    pub fn is_pos_free_or_food(&self, pos: &Position) -> (free: bool)
        requires
            self.wf(),
        ensures
            free == tile_at_pos(self@, *pos as int).is_free(),
    {
        match self.get_tile_at_pos(pos) {
            Cell::Empty | Cell::Food => true,
            _ => false,
        }
    }

    #[inline]
    pub fn is_coord_free_or_food(&self, coord: &Coordinate) -> (free: bool)
        requires
            self.wf(),
        ensures
            free == tile_at_coord(self@, *coord).is_free(),
    {
        match self.get_tile_at_coord(coord) {
            Cell::Empty | Cell::Food => true,
            _ => false,
        }
    }

    pub fn get_non_suicide_moves(&self, from: &Coordinate, orientation: &Orientation) -> (moves:
        Vec<Action>)
        requires
            self.wf(),
            i32::MIN < from.x < i32::MAX,
            i32::MIN < from.y < i32::MAX,
        ensures
            moves@ == non_suicide_moves(self@, *from, *orientation),
    {
        let mut moves: Vec<Action> = Vec::new();
        if !self.is_suicide_moves(from, orientation, &Action::Left) {
            moves.push(Action::Left);
        }
        assert(moves@ == keep_if_safe(self@, *from, *orientation, Action::Left));
        if !self.is_suicide_moves(from, orientation, &Action::Front) {
            moves.push(Action::Front);
        }
        assert(moves@ == keep_if_safe(self@, *from, *orientation, Action::Left) + keep_if_safe(
            self@,
            *from,
            *orientation,
            Action::Front,
        ));
        if !self.is_suicide_moves(from, orientation, &Action::Right) {
            moves.push(Action::Right);
        }
        moves
    }

    /// Lays a square obstacle of side `side` with its corner at `(x, y)` and
    /// takes one off the free-cell counter for each of its cells, whatever
    /// they held.
    pub fn place_obstacle(&mut self, x: i32, y: i32, side: i32)
        requires
            old(self).wf(),
            0 <= x,
            0 <= y,
            1 <= side,
            x + side <= BOARD_WIDTH,
            y + side <= BOARD_HEIGHT,
            old(self).nb_free_cells() - side * side >= i32::MIN,
        ensures
            final(self).wf(),
            final(self)@ == with_obstacle(old(self)@, x as int, y as int, side as int),
            final(self).nb_free_cells() == old(self).nb_free_cells() - side * side,
            final(self).nb_alive_snakes() == old(self).nb_alive_snakes(),
    {
        let mut i: i32 = 0;
        while i < side
            invariant
                0 <= i <= side,
                0 <= x,
                0 <= y,
                x + side <= BOARD_WIDTH,
                y + side <= BOARD_HEIGHT,
                self.wf(),
                self@ == with_obstacle_columns(old(self)@, x as int, y as int, side as int, i as int, 0),
                self.nb_free_cells == old(self).nb_free_cells - i * side,
                old(self).nb_free_cells - side * side >= i32::MIN,
                self.nb_alive_snakes == old(self).nb_alive_snakes,
            decreases side - i,
        {
            let mut j: i32 = 0;
            while j < side
                invariant
                    0 <= i < side,
                    0 <= j <= side,
                    0 <= x,
                    0 <= y,
                    x + side <= BOARD_WIDTH,
                    y + side <= BOARD_HEIGHT,
                    self.wf(),
                    self@ == with_obstacle_columns(
                        old(self)@,
                        x as int,
                        y as int,
                        side as int,
                        i as int,
                        j as int,
                    ),
                    self.nb_free_cells == old(self).nb_free_cells - i * side - j,
                    old(self).nb_free_cells - side * side >= i32::MIN,
                    self.nb_alive_snakes == old(self).nb_alive_snakes,
                decreases side - j,
            {
                let coord = Coordinate { x: x + i, y: y + j };
                let pos = coord.to_pos();
                assert(i * side + j < side * side) by (nonlinear_arith)
                    requires
                        0 <= i < side,
                        0 <= j < side,
                ;
                self.cells[pos as usize] = Cell::Obstacle;
                self.nb_free_cells -= 1;
                j += 1;
                assert(self@ =~= with_obstacle_columns(
                    old(self)@,
                    x as int,
                    y as int,
                    side as int,
                    i as int,
                    j as int,
                ));
            }
            assert((i + 1) * side == i * side + side) by (nonlinear_arith);
            i += 1;
            assert(self@ =~= with_obstacle_columns(
                old(self)@,
                x as int,
                y as int,
                side as int,
                i as int,
                0,
            ));
        }
        assert(self@ =~= with_obstacle(old(self)@, x as int, y as int, side as int));
    }

    /// Places `nb_obstacles` square obstacles of random side, from 1 to
    /// `max_size_obstacle`, at random places. Obstacles may overlap; the
    /// free-cell counter still loses one for each cell of each of them.
    pub fn add_random_obstacles(&mut self, nb_obstacles: u32, max_size_obstacle: u32)
        requires
            old(self).wf(),
            1 <= max_size_obstacle < BOARD_HEIGHT,
            old(self).nb_free_cells() - nb_obstacles * (max_size_obstacle * max_size_obstacle)
                >= i32::MIN,
        ensures
            final(self).wf(),
            exists|squares: Seq<Square>|
                {
                    &&& squares.len() == nb_obstacles
                    &&& forall|i: int|
                        0 <= i < squares.len() ==> (#[trigger] squares[i]).placeable(
                            max_size_obstacle as int,
                        )
                    &&& final(self)@ == #[trigger] with_obstacles(old(self)@, squares)
                    &&& final(self).nb_free_cells() == old(self).nb_free_cells() - total_area(
                        squares,
                    )
                },
            forall|pos: int|
                0 <= pos < NB_CELLS ==> #[trigger] final(self)@[pos] == old(self)@[pos]
                    || final(self)@[pos] == Cell::Obstacle,
            old(self).nb_free_cells() - nb_obstacles * (max_size_obstacle * max_size_obstacle)
                <= final(self).nb_free_cells() <= old(self).nb_free_cells() - nb_obstacles,
            final(self).nb_alive_snakes() == old(self).nb_alive_snakes(),
    {
        let mut rng = thread_rng();
        let ghost max_area: int = max_size_obstacle * max_size_obstacle;
        let ghost mut squares: Seq<Square> = Seq::empty();
        let mut placed: u32 = 0;
        while placed < nb_obstacles
            invariant
                placed <= nb_obstacles,
                1 <= max_size_obstacle < BOARD_HEIGHT,
                max_area == max_size_obstacle * max_size_obstacle,
                self.wf(),
                squares.len() == placed,
                forall|i: int|
                    0 <= i < squares.len() ==> (#[trigger] squares[i]).placeable(
                        max_size_obstacle as int,
                    ),
                self@ == with_obstacles(old(self)@, squares),
                self.nb_free_cells == old(self).nb_free_cells - total_area(squares),
                forall|pos: int|
                    0 <= pos < NB_CELLS ==> #[trigger] self@[pos] == old(self)@[pos] || self@[pos]
                        == Cell::Obstacle,
                old(self).nb_free_cells - placed * max_area <= self.nb_free_cells
                    <= old(self).nb_free_cells - placed,
                old(self).nb_free_cells - nb_obstacles * max_area >= i32::MIN,
                self.nb_alive_snakes == old(self).nb_alive_snakes,
            decreases nb_obstacles - placed,
        {
            let side: i32 = gen_range(&mut rng, 0, max_size_obstacle as i32) + 1;
            let x: i32 = gen_range(&mut rng, 0, BOARD_WIDTH - side);
            let y: i32 = gen_range(&mut rng, 0, BOARD_HEIGHT - side);
            assert(1 <= side * side <= max_area) by (nonlinear_arith)
                requires
                    1 <= side <= max_size_obstacle,
                    max_area == max_size_obstacle * max_size_obstacle,
            ;
            assert((placed + 1) * max_area == placed * max_area + max_area
                && (placed + 1) * max_area <= nb_obstacles * max_area) by (nonlinear_arith)
                requires
                    placed < nb_obstacles,
                    max_area >= 0,
            ;
            self.place_obstacle(x, y, side);
            placed += 1;
            proof {
                let square = Square { x: x as int, y: y as int, side: side as int };
                let longer = squares.push(square);
                assert(longer.drop_last() =~= squares);
                assert(longer.last() == square);
                squares = longer;
            }
        }
    }

    /// Counts the free cells anew.
    pub fn recount_free_cells(&mut self)
        requires
            old(self).wf(),
        ensures
            final(self)@ == old(self)@,
            final(self).nb_free_cells() == count_free(old(self)@),
            final(self).nb_alive_snakes() == old(self).nb_alive_snakes(),
    {
        let mut count: i32 = 0;
        let mut i: usize = 0;
        assert(self@.take(0) =~= Seq::<Cell>::empty());
        while i < 512
            invariant
                0 <= i <= 512,
                self.wf(),
                self@ == old(self)@,
                self.nb_alive_snakes == old(self).nb_alive_snakes,
                0 <= count <= i,
                count == count_free(self@.take(i as int)),
            decreases 512 - i,
        {
            assert(self@.take(i + 1).drop_last() =~= self@.take(i as int));
            match self.cells[i] {
                Cell::Empty | Cell::Food => {
                    count += 1;
                },
                _ => {},
            }
            i += 1;
        }
        assert(self@.take(512) =~= self@);
        self.nb_free_cells = count;
    }

    /// Tries to grow food at `pos`: a free cell there holds food afterwards,
    /// any other cell is left as it was.
    pub fn grow_food_at(&mut self, pos: Position)
        requires
            old(self).wf(),
        ensures
            final(self).wf(),
            final(self)@ == with_food_at(old(self)@, pos as int),
            final(self).nb_free_cells() == old(self).nb_free_cells(),
            final(self).nb_alive_snakes() == old(self).nb_alive_snakes(),
    {
        if self.is_pos_free_or_food(&pos) {
            self.set_tile_at_pos(pos, Cell::Food);
        }
    }

    /// Whether food is due on `roll`, a number drawn from 0 to 99.
    pub fn is_food_due(roll: i32) -> (due: bool)
        ensures
            due == spec_is_food_due(roll),
    {
        roll < FOOD_ADD_PERCENT
    }

    /// Draws the place where the food of a tick may grow: a number from a
    /// hundred is drawn, and if food is due on it, a cell of the board.
    pub fn roll_food(&mut self) -> (place: Option<Position>)
        requires
            old(self).wf(),
        ensures
            final(self).wf(),
            final(self)@ == old(self)@,
            final(self).nb_free_cells() == old(self).nb_free_cells(),
            final(self).nb_alive_snakes() == old(self).nb_alive_snakes(),
            exists|roll: int, x: int, y: int|
                food_draws(roll, x, y) && place == #[trigger] food_place(roll, x, y),
            place matches Some(pos) ==> pos_in_bounds(pos as int),
    {
        let roll = gen_range(&mut self.rng, 0, 100);
        if Self::is_food_due(roll) {
            let x = gen_range(&mut self.rng, 0, BOARD_WIDTH);
            let y = gen_range(&mut self.rng, 0, BOARD_HEIGHT);
            let coord = Coordinate { x, y };
            let pos = coord.to_pos();
            assert(food_draws(roll as int, x as int, y as int) && Some(pos) == food_place(
                roll as int,
                x as int,
                y as int,
            ));
            Some(pos)
        } else {
            assert(food_draws(roll as int, 0, 0) && food_place(roll as int, 0, 0) is None);
            None
        }
    }

    /// Draws the place where the food of a tick may grow, and tries to grow
    /// food there: a free cell at that place holds food afterwards, and
    /// nothing else changes.
    pub fn update_food(&mut self)
        requires
            old(self).wf(),
        ensures
            final(self).wf(),
            exists|roll: int, x: int, y: int|
                food_draws(roll, x, y) && final(self)@ == fed(
                    old(self)@,
                    #[trigger] food_place(roll, x, y),
                ),
            final(self)@ == old(self)@ || exists|pos: int|
                pos_in_bounds(pos) && final(self)@ == with_food_at(old(self)@, pos),
            forall|pos: int|
                0 <= pos < NB_CELLS && !(#[trigger] old(self)@[pos]).is_free() ==> final(self)@[pos]
                    == old(self)@[pos],
            count_free(final(self)@) == count_free(old(self)@),
            final(self).nb_free_cells() == old(self).nb_free_cells(),
            final(self).nb_alive_snakes() == old(self).nb_alive_snakes(),
    {
        let place = self.roll_food();
        let ghost (roll, x, y) = choose|roll: int, x: int, y: int|
            food_draws(roll, x, y) && place == #[trigger] food_place(roll, x, y);
        match place {
            Some(pos) => {
                proof {
                    lemma_food_keeps_free_count(self@, pos as int);
                }
                self.grow_food_at(pos);
                assert(pos_in_bounds(pos as int) && self@ == with_food_at(
                    old(self)@,
                    pos as int,
                ));
            },
            None => {},
        }
        assert(self@ == fed(old(self)@, food_place(roll, x, y)));
    }

    /// The work on the board that ends a tick: the free cells are counted
    /// anew, then food may grow.
    pub fn update(&mut self)
        requires
            old(self).wf(),
        ensures
            final(self).wf(),
            final(self)@ == old(self)@ || exists|pos: int|
                pos_in_bounds(pos) && final(self)@ == with_food_at(old(self)@, pos),
            forall|pos: int|
                0 <= pos < NB_CELLS && !(#[trigger] old(self)@[pos]).is_free() ==> final(self)@[pos]
                    == old(self)@[pos],
            final(self).nb_free_cells() == count_free(old(self)@),
            final(self).nb_free_cells() == count_free(final(self)@),
            final(self).nb_alive_snakes() == old(self).nb_alive_snakes(),
    {
        self.recount_free_cells();
        self.update_food();
    }
}

/// The board while a square obstacle is being laid column by column: the
/// first `done_columns` columns are done and, of the next one, the first
/// `done_rows` cells.
pub open spec fn with_obstacle_columns(
    cells: Seq<Cell>,
    x: int,
    y: int,
    side: int,
    done_columns: int,
    done_rows: int,
) -> Seq<Cell> {
    Seq::new(
        cells.len(),
        |pos: int|
            {
                let c = Coordinate::spec_from_pos(pos);
                if y <= c.y < y + side && x <= c.x < x + done_columns {
                    Cell::Obstacle
                } else if c.x == x + done_columns && y <= c.y < y + done_rows {
                    Cell::Obstacle
                } else {
                    cells[pos]
                }
            },
    )
}

/// Writing one cell changes the count of free cells by what the cell was
/// and what it becomes.
pub proof fn lemma_count_free_update(cells: Seq<Cell>, pos: int, cell: Cell)
    requires
        0 <= pos < cells.len(),
    ensures
        count_free(cells.update(pos, cell)) == count_free(cells) - (if cells[pos].is_free() {
            1int
        } else {
            0int
        }) + (if cell.is_free() {
            1int
        } else {
            0int
        }),
    decreases cells.len(),
{
    let updated = cells.update(pos, cell);
    if pos == cells.len() - 1 {
        assert(updated.drop_last() =~= cells.drop_last());
    } else {
        assert(updated.drop_last() =~= cells.drop_last().update(pos, cell));
        lemma_count_free_update(cells.drop_last(), pos, cell);
    }
}

/// There are no more free cells than cells.
pub proof fn lemma_count_free_bounded(cells: Seq<Cell>)
    ensures
        count_free(cells) <= cells.len(),
    decreases cells.len(),
{
    if cells.len() > 0 {
        lemma_count_free_bounded(cells.drop_last());
    }
}

/// Growing food leaves every cell that is not free as it was, and the
/// board's size.
pub proof fn lemma_food_spares_occupied_cells(cells: Seq<Cell>, pos: int)
    ensures
        with_food_at(cells, pos).len() == cells.len(),
        forall|other: int|
            0 <= other < cells.len() && !(#[trigger] cells[other]).is_free() ==> with_food_at(
                cells,
                pos,
            )[other] == cells[other],
        forall|other: int|
            0 <= other < cells.len() && other != pos ==> #[trigger] with_food_at(cells, pos)[other]
                == cells[other],
{
}

/// Growing food twice at one place is growing it once.
pub proof fn lemma_food_idempotent(cells: Seq<Cell>, pos: int)
    ensures
        with_food_at(with_food_at(cells, pos), pos) == with_food_at(cells, pos),
{
    assert(with_food_at(with_food_at(cells, pos), pos) =~= with_food_at(cells, pos));
}

/// Growing food does not change how many cells are free.
pub proof fn lemma_food_keeps_free_count(cells: Seq<Cell>, pos: int)
    ensures
        count_free(with_food_at(cells, pos)) == count_free(cells),
{
    if tile_at_pos(cells, pos).is_free() {
        lemma_count_free_update(cells, pos, Cell::Food);
    }
}

} // verus!
