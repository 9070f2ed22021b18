//! The simulation loop: a game owns the board and the snakes, asks the
//! snakes' controllers for their actions, and plays tick after tick until
//! the outcome is known.

use crate::board::{empty_cells, total_area, with_obstacles, Cell, GameBoard, Square};
use crate::geometry::{Action, Orientation, Position, SnakeId, NB_CELLS};
use crate::soundness::{
    lemma_alive_bounds_ticks, lemma_placed, lemma_somebody_alive, lemma_start, lemma_tick,
};
use crate::rng::{gen_range, thread_rng};
use crate::rules::{
    alive_count, first_alive_id, first_free_for_head, is_free_for_head, lemma_all_draws_refused,
    settled, valid_heads, GameModel, GameResultWinner, GameResults, Tick, MAX_TICKS,
};
use crate::snake::{lies_on, Snake, SnakeModel, SnakeState, GROWTH_RATE};
use vstd::prelude::*;

verus! {

/// A controller: it chooses the next action of one snake.
pub trait SnakeBot {
    /// Called at most once per tick for a living snake, before any snake
    /// moves.
    fn get_next_action(&mut self, myself: &SnakeState, board: &GameBoard) -> (action: Action)
        requires
            myself.alive,
            myself.is_placed(),
            board.wf(),
            board.nb_alive_snakes() >= 1,
    ;
}

/// An observer of the board, called before or after each tick.
pub trait BoardObserver {
    fn observe(&self, board: &GameBoard)
        requires
            board.wf(),
    ;
}

/// Why a game could not begin: no free cell was found for a snake within
/// the tries allowed.
#[derive(Debug, Clone, Copy, PartialEq, Eq)]
pub struct PlacementExhausted {
    /// The snake that could not be placed.
    pub snake: SnakeId,
}

/// Number of obstacles on the board of a new game.
pub const NB_OBSTACLES: u32 = 5;

/// The greatest side of an obstacle on the board of a new game.
pub const MAX_SIZE_OBSTACLE: u32 = 2;

/// Number of random cells tried for each snake when a game begins.
pub const PLACEMENT_TRIES: u32 = 10_000;

/// The models of `snakes`, in their order.
pub open spec fn snake_models(snakes: Seq<Snake>) -> Seq<SnakeModel> {
    Seq::new(snakes.len(), |i: int| snakes[i]@)
}

pub struct Game<'a> {
    board: GameBoard,
    snakes: Vec<Snake>,
    /// The controller of each snake, in the snakes' order.
    bots: Vec<Box<dyn SnakeBot + 'a>>,
    before_each_step: Vec<Box<dyn BoardObserver + 'a>>,
    after_each_step: Vec<Box<dyn BoardObserver + 'a>>,
    initialized: bool,
    step: u32,
    results: Option<GameResults>,
    /// If this is `true` and there is more than one snake, a run stops as
    /// soon as there is a winner, and is not played on with the snake
    /// that is left.
    lazy_simulation: bool,
}

impl<'a> View for Game<'a> {
    type V = GameModel;

    closed spec fn view(&self) -> GameModel {
        GameModel {
            cells: self.board@,
            nb_free_cells: self.board.nb_free_cells() as int,
            nb_alive_snakes: self.board.nb_alive_snakes() as int,
            snakes: snake_models(self.snakes@),
            initialized: self.initialized,
            step: self.step as int,
            results: self.results,
            lazy_simulation: self.lazy_simulation,
        }
    }
}

impl<'a> Game<'a> {
    /// Every snake has its controller.
    pub closed spec fn bots_match(&self) -> bool {
        self.bots@.len() == self.snakes@.len()
    }

    pub open spec fn wf(&self) -> bool {
        self@.wf() && self.bots_match()
    }

    /// The controllers of the snakes, in the snakes' order.
    pub closed spec fn controllers(&self) -> Seq<Box<dyn SnakeBot + 'a>> {
        self.bots@
    }

    /// The observers that are called with the board before each tick, in
    /// the order in which they were registered.
    pub closed spec fn observers_before(&self) -> Seq<Box<dyn BoardObserver + 'a>> {
        self.before_each_step@
    }

    /// The observers that are called with the board after each tick, in the
    /// order in which they were registered.
    pub closed spec fn observers_after(&self) -> Seq<Box<dyn BoardObserver + 'a>> {
        self.after_each_step@
    }

    /// Whether `self` and `other` have the same observers.
    pub open spec fn same_observers(&self, other: &Self) -> bool {
        &&& self.observers_before() == other.observers_before()
        &&& self.observers_after() == other.observers_after()
    }

    /// A game without snakes on `board`, which shows no snake.
    pub fn with_board(board: GameBoard) -> (game: Self)
        requires
            board.wf(),
            forall|pos: int| 0 <= pos < NB_CELLS ==> (#[trigger] board@[pos]).owner() is None,
        ensures
            game.wf(),
            game@ == (GameModel {
                cells: board@,
                nb_free_cells: board.nb_free_cells() as int,
                nb_alive_snakes: board.nb_alive_snakes() as int,
                snakes: Seq::empty(),
                initialized: false,
                step: 0,
                results: None,
                lazy_simulation: true,
            }),
            game.controllers() == Seq::<Box<dyn SnakeBot + 'a>>::empty(),
            game.observers_before() == Seq::<Box<dyn BoardObserver + 'a>>::empty(),
            game.observers_after() == Seq::<Box<dyn BoardObserver + 'a>>::empty(),
    {
        let game = Game {
            board,
            snakes: Vec::new(),
            bots: Vec::new(),
            before_each_step: Vec::new(),
            after_each_step: Vec::new(),
            initialized: false,
            step: 0,
            results: None,
            lazy_simulation: true,
        };
        assert(game@.snakes =~= Seq::empty());
        assert(game@.field().coherent()) by {
            assert forall|pos: int|
                0 <= pos < game@.cells.len() implies (#[trigger] game@.cells[pos]).owner() is None by {
                assert(board@[pos].owner() is None);
            }
        }
        game
    }

    /// A game without snakes on a board with `NB_OBSTACLES` random
    /// obstacles of sides up to `MAX_SIZE_OBSTACLE`.
    pub fn new() -> (game: Self)
        ensures
            game.wf(),
            game@.snakes.len() == 0,
            !game@.initialized,
            game@.step == 0,
            game@.results is None,
            game@.lazy_simulation,
            game.observers_before() == Seq::<Box<dyn BoardObserver + 'a>>::empty(),
            game.observers_after() == Seq::<Box<dyn BoardObserver + 'a>>::empty(),
            exists|squares: Seq<Square>|
                {
                    &&& squares.len() == NB_OBSTACLES
                    &&& forall|i: int|
                        0 <= i < squares.len() ==> (#[trigger] squares[i]).placeable(
                            MAX_SIZE_OBSTACLE as int,
                        )
                    &&& game@.cells == #[trigger] with_obstacles(empty_cells(), squares)
                    &&& game@.nb_free_cells == NB_CELLS - total_area(squares)
                },
            forall|pos: int|
                0 <= pos < NB_CELLS ==> #[trigger] game@.cells[pos] == Cell::Empty
                    || game@.cells[pos] == Cell::Obstacle,
    {
        let mut board = GameBoard::new();
        board.add_random_obstacles(NB_OBSTACLES, MAX_SIZE_OBSTACLE);
        Self::with_board(board)
    }

    pub fn is_game_over(&self) -> (over: bool)
        ensures
            over == (self@.results is Some),
    {
        self.results.is_some()
    }

    pub fn get_results(&self) -> (results: Option<GameResults>)
        ensures
            results == self@.results,
    {
        self.results
    }

    /// Whether the snakes have been put on the board.
    pub fn is_initialized(&self) -> (initialized: bool)
        ensures
            initialized == self@.initialized,
    {
        self.initialized
    }

    /// The number of ticks played.
    pub fn nb_steps(&self) -> (steps: u32)
        ensures
            steps == self@.step,
    {
        self.step
    }

    /// The number of snakes, dead or alive.
    pub fn nb_snakes(&self) -> (count: usize)
        ensures
            count == self@.snakes.len(),
    {
        self.snakes.len()
    }

    /// The snake at `index`, in the order in which the snakes were added.
    pub fn snake(&self, index: usize) -> (snake: &Snake)
        requires
            index < self@.snakes.len(),
        ensures
            snake@ == self@.snakes[index as int],
    {
        &self.snakes[index]
    }

    /// The board, to look at.
    pub fn board(&self) -> (board: &GameBoard)
        ensures
            board@ == self@.cells,
            board.nb_free_cells() == self@.nb_free_cells,
            board.nb_alive_snakes() == self@.nb_alive_snakes,
            self@.wf() ==> board.wf(),
    {
        &self.board
    }

    /// Whether a snake of the game has the id `id`.
    pub open spec fn has_snake(&self, id: SnakeId) -> bool {
        exists|i: int| 0 <= i < self@.snakes.len() && (#[trigger] self@.snakes[i]).id == id
    }

    /// Whether a snake of the game has the id `id`.
    pub fn is_id_used(&self, id: SnakeId) -> (used: bool)
        ensures
            used == self.has_snake(id),
    {
        let mut i: usize = 0;
        while i < self.snakes.len()
            invariant
                i <= self.snakes@.len(),
                forall|k: int| 0 <= k < i ==> (#[trigger] self@.snakes[k]).id != id,
            decreases self.snakes@.len() - i,
        {
            if self.snakes[i].id() == id {
                assert(self@.snakes[i as int].id == id);
                return true;
            }
            i += 1;
        }
        false
    }

    /// Adds a snake with its controller. Ids are the caller's to choose,
    /// each once.
    pub fn add_snake(&mut self, id: SnakeId, snake_bot: Box<dyn SnakeBot + 'a>) -> (game: &mut Self)
        requires
            old(self).wf(),
            !old(self)@.initialized,
            !old(self).has_snake(id),
        ensures
            game.wf(),
            game@ == (GameModel {
                snakes: old(self)@.snakes.push(
                    SnakeModel {
                        id,
                        positions: Seq::empty(),
                        orientation: Orientation::North,
                        alive: true,
                        just_died: false,
                        growth_state: GROWTH_RATE as int,
                    },
                ),
                ..old(self)@
            }),
            game.controllers() == old(self).controllers().push(snake_bot),
            game.same_observers(old(self)),
            *final(self) == *final(game),
    {
        let snake = Snake::new(id);
        let ghost bot = snake_bot;
        self.snakes.push(snake);
        self.bots.push(snake_bot);
        proof {
            vstd::seq::axiom_seq_push_len(old(self).bots@, bot);
            assert(self@.snakes =~= old(self)@.snakes.push(snake@));
            assert forall|i: int, j: int|
                0 <= i < self@.snakes.len() && 0 <= j < self@.snakes.len() && i != j implies (
            #[trigger] self@.snakes[i]).id != (#[trigger] self@.snakes[j]).id by {
                if i < old(self)@.snakes.len() {
                    assert(old(self)@.snakes[i].id == self@.snakes[i].id);
                }
                if j < old(self)@.snakes.len() {
                    assert(old(self)@.snakes[j].id == self@.snakes[j].id);
                }
            }
        }
        self
    }

    /// Registers an observer that is called with the board before each
    /// tick, after the observers registered so far.
    pub fn before_each_step(&mut self, observer: Box<dyn BoardObserver + 'a>) -> (game: &mut Self)
        ensures
            game.observers_before() == old(self).observers_before().push(observer),
            game.observers_after() == old(self).observers_after(),
            game@ == old(self)@,
            game.controllers() == old(self).controllers(),
            game.bots_match() == old(self).bots_match(),
            *final(self) == *final(game),
    {
        self.before_each_step.push(observer);
        self
    }

    /// Registers an observer that is called with the board after each tick,
    /// after the observers registered so far.
    pub fn after_each_step(&mut self, observer: Box<dyn BoardObserver + 'a>) -> (game: &mut Self)
        ensures
            game.observers_after() == old(self).observers_after().push(observer),
            game.observers_before() == old(self).observers_before(),
            game@ == old(self)@,
            game.controllers() == old(self).controllers(),
            game.bots_match() == old(self).bots_match(),
            *final(self) == *final(game),
    {
        self.after_each_step.push(observer);
        self
    }

    /// Chooses whether a run goes on, once the winner is known, until the
    /// last snake has died.
    pub fn continue_simulation_if_known_winner(&mut self, _continue: bool) -> (game: &mut Self)
        ensures
            old(self).wf() ==> game.wf(),
            game@ == (GameModel { lazy_simulation: !_continue, ..old(self)@ }),
            game.controllers() == old(self).controllers(),
            game.same_observers(old(self)),
            *final(self) == *final(game),
    {
        self.lazy_simulation = !_continue;
        self
    }

    /// What holds of the game while a tick is being played: the board and
    /// every snake are sound, and every living snake has a body.
    spec fn mid_tick(&self) -> bool {
        &&& self.board.wf()
        &&& self.bots_match()
        &&& forall|i: int|
            0 <= i < self.snakes@.len() ==> (#[trigger] self.snakes@[i])@.wf() && (
            self.snakes@[i]@.alive ==> self.snakes@[i]@.positions.len() > 0)
    }

    /// Whether nothing but board cells and snakes differs between `self`
    /// and `other`.
    spec fn same_but_field(&self, other: &Self) -> bool {
        &&& self.board.nb_free_cells() == other.board.nb_free_cells()
        &&& self.board.nb_alive_snakes() == other.board.nb_alive_snakes()
        &&& self.snakes@.len() == other.snakes@.len()
        &&& self.initialized == other.initialized
        &&& self.step == other.step
        &&& self.results == other.results
        &&& self.lazy_simulation == other.lazy_simulation
        &&& self.same_observers(other)
        &&& self.controllers() == other.controllers()
    }

    fn count_alive(&self) -> (count: usize)
        ensures
            count == self@.alive_count(),
    {
        let mut count: usize = 0;
        let mut i: usize = 0;
        assert(self@.snakes.take(0) =~= Seq::<SnakeModel>::empty());
        while i < self.snakes.len()
            invariant
                i <= self.snakes@.len(),
                count <= i,
                count == alive_count(self@.snakes.take(i as int)),
            decreases self.snakes@.len() - i,
        {
            assert(self@.snakes.take(i + 1).drop_last() =~= self@.snakes.take(i as int));
            if self.snakes[i].is_alive() {
                count += 1;
            }
            i += 1;
        }
        assert(self@.snakes.take(self.snakes@.len() as int) =~= self@.snakes);
        count
    }

    /// Every living snake takes its move, in the snakes' order.
    fn move_snakes(&mut self, actions: &Vec<Action>)
        requires
            old(self).mid_tick(),
            actions@.len() == old(self)@.snakes.len(),
        ensures
            final(self).mid_tick(),
            final(self).same_but_field(old(self)),
            final(self)@.field() == old(self)@.field().moved(
                actions@,
                old(self)@.snakes.len(),
            ),
    {
        let n = self.snakes.len();
        let mut i: usize = 0;
        while i < n
            invariant
                i <= n,
                n == self.snakes@.len(),
                actions@.len() == n,
                self.mid_tick(),
                self.same_but_field(old(self)),
                self@.field() == old(self)@.field().moved(actions@, i as nat),
            decreases n - i,
        {
            let ghost before = self@.field();
            let ghost snakes_before = self.snakes@;
            self.snakes[i].execute_action(&mut self.board, &actions[i]);
            proof {
                assert(self.snakes@.len() == n);
                assert(forall|j: int|
                    0 <= j < n && j != i ==> self.snakes@[j] == snakes_before[j]);
                assert(self@.snakes =~= before.snakes.update(
                    i as int,
                    before.snakes[i as int].after_move(before.cells, actions@[i as int]),
                ));
            }
            i += 1;
        }
    }

    /// Every snake whose head lies under the head of another is marked as
    /// just dead.
    fn check_heads(&mut self)
        requires
            old(self).mid_tick(),
        ensures
            final(self).mid_tick(),
            final(self).same_but_field(old(self)),
            final(self)@.field() == old(self)@.field().head_checked(),
    {
        let n = self.snakes.len();
        let mut i: usize = 0;
        while i < n
            invariant
                i <= n,
                n == self.snakes@.len(),
                self.mid_tick(),
                self.same_but_field(old(self)),
                self.board@ == old(self).board@,
                forall|j: int|
                    0 <= j < i ==> (#[trigger] self.snakes@[j])@ == old(
                        self,
                    ).snakes@[j]@.after_head_check(self.board@),
                forall|j: int| i <= j < n ==> (#[trigger] self.snakes@[j]) == old(self).snakes@[j],
            decreases n - i,
        {
            self.snakes[i].check_head_collision(&self.board);
            i += 1;
        }
        assert(self@.snakes =~= old(self)@.field().head_checked().snakes);
    }

    /// The snakes that just died are taken off the board and made dead for
    /// good.
    fn purge(&mut self)
        requires
            old(self).mid_tick(),
        ensures
            final(self).mid_tick(),
            final(self).same_but_field(old(self)),
            final(self)@.field() == old(self)@.field().purged(),
    {
        let ghost before = self@.field();
        let n = self.snakes.len();
        let mut i: usize = 0;
        assert(self.board@ =~= Seq::new(
            before.cells.len(),
            |pos: int|
                if before.under_dying_snake(pos, 0) {
                    Cell::Empty
                } else {
                    before.cells[pos]
                },
        ));
        while i < n
            invariant
                i <= n,
                n == self.snakes@.len(),
                before == old(self)@.field(),
                self.mid_tick(),
                self.same_but_field(old(self)),
                self.board@ == Seq::new(
                    before.cells.len(),
                    |pos: int|
                        if before.under_dying_snake(pos, i as int) {
                            Cell::Empty
                        } else {
                            before.cells[pos]
                        },
                ),
                forall|j: int|
                    0 <= j < i ==> (#[trigger] self.snakes@[j])@ == (if before.snakes[j].just_died {
                        before.snakes[j].buried()
                    } else {
                        before.snakes[j]
                    }),
                forall|j: int| i <= j < n ==> (#[trigger] self.snakes@[j]) == old(self).snakes@[j],
            decreases n - i,
        {
            let ghost cells_before = self.board@;
            if self.snakes[i].has_just_died() {
                self.snakes[i].remove_snake_from_board(&mut self.board);
                self.snakes[i].bury();
            }
            proof {
                let snake = before.snakes[i as int];
                assert(snake == old(self).snakes@[i as int]@);
                assert forall|pos: int| 0 <= pos < before.cells.len() implies (
                #[trigger] self.board@[pos]) == (if before.under_dying_snake(pos, i + 1) {
                    Cell::Empty
                } else {
                    before.cells[pos]
                }) by {
                    if before.under_dying_snake(pos, i + 1) {
                        let k = choose|k: int|
                            0 <= k < i + 1 && k < before.snakes.len() && (
                            #[trigger] before.snakes[k]).just_died && lies_on(
                                before.snakes[k].positions,
                                pos,
                            );
                        if k < i {
                            assert(before.under_dying_snake(pos, i as int));
                        }
                    } else {
                        if before.under_dying_snake(pos, i as int) {
                            let k = choose|k: int|
                                0 <= k < i && k < before.snakes.len() && (
                                #[trigger] before.snakes[k]).just_died && lies_on(
                                    before.snakes[k].positions,
                                    pos,
                                );
                            assert(before.snakes[k].just_died);
                        }
                        if snake.just_died && lies_on(snake.positions, pos) {
                            assert(before.snakes[i as int].just_died);
                        }
                    }
                }
            }
            i += 1;
            assert(self.board@ =~= Seq::new(
                before.cells.len(),
                |pos: int|
                    if before.under_dying_snake(pos, i as int) {
                        Cell::Empty
                    } else {
                        before.cells[pos]
                    },
            ));
        }
        assert(self@.snakes =~= before.purged().snakes);
        assert(self@.cells =~= before.purged().cells);
    }

    /// The id of the first living snake, or 0 if none lives.
    fn first_alive(&self) -> (id: SnakeId)
        ensures
            id == first_alive_id(self@.snakes, 0),
    {
        let n = self.snakes.len();
        let mut i: usize = 0;
        while i < n
            invariant
                i <= n,
                n == self.snakes@.len(),
                first_alive_id(self@.snakes, 0) == first_alive_id(self@.snakes, i as int),
            decreases n - i,
        {
            if self.snakes[i].is_alive() {
                return self.snakes[i].id();
            }
            i += 1;
        }
        0
    }

    /// Settles the outcome, unless it is settled already.
    fn settle(&mut self, alive_before: usize)
        requires
            old(self).step < u32::MAX,
        ensures
            final(self)@ == (GameModel {
                results: settled(
                    old(self)@.results,
                    alive_before as nat,
                    old(self)@.snakes,
                    old(self)@.step,
                ),
                ..old(self)@
            }),
            final(self).bots_match() == old(self).bots_match(),
            final(self).mid_tick() == old(self).mid_tick(),
            final(self).same_observers(old(self)),
            final(self).controllers() == old(self).controllers(),
    {
        let alive = self.count_alive();
        if self.results.is_none() && alive_before > 0 {
            if alive == 0 {
                self.results = Some(
                    GameResults {
                        winner: if self.snakes.len() > 1 {
                            Some(GameResultWinner::Draw)
                        } else {
                            None
                        },
                        steps: self.step + 1,
                    },
                );
            } else if alive == 1 && self.snakes.len() > 1 {
                let winner_id = self.first_alive();
                self.results = Some(
                    GameResults {
                        winner: Some(GameResultWinner::Winner(winner_id)),
                        steps: self.step + 1,
                    },
                );
            }
        }
    }

    /// Plays one tick in which snake `i` takes `actions[i]` and food may
    /// grow at `food`. The action of a dead snake is not looked at.
    pub fn advance(&mut self, actions: &Vec<Action>, food: Option<Position>)
        requires
            old(self).wf(),
            old(self)@.initialized,
            old(self)@.step < u32::MAX,
            actions@.len() == old(self)@.snakes.len(),
        ensures
            final(self)@ == old(self)@.ticked(actions@, food),
            final(self).wf(),
            final(self).same_observers(old(self)),
            final(self).controllers() == old(self).controllers(),
            final(self)@.snakes.len() == old(self)@.snakes.len(),
            final(self)@.alive_count() <= old(self)@.alive_count(),
            forall|pos: int|
                0 <= pos < NB_CELLS ==> ((#[trigger] final(self)@.cells[pos]) == Cell::Obstacle
                    <==> old(self)@.cells[pos] == Cell::Obstacle),
    {
        proof {
            lemma_tick(self@, actions@, food);
        }
        let alive_before = self.count_alive();
        self.board.set_nb_alive_snakes(alive_before);
        assert(self.mid_tick()) by {
            assert forall|i: int| 0 <= i < self.snakes@.len() implies (
            #[trigger] self.snakes@[i])@.wf() && (self.snakes@[i]@.alive
                ==> self.snakes@[i]@.positions.len() > 0) by {
                assert(self@.snakes[i] == self.snakes@[i]@);
            }
        }
        self.move_snakes(actions);
        self.check_heads();
        self.purge();
        self.settle(alive_before);
        self.board.recount_free_cells();
        if let Some(pos) = food {
            self.board.grow_food_at(pos);
        }
        self.step += 1;
    }

    /// Calls the observers registered for the beginning of a tick.
    fn notify_before(&self)
        requires
            self.board.wf(),
    {
        let mut i: usize = 0;
        while i < self.before_each_step.len()
            invariant
                self.board.wf(),
            decreases self.before_each_step.len() - i,
        {
            self.before_each_step[i].observe(&self.board);
            i += 1;
        }
    }

    /// Calls the observers registered for the end of a tick.
    fn notify_after(&self)
        requires
            self.board.wf(),
    {
        let mut i: usize = 0;
        while i < self.after_each_step.len()
            invariant
                self.board.wf(),
            decreases self.after_each_step.len() - i,
        {
            self.after_each_step[i].observe(&self.board);
            i += 1;
        }
    }

    /// Asks the controller of every living snake for its action. A dead
    /// snake gets `Front`, which is never looked at.
    fn collect_actions(&mut self) -> (actions: Vec<Action>)
        requires
            old(self).wf(),
            old(self)@.initialized,
            old(self)@.nb_alive_snakes == old(self)@.alive_count(),
        ensures
            final(self)@ == old(self)@,
            final(self).wf(),
            final(self).same_observers(old(self)),
            actions@.len() == old(self)@.snakes.len(),
    {
        let n = self.snakes.len();
        let mut actions: Vec<Action> = Vec::new();
        let mut i: usize = 0;
        while i < n
            invariant
                i <= n,
                n == self.snakes@.len(),
                self@ == old(self)@,
                self.wf(),
                self.same_observers(old(self)),
                self@.initialized,
                self@.nb_alive_snakes == self@.alive_count(),
                actions@.len() == i,
            decreases n - i,
        {
            if self.snakes[i].is_alive() {
                proof {
                    let model = self@.snakes[i as int];
                    assert(model == self.snakes@[i as int]@);
                    assert(model.wf());
                    lemma_somebody_alive(self@.snakes, i as int);
                }
                let action = self.bots[i].get_next_action(self.snakes[i].state(), &self.board);
                actions.push(action);
            } else {
                actions.push(Action::Front);
            }
            i += 1;
        }
        actions
    }

    /// Plays one tick: the observers are called, every living snake's
    /// controller is asked for its action, the snakes move, collisions are
    /// resolved, the outcome is settled, food may grow, and the observers
    /// are called again.
    pub fn step(&mut self) -> (game: &mut Self)
        requires
            old(self).wf(),
            old(self)@.initialized,
            old(self)@.step < u32::MAX,
        ensures
            game.wf(),
            exists|actions: Seq<Action>, food: Option<Position>|
                actions.len() == old(self)@.snakes.len() && game@ == #[trigger] old(self)@.ticked(
                    actions,
                    food,
                ),
            game@.snakes.len() == old(self)@.snakes.len(),
            game@.alive_count() <= old(self)@.alive_count(),
            forall|pos: int|
                0 <= pos < NB_CELLS ==> ((#[trigger] game@.cells[pos]) == Cell::Obstacle
                    <==> old(self)@.cells[pos] == Cell::Obstacle),
            game.same_observers(old(self)),
            *final(self) == *final(game),
    {
        self.notify_before();
        let alive_before = self.count_alive();
        self.board.set_nb_alive_snakes(alive_before);
        let actions = self.collect_actions();
        let food = self.board.roll_food();
        let ghost before = self@;
        self.advance(&actions, food);
        assert(before.ticked(actions@, food) == old(self)@.ticked(actions@, food));
        self.notify_after();
        self
    }

    /// Begins the game with snake `i` on the cell `heads[i]`, facing north.
    pub fn place_snakes(&mut self, heads: &Vec<Position>)
        requires
            old(self).wf(),
            !old(self)@.initialized,
            valid_heads(old(self)@.cells, heads@, old(self)@.snakes.len()),
        ensures
            final(self).wf(),
            final(self)@ == old(self)@.started(heads@),
            final(self)@.snakes.len() == old(self)@.snakes.len(),
            forall|i: int|
                0 <= i < heads@.len() ==> #[trigger] final(self)@.snakes[i]
                    == old(self)@.snakes[i].placed_at(heads@[i])
                    && final(self)@.cells[heads@[i] as int] == Cell::SnakeHead(
                    old(self)@.snakes[i].id,
                ),
            forall|pos: int|
                0 <= pos < NB_CELLS && !lies_on(heads@, pos) ==> #[trigger] final(self)@.cells[pos]
                    == old(self)@.cells[pos],
            final(self).same_observers(old(self)),
            final(self).controllers() == old(self).controllers(),
    {
        proof {
            lemma_start(self@, heads@);
            lemma_placed(self@, heads@, heads@.len());
            assert(heads@.take(heads@.len() as int) =~= heads@);
        }
        let n = self.snakes.len();
        let mut i: usize = 0;
        while i < n
            invariant
                i <= n,
                n == self.snakes@.len(),
                heads@.len() == n,
                old(self).wf(),
                !old(self)@.initialized,
                valid_heads(old(self)@.cells, heads@, n as nat),
                forall|k: int| 0 <= k < heads@.len() ==> 0 <= #[trigger] heads@[k] < NB_CELLS,
                self.board.wf(),
                self.bots_match(),
                self.same_but_field(old(self)),
                self@.field() == old(self)@.field().placed(heads@, i as nat),
            decreases n - i,
        {
            proof {
                lemma_placed(old(self)@, heads@, i as nat);
            }
            let ghost before = self@.field();
            let pos = heads[i];
            let id = self.snakes[i].id();
            self.snakes[i].place(pos);
            self.board.set_tile_at_pos(pos, Cell::SnakeHead(id));
            proof {
                assert(before.snakes[i as int].id == id);
                assert(self@.snakes =~= before.snakes.update(
                    i as int,
                    before.snakes[i as int].placed_at(pos),
                ));
            }
            i += 1;
        }
        self.initialized = true;
    }

    /// Whether `pos` is one of `heads`.
    fn is_chosen(heads: &Vec<Position>, pos: Position) -> (chosen: bool)
        ensures
            chosen == lies_on(heads@, pos as int),
    {
        let mut i: usize = 0;
        while i < heads.len()
            invariant
                i <= heads@.len(),
                forall|k: int| 0 <= k < i ==> #[trigger] heads@[k] != pos,
            decreases heads@.len() - i,
        {
            if heads[i] == pos {
                return true;
            }
            i += 1;
        }
        false
    }

    /// Whether `pos` can be the first position of a snake when the snakes
    /// before it begin at `heads`: it is a free cell of the board and none
    /// of `heads`.
    pub fn is_free_for_head(&self, heads: &Vec<Position>, pos: Position) -> (free: bool)
        requires
            self.wf(),
        ensures
            free == is_free_for_head(self@.cells, heads@, pos as int),
    {
        !Self::is_chosen(heads, pos) && self.board.is_pos_free_or_food(&pos)
    }

    /// The first of `draws` that can be the first position of a snake when
    /// the snakes before it begin at `heads`; none if none of them can,
    /// which is when the placement of the snake has failed.
    pub fn pick_head(&self, heads: &Vec<Position>, draws: &Vec<Position>) -> (picked: Option<
        Position,
    >)
        requires
            self.wf(),
        ensures
            picked == first_free_for_head(self@.cells, heads@, draws@),
    {
        let mut k: usize = 0;
        assert(draws@.subrange(0, draws@.len() as int) =~= draws@);
        while k < draws.len()
            invariant
                k <= draws@.len(),
                self.wf(),
                first_free_for_head(self@.cells, heads@, draws@) == first_free_for_head(
                    self@.cells,
                    heads@,
                    draws@.subrange(k as int, draws@.len() as int),
                ),
            decreases draws@.len() - k,
        {
            let ghost rest = draws@.subrange(k as int, draws@.len() as int);
            assert(rest[0] == draws@[k as int]);
            assert(rest.drop_first() =~= draws@.subrange(k + 1, draws@.len() as int));
            if self.is_free_for_head(heads, draws[k]) {
                return Some(draws[k]);
            }
            k += 1;
        }
        None
    }

    /// Draws a free cell for every snake, no cell twice; gives up on a
    /// snake after `PLACEMENT_TRIES` draws of which none can be its first
    /// position.
    fn choose_heads(&self) -> (chosen: Result<Vec<Position>, PlacementExhausted>)
        requires
            self.wf(),
        ensures
            match chosen {
                Ok(heads) => valid_heads(self@.cells, heads@, self@.snakes.len()),
                Err(error) => exists|heads: Seq<Position>, draws: Seq<Position>|
                    {
                        &&& heads.len() < self@.snakes.len()
                        &&& self@.snakes[heads.len() as int].id == error.snake
                        &&& valid_heads(self@.cells, heads, heads.len())
                        &&& draws.len() == PLACEMENT_TRIES
                        &&& forall|k: int|
                            0 <= k < draws.len() ==> 0 <= #[trigger] draws[k] < NB_CELLS
                        &&& #[trigger] first_free_for_head(self@.cells, heads, draws) is None
                    },
            },
    {
        let mut rng = thread_rng();
        let n = self.snakes.len();
        let mut heads: Vec<Position> = Vec::new();
        let mut draw: Vec<Position> = Vec::new();
        draw.push(0);
        let mut i: usize = 0;
        while i < n
            invariant
                i <= n,
                n == self.snakes@.len(),
                self.wf(),
                draw@.len() == 1,
                valid_heads(self@.cells, heads@, i as nat),
            decreases n - i,
        {
            let mut found: Option<Position> = None;
            let mut tries: u32 = 0;
            let ghost mut draws: Seq<Position> = Seq::empty();
            while tries < PLACEMENT_TRIES && found.is_none()
                invariant
                    tries <= PLACEMENT_TRIES,
                    self.wf(),
                    draw@.len() == 1,
                    draws.len() == tries,
                    forall|k: int| 0 <= k < draws.len() ==> 0 <= #[trigger] draws[k] < NB_CELLS,
                    found is None ==> forall|k: int|
                        0 <= k < draws.len() ==> !is_free_for_head(
                            self@.cells,
                            heads@,
                            #[trigger] draws[k] as int,
                        ),
                    found matches Some(pos) ==> is_free_for_head(self@.cells, heads@, pos as int),
                decreases PLACEMENT_TRIES - tries, found.is_none() as int,
            {
                let pos = gen_range(&mut rng, 0, NB_CELLS);
                draw[0] = pos;
                assert(draw@.drop_first().len() == 0);
                found = self.pick_head(&heads, &draw);
                proof {
                    reveal_with_fuel(first_free_for_head, 2);
                    assert(draw@[0] == pos);
                    assert(found == if is_free_for_head(self@.cells, heads@, pos as int) {
                        Some(pos)
                    } else {
                        None
                    });
                }
                tries += 1;
                proof {
                    let longer = draws.push(pos);
                    assert forall|k: int| 0 <= k < longer.len() implies 0 <= #[trigger] longer[k]
                        < NB_CELLS by {
                        if k < draws.len() {
                            assert(longer[k] == draws[k]);
                        }
                    }
                    if found is None {
                        assert forall|k: int| 0 <= k < longer.len() implies !is_free_for_head(
                            self@.cells,
                            heads@,
                            #[trigger] longer[k] as int,
                        ) by {
                            if k < draws.len() {
                                assert(longer[k] == draws[k]);
                            }
                        }
                    }
                    draws = longer;
                }
            }
            match found {
                None => {
                    proof {
                        assert(self@.snakes[i as int].id == self.snakes@[i as int]@.id);
                        lemma_all_draws_refused(self@.cells, heads@, draws);
                        assert(first_free_for_head(self@.cells, heads@, draws) is None);
                    }
                    return Err(PlacementExhausted { snake: self.snakes[i].id() });
                },
                Some(pos) => {
                    let ghost before = heads@;
                    heads.push(pos);
                    proof {
                        assert forall|a: int, b: int|
                            0 <= a < heads@.len() && 0 <= b < heads@.len() && a != b implies (
                        #[trigger] heads@[a]) != (#[trigger] heads@[b]) by {
                            if a < i && b < i {
                                assert(before[a] != before[b]);
                            } else if a < i {
                                assert(before[a] == heads@[a]);
                            } else {
                                assert(before[b] == heads@[b]);
                            }
                        }
                    }
                },
            }
            i += 1;
        }
        Ok(heads)
    }

    /// Begins the game: every snake is put on a random free cell, no two on
    /// the same, facing north. It fails on the first snake for which
    /// `PLACEMENT_TRIES` draws give no such cell, the snakes before it having
    /// found theirs; the game is then left as it was.
    pub fn initialize(&mut self) -> (begun: Result<(), PlacementExhausted>)
        requires
            old(self).wf(),
            !old(self)@.initialized,
        ensures
            final(self).wf(),
            final(self)@.snakes.len() == old(self)@.snakes.len(),
            final(self).same_observers(old(self)),
            final(self).controllers() == old(self).controllers(),
            match begun {
                Ok(_) => exists|heads: Seq<Position>|
                    valid_heads(old(self)@.cells, heads, old(self)@.snakes.len()) && final(self)@
                        == #[trigger] old(self)@.started(heads),
                Err(error) => final(self)@ == old(self)@ && old(self).has_snake(error.snake)
                    && exists|heads: Seq<Position>, draws: Seq<Position>|
                    {
                        &&& heads.len() < old(self)@.snakes.len()
                        &&& old(self)@.snakes[heads.len() as int].id == error.snake
                        &&& valid_heads(old(self)@.cells, heads, heads.len())
                        &&& draws.len() == PLACEMENT_TRIES
                        &&& forall|k: int|
                            0 <= k < draws.len() ==> 0 <= #[trigger] draws[k] < NB_CELLS
                        &&& #[trigger] first_free_for_head(old(self)@.cells, heads, draws) is None
                    },
            },
    {
        match self.choose_heads() {
            Ok(heads) => {
                self.place_snakes(&heads);
                Ok(())
            },
            Err(error) => Err(error),
        }
    }

    /// Whether a run would play another tick.
    fn goes_on(&self) -> (goes_on: bool)
        ensures
            goes_on == self@.goes_on(),
    {
        self.results.is_none() || (!self.lazy_simulation && self.count_alive() > 0)
    }

    /// Plays ticks until the outcome is known and, if the game was told to
    /// go on then, until the last snake has died. Returns the outcome.
    pub fn run_to_end(&mut self) -> (results: GameResults)
        requires
            old(self).wf(),
            old(self)@.initialized,
            old(self)@.snakes.len() > 0,
        ensures
            final(self).wf(),
            final(self)@.results == Some(results),
            !final(self)@.goes_on(),
            exists|history: Seq<Tick>|
                old(self)@.is_run(history) && final(self)@ == #[trigger] old(self)@.played(
                    history,
                ),
            !old(self)@.goes_on() ==> final(self)@ == old(self)@,
            old(self)@.results matches Some(known) ==> results == known,
            old(self)@.results is None && old(self)@.lazy_simulation ==> results.steps
                == final(self)@.step,
            final(self)@.step >= old(self)@.step,
            final(self)@.snakes.len() == old(self)@.snakes.len(),
            final(self)@.lazy_simulation == old(self)@.lazy_simulation,
            final(self).same_observers(old(self)),
            results.steps <= MAX_TICKS,
            !final(self)@.lazy_simulation ==> final(self)@.alive_count() == 0 && forall|pos: int|
                0 <= pos < NB_CELLS ==> (#[trigger] final(self)@.cells[pos]).owner() is None,
    {
        let ghost mut history: Seq<Tick> = Seq::empty();
        while self.goes_on()
            invariant
                self.wf(),
                self.same_observers(old(self)),
                self@.initialized,
                old(self)@.is_run(history),
                self@ == old(self)@.played(history),
                self@.snakes.len() == old(self)@.snakes.len(),
                self@.snakes.len() > 0,
                self@.lazy_simulation == old(self)@.lazy_simulation,
                self@.step >= old(self)@.step,
                !old(self)@.goes_on() ==> self@ == old(self)@,
                old(self)@.results matches Some(known) ==> self@.results == Some(known),
                old(self)@.results is None && self@.lazy_simulation ==> (
                self@.results matches Some(r) ==> r.steps == self@.step),
            decreases MAX_TICKS - self@.step,
        {
            let ghost before = self@;
            proof {
                assert(before.alive_count() > 0);
                lemma_alive_bounds_ticks(before);
            }
            self.step();
            proof {
                let (actions, food) = choose|actions: Seq<Action>, food: Option<Position>|
                    actions.len() == before.snakes.len() && self@ == #[trigger] before.ticked(
                        actions,
                        food,
                    );
                lemma_tick(before, actions, food);
                let longer = history.push(Tick { actions, food });
                assert(longer.drop_last() =~= history);
                assert forall|k: int| 0 <= k < longer.len() implies (#[trigger] old(self)@.played(
                    longer.take(k),
                )).goes_on() && longer[k].actions.len() == old(self)@.snakes.len() by {
                    if k < history.len() {
                        assert(longer.take(k) =~= history.take(k));
                        assert(old(self)@.played(history.take(k)).goes_on());
                    } else {
                        assert(longer.take(k) =~= history);
                    }
                }
                history = longer;
            }
        }
        proof {
            if !self@.lazy_simulation {
                assert forall|pos: int| 0 <= pos < NB_CELLS implies (
                #[trigger] self@.cells[pos]).owner() is None by {
                    if self@.cells[pos].owner() is Some {
                        let i = choose|i: int| #[trigger]
                            self@.field().lies(i, pos) && self@.cells[pos].owner() == Some(
                                self@.snakes[i].id,
                            );
                        lemma_somebody_alive(self@.snakes, i);
                    }
                }
            }
        }
        match self.results {
            Some(results) => results,
            None => GameResults { winner: None, steps: 0 },
        }
    }
}

} // verus!
