//! The game engine: the board, the marks of its cells and the moves of the
//! player. What has to be drawn is handed back to the caller as plain values.

use vstd::prelude::*;
use crate::board::{
    MineState, cell_index, count_hidden, count_in_prefix, hidden_flags, in_bounds,
    lemma_cell_index,
};
use crate::game_view::{GameStatus, GameView};

pub mod mines;
pub mod pointer;
pub mod reveal_order;
pub mod sweep;

verus! {

/// Turns the coordinates of a cell into its index and back.
pub struct IndexHelper {
    width: i32,
    height: i32,
}

impl IndexHelper {
    /// The number of columns.
    pub closed spec fn width(&self) -> int {
        self.width as int
    }

    /// The number of rows.
    pub closed spec fn height(&self) -> int {
        self.height as int
    }

    pub fn new(width: i32, height: i32) -> (helper: Self)
        ensures
            helper.width() == width,
            helper.height() == height,
    {
        Self { width, height }
    }

    /// The index of the cell `(x, y)` of the board.
    pub fn compute_index(&self, x: i32, y: i32) -> (index: usize)
        requires
            in_bounds(self.width(), self.height(), x as int, y as int),
            cell_index(self.height(), x as int, y as int) <= usize::MAX,
        ensures
            index == cell_index(self.height(), x as int, y as int),
    {
        proof {
            lemma_cell_index(self.width(), self.height(), x as int, y as int);
            assert(x * self.height <= i32::MAX * i32::MAX) by (nonlinear_arith)
                requires
                    0 <= x <= i32::MAX,
                    0 <= self.height <= i32::MAX,
            ;
        }
        let column: i64 = x as i64 * self.height as i64;
        (column + y as i64) as usize
    }

    /// The column of the cell with the given index.
    pub fn compute_x_from_index(&self, index: usize) -> (x: i32)
        requires
            0 < self.height(),
            index <= i32::MAX,
        ensures
            x == index as int / self.height(),
    {
        index as i32 / self.height
    }

    /// The row of the cell with the given index.
    pub fn compute_y_from_index(&self, index: usize) -> (y: i32)
        requires
            0 < self.height(),
            index <= i32::MAX,
        ensures
            y == index as int % self.height(),
    {
        index as i32 % self.height
    }

    /// Whether `(x, y)` is a cell of the board.
    pub fn is_in_bounds(&self, x: i32, y: i32) -> (inside: bool)
        ensures
            inside == in_bounds(self.width(), self.height(), x as int, y as int),
    {
        (x >= 0 && x < self.width) && (y >= 0 && y < self.height)
    }
}

/// Whether the mines of a game have been laid. They are laid by the first
/// sweep, so that it cannot hit one.
#[derive(Copy, Clone, PartialEq, Eq, Debug, Structural)]
pub enum MineGenerationState {
    Deferred,
    Generated,
}

/// Why a game cannot be started with the values given.
#[derive(Copy, Clone, PartialEq, Eq, Debug, Structural)]
pub enum NewGameError {
    /// The width or the height is not positive.
    EmptyBoard,
    /// The board would have more cells than an index can count.
    BoardTooLarge,
    /// The number of mines is not positive.
    NoMines,
    /// There would be no cell without a mine.
    TooManyMines,
}

/// What is wrong with the values for a new game, if anything.
pub open spec fn config_error(width: int, height: int, mines: int) -> Option<NewGameError> {
    if width <= 0 || height <= 0 {
        Some(NewGameError::EmptyBoard)
    } else if width * height > i32::MAX {
        Some(NewGameError::BoardTooLarge)
    } else if mines <= 0 {
        Some(NewGameError::NoMines)
    } else if mines >= width * height {
        Some(NewGameError::TooManyMines)
    } else {
        None
    }
}

/// A game of Minesweeper.
pub struct Minesweeper {
    game_board_width: i32,
    game_board_height: i32,
    index_helper: IndexHelper,
    mine_states: Vec<MineState>,
    mines: Vec<bool>,
    neighbor_counts: Vec<i32>,
    mine_generation_state: MineGenerationState,
    num_mines: i32,
    status: GameStatus,
}

impl View for Minesweeper {
    type V = GameView;

    closed spec fn view(&self) -> GameView {
        GameView {
            width: self.game_board_width as int,
            height: self.game_board_height as int,
            num_mines: self.num_mines as int,
            states: self.mine_states@,
            generated: self.mine_generation_state == MineGenerationState::Generated,
            mines: self.mines@,
            counts: self.neighbor_counts@,
            status: self.status,
        }
    }
}

/// A board of `cells` empty cells.
fn empty_board(cells: usize) -> (states: Vec<MineState>)
    ensures
        states@ == Seq::new(cells as nat, |i: int| MineState::Empty),
{
    let mut states: Vec<MineState> = Vec::new();
    let mut filled: usize = 0;
    while filled < cells
        invariant
            filled <= cells,
            states@ == Seq::new(filled as nat, |i: int| MineState::Empty),
        decreases cells - filled,
    {
        states.push(MineState::Empty);
        filled += 1;
    }
    states
}

impl Minesweeper {
    /// What the fields hold beyond what the view shows: the index helper is
    /// the one of this board.
    pub closed spec fn inv(&self) -> bool {
        &&& self.index_helper.width() == self.game_board_width
        &&& self.index_helper.height() == self.game_board_height
    }

    /// Whether this is a game that the engine can have produced.
    pub open spec fn wf(&self) -> bool {
        self.inv() && self@.valid()
    }

    /// A game on the standard board: 16 by 16 cells with 40 mines.
    pub fn new() -> (game: Self)
        ensures
            game.wf(),
            game@ == GameView::fresh(16, 16, 40),
    {
        Self {
            game_board_width: 16,
            game_board_height: 16,
            index_helper: IndexHelper::new(16, 16),
            mine_states: empty_board(256),
            mines: Vec::new(),
            neighbor_counts: Vec::new(),
            mine_generation_state: MineGenerationState::Deferred,
            num_mines: 40,
            status: GameStatus::InProgress,
        }
    }

    /// Starts a new game on a board of `board_width` by `board_height` cells
    /// with `mines` mines, which are laid by the first sweep. Values that
    /// give no playable board are refused, and the game at hand goes on.
    pub fn new_game(&mut self, board_width: i32, board_height: i32, mines: i32) -> (started: Result<
        (),
        NewGameError,
    >)
        ensures
            match started {
                Ok(()) => {
                    &&& config_error(board_width as int, board_height as int, mines as int) is None
                    &&& final(self).wf()
                    &&& final(self)@ == GameView::fresh(
                        board_width as int,
                        board_height as int,
                        mines as int,
                    )
                },
                Err(error) => {
                    &&& config_error(board_width as int, board_height as int, mines as int) == Some(
                        error,
                    )
                    &&& *final(self) == *old(self)
                },
            },
    {
        if board_width <= 0 || board_height <= 0 {
            return Err(NewGameError::EmptyBoard);
        }
        assert(0 < board_width * board_height <= i32::MAX * i32::MAX) by (nonlinear_arith)
            requires
                0 < board_width <= i32::MAX,
                0 < board_height <= i32::MAX,
        ;
        let cells: i64 = board_width as i64 * board_height as i64;
        if cells > i32::MAX as i64 {
            return Err(NewGameError::BoardTooLarge);
        }
        if mines <= 0 {
            return Err(NewGameError::NoMines);
        }
        if mines as i64 >= cells {
            return Err(NewGameError::TooManyMines);
        }
        self.game_board_width = board_width;
        self.game_board_height = board_height;
        self.index_helper = IndexHelper::new(board_width, board_height);
        self.mine_states = empty_board(cells as usize);
        self.mines = Vec::new();
        self.neighbor_counts = Vec::new();
        self.status = GameStatus::InProgress;
        self.mine_generation_state = MineGenerationState::Deferred;
        self.num_mines = mines;
        Ok(())
    }

    /// The number of columns.
    pub fn width(&self) -> (width: i32)
        ensures
            width == self@.width,
    {
        self.game_board_width
    }

    /// The number of rows.
    pub fn height(&self) -> (height: i32)
        ensures
            height == self@.height,
    {
        self.game_board_height
    }

    /// The number of mines of this game.
    pub fn num_mines(&self) -> (mines: i32)
        ensures
            mines == self@.num_mines,
    {
        self.num_mines
    }

    /// How the game stands.
    pub fn status(&self) -> (status: GameStatus)
        ensures
            status == self@.status,
    {
        self.status
    }

    /// Whether the game has ended, won or lost.
    pub fn game_over(&self) -> (over: bool)
        ensures
            over == (self@.status != GameStatus::InProgress),
    {
        match self.status {
            GameStatus::InProgress => false,
            GameStatus::Won => true,
            GameStatus::Lost => true,
        }
    }

    /// The mark of the cell `(x, y)`, or `None` where the board has no such
    /// cell.
    pub fn mine_state(&self, x: i32, y: i32) -> (state: Option<MineState>)
        requires
            self.wf(),
        ensures
            state == if self@.in_bounds(x as int, y as int) {
                Some(self@.states[self@.index(x as int, y as int)])
            } else {
                None
            },
    {
        if self.index_helper.is_in_bounds(x, y) {
            proof {
                lemma_cell_index(self@.width, self@.height, x as int, y as int);
            }
            Some(self.mine_states[self.index_helper.compute_index(x, y)])
        } else {
            None
        }
    }

    /// What a revealed cell shows: -1 for a mine, else the number of mines
    /// around it. `None` for a cell that is not revealed and where the board
    /// has no such cell.
    pub fn neighbor_count(&self, x: i32, y: i32) -> (count: Option<i32>)
        requires
            self.wf(),
        ensures
            count == if self@.in_bounds(x as int, y as int) && self@.states[self@.index(
                x as int,
                y as int,
            )] == MineState::Revealed {
                Some(self@.counts[self@.index(x as int, y as int)])
            } else {
                None
            },
    {
        if self.index_helper.is_in_bounds(x, y) {
            proof {
                lemma_cell_index(self@.width, self@.height, x as int, y as int);
            }
            let index = self.index_helper.compute_index(x, y);
            match self.mine_states[index] {
                MineState::Revealed => Some(self.neighbor_counts[index]),
                _ => None,
            }
        } else {
            None
        }
    }

    /// Advances the mark of the cell `(x, y)` from empty to flagged, from
    /// flagged to questioned, from questioned to empty, and returns the new
    /// mark. A revealed cell keeps its mark, and so does the board where it
    /// has no such cell: the result is then `None`.
    pub fn cycle_mark(&mut self, x: i32, y: i32) -> (marked: Option<MineState>)
        requires
            old(self).wf(),
        ensures
            final(self).wf(),
            match marked {
                Some(state) => {
                    &&& old(self)@.can_mark(x as int, y as int)
                    &&& final(self)@ == old(self)@.after_mark(old(self)@.index(x as int, y as int))
                    &&& state == final(self)@.states[old(self)@.index(x as int, y as int)]
                },
                None => {
                    &&& !old(self)@.can_mark(x as int, y as int)
                    &&& final(self)@ == old(self)@
                },
            },
    {
        if !self.index_helper.is_in_bounds(x, y) {
            return None;
        }
        proof {
            lemma_cell_index(self@.width, self@.height, x as int, y as int);
        }
        let index = self.index_helper.compute_index(x, y);
        match self.mine_states[index] {
            MineState::Revealed => None,
            state => {
                let next = state.cycle();
                self.mine_states.set(index, next);
                Some(next)
            },
        }
    }

    /// Whether only the mines are left hidden: the cells that are not
    /// revealed are exactly as many as the mines.
    pub fn check_if_won(&self) -> (won: bool)
        requires
            self.wf(),
        ensures
            won == (count_hidden(self@.states) == self@.num_mines),
            won == self@.won(),
    {
        let mut non_revealed_tiles: i32 = 0;
        let mut index: usize = 0;
        while index < self.mine_states.len()
            invariant
                index <= self.mine_states.len(),
                self.mine_states.len() <= i32::MAX,
                non_revealed_tiles == count_in_prefix(hidden_flags(self.mine_states@), index as int),
                0 <= non_revealed_tiles <= index,
            decreases self.mine_states.len() - index,
        {
            match self.mine_states[index] {
                MineState::Revealed => {},
                _ => {
                    non_revealed_tiles += 1;
                },
            }
            index += 1;
        }
        non_revealed_tiles == self.num_mines
    }
}

} // verus!
