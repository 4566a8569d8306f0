//! The state of a game as a mathematical value, and what each move does to it.

use vstd::prelude::*;
use crate::board::{
    MineState, adjacent, listed, cell_index, count_hidden, count_mines, in_bounds, neighbor_counts,
    surrounding_mines,
};

verus! {

/// Whether a game is still being played or how it ended. `Won` and `Lost`
/// are final.
#[derive(Copy, Clone, PartialEq, Eq, Hash, Debug, Structural)]
pub enum GameStatus {
    InProgress,
    Won,
    Lost,
}

/// A game as the contracts see it.
pub struct GameView {
    /// Number of columns.
    pub width: int,
    /// Number of rows.
    pub height: int,
    /// Number of mines the board holds once they are laid.
    pub num_mines: int,
    /// The mark of each cell, by index.
    pub states: Seq<MineState>,
    /// Whether the mines have been laid. They are laid by the first sweep.
    pub generated: bool,
    /// For each cell whether it holds a mine; empty until the mines are laid.
    pub mines: Seq<bool>,
    /// For each cell the stored count; empty until the mines are laid.
    pub counts: Seq<i32>,
    /// How the game stands.
    pub status: GameStatus,
}

impl GameView {
    /// The number of cells.
    pub open spec fn cells(self) -> int {
        self.width * self.height
    }

    /// Whether `(x, y)` is a cell of this board.
    pub open spec fn in_bounds(self, x: int, y: int) -> bool {
        in_bounds(self.width, self.height, x, y)
    }

    /// The index of the cell `(x, y)`.
    pub open spec fn index(self, x: int, y: int) -> int {
        cell_index(self.height, x, y)
    }

    /// What holds of every game: the board has a positive size that fits the
    /// index type, there is at least one mine and at least one safe cell,
    /// every cell has a mark, and either the mines are laid, with exactly
    /// `num_mines` of them and the matching counts, or no cell is revealed
    /// yet.
    pub open spec fn valid(self) -> bool {
        &&& 0 < self.width
        &&& 0 < self.height
        &&& self.cells() <= i32::MAX
        &&& 0 < self.num_mines < self.cells()
        &&& self.states.len() == self.cells()
        &&& if self.generated {
            &&& self.mines.len() == self.cells()
            &&& count_mines(self.mines) == self.num_mines
            &&& self.counts == neighbor_counts(self.width, self.height, self.mines)
        } else {
            &&& self.mines.len() == 0
            &&& self.counts.len() == 0
            &&& forall|i: int| 0 <= i < self.states.len() ==> self.states[i] != MineState::Revealed
        }
    }

    /// A game that has just begun: every cell empty, no mines laid, in
    /// progress.
    pub open spec fn fresh(width: int, height: int, num_mines: int) -> GameView {
        GameView {
            width,
            height,
            num_mines,
            states: Seq::new((width * height) as nat, |i: int| MineState::Empty),
            generated: false,
            mines: Seq::empty(),
            counts: Seq::empty(),
            status: GameStatus::InProgress,
        }
    }

    /// This game with the given layout of mines laid and the counts that
    /// belong to it.
    pub open spec fn with_mines(self, mines: Seq<bool>) -> GameView {
        GameView {
            generated: true,
            mines,
            counts: neighbor_counts(self.width, self.height, mines),
            ..self
        }
    }

    /// This game as a sweep finds it once it has made sure that the mines
    /// are laid: unchanged if they were, else with `mines` laid.
    pub open spec fn dealt(self, mines: Seq<bool>) -> GameView {
        if self.generated {
            self
        } else {
            self.with_mines(mines)
        }
    }

    /// Whether `mines` can be laid on this board for a first sweep at the
    /// cell `seed`: one entry for each cell, `num_mines` mines, none at `seed`.
    pub open spec fn fair_layout(self, mines: Seq<bool>, seed: int) -> bool {
        &&& mines.len() == self.cells()
        &&& count_mines(mines) == self.num_mines
        &&& 0 <= seed < mines.len()
        &&& !mines[seed]
    }

    /// Whether the player may mark the cell `(x, y)`: it is on the board and
    /// not revealed.
    pub open spec fn can_mark(self, x: int, y: int) -> bool {
        self.in_bounds(x, y) && self.states[self.index(x, y)] != MineState::Revealed
    }

    /// This game after the mark of the cell with the given index has been
    /// advanced once.
    pub open spec fn after_mark(self, index: int) -> GameView {
        GameView { states: self.states.update(index, self.states[index].cycled()), ..self }
    }

    /// Whether the cell `(x, y)` can be swept: it is on the board and empty.
    pub open spec fn can_sweep(self, x: int, y: int) -> bool {
        self.in_bounds(x, y) && self.states[self.index(x, y)] == MineState::Empty
    }

    /// Whether the fill, standing on the revealed cell `a`, goes on to `b`:
    /// `a` has no mine around it, `b` touches `a` and is empty.
    pub open spec fn flood_step(self, a: int, b: int) -> bool {
        &&& 0 <= a < self.states.len()
        &&& 0 <= b < self.states.len()
        &&& self.counts[a] == 0
        &&& adjacent(self.height, a, b)
        &&& self.states[b] == MineState::Empty
    }

    /// Whether `path` is a way that the fill takes: it starts at a cell of
    /// the board, and each of its cells leads on to the next.
    pub open spec fn flood_path(self, path: Seq<int>) -> bool {
        &&& path.len() > 0
        &&& 0 <= path[0] < self.states.len()
        &&& forall|i: int| 0 <= i < path.len() - 1 ==> self.flood_step(#[trigger] path[i], path[i + 1])
    }

    /// Whether a sweep at `seed` reveals the cell `cell`: some way of the
    /// fill leads from the one to the other.
    pub open spec fn flooded(self, seed: int, cell: int) -> bool {
        exists|path: Seq<int>|
            #![auto]
            self.flood_path(path) && path[0] == seed && path.last() == cell
    }

    /// The cells revealed so far, after the fill has looked at `(x, y)`: the
    /// cell is added if it is a cell of the board that was empty and is not
    /// revealed yet.
    pub open spec fn fill_visit(self, revealed: Seq<usize>, x: int, y: int) -> Seq<usize> {
        if self.in_bounds(x, y) && self.states[self.index(x, y)] == MineState::Empty && !listed(
            revealed,
            self.index(x, y),
        ) {
            revealed.push(self.index(x, y) as usize)
        } else {
            revealed
        }
    }

    /// The cells revealed so far, after the fill has gone on from the cell
    /// `from`: it looks at the eight cells around it, north-west first, then
    /// north, north-east, east, south-east, south, south-west and west.
    pub open spec fn fill_around(self, revealed: Seq<usize>, from: int) -> Seq<usize> {
        let x = from / self.height;
        let y = from % self.height;
        let north_west = self.fill_visit(revealed, x - 1, y - 1);
        let north = self.fill_visit(north_west, x, y - 1);
        let north_east = self.fill_visit(north, x + 1, y - 1);
        let east = self.fill_visit(north_east, x + 1, y);
        let south_east = self.fill_visit(east, x + 1, y + 1);
        let south = self.fill_visit(south_east, x, y + 1);
        let south_west = self.fill_visit(south, x - 1, y + 1);
        self.fill_visit(south_west, x - 1, y)
    }

    /// All that the fill reveals, in its order, when `revealed` is revealed
    /// and the fill has gone on from the first `done` of these cells: it goes
    /// on from one cell after the other, in the order in which they were
    /// revealed, and only from those without a mine around them.
    pub open spec fn fill_from(self, revealed: Seq<usize>, done: int) -> Seq<usize>
        decreases self.cells() - done,
    {
        if done < 0 || done >= revealed.len() || done >= self.cells() {
            revealed
        } else if self.counts[revealed[done] as int] == 0 {
            self.fill_from(self.fill_around(revealed, revealed[done] as int), done + 1)
        } else {
            self.fill_from(revealed, done + 1)
        }
    }

    /// The cells that a sweep at `seed` reveals, in the order in which it
    /// reveals them.
    pub open spec fn fill_order(self, seed: int) -> Seq<usize> {
        self.fill_from(seq![seed as usize], 0)
    }

    /// The marks after a sweep at `seed`: what the fill reaches is revealed,
    /// the rest is as it was.
    pub open spec fn swept_states(self, seed: int) -> Seq<MineState> {
        Seq::new(
            self.states.len(),
            |cell: int|
                if self.flooded(seed, cell) {
                    MineState::Revealed
                } else {
                    self.states[cell]
                },
        )
    }

    /// How the game stands after a sweep that left the marks `states` and hit
    /// a mine or not. A game that has ended stays as it ended; one in
    /// progress is lost on a mine and won when only the mines are hidden.
    pub open spec fn status_after(self, hit_mine: bool, states: Seq<MineState>) -> GameStatus {
        if self.status != GameStatus::InProgress {
            self.status
        } else if hit_mine {
            GameStatus::Lost
        } else if count_hidden(states) == self.num_mines {
            GameStatus::Won
        } else {
            GameStatus::InProgress
        }
    }

    /// This game, with its mines laid, after a sweep at the cell with the
    /// index `seed`.
    pub open spec fn after_sweep(self, seed: int) -> GameView {
        GameView {
            states: self.swept_states(seed),
            status: self.status_after(self.mines[seed], self.swept_states(seed)),
            ..self
        }
    }

    /// Whether the player has won: the hidden cells are exactly as many as
    /// the mines.
    pub open spec fn won(self) -> bool {
        count_hidden(self.states) == self.num_mines
    }
}

/// Marking a cell that can be marked keeps the game valid, and the cell can
/// be marked again; after three marks the game is what it was.
pub proof fn lemma_three_marks_restore(game: GameView, x: int, y: int)
    requires
        game.valid(),
        game.can_mark(x, y),
    ensures
        game.after_mark(game.index(x, y)).valid(),
        game.after_mark(game.index(x, y)).can_mark(x, y),
        game.after_mark(game.index(x, y)).after_mark(game.index(x, y)).can_mark(x, y),
        game.after_mark(game.index(x, y)).after_mark(game.index(x, y)).after_mark(game.index(x, y))
            == game,
{
    crate::board::lemma_cell_index(game.width, game.height, x, y);
    let index = game.index(x, y);
    let once = game.after_mark(index);
    let twice = once.after_mark(index);
    let thrice = twice.after_mark(index);
    crate::board::lemma_cycle_has_period_three(game.states[index]);
    assert(thrice.states =~= game.states);
}

/// A sweep always reveals the cell it starts at.
pub proof fn lemma_seed_is_flooded(game: GameView, seed: int)
    requires
        0 <= seed < game.states.len(),
    ensures
        game.flooded(seed, seed),
{
    let path = seq![seed];
    assert(game.flood_path(path) && path[0] == seed && path.last() == seed);
}

/// The fill does not go on from a cell that has a mine around it, nor from a
/// mine: a sweep at such a cell reveals that cell and no other.
pub proof fn lemma_flood_stops_at_numbered_cell(game: GameView, seed: int, cell: int)
    requires
        0 <= seed < game.states.len(),
        game.counts[seed] != 0,
    ensures
        game.flooded(seed, cell) <==> cell == seed,
{
    lemma_seed_is_flooded(game, seed);
    if game.flooded(seed, cell) {
        let path = choose|path: Seq<int>|
            #![auto]
            game.flood_path(path) && path[0] == seed && path.last() == cell;
        if path.len() > 1 {
            assert(game.flood_step(path[0], path[0int + 1]));
        }
    }
}

/// A sweep at a cell that has a mine around it, or holds one, reveals that
/// cell alone.
pub proof fn lemma_numbered_cell_is_revealed_alone(game: GameView, seed: int)
    requires
        0 <= seed <= usize::MAX,
        game.counts[seed] != 0,
    ensures
        game.fill_order(seed) == seq![seed as usize],
{
    let alone = seq![seed as usize];
    assert(alone[0] == seed);
    assert(game.fill_from(alone, 1) == alone);
    assert(game.fill_from(alone, 0) == alone);
}

/// Whatever the fill reveals beyond the cell it starts at, it reaches from a
/// revealed neighbour that has no mine around it, and finds it empty.
pub proof fn lemma_flood_comes_from_blank_cell(game: GameView, seed: int, cell: int)
    requires
        game.flooded(seed, cell),
        cell != seed,
    ensures
        exists|from: int| #[trigger] game.flooded(seed, from) && game.flood_step(from, cell),
{
    let path = choose|path: Seq<int>|
        #![auto]
        game.flood_path(path) && path[0] == seed && path.last() == cell;
    let shorter = path.drop_last();
    let from = shorter.last();
    assert(path.len() > 1);
    assert(game.flood_step(path[path.len() - 2], path[path.len() - 2 + 1]));
    assert forall|i: int| 0 <= i < shorter.len() - 1 implies game.flood_step(
        #[trigger] shorter[i],
        shorter[i + 1],
    ) by {
        assert(game.flood_step(path[i], path[i + 1]));
    }
    assert(game.flood_path(shorter) && shorter[0] == seed && shorter.last() == from);
    assert(game.flooded(seed, from) && game.flood_step(from, cell));
}

/// In every game, the count stored for a revealed cell without a mine is the
/// number of mines on the eight cells around it.
pub proof fn lemma_revealed_count_is_exact(game: GameView, index: int)
    requires
        game.valid(),
        0 <= index < game.cells(),
        game.states[index] == MineState::Revealed,
    ensures
        game.generated,
        !game.mines[index] ==> game.counts[index] == surrounding_mines(
            game.width,
            game.height,
            game.mines,
            index / game.height,
            index % game.height,
        ),
        game.mines[index] ==> game.counts[index] == -1,
{
    crate::board::lemma_surrounding_mines_bounds(
        game.width,
        game.height,
        game.mines,
        index / game.height,
        index % game.height,
    );
}

} // verus!
