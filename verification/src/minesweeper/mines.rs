//! Laying the mines: where they go, and the counts that follow from them.

use vstd::prelude::*;
use crate::board::{
    count_in_prefix, count_mines, indicator, lemma_cell_index, lemma_cell_of_index,
    lemma_count_none, lemma_count_update, lemma_surrounding_mines_bounds,
    mine_at, neighbor_count, neighbor_counts, surrounding_mines,
};
use crate::minesweeper::{MineGenerationState, Minesweeper};
use crate::random::sample_index;

verus! {

/// How many draws in a row may fall on a cell that cannot take a mine before
/// the cell is chosen by its rank among those that can.
pub const MAX_REJECTED_DRAWS: u32 = 64;

/// For each cell, whether a mine can still be put there: it holds none and
/// is not the cell to be kept clear.
spec fn free_cells(mines: Seq<bool>, exclude: int) -> Seq<bool> {
    Seq::new(mines.len(), |i: int| !mines[i] && i != exclude)
}

/// Among the first `n` cells, those that can take a mine are those that hold
/// none, but for the cell kept clear.
proof fn lemma_count_free(mines: Seq<bool>, exclude: int, n: int)
    requires
        0 <= n <= mines.len(),
        0 <= exclude < mines.len(),
        !mines[exclude],
    ensures
        count_in_prefix(free_cells(mines, exclude), n) == n - count_in_prefix(mines, n) - indicator(
            exclude < n,
        ),
    decreases n,
{
    if n > 0 {
        lemma_count_free(mines, exclude, n - 1);
    }
}

/// The cell of rank `rank` among those that can take a mine, counted from
/// the first.
fn nth_free_cell(mines: &Vec<bool>, exclude_index: usize, rank: usize) -> (index: usize)
    requires
        exclude_index < mines.len(),
        !mines[exclude_index as int],
        rank < count_in_prefix(free_cells(mines@, exclude_index as int), mines.len() as int),
    ensures
        index < mines.len(),
        index != exclude_index,
        !mines[index as int],
        count_in_prefix(free_cells(mines@, exclude_index as int), index as int) == rank,
{
    let ghost free = free_cells(mines@, exclude_index as int);
    let mut index: usize = 0;
    let mut remaining: usize = rank;
    loop
        invariant
            index < mines.len(),
            exclude_index < mines.len(),
            free == free_cells(mines@, exclude_index as int),
            rank < count_in_prefix(free, mines.len() as int),
            count_in_prefix(free, index as int) + remaining == rank,
        decreases mines.len() - index,
    {
        if !mines[index] && index != exclude_index {
            if remaining == 0 {
                return index;
            }
            remaining -= 1;
        }
        index += 1;
    }
}

/// A cell that can take a mine, chosen at random: drawn among all cells and
/// drawn again while the draw falls on a mine or on the cell kept clear.
/// After `MAX_REJECTED_DRAWS` such draws the cell is drawn by its rank among
/// the cells that can take a mine, which is as even a choice and always ends.
fn pick_free_cell(mines: &Vec<bool>, exclude_index: usize, placed: usize) -> (index: usize)
    requires
        exclude_index < mines.len(),
        !mines[exclude_index as int],
        placed == count_mines(mines@),
        placed + 1 < mines.len(),
    ensures
        index < mines.len(),
        index != exclude_index,
        !mines[index as int],
{
    let mut rejected: u32 = 0;
    while rejected < MAX_REJECTED_DRAWS
        invariant
            mines.len() > 0,
        decreases MAX_REJECTED_DRAWS - rejected,
    {
        let index = sample_index(mines.len());
        if index != exclude_index && !mines[index] {
            return index;
        }
        rejected += 1;
    }
    proof {
        lemma_count_free(mines@, exclude_index as int, mines.len() as int);
    }
    let rank = sample_index(mines.len() - 1 - placed);
    nth_free_cell(mines, exclude_index, rank)
}

/// A layout of `total` cells with `num_mines` mines at random places, none
/// of them at `exclude_index`.
fn draw_layout(total: usize, num_mines: usize, exclude_index: usize) -> (mines: Vec<bool>)
    requires
        exclude_index < total,
        num_mines < total,
    ensures
        mines.len() == total,
        count_mines(mines@) == num_mines,
        !mines[exclude_index as int],
{
    let mut mines: Vec<bool> = Vec::new();
    while mines.len() < total
        invariant
            mines.len() <= total,
            forall|i: int| 0 <= i < mines.len() ==> !mines[i],
        decreases total - mines.len(),
    {
        mines.push(false);
    }
    proof {
        lemma_count_none(mines@, total as int);
    }
    let mut placed: usize = 0;
    while placed < num_mines
        invariant
            mines.len() == total,
            exclude_index < total,
            placed <= num_mines < total,
            placed == count_mines(mines@),
            !mines[exclude_index as int],
        decreases num_mines - placed,
    {
        let index = pick_free_cell(&mines, exclude_index, placed);
        proof {
            lemma_count_update(mines@, index as int, true, total as int);
        }
        mines.set(index, true);
        placed += 1;
    }
    mines
}

impl Minesweeper {
    /// Whether the board has its size and one entry of `mines` for each
    /// cell, so that the cells can be asked for mines.
    spec fn mines_in_place(&self) -> bool {
        &&& self.inv()
        &&& 0 < self@.width
        &&& 0 < self@.height
        &&& self@.cells() <= i32::MAX
        &&& self@.mines.len() == self@.cells()
    }

    /// Whether `(x, y)` is a cell of the board that holds a mine.
    fn test_spot(&self, x: i32, y: i32) -> (mine: bool)
        requires
            self.mines_in_place(),
        ensures
            mine == mine_at(self@.width, self@.height, self@.mines, x as int, y as int),
    {
        if self.index_helper.is_in_bounds(x, y) {
            proof {
                lemma_cell_index(self@.width, self@.height, x as int, y as int);
            }
            self.mines[self.index_helper.compute_index(x, y)]
        } else {
            false
        }
    }

    /// The number of mines on the eight cells around `(x, y)`.
    fn get_surrounding_mine_count(&self, x: i32, y: i32) -> (count: i32)
        requires
            self.mines_in_place(),
            self@.in_bounds(x as int, y as int),
        ensures
            count == surrounding_mines(self@.width, self@.height, self@.mines, x as int, y as int),
    {
        let mut count: i32 = 0;

        if self.test_spot(x + 1, y) {
            count += 1;
        }

        if self.test_spot(x - 1, y) {
            count += 1;
        }

        if self.test_spot(x, y + 1) {
            count += 1;
        }

        if self.test_spot(x, y - 1) {
            count += 1;
        }

        if self.test_spot(x + 1, y + 1) {
            count += 1;
        }

        if self.test_spot(x - 1, y - 1) {
            count += 1;
        }

        if self.test_spot(x - 1, y + 1) {
            count += 1;
        }

        if self.test_spot(x + 1, y - 1) {
            count += 1;
        }

        count
    }

    /// Lays `mines` and stores for each cell -1 if it holds a mine and else
    /// the number of mines around it.
    fn install_mines(&mut self, mines: Vec<bool>)
        requires
            old(self).wf(),
            !old(self)@.generated,
            mines.len() == old(self)@.cells(),
            count_mines(mines@) == old(self)@.num_mines,
        ensures
            final(self).wf(),
            final(self)@ == old(self)@.with_mines(mines@),
    {
        let ghost layout = mines@;
        let ghost width = self@.width;
        let ghost height = self@.height;
        self.mines = mines;
        self.neighbor_counts = Vec::new();
        let mut i: usize = 0;
        while i < self.mines.len()
            invariant
                self.mines_in_place(),
                self@.mines == layout,
                self@.width == width,
                self@.height == height,
                self@.num_mines == old(self)@.num_mines,
                self@.states == old(self)@.states,
                self@.status == old(self)@.status,
                !self@.generated,
                i <= self.mines.len(),
                self.neighbor_counts.len() == i,
                forall|j: int|
                    0 <= j < i ==> self.neighbor_counts[j] == neighbor_count(
                        width,
                        height,
                        layout,
                        j,
                    ),
            decreases self.mines.len() - i,
        {
            proof {
                lemma_cell_of_index(width, height, i as int);
                lemma_surrounding_mines_bounds(
                    width,
                    height,
                    layout,
                    i as int / height,
                    i as int % height,
                );
            }
            let x = self.index_helper.compute_x_from_index(i);
            let y = self.index_helper.compute_y_from_index(i);

            if self.mines[i] {
                // -1 means a mine
                self.neighbor_counts.push(-1);
            } else {
                let count = self.get_surrounding_mine_count(x, y);
                self.neighbor_counts.push(count);
            }
            i += 1;
        }
        self.mine_generation_state = MineGenerationState::Generated;
        proof {
            assert(self@.counts =~= neighbor_counts(width, height, layout));
        }
    }

    /// Lays `num_mines` mines at random, none of them on the cell
    /// `(exclude_x, exclude_y)`, so that a first sweep at that cell is safe.
    pub(crate) fn generate_mines(&mut self, num_mines: i32, exclude_x: i32, exclude_y: i32)
        requires
            old(self).wf(),
            !old(self)@.generated,
            num_mines == old(self)@.num_mines,
            old(self)@.in_bounds(exclude_x as int, exclude_y as int),
        ensures
            final(self).wf(),
            final(self)@ == old(self)@.with_mines(final(self)@.mines),
            old(self)@.fair_layout(
                final(self)@.mines,
                old(self)@.index(exclude_x as int, exclude_y as int),
            ),
    {
        proof {
            lemma_cell_index(self@.width, self@.height, exclude_x as int, exclude_y as int);
        }
        let total = (self.game_board_width * self.game_board_height) as usize;
        let exclude_index = self.index_helper.compute_index(exclude_x, exclude_y);
        let mines = draw_layout(total, num_mines as usize, exclude_index);
        self.install_mines(mines);
    }

    /// Lays the mines as `layout` says, in place of a random choice: one
    /// entry for each cell, `true` for a mine, with as many mines as the game
    /// is to have. The layout is taken only while no mines are laid; whether
    /// it was taken is returned.
    pub fn lay_mines(&mut self, layout: Vec<bool>) -> (laid: bool)
        requires
            old(self).wf(),
        ensures
            final(self).wf(),
            laid == (!old(self)@.generated && layout.len() == old(self)@.cells() && count_mines(
                layout@,
            ) == old(self)@.num_mines),
            final(self)@ == if laid {
                old(self)@.with_mines(layout@)
            } else {
                old(self)@
            },
    {
        if self.mine_generation_state == MineGenerationState::Generated {
            return false;
        }
        let total = (self.game_board_width * self.game_board_height) as usize;
        if layout.len() != total {
            return false;
        }
        let mut found: usize = 0;
        let mut i: usize = 0;
        while i < layout.len()
            invariant
                i <= layout.len(),
                found == count_in_prefix(layout@, i as int),
                found <= i,
            decreases layout.len() - i,
        {
            if layout[i] {
                found += 1;
            }
            i += 1;
        }
        if found != self.num_mines as usize {
            return false;
        }
        self.install_mines(layout);
        true
    }
}

} // verus!
