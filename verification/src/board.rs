//! The mathematical model of a board: cells, their indices, their marks and
//! the number of mines around each of them.
//!
//! A board of `width` by `height` cells is stored column by column: the cell
//! `(x, y)` has the index `x * height + y`.

use vstd::prelude::*;
use vstd::arithmetic::div_mod::{
    lemma_fundamental_div_mod, lemma_fundamental_div_mod_converse, lemma_mod_bound,
};
use vstd::arithmetic::mul::lemma_mul_is_commutative;

verus! {

/// The mark a cell carries. A cell starts `Empty`, can be flagged or
/// questioned by the player, and becomes `Revealed` for good once it is swept.
#[derive(Copy, Clone, PartialEq, Eq, Hash, Debug, Structural)]
pub enum MineState {
    Empty,
    Flag,
    Question,
    Revealed,
}

impl MineState {
    /// The next mark in the cycle `Empty -> Flag -> Question -> Empty`.
    /// A revealed cell has no next mark; the model leaves it as it is.
    pub open spec fn cycled(self) -> MineState {
        match self {
            MineState::Empty => MineState::Flag,
            MineState::Flag => MineState::Question,
            MineState::Question => MineState::Empty,
            MineState::Revealed => MineState::Revealed,
        }
    }

    /// Advances the mark of a cell that is not revealed.
    pub fn cycle(self) -> (next: MineState)
        requires
            self != MineState::Revealed,
        ensures
            next == self.cycled(),
            next != MineState::Revealed,
    {
        match self {
            MineState::Empty => MineState::Flag,
            MineState::Flag => MineState::Question,
            MineState::Question => MineState::Empty,
            MineState::Revealed => MineState::Revealed,
        }
    }
}

/// Marking a cell three times in a row brings back the mark it had, and none
/// of the marks on the way is `Revealed`.
pub proof fn lemma_cycle_has_period_three(state: MineState)
    requires
        state != MineState::Revealed,
    ensures
        state.cycled() != MineState::Revealed,
        state.cycled().cycled() != MineState::Revealed,
        state.cycled().cycled().cycled() == state,
        state.cycled() != state,
        state.cycled().cycled() != state,
{
}

/// Whether `(x, y)` is a cell of a `width` by `height` board.
pub open spec fn in_bounds(width: int, height: int, x: int, y: int) -> bool {
    0 <= x < width && 0 <= y < height
}

/// The index of the cell `(x, y)` on a board of the given height.
pub open spec fn cell_index(height: int, x: int, y: int) -> int {
    x * height + y
}

/// The index of a cell of the board lies below the number of cells, and the
/// cell is found again from it by division.
pub proof fn lemma_cell_index(width: int, height: int, x: int, y: int)
    requires
        in_bounds(width, height, x, y),
    ensures
        0 <= cell_index(height, x, y) < width * height,
        cell_index(height, x, y) / height == x,
        cell_index(height, x, y) % height == y,
{
    lemma_fundamental_div_mod_converse(x * height + y, height, x, y);
    assert(x * height + y < width * height) by (nonlinear_arith)
        requires
            0 <= x < width,
            0 <= y < height,
    ;
    assert(0 <= x * height) by (nonlinear_arith)
        requires
            0 <= x,
            0 < height,
    ;
}

/// Every index below the number of cells is the index of exactly the cell
/// that division gives.
pub proof fn lemma_cell_of_index(width: int, height: int, index: int)
    requires
        0 < height,
        0 <= index < width * height,
    ensures
        in_bounds(width, height, index / height, index % height),
        cell_index(height, index / height, index % height) == index,
{
    lemma_fundamental_div_mod(index, height);
    lemma_mod_bound(index, height);
    lemma_mul_is_commutative(height, index / height);
    let q = index / height;
    assert(0 <= q < width) by (nonlinear_arith)
        requires
            0 < height,
            0 <= index < width * height,
            index == q * height + index % height,
            0 <= index % height < height,
    ;
}

/// 1 for `true`, 0 for `false`.
pub open spec fn indicator(b: bool) -> int {
    if b {
        1
    } else {
        0
    }
}

/// How many of the first `n` entries of `flags` are `true`.
pub open spec fn count_in_prefix(flags: Seq<bool>, n: int) -> int
    decreases n,
{
    if n <= 0 {
        0
    } else {
        count_in_prefix(flags, n - 1) + indicator(flags[n - 1])
    }
}

/// The number of mines in a layout.
pub open spec fn count_mines(mines: Seq<bool>) -> int {
    count_in_prefix(mines, mines.len() as int)
}

/// For each cell, whether it is still hidden, that is, not revealed.
pub open spec fn hidden_flags(states: Seq<MineState>) -> Seq<bool> {
    Seq::new(states.len(), |i: int| states[i] != MineState::Revealed)
}

/// The number of cells that are not revealed.
pub open spec fn count_hidden(states: Seq<MineState>) -> int {
    count_in_prefix(hidden_flags(states), states.len() as int)
}

/// A count over a prefix lies between zero and the length of the prefix.
pub proof fn lemma_count_bounds(flags: Seq<bool>, n: int)
    requires
        0 <= n,
    ensures
        0 <= count_in_prefix(flags, n) <= n,
    decreases n,
{
    if n > 0 {
        lemma_count_bounds(flags, n - 1);
    }
}

/// Two sequences that agree on a prefix have the same count over it.
pub proof fn lemma_count_agree(a: Seq<bool>, b: Seq<bool>, n: int)
    requires
        forall|i: int| 0 <= i < n ==> a[i] == b[i],
    ensures
        count_in_prefix(a, n) == count_in_prefix(b, n),
    decreases n,
{
    if n > 0 {
        lemma_count_agree(a, b, n - 1);
    }
}

/// Changing one entry changes the count over a prefix that holds it by the
/// difference of the two entries.
pub proof fn lemma_count_update(flags: Seq<bool>, i: int, value: bool, n: int)
    requires
        0 <= i < n <= flags.len(),
    ensures
        count_in_prefix(flags.update(i, value), n) == count_in_prefix(flags, n) - indicator(
            flags[i],
        ) + indicator(value),
    decreases n,
{
    if i == n - 1 {
        lemma_count_agree(flags.update(i, value), flags, n - 1);
    } else {
        lemma_count_update(flags, i, value, n - 1);
    }
}

/// A prefix in which nothing is set counts zero.
pub proof fn lemma_count_none(flags: Seq<bool>, n: int)
    requires
        forall|i: int| 0 <= i < n ==> !flags[i],
    ensures
        count_in_prefix(flags, n) == 0,
    decreases n,
{
    if n > 0 {
        lemma_count_none(flags, n - 1);
    }
}

/// Whether the cell with the index `cell` is among `cells`.
pub open spec fn listed(cells: Seq<usize>, cell: int) -> bool {
    exists|j: int| 0 <= j < cells.len() && #[trigger] cells[j] == cell
}

/// A list that names each mine of a layout once, and nothing else, is as
/// long as the layout has mines.
pub proof fn lemma_listing_counts_mines(mines: Seq<bool>, cells: Seq<usize>)
    requires
        cells.no_duplicates(),
        forall|index: int|
            #![trigger listed(cells, index)]
            #![trigger mines[index]]
            listed(cells, index) <==> 0 <= index < mines.len() && mines[index],
    ensures
        cells.len() == count_mines(mines),
    decreases cells.len(),
{
    if cells.len() == 0 {
        assert forall|index: int| 0 <= index < mines.len() implies !mines[index] by {
            assert(!listed(cells, index));
        }
        lemma_count_none(mines, mines.len() as int);
    } else {
        let last = cells.last();
        let rest = cells.drop_last();
        assert(cells[cells.len() - 1] == last);
        assert(listed(cells, last as int));
        let cleared = mines.update(last as int, false);
        assert forall|index: int| listed(rest, index) <==> 0 <= index < cleared.len()
            && cleared[index] by {
            if listed(rest, index) {
                let j = choose|j: int| 0 <= j < rest.len() && #[trigger] rest[j] == index;
                assert(cells[j] == index);
                assert(listed(cells, index));
            }
            if 0 <= index < cleared.len() && cleared[index] {
                assert(listed(cells, index));
                let j = choose|j: int| 0 <= j < cells.len() && #[trigger] cells[j] == index;
                assert(rest[j] == index);
            }
        }
        lemma_listing_counts_mines(cleared, rest);
        lemma_count_update(mines, last as int, false, mines.len() as int);
    }
}

/// Whether `(x, y)` is a cell of the board that holds a mine.
pub open spec fn mine_at(width: int, height: int, mines: Seq<bool>, x: int, y: int) -> bool {
    in_bounds(width, height, x, y) && mines[cell_index(height, x, y)]
}

/// The number of mines among the eight cells around `(x, y)`.
pub open spec fn surrounding_mines(width: int, height: int, mines: Seq<bool>, x: int, y: int) -> int {
    indicator(mine_at(width, height, mines, x - 1, y - 1))
        + indicator(mine_at(width, height, mines, x, y - 1))
        + indicator(mine_at(width, height, mines, x + 1, y - 1))
        + indicator(mine_at(width, height, mines, x + 1, y))
        + indicator(mine_at(width, height, mines, x + 1, y + 1))
        + indicator(mine_at(width, height, mines, x, y + 1))
        + indicator(mine_at(width, height, mines, x - 1, y + 1))
        + indicator(mine_at(width, height, mines, x - 1, y))
}

/// There are between zero and eight mines around a cell.
pub proof fn lemma_surrounding_mines_bounds(width: int, height: int, mines: Seq<bool>, x: int, y: int)
    ensures
        0 <= surrounding_mines(width, height, mines, x, y) <= 8,
{
}

/// What is stored for the cell with the given index: -1 for a mine, else the
/// number of mines around it.
pub open spec fn neighbor_count(width: int, height: int, mines: Seq<bool>, index: int) -> int {
    if mines[index] {
        -1
    } else {
        surrounding_mines(width, height, mines, index / height, index % height)
    }
}

/// The stored counts of a whole layout.
pub open spec fn neighbor_counts(width: int, height: int, mines: Seq<bool>) -> Seq<i32> {
    Seq::new(mines.len(), |i: int| neighbor_count(width, height, mines, i) as i32)
}

/// Whether two cells, given by their indices, touch: they differ and lie at
/// most one column and one row apart.
pub open spec fn adjacent(height: int, a: int, b: int) -> bool {
    &&& a != b
    &&& -1 <= a / height - b / height <= 1
    &&& -1 <= a % height - b % height <= 1
}

} // verus!
