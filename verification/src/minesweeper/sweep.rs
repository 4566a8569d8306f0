//! Sweeping a cell: the fill that reveals what the sweep opens up.

use std::collections::VecDeque;
use vstd::prelude::*;
use crate::board::{
    MineState, adjacent, listed, count_hidden, hidden_flags, in_bounds,
    lemma_cell_index, lemma_cell_of_index, lemma_count_bounds, lemma_count_update,
    mine_at, surrounding_mines,
};
use crate::game_view::{
    GameStatus, GameView, lemma_flood_stops_at_numbered_cell, lemma_seed_is_flooded,
};
use crate::minesweeper::{MineGenerationState, Minesweeper};

verus! {

/// What a sweep did.
pub struct SweepReport {
    /// Whether the cell that was swept holds a mine.
    pub hit_mine: bool,
    /// The indices of the cells that the sweep revealed, in the order in
    /// which it revealed them, the swept cell first.
    pub revealed: Vec<usize>,
}

/// What is listed after one more cell is what was listed before, and it.
proof fn lemma_listed_push(revealed: Seq<usize>, added: usize, cell: int)
    ensures
        listed(revealed.push(added), cell) <==> listed(revealed, cell) || cell == added,
{
    let longer = revealed.push(added);
    if listed(revealed, cell) {
        let j = choose|j: int| 0 <= j < revealed.len() && #[trigger] revealed[j] == cell;
        assert(longer[j] == cell);
    }
    if cell == added {
        assert(longer[revealed.len() as int] == cell);
    }
    if listed(longer, cell) {
        let j = choose|j: int| 0 <= j < longer.len() && #[trigger] longer[j] == cell;
        if j < revealed.len() {
            assert(revealed[j] == cell);
        }
    }
}

/// The fill goes on: what leads to a cell leads to the cells that it leads
/// on to.
proof fn lemma_flood_goes_on(game: GameView, seed: int, from: int, to: int)
    requires
        game.flooded(seed, from),
        game.flood_step(from, to),
    ensures
        game.flooded(seed, to),
{
    let path = choose|path: Seq<int>|
        #![auto]
        game.flood_path(path) && path[0] == seed && path.last() == from;
    let longer = path.push(to);
    assert forall|i: int| 0 <= i < longer.len() - 1 implies game.flood_step(
        #[trigger] longer[i],
        longer[i + 1],
    ) by {
        if i < path.len() - 1 {
            assert(game.flood_step(path[i], path[i + 1]));
        }
    }
    assert(game.flood_path(longer) && longer[0] == seed && longer.last() == to);
}

/// Revealing a hidden cell leaves one hidden cell fewer.
proof fn lemma_reveal_counts(states: Seq<MineState>, index: int)
    requires
        0 <= index < states.len(),
        states[index] != MineState::Revealed,
    ensures
        count_hidden(states.update(index, MineState::Revealed)) == count_hidden(states) - 1,
{
    let after = states.update(index, MineState::Revealed);
    assert(hidden_flags(after) =~= hidden_flags(states).update(index, false));
    lemma_count_update(hidden_flags(states), index, false, states.len() as int);
}

/// The state of a fill that started at `seed` in the game `before`: the
/// cells in `revealed` have been revealed, which gave the marks `states`;
/// the first `done` of them have been gone on from, the others wait in
/// `queue`.
#[verifier::opaque]
spec fn flooding(
    before: GameView,
    seed: int,
    states: Seq<MineState>,
    revealed: Seq<usize>,
    queue: Seq<usize>,
    done: int,
) -> bool {
    &&& before.valid()
    &&& before.generated
    &&& 0 <= seed < before.cells()
    &&& before.states[seed] == MineState::Empty
    &&& states.len() == before.cells()
    &&& 0 <= done <= revealed.len()
    &&& revealed.len() > 0
    &&& revealed[0] == seed
    &&& queue == revealed.subrange(done, revealed.len() as int)
    &&& revealed.no_duplicates()
    &&& forall|j: int|
        0 <= j < revealed.len() ==> {
            &&& 0 <= #[trigger] revealed[j] < before.cells()
            &&& before.flooded(seed, revealed[j] as int)
            &&& before.states[revealed[j] as int] == MineState::Empty
            &&& (j > 0 ==> !before.mines[revealed[j] as int])
        }
    &&& forall|c: int|
        0 <= c < before.cells() ==> #[trigger] states[c] == if listed(revealed, c) {
            MineState::Revealed
        } else {
            before.states[c]
        }
    &&& forall|j: int, b: int|
        0 <= j < done && #[trigger] before.flood_step(revealed[j] as int, b) ==> listed(revealed, b)
    &&& count_hidden(states) + revealed.len() == count_hidden(before.states)
}

/// A fill that has gone on from every cell it revealed has revealed all
/// that the fill reaches.
proof fn lemma_fill_is_complete(
    before: GameView,
    seed: int,
    states: Seq<MineState>,
    revealed: Seq<usize>,
    path: Seq<int>,
)
    requires
        flooding(before, seed, states, revealed, Seq::empty(), revealed.len() as int),
        before.flood_path(path),
        path[0] == seed,
    ensures
        listed(revealed, path.last()),
    decreases path.len(),
{
    reveal(flooding);
    if path.len() == 1 {
        assert(revealed[0] == seed);
    } else {
        let shorter = path.drop_last();
        assert forall|i: int| 0 <= i < shorter.len() - 1 implies before.flood_step(
            #[trigger] shorter[i],
            shorter[i + 1],
        ) by {
            assert(before.flood_step(path[i], path[i + 1]));
        }
        lemma_fill_is_complete(before, seed, states, revealed, shorter);
        let from = shorter.last();
        let j = choose|j: int| 0 <= j < revealed.len() && #[trigger] revealed[j] == from;
        assert(before.flood_step(path[path.len() - 2], path[path.len() - 2 + 1]));
        assert(before.flood_step(revealed[j] as int, path.last()));
    }
}

/// Whether the fill has dealt with the cell `(x, y)`: if it is a cell of the
/// board that was empty, it has been revealed.
spec fn opened(before: GameView, revealed: Seq<usize>, x: int, y: int) -> bool {
    before.in_bounds(x, y) && before.states[before.index(x, y)] == MineState::Empty ==> listed(
        revealed,
        before.index(x, y),
    )
}

/// The cell that waits first is the next to go on from. It is a cell of the
/// board, and it is the swept cell or holds no mine.
proof fn lemma_fill_front(
    before: GameView,
    seed: int,
    states: Seq<MineState>,
    revealed: Seq<usize>,
    queue: Seq<usize>,
    done: int,
)
    requires
        flooding(before, seed, states, revealed, queue, done),
    ensures
        before.valid(),
        before.generated,
        0 <= seed < before.cells(),
        states.len() == before.cells(),
        0 <= done <= revealed.len() <= count_hidden(before.states),
        revealed.len() > 0,
        revealed[0] == seed,
        revealed.no_duplicates(),
        queue.len() == revealed.len() - done,
        queue.len() > 0 ==> queue[0] == revealed[done] && 0 <= revealed[done] < before.cells(),
        queue.len() > 0 && done > 0 ==> !before.mines[revealed[done] as int],
{
    reveal(flooding);
    lemma_count_bounds(hidden_flags(states), states.len() as int);
}

/// Once the cells around a cell without a mine around it have been dealt
/// with, the fill has gone on from that cell; from a cell with a mine around
/// it there is nowhere to go on to.
proof fn lemma_fill_next(
    before: GameView,
    seed: int,
    states: Seq<MineState>,
    revealed: Seq<usize>,
    queue: Seq<usize>,
    done: int,
)
    requires
        flooding(before, seed, states, revealed, queue, done),
        done < revealed.len(),
        before.counts[revealed[done] as int] == 0 ==> ({
            let x = revealed[done] as int / before.height;
            let y = revealed[done] as int % before.height;
            &&& opened(before, revealed, x - 1, y - 1)
            &&& opened(before, revealed, x, y - 1)
            &&& opened(before, revealed, x + 1, y - 1)
            &&& opened(before, revealed, x + 1, y)
            &&& opened(before, revealed, x + 1, y + 1)
            &&& opened(before, revealed, x, y + 1)
            &&& opened(before, revealed, x - 1, y + 1)
            &&& opened(before, revealed, x - 1, y)
        }),
    ensures
        flooding(before, seed, states, revealed, queue.subrange(1, queue.len() as int), done + 1),
{
    reveal(flooding);
    let from = revealed[done] as int;
    assert(queue.subrange(1, queue.len() as int) =~= revealed.subrange(
        done + 1,
        revealed.len() as int,
    ));
    assert forall|j: int, b: int|
        0 <= j < done + 1 && #[trigger] before.flood_step(revealed[j] as int, b) implies listed(
        revealed,
        b,
    ) by {
        if j == done {
            lemma_cell_of_index(before.width, before.height, b);
            lemma_cell_of_index(before.width, before.height, from);
        }
    }
}

/// A fill that has hit a mine has revealed the swept cell and no other, nor
/// would it have gone on.
proof fn lemma_fill_stopped(
    before: GameView,
    seed: int,
    states: Seq<MineState>,
    revealed: Seq<usize>,
    queue: Seq<usize>,
)
    requires
        flooding(before, seed, states, revealed, queue, 0),
        revealed.len() == 1,
        before.mines[seed],
    ensures
        states == before.swept_states(seed),
        forall|cell: int| listed(revealed, cell) <==> before.flooded(seed, cell),
{
    reveal(flooding);
    assert(before.counts[seed] == -1);
    assert forall|cell: int| listed(revealed, cell) <==> before.flooded(seed, cell) by {
        lemma_flood_stops_at_numbered_cell(before, seed, cell);
        if cell == seed {
            assert(revealed[0] == cell);
        }
    }
    assert(states =~= before.swept_states(seed));
}

/// A fill with nothing left to go on from has revealed what the fill
/// reaches and nothing else.
proof fn lemma_fill_ended(
    before: GameView,
    seed: int,
    states: Seq<MineState>,
    revealed: Seq<usize>,
    queue: Seq<usize>,
    done: int,
)
    requires
        flooding(before, seed, states, revealed, queue, done),
        queue.len() == 0,
    ensures
        states == before.swept_states(seed),
        forall|cell: int| listed(revealed, cell) <==> before.flooded(seed, cell),
{
    lemma_fill_front(before, seed, states, revealed, queue, done);
    assert(queue =~= Seq::<usize>::empty());
    assert forall|cell: int| listed(revealed, cell) <==> before.flooded(seed, cell) by {
        if before.flooded(seed, cell) {
            let path = choose|path: Seq<int>|
                #![auto]
                before.flood_path(path) && path[0] == seed && path.last() == cell;
            lemma_fill_is_complete(before, seed, states, revealed, path);
        }
        if listed(revealed, cell) {
            reveal(flooding);
        }
    }
    assert(states =~= before.swept_states(seed)) by {
        reveal(flooding);
    }
}

/// A fill begins with the swept cell revealed and waiting.
proof fn lemma_fill_begins(before: GameView, seed: int, first: usize)
    requires
        before.valid(),
        before.generated,
        0 <= seed < before.cells(),
        before.states[seed] == MineState::Empty,
        first == seed,
    ensures
        flooding(
            before,
            seed,
            before.states.update(seed, MineState::Revealed),
            seq![first],
            seq![first],
            0,
        ),
{
    reveal(flooding);
    lemma_seed_is_flooded(before, seed);
    lemma_reveal_counts(before.states, seed);
    let listing = seq![first];
    assert(listing =~= listing.subrange(0, 1));
    assert forall|c: int| listed(listing, c) <==> c == seed by {
        if c == seed {
            assert(listing[0] == c);
        }
    }
}

impl Minesweeper {
    /// Reveals the cell with the given index and notes it in `revealed`.
    fn reveal_tile(&mut self, index: usize, revealed: &mut Vec<usize>)
        requires
            index < old(self).mine_states.len(),
        ensures
            final(self).mine_states@ == old(self).mine_states@.update(
                index as int,
                MineState::Revealed,
            ),
            final(self)@ == (GameView { states: final(self)@.states, ..old(self)@ }),
            final(self).inv() == old(self).inv(),
            final(revealed)@ == old(revealed)@.push(index),
    {
        self.mine_states.set(index, MineState::Revealed);
        revealed.push(index);
    }

    /// Whether `(x, y)` is a cell of the board that is empty.
    fn is_in_bounds_and_unmarked(&self, x: i32, y: i32) -> (unmarked: bool)
        requires
            self.wf(),
        ensures
            unmarked == self@.can_sweep(x as int, y as int),
    {
        if self.index_helper.is_in_bounds(x, y) {
            proof {
                lemma_cell_index(self@.width, self@.height, x as int, y as int);
            }
            let index = self.index_helper.compute_index(x, y);
            self.mine_states[index] == MineState::Empty
        } else {
            false
        }
    }

    /// Reveals the cell `(x, y)` next to the cell that the fill is going on
    /// from, if it is a cell of the board that is empty, and lets it wait in
    /// `sweeps` for the fill to go on from it.
    fn push_if_unmarked(
        &mut self,
        sweeps: &mut VecDeque<usize>,
        revealed: &mut Vec<usize>,
        x: i32,
        y: i32,
        Ghost(before): Ghost<GameView>,
        Ghost(seed): Ghost<int>,
        Ghost(done): Ghost<int>,
    )
        requires
            old(self).inv(),
            old(self)@ == (GameView { states: old(self)@.states, ..before }),
            flooding(before, seed, old(self)@.states, old(revealed)@, old(sweeps)@, done),
            done < old(revealed)@.len(),
            before.counts[old(revealed)@[done] as int] == 0,
            !before.mines[old(revealed)@[done] as int],
            -1 <= x - old(revealed)@[done] as int / before.height <= 1,
            -1 <= y - old(revealed)@[done] as int % before.height <= 1,
            x != old(revealed)@[done] as int / before.height || y != old(revealed)@[done] as int
                % before.height,
        ensures
            final(self).inv(),
            final(self)@ == (GameView { states: final(self)@.states, ..before }),
            flooding(before, seed, final(self)@.states, final(revealed)@, final(sweeps)@, done),
            final(revealed)@.len() >= old(revealed)@.len(),
            final(revealed)@[done] == old(revealed)@[done],
            forall|c: int| listed(old(revealed)@, c) ==> listed(final(revealed)@, c),
            opened(before, final(revealed)@, x as int, y as int),
            final(revealed)@ == before.fill_visit(old(revealed)@, x as int, y as int),
    {
        let ghost from = revealed@[done] as int;
        proof {
            reveal(flooding);
            if before.in_bounds(x as int, y as int) {
                lemma_cell_index(before.width, before.height, x as int, y as int);
            }
        }
        if self.is_in_bounds_and_unmarked(x, y) {
            let index = self.index_helper.compute_index(x, y);
            proof {
                let states = self@.states;
                let listing = revealed@;
                assert(!listed(listing, index as int));
                assert(before.states[index as int] == MineState::Empty);
                lemma_cell_of_index(before.width, before.height, from);
                assert(adjacent(before.height, from, index as int));
                assert(before.flood_step(from, index as int));
                lemma_flood_goes_on(before, seed, from, index as int);
                lemma_reveal_counts(states, index as int);
                assert(mine_at(before.width, before.height, before.mines, x as int, y as int)
                    == before.mines[index as int]);
                assert(before.counts[from] == surrounding_mines(
                    before.width,
                    before.height,
                    before.mines,
                    from / before.height,
                    from % before.height,
                ));
                assert(!before.mines[index as int]);
                let longer = listing.push(index);
                assert forall|c: int| listed(longer, c) <==> listed(listing, c) || c == index by {
                    lemma_listed_push(listing, index, c);
                }
                assert(longer.no_duplicates()) by {
                    assert forall|i: int, j: int|
                        0 <= i < longer.len() && 0 <= j < longer.len() && i != j implies longer[i]
                        != longer[j] by {
                        if i == listing.len() {
                            assert(listing[j] == longer[j]);
                        } else if j == listing.len() {
                            assert(listing[i] == longer[i]);
                        }
                    }
                }
                assert(sweeps@.push(index) =~= longer.subrange(done, longer.len() as int));
                assert forall|j: int| 0 <= j < longer.len() implies {
                    &&& 0 <= #[trigger] longer[j] < before.cells()
                    &&& before.flooded(seed, longer[j] as int)
                    &&& before.states[longer[j] as int] == MineState::Empty
                    &&& (j > 0 ==> !before.mines[longer[j] as int])
                } by {
                    if j < listing.len() {
                        assert(longer[j] == listing[j]);
                    }
                }
                assert forall|j: int, b: int|
                    0 <= j < done && #[trigger] before.flood_step(longer[j] as int, b) implies listed(
                    longer,
                    b,
                ) by {
                    assert(longer[j] == listing[j]);
                    assert(before.flood_step(listing[j] as int, b));
                }
            }
            self.reveal_tile(index, revealed);
            sweeps.push_back(index);
        } else {
            proof {
                if before.in_bounds(x as int, y as int) && before.states[before.index(
                    x as int,
                    y as int,
                )] == MineState::Empty {
                    assert(listed(revealed@, before.index(x as int, y as int)));
                }
            }
        }
    }

    /// Sweeps the cell `(x, y)`. The first sweep of a game lays the mines,
    /// none of them on that cell. The cell is revealed; if it holds a mine,
    /// that is all. Otherwise, from every revealed cell that has no mine
    /// around it the fill goes on to the empty cells around that cell, in
    /// the order north-west, north, north-east, east, south-east, south,
    /// south-west, west, and reveals them, until nothing is left to go on
    /// from. A game in progress is lost by a sweep that hits a mine and won
    /// by one that leaves only the mines hidden. `None`, with nothing
    /// changed, where the board has no such cell or the cell is not empty.
    pub fn sweep(&mut self, x: i32, y: i32) -> (outcome: Option<SweepReport>)
        requires
            old(self).wf(),
        ensures
            final(self).wf(),
            match outcome {
                None => {
                    &&& !old(self)@.can_sweep(x as int, y as int)
                    &&& final(self)@ == old(self)@
                },
                Some(report) => ({
                    let seed = old(self)@.index(x as int, y as int);
                    let before = old(self)@.dealt(final(self)@.mines);
                    &&& old(self)@.can_sweep(x as int, y as int)
                    &&& !old(self)@.generated ==> old(self)@.fair_layout(final(self)@.mines, seed)
                    &&& !old(self)@.generated ==> !report.hit_mine
                    &&& final(self)@ == before.after_sweep(seed)
                    &&& report.hit_mine == final(self)@.mines[seed]
                    &&& report.revealed@.len() > 0
                    &&& report.revealed@[0] == seed
                    &&& report.revealed@ == before.fill_order(seed)
                    &&& report.revealed@.no_duplicates()
                    &&& forall|cell: int|
                        #![trigger listed(report.revealed@, cell)]
                        #![trigger before.flooded(seed, cell)]
                        listed(report.revealed@, cell) <==> before.flooded(seed, cell)
                }),
            },
    {
        if !self.is_in_bounds_and_unmarked(x, y) {
            return None;
        }
        proof {
            lemma_cell_index(self@.width, self@.height, x as int, y as int);
        }
        if self.mine_generation_state == MineGenerationState::Deferred {
            // The first cell that is swept must not hold a mine: the mines
            // are laid only now, and not where the player clicked.
            self.generate_mines(self.num_mines, x, y);
        }
        let ghost before = self@;
        let ghost seed = before.index(x as int, y as int);
        assert(before == old(self)@.dealt(before.mines));

        let mut hit_mine = false;
        let mut revealed: Vec<usize> = Vec::new();
        let mut sweeps: VecDeque<usize> = VecDeque::new();
        let first = self.index_helper.compute_index(x, y);
        sweeps.push_back(first);
        self.reveal_tile(first, &mut revealed);
        proof {
            lemma_fill_begins(before, seed, first);
            assert(revealed@ =~= seq![first]);
            assert(sweeps@ =~= seq![first]);
            assert(seq![first] == seq![seed as usize]);
        }
        let ghost mut done: int = 0;

        while !hit_mine && sweeps.len() > 0
            invariant
                self.inv(),
                self@ == (GameView { states: self@.states, ..before }),
                flooding(before, seed, self@.states, revealed@, sweeps@, done),
                hit_mine ==> before.mines[seed] && revealed@.len() == 1 && done == 0,
                !hit_mine && done > 0 ==> !before.mines[seed],
                done == 0 ==> revealed@.len() == 1,
                before.fill_from(revealed@, done) == before.fill_order(seed),
            decreases
                    if hit_mine {
                        0
                    } else {
                        1 + count_hidden(before.states) - done
                    },
        {
            proof {
                lemma_fill_front(before, seed, self@.states, revealed@, sweeps@, done);
            }
            let index = sweeps[0];
            let ghost listing = revealed@;
            proof {
                lemma_cell_of_index(before.width, before.height, index as int);
                lemma_count_bounds(hidden_flags(before.states), before.states.len() as int);
                assert(before.fill_from(listing, done) == if before.counts[index as int] == 0 {
                    before.fill_from(before.fill_around(listing, index as int), done + 1)
                } else {
                    before.fill_from(listing, done + 1)
                });
            }
            let current_x = self.index_helper.compute_x_from_index(index);
            let current_y = self.index_helper.compute_y_from_index(index);

            if self.mines[index] {
                // We hit a mine, game over
                hit_mine = true;
            } else {
                if self.neighbor_counts[index] == 0 {
                    self.push_if_unmarked(
                        &mut sweeps,
                        &mut revealed,
                        current_x - 1,
                        current_y - 1,
                        Ghost(before),
                        Ghost(seed),
                        Ghost(done),
                    );
                    self.push_if_unmarked(
                        &mut sweeps,
                        &mut revealed,
                        current_x,
                        current_y - 1,
                        Ghost(before),
                        Ghost(seed),
                        Ghost(done),
                    );
                    self.push_if_unmarked(
                        &mut sweeps,
                        &mut revealed,
                        current_x + 1,
                        current_y - 1,
                        Ghost(before),
                        Ghost(seed),
                        Ghost(done),
                    );
                    self.push_if_unmarked(
                        &mut sweeps,
                        &mut revealed,
                        current_x + 1,
                        current_y,
                        Ghost(before),
                        Ghost(seed),
                        Ghost(done),
                    );
                    self.push_if_unmarked(
                        &mut sweeps,
                        &mut revealed,
                        current_x + 1,
                        current_y + 1,
                        Ghost(before),
                        Ghost(seed),
                        Ghost(done),
                    );
                    self.push_if_unmarked(
                        &mut sweeps,
                        &mut revealed,
                        current_x,
                        current_y + 1,
                        Ghost(before),
                        Ghost(seed),
                        Ghost(done),
                    );
                    self.push_if_unmarked(
                        &mut sweeps,
                        &mut revealed,
                        current_x - 1,
                        current_y + 1,
                        Ghost(before),
                        Ghost(seed),
                        Ghost(done),
                    );
                    self.push_if_unmarked(
                        &mut sweeps,
                        &mut revealed,
                        current_x - 1,
                        current_y,
                        Ghost(before),
                        Ghost(seed),
                        Ghost(done),
                    );
                }
                proof {
                    assert(before.counts[index as int] == 0 ==> revealed@ == before.fill_around(
                        listing,
                        index as int,
                    ));
                    lemma_fill_next(before, seed, self@.states, revealed@, sweeps@, done);
                    lemma_fill_front(before, seed, self@.states, revealed@, sweeps@, done);
                }
                let _ = sweeps.pop_front();
                proof {
                    done = done + 1;
                }
            }
        }

        proof {
            lemma_fill_front(before, seed, self@.states, revealed@, sweeps@, done);
            if hit_mine {
                lemma_fill_stopped(before, seed, self@.states, revealed@, sweeps@);
                assert(before.counts[seed] == -1);
                assert(revealed@[0] as int == seed);
                assert(before.fill_from(revealed@, 0) == before.fill_from(revealed@, 1));
                assert(before.fill_from(revealed@, 1) == revealed@);
            } else {
                lemma_fill_ended(before, seed, self@.states, revealed@, sweeps@, done);
            }
        }
        match self.status {
            GameStatus::InProgress => {
                if hit_mine {
                    self.status = GameStatus::Lost;
                } else if self.check_if_won() {
                    self.status = GameStatus::Won;
                }
            },
            _ => {},
        }
        Some(SweepReport { hit_mine, revealed })
    }
}

} // verus!
