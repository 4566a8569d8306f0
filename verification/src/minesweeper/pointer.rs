//! What the pointer does to the game: which tile it selects, and what a
//! press on the selected tile brings about.

use std::collections::VecDeque;
use vstd::prelude::*;
use crate::animation::schedule_fits;
use crate::board::{MineState, lemma_cell_index, listed};
use crate::game_view::{GameStatus, GameView};
use crate::minesweeper::Minesweeper;
use crate::rings::{mines_per_ring, reveal_order};
use crate::visual_grid::TileCoordinate;

verus! {

/// What a move of the pointer asks of the display.
#[derive(Copy, Clone, PartialEq, Eq, Debug, Structural)]
pub enum PointerMoveOutcome {
    /// The selection stays as it is.
    Ignored,
    /// The given tile is to be selected, or none.
    Select(Option<TileCoordinate>),
}

/// What a press of the pointer did to the game, for the display to show.
pub enum PointerPressOutcome {
    /// Nothing changed.
    Ignored,
    /// A new game has begun on the same board: every tile is to be drawn
    /// empty and none selected.
    NewGame,
    /// The tile got the given mark.
    Marked { tile: TileCoordinate, state: MineState },
    /// The cells with the given indices were revealed, in this order, and
    /// the game goes on.
    Swept { revealed: Vec<usize> },
    /// The cells with the given indices were revealed and only mines are
    /// left hidden: the game is won, and no tile is to be selected.
    Won { revealed: Vec<usize> },
    /// The tile held a mine: the game is lost, and no tile is to be
    /// selected. The mines are to be shown in the order of `mine_indices`,
    /// ring by ring around the tile, `mines_per_ring` giving the number of
    /// mines on each ring that holds any.
    Lost { revealed: Vec<usize>, mine_indices: VecDeque<usize>, mines_per_ring: VecDeque<i32> },
}

impl Minesweeper {
    /// The tile to select when the pointer has moved over `tile`: that tile
    /// if it is a cell of the board that is not revealed, else none. While
    /// the game is over or the mines are being shown the selection stays.
    pub fn on_pointer_moved(&self, tile: Option<TileCoordinate>, animation_playing: bool) -> (outcome:
        PointerMoveOutcome)
        requires
            self.wf(),
        ensures
            outcome == if self@.status != GameStatus::InProgress || animation_playing {
                PointerMoveOutcome::Ignored
            } else {
                PointerMoveOutcome::Select(
                    match tile {
                        Some(tile) if self@.can_mark(tile.x as int, tile.y as int) => Some(tile),
                        _ => None,
                    },
                )
            },
    {
        if self.game_over() || animation_playing {
            return PointerMoveOutcome::Ignored;
        }
        let selected_tile = if let Some(tile) = tile {
            match self.mine_state(tile.x, tile.y) {
                Some(MineState::Revealed) => None,
                Some(_) => Some(tile),
                None => None,
            }
        } else {
            None
        };
        PointerMoveOutcome::Select(selected_tile)
    }

    /// A press of the pointer while `selection` is the selected tile.
    ///
    /// When the game is over, the press starts a new game on the same board,
    /// unless the mines are still being shown: then it does nothing. In a
    /// game in progress the press acts on the selected tile if there is one
    /// and it is not revealed: the right button or the eraser advances its
    /// mark, another button sweeps it if it is empty.
    pub fn on_pointer_pressed(
        &mut self,
        selection: Option<TileCoordinate>,
        is_right_button: bool,
        is_eraser: bool,
        animation_playing: bool,
    ) -> (outcome: PointerPressOutcome)
        requires
            old(self).wf(),
        ensures
            final(self).wf(),
            old(self)@.status != GameStatus::InProgress ==> if animation_playing {
                &&& outcome is Ignored
                &&& final(self)@ == old(self)@
            } else {
                &&& outcome is NewGame
                &&& final(self)@ == GameView::fresh(
                    old(self)@.width,
                    old(self)@.height,
                    old(self)@.num_mines,
                )
            },
            old(self)@.status == GameStatus::InProgress ==> match selection {
                Some(tile) if old(self)@.can_mark(tile.x as int, tile.y as int) => ({
                    let index = old(self)@.index(tile.x as int, tile.y as int);
                    if is_right_button || is_eraser {
                        &&& outcome == (PointerPressOutcome::Marked {
                            tile,
                            state: old(self)@.states[index].cycled(),
                        })
                        &&& final(self)@ == old(self)@.after_mark(index)
                    } else if old(self)@.states[index] == MineState::Empty {
                        let before = old(self)@.dealt(final(self)@.mines);
                        &&& !old(self)@.generated ==> old(self)@.fair_layout(
                            final(self)@.mines,
                            index,
                        )
                        &&& final(self)@ == before.after_sweep(index)
                        &&& match outcome {
                            PointerPressOutcome::Swept { revealed } => {
                                &&& final(self)@.status == GameStatus::InProgress
                                &&& swept(before, index, revealed@)
                            },
                            PointerPressOutcome::Won { revealed } => {
                                &&& final(self)@.status == GameStatus::Won
                                &&& swept(before, index, revealed@)
                            },
                            PointerPressOutcome::Lost { revealed, mine_indices, mines_per_ring: rings } => {
                                &&& final(self)@.status == GameStatus::Lost
                                &&& swept(before, index, revealed@)
                                &&& mine_indices@ == reveal_order(
                                    before.width,
                                    before.height,
                                    before.mines,
                                    tile.x as int,
                                    tile.y as int,
                                )
                                &&& rings@ == mines_per_ring(
                                    before.width,
                                    before.height,
                                    before.mines,
                                    tile.x as int,
                                    tile.y as int,
                                )
                                &&& schedule_fits(mine_indices@.len() as int, rings@)
                            },
                            _ => false,
                        }
                    } else {
                        &&& outcome is Ignored
                        &&& final(self)@ == old(self)@
                    }
                }),
                _ => {
                    &&& outcome is Ignored
                    &&& final(self)@ == old(self)@
                },
            },
    {
        if self.game_over() {
            if animation_playing {
                return PointerPressOutcome::Ignored;
            }
            return match self.new_game(self.game_board_width, self.game_board_height, self.num_mines) {
                Ok(()) => PointerPressOutcome::NewGame,
                Err(_) => PointerPressOutcome::Ignored,
            };
        }
        let current_selection = match selection {
            Some(tile) => tile,
            None => {
                return PointerPressOutcome::Ignored;
            },
        };
        proof {
            if self@.in_bounds(current_selection.x as int, current_selection.y as int) {
                lemma_cell_index(
                    self@.width,
                    self@.height,
                    current_selection.x as int,
                    current_selection.y as int,
                );
            }
        }
        if is_right_button || is_eraser {
            match self.cycle_mark(current_selection.x, current_selection.y) {
                Some(state) => PointerPressOutcome::Marked { tile: current_selection, state },
                None => PointerPressOutcome::Ignored,
            }
        } else {
            match self.sweep(current_selection.x, current_selection.y) {
                Some(report) => {
                    if report.hit_mine {
                        // We hit a mine: the mines are shown, ring by ring
                        // around the one that was hit.
                        match self.compute_mine_reveal_order(current_selection.x, current_selection.y) {
                            Some((mine_indices, mines_per_ring)) => PointerPressOutcome::Lost {
                                revealed: report.revealed,
                                mine_indices,
                                mines_per_ring,
                            },
                            None => PointerPressOutcome::Ignored,
                        }
                    } else if self.game_over() {
                        PointerPressOutcome::Won { revealed: report.revealed }
                    } else {
                        PointerPressOutcome::Swept { revealed: report.revealed }
                    }
                },
                None => PointerPressOutcome::Ignored,
            }
        }
    }
}

/// Whether `revealed` lists what a sweep at `seed` reveals in the game
/// `before`: each cell that the fill reaches once, in the order of the fill,
/// the swept cell first.
pub open spec fn swept(before: GameView, seed: int, revealed: Seq<usize>) -> bool {
    &&& revealed == before.fill_order(seed)
    &&& revealed.len() > 0
    &&& revealed[0] == seed
    &&& revealed.no_duplicates()
    &&& forall|cell: int|
        #![trigger listed(revealed, cell)]
        #![trigger before.flooded(seed, cell)]
        listed(revealed, cell) <==> before.flooded(seed, cell)
}

} // verus!
