//! The order in which the mines are shown after a loss.

use std::collections::VecDeque;
use vstd::prelude::*;
use crate::animation::{lemma_sum_agree, schedule_fits, sum_before};
use crate::board::{cell_index, in_bounds, indicator, lemma_cell_index, listed, mine_at};
use crate::minesweeper::{MineGenerationState, Minesweeper};
use crate::rings::{
    farthest_ring, lemma_reveal_order_lists_each_mine_once, mine_index_at, mines_per_ring,
    mines_within, reveal_order, ring, ring_cell, ring_len, ring_mines, ring_totals,
};

verus! {

/// How many of the numbers from `first` to `last` lie from 0 up to, but not
/// including, `limit`.
spec fn covered(first: int, last: int, limit: int) -> int {
    let low = if first >= 0 {
        first
    } else {
        0
    };
    let high = if last <= limit - 1 {
        last
    } else {
        limit - 1
    };
    if high >= low {
        high - low + 1
    } else {
        0
    }
}

/// How many of the `limit` columns, or rows, lie at a distance below `k`
/// from the one numbered `centre`.
spec fn span(centre: int, limit: int, k: int) -> int {
    covered(centre - k + 1, centre + k - 1, limit)
}

/// How many cells of the board lie on the rings before ring `k`.
spec fn cells_within(width: int, height: int, cx: int, cy: int, k: int) -> int {
    span(cx, width, k) * span(cy, height, k)
}

/// How many cells of the board lie on the top edge of ring `k`.
spec fn top_cells(width: int, height: int, cx: int, cy: int, k: int) -> int {
    if 0 <= cy - k {
        covered(cx - k, cx + k, width)
    } else {
        0
    }
}

/// How many cells of the board lie on the right edge of ring `k`, below its
/// top corner.
spec fn right_cells(width: int, height: int, cx: int, cy: int, k: int) -> int {
    if cx + k < width {
        covered(cy - k + 1, cy + k, height)
    } else {
        0
    }
}

/// How many cells of the board lie on the bottom edge of ring `k`, left of
/// its right corner.
spec fn bottom_cells(width: int, height: int, cx: int, cy: int, k: int) -> int {
    if cy + k < height {
        covered(cx - k, cx + k - 1, width)
    } else {
        0
    }
}

/// How many cells of the board lie on the left edge of ring `k`, between its
/// corners.
spec fn left_cells(width: int, height: int, cx: int, cy: int, k: int) -> int {
    if 0 <= cx - k {
        covered(cy - k + 1, cy + k - 1, height)
    } else {
        0
    }
}

/// Twice, once or no times a number.
proof fn lemma_small_multiple(times: int, value: int)
    requires
        0 <= times <= 2,
    ensures
        times * value == if times == 0 {
            0
        } else if times == 1 {
            value
        } else {
            value + value
        },
{
    assert(times * value == if times == 0 {
        0
    } else if times == 1 {
        value
    } else {
        value + value
    }) by (nonlinear_arith)
        requires
            0 <= times <= 2,
    ;
}

/// The four edges of ring `k` hold the cells of the board that the rings up
/// to `k` hold and the rings before `k` do not.
proof fn lemma_ring_fills_square(width: int, height: int, cx: int, cy: int, k: int)
    requires
        in_bounds(width, height, cx, cy),
        0 <= k,
    ensures
        cells_within(width, height, cx, cy, k + 1) == cells_within(width, height, cx, cy, k)
            + top_cells(width, height, cx, cy, k) + right_cells(width, height, cx, cy, k)
            + bottom_cells(width, height, cx, cy, k) + left_cells(width, height, cx, cy, k),
{
    let across = span(cx, width, k);
    let down = span(cy, height, k);
    let more_across = indicator(0 <= cx - k) + indicator(cx + k < width);
    let more_down = indicator(0 <= cy - k) + indicator(cy + k < height);
    if k == 0 {
        assert(across == 0 && down == 0);
        assert(span(cx, width, 1) == 1 && span(cy, height, 1) == 1);
        assert(cells_within(width, height, cx, cy, 0) == 0) by (nonlinear_arith)
            requires
                cells_within(width, height, cx, cy, 0) == across * down,
                across == 0,
        ;
        assert(cells_within(width, height, cx, cy, 1) == 1) by (nonlinear_arith)
            requires
                cells_within(width, height, cx, cy, 1) == span(cx, width, 1) * span(cy, height, 1),
                span(cx, width, 1) == 1,
                span(cy, height, 1) == 1,
        ;
    } else {
        assert(span(cx, width, k + 1) == across + more_across);
        assert(span(cy, height, k + 1) == down + more_down);
        assert((across + more_across) * (down + more_down) == across * down + more_across * down
            + more_down * (across + more_across)) by (nonlinear_arith);
        lemma_small_multiple(more_across, down);
        lemma_small_multiple(more_down, across + more_across);
    }
}

/// No more cells lie within the rings than the board has; once the rings
/// number as many as the board has columns and rows, all of them do; and as
/// long as the farthest ring is not done, some do not.
proof fn lemma_cells_within_bounds(width: int, height: int, cx: int, cy: int, k: int)
    requires
        in_bounds(width, height, cx, cy),
        0 <= k,
    ensures
        0 <= cells_within(width, height, cx, cy, k) <= width * height,
        k > farthest_ring(width, height, cx, cy) <==> cells_within(width, height, cx, cy, k)
            == width * height,
{
    let across = span(cx, width, k);
    let down = span(cy, height, k);
    assert(0 <= across <= width && 0 <= down <= height);
    assert(0 <= across * down <= width * height) by (nonlinear_arith)
        requires
            0 <= across <= width,
            0 <= down <= height,
    ;
    if across == width && down == height {
        assert(k > farthest_ring(width, height, cx, cy));
    } else {
        assert(across * down < width * height) by (nonlinear_arith)
            requires
                0 <= across <= width,
                0 <= down <= height,
                across < width || down < height,
                0 < width,
                0 < height,
        ;
        assert(k <= farthest_ring(width, height, cx, cy));
    }
}

/// What a walk along ring `k` has gathered when it has passed the first `i`
/// positions: `indices` holds the mines of the rings before and those passed
/// on this ring, and `in_ring` counts the latter.
spec fn walked(
    width: int,
    height: int,
    mines: Seq<bool>,
    cx: int,
    cy: int,
    k: int,
    i: int,
    indices: Seq<usize>,
    in_ring: int,
) -> bool {
    let passed = ring(cx, cy, k).take(i).filter_map(mine_index_at(width, height, mines));
    &&& 0 <= i <= ring_len(k)
    &&& indices == mines_within(width, height, mines, cx, cy, k) + passed
    &&& in_ring == passed.len()
}

/// Passing one more position of the ring adds its mine, if it has one.
proof fn lemma_walk_on(
    width: int,
    height: int,
    mines: Seq<bool>,
    cx: int,
    cy: int,
    k: int,
    i: int,
    indices: Seq<usize>,
    in_ring: int,
)
    requires
        walked(width, height, mines, cx, cy, k, i, indices, in_ring),
        i < ring_len(k),
    ensures
        ({
            let (x, y) = ring_cell(cx, cy, k, i);
            if mine_at(width, height, mines, x, y) {
                walked(
                    width,
                    height,
                    mines,
                    cx,
                    cy,
                    k,
                    i + 1,
                    indices.push(cell_index(height, x, y) as usize),
                    in_ring + 1,
                )
            } else {
                walked(width, height, mines, cx, cy, k, i + 1, indices, in_ring)
            }
        }),
{
    let whole = ring(cx, cy, k);
    let pick = mine_index_at(width, height, mines);
    let before = mines_within(width, height, mines, cx, cy, k);
    whole.lemma_filter_map_take_succ(pick, i);
    let (x, y) = ring_cell(cx, cy, k, i);
    assert(whole[i] == (x, y));
    if mine_at(width, height, mines, x, y) {
        let index = cell_index(height, x, y) as usize;
        assert(pick(whole[i]) == Some(index));
        assert(indices.push(index) =~= before + (whole.take(i).filter_map(pick) + seq![index]));
    } else {
        assert(pick(whole[i]) == None::<usize>);
        assert(whole.take(i + 1).filter_map(pick) =~= whole.take(i).filter_map(pick));
    }
}

/// A ring that has been walked to its end adds its mines to those of the
/// rings before it, and its total to theirs if it holds a mine.
proof fn lemma_ring_done(
    width: int,
    height: int,
    mines: Seq<bool>,
    cx: int,
    cy: int,
    k: int,
    indices: Seq<usize>,
    in_ring: i32,
    totals: Seq<i32>,
)
    requires
        0 <= k,
        walked(width, height, mines, cx, cy, k, ring_len(k), indices, in_ring as int),
        totals == ring_totals(width, height, mines, cx, cy, k).filter(|total: i32| total > 0),
    ensures
        indices == mines_within(width, height, mines, cx, cy, k + 1),
        in_ring == ring_mines(width, height, mines, cx, cy, k).len(),
        ring_totals(width, height, mines, cx, cy, k + 1).filter(|total: i32| total > 0) == if in_ring
            > 0 {
            totals.push(in_ring)
        } else {
            totals
        },
{
    let whole = ring(cx, cy, k);
    assert(whole.take(ring_len(k)) =~= whole);
    let before = ring_totals(width, height, mines, cx, cy, k);
    let after = ring_totals(width, height, mines, cx, cy, k + 1);
    assert(after =~= before.push(in_ring));
    before.lemma_filter_push(in_ring, |total: i32| total > 0);
}

impl Minesweeper {
    /// Whether `(x, y)` is a cell of the board, for coordinates that a ring
    /// may reach beyond it.
    fn is_on_board(&self, x: i64, y: i64) -> (inside: bool)
        ensures
            inside == self@.in_bounds(x as int, y as int),
    {
        0 <= x && x < self.game_board_width as i64 && 0 <= y && y < self.game_board_height as i64
    }

    /// Visits the position `(x, y)` of a ring: counts it if it is a cell of
    /// the board, and notes its index if it holds a mine.
    fn check_tile_for_mine_for_animation(
        &self,
        x: i64,
        y: i64,
        mine_indices: &mut VecDeque<usize>,
        visited_tiles: &mut i32,
        mines_in_ring: &mut i32,
    )
        requires
            self.wf(),
            self@.generated,
            0 <= *old(mines_in_ring) <= *old(visited_tiles),
            self@.in_bounds(x as int, y as int) ==> *old(visited_tiles) < i32::MAX,
        ensures
            *final(visited_tiles) == *old(visited_tiles) + indicator(
                self@.in_bounds(x as int, y as int),
            ),
            0 <= *final(mines_in_ring) <= *final(visited_tiles),
            if mine_at(self@.width, self@.height, self@.mines, x as int, y as int) {
                &&& final(mine_indices)@ == old(mine_indices)@.push(
                    cell_index(self@.height, x as int, y as int) as usize,
                )
                &&& *final(mines_in_ring) == *old(mines_in_ring) + 1
            } else {
                &&& final(mine_indices)@ == old(mine_indices)@
                &&& *final(mines_in_ring) == *old(mines_in_ring)
            },
    {
        if self.is_on_board(x, y) {
            proof {
                lemma_cell_index(self@.width, self@.height, x as int, y as int);
            }
            let tile_index = self.index_helper.compute_index(x as i32, y as i32);
            if self.mines[tile_index] {
                mine_indices.push_back(tile_index);
                *mines_in_ring += 1;
            }
            *visited_tiles += 1;
        }
    }

    /// The mines of the board in the order in which they are shown after a
    /// loss at `(center_x, center_y)`, and how many of them lie on each ring
    /// around that cell that holds any. The rings are walked outwards from
    /// the centre until every cell of the board has been visited. `None`
    /// before the mines are laid and where the board has no such cell.
    pub fn compute_mine_reveal_order(&self, center_x: i32, center_y: i32) -> (order: Option<
        (VecDeque<usize>, VecDeque<i32>),
    >)
        requires
            self.wf(),
        ensures
            match order {
                Some((mine_indices, rings)) => {
                    &&& self@.generated
                    &&& self@.in_bounds(center_x as int, center_y as int)
                    &&& mine_indices@ == reveal_order(
                        self@.width,
                        self@.height,
                        self@.mines,
                        center_x as int,
                        center_y as int,
                    )
                    &&& rings@ == mines_per_ring(
                        self@.width,
                        self@.height,
                        self@.mines,
                        center_x as int,
                        center_y as int,
                    )
                    &&& schedule_fits(mine_indices@.len() as int, rings@)
                    &&& mine_indices@.len() == self@.num_mines
                    &&& mine_indices@.no_duplicates()
                    &&& forall|index: int|
                        #![trigger listed(mine_indices@, index)]
                        #![trigger self@.mines[index]]
                        listed(mine_indices@, index) <==> 0 <= index < self@.mines.len()
                            && self@.mines[index]
                },
                None => !(self@.generated && self@.in_bounds(center_x as int, center_y as int)),
            },
    {
        if self.mine_generation_state != MineGenerationState::Generated
            || !self.index_helper.is_in_bounds(center_x, center_y) {
            return None;
        }
        let ghost width = self@.width;
        let ghost height = self@.height;
        let ghost mines = self@.mines;
        let ghost cx = center_x as int;
        let ghost cy = center_y as int;
        let total: i32 = self.game_board_width * self.game_board_height;
        let center_x: i64 = center_x as i64;
        let center_y: i64 = center_y as i64;
        let mut mine_indices: VecDeque<usize> = VecDeque::new();
        let mut mines_per_ring: VecDeque<i32> = VecDeque::new();
        let mut visited_tiles: i32 = 0;
        let mut ring_level: i64 = 0;
        proof {
            lemma_cells_within_bounds(width, height, cx, cy, 0);
            assert(cells_within(width, height, cx, cy, 0) == 0) by (nonlinear_arith)
                requires
                    cells_within(width, height, cx, cy, 0) == span(cx, width, 0) * span(
                        cy,
                        height,
                        0,
                    ),
                    span(cx, width, 0) == 0,
            ;
            assert(ring_totals(width, height, mines, cx, cy, 0).filter(|total: i32| total > 0)
                =~= Seq::<i32>::empty());
        }
        while visited_tiles < total
            invariant
                self.wf(),
                self@.generated,
                width == self@.width,
                height == self@.height,
                mines == self@.mines,
                cx == center_x,
                cy == center_y,
                total == width * height,
                in_bounds(width, height, cx, cy),
                0 <= ring_level <= farthest_ring(width, height, cx, cy) + 1,
                visited_tiles == cells_within(width, height, cx, cy, ring_level as int),
                mine_indices@ == mines_within(width, height, mines, cx, cy, ring_level as int),
                mines_per_ring@ == ring_totals(width, height, mines, cx, cy, ring_level as int).filter(
                    |total: i32| total > 0,
                ),
                forall|ring: int| 0 <= ring < mines_per_ring@.len() ==> mines_per_ring@[ring] > 0,
                sum_before(mines_per_ring@, mines_per_ring@.len() as int) == mine_indices@.len(),
                mines_per_ring@.len() <= ring_level,
            decreases farthest_ring(width, height, cx, cy) + 1 - ring_level,
        {
            let ghost found_before = mine_indices@.len();
            let ghost k = ring_level as int;
            let ghost start = visited_tiles as int;
            proof {
                lemma_cells_within_bounds(width, height, cx, cy, k);
                lemma_cells_within_bounds(width, height, cx, cy, k + 1);
                lemma_ring_fills_square(width, height, cx, cy, k);
                assert(ring(cx, cy, k).take(0).filter_map(mine_index_at(width, height, mines))
                    =~= Seq::<usize>::empty());
                assert(mine_indices@ =~= mines_within(width, height, mines, cx, cy, k)
                    + Seq::<usize>::empty());
            }
            let mut current_mines_in_ring: i32 = 0;

            // The top side, from left to right.
            let mut x: i64 = center_x - ring_level;
            while x <= center_x + ring_level
                invariant
                    self.wf(),
                    self@.generated,
                    width == self@.width,
                    height == self@.height,
                    mines == self@.mines,
                    cx == center_x,
                    cy == center_y,
                    k == ring_level,
                    in_bounds(width, height, cx, cy),
                    0 <= k <= farthest_ring(width, height, cx, cy),
                    0 <= start,
                    width * height <= i32::MAX,
                    start + top_cells(width, height, cx, cy, k) + right_cells(width, height, cx, cy, k)
                        + bottom_cells(width, height, cx, cy, k) + left_cells(width, height, cx, cy, k)
                        <= width * height,
                    cx - k <= x <= cx + k + 1,
                    walked(
                        width,
                        height,
                        mines,
                        cx,
                        cy,
                        k,
                        x - (cx - k),
                        mine_indices@,
                        current_mines_in_ring as int,
                    ),
                    0 <= current_mines_in_ring <= visited_tiles - start,
                    visited_tiles == start + if 0 <= cy - k {
                        covered(cx - k, x - 1, width)
                    } else {
                        0
                    },
                decreases cx + k + 1 - x,
            {
                proof {
                    lemma_walk_on(
                        width,
                        height,
                        mines,
                        cx,
                        cy,
                        k,
                        x - (cx - k),
                        mine_indices@,
                        current_mines_in_ring as int,
                    );
                }
                self.check_tile_for_mine_for_animation(
                    x,
                    center_y - ring_level,
                    &mut mine_indices,
                    &mut visited_tiles,
                    &mut current_mines_in_ring,
                );
                x += 1;
            }

            // The right side, downwards from below the corner.
            let mut y: i64 = center_y - ring_level + 1;
            while y <= center_y + ring_level
                invariant
                    self.wf(),
                    self@.generated,
                    width == self@.width,
                    height == self@.height,
                    mines == self@.mines,
                    cx == center_x,
                    cy == center_y,
                    k == ring_level,
                    in_bounds(width, height, cx, cy),
                    0 <= k <= farthest_ring(width, height, cx, cy),
                    0 <= start,
                    width * height <= i32::MAX,
                    start + top_cells(width, height, cx, cy, k) + right_cells(width, height, cx, cy, k)
                        + bottom_cells(width, height, cx, cy, k) + left_cells(width, height, cx, cy, k)
                        <= width * height,
                    cy - k + 1 <= y <= cy + k + 1,
                    walked(
                        width,
                        height,
                        mines,
                        cx,
                        cy,
                        k,
                        2 * k + (y - (cy - k)),
                        mine_indices@,
                        current_mines_in_ring as int,
                    ),
                    0 <= current_mines_in_ring <= visited_tiles - start,
                    visited_tiles == start + top_cells(width, height, cx, cy, k) + if cx + k < width {
                        covered(cy - k + 1, y - 1, height)
                    } else {
                        0
                    },
                decreases cy + k + 1 - y,
            {
                proof {
                    lemma_walk_on(
                        width,
                        height,
                        mines,
                        cx,
                        cy,
                        k,
                        2 * k + (y - (cy - k)),
                        mine_indices@,
                        current_mines_in_ring as int,
                    );
                }
                self.check_tile_for_mine_for_animation(
                    center_x + ring_level,
                    y,
                    &mut mine_indices,
                    &mut visited_tiles,
                    &mut current_mines_in_ring,
                );
                y += 1;
            }

            // The bottom side, from left to right up to the corner.
            let mut x: i64 = center_x - ring_level;
            while x < center_x + ring_level
                invariant
                    self.wf(),
                    self@.generated,
                    width == self@.width,
                    height == self@.height,
                    mines == self@.mines,
                    cx == center_x,
                    cy == center_y,
                    k == ring_level,
                    in_bounds(width, height, cx, cy),
                    0 <= k <= farthest_ring(width, height, cx, cy),
                    0 <= start,
                    width * height <= i32::MAX,
                    start + top_cells(width, height, cx, cy, k) + right_cells(width, height, cx, cy, k)
                        + bottom_cells(width, height, cx, cy, k) + left_cells(width, height, cx, cy, k)
                        <= width * height,
                    cx - k <= x <= cx + k,
                    walked(
                        width,
                        height,
                        mines,
                        cx,
                        cy,
                        k,
                        4 * k + 1 + (x - (cx - k)),
                        mine_indices@,
                        current_mines_in_ring as int,
                    ),
                    0 <= current_mines_in_ring <= visited_tiles - start,
                    visited_tiles == start + top_cells(width, height, cx, cy, k) + right_cells(
                        width,
                        height,
                        cx,
                        cy,
                        k,
                    ) + if cy + k < height {
                        covered(cx - k, x - 1, width)
                    } else {
                        0
                    },
                decreases cx + k - x,
            {
                proof {
                    lemma_walk_on(
                        width,
                        height,
                        mines,
                        cx,
                        cy,
                        k,
                        4 * k + 1 + (x - (cx - k)),
                        mine_indices@,
                        current_mines_in_ring as int,
                    );
                }
                self.check_tile_for_mine_for_animation(
                    x,
                    center_y + ring_level,
                    &mut mine_indices,
                    &mut visited_tiles,
                    &mut current_mines_in_ring,
                );
                x += 1;
            }

            // The left side, downwards between the corners.
            let mut y: i64 = center_y - ring_level + 1;
            while y < center_y + ring_level
                invariant
                    self.wf(),
                    self@.generated,
                    width == self@.width,
                    height == self@.height,
                    mines == self@.mines,
                    cx == center_x,
                    cy == center_y,
                    k == ring_level,
                    in_bounds(width, height, cx, cy),
                    0 <= k <= farthest_ring(width, height, cx, cy),
                    0 <= start,
                    width * height <= i32::MAX,
                    start + top_cells(width, height, cx, cy, k) + right_cells(width, height, cx, cy, k)
                        + bottom_cells(width, height, cx, cy, k) + left_cells(width, height, cx, cy, k)
                        <= width * height,
                    cy - k + 1 <= y,
                    y <= cy + k || k == 0,
                    walked(
                        width,
                        height,
                        mines,
                        cx,
                        cy,
                        k,
                        6 * k + (y - (cy - k)),
                        mine_indices@,
                        current_mines_in_ring as int,
                    ),
                    0 <= current_mines_in_ring <= visited_tiles - start,
                    visited_tiles == start + top_cells(width, height, cx, cy, k) + right_cells(
                        width,
                        height,
                        cx,
                        cy,
                        k,
                    ) + bottom_cells(width, height, cx, cy, k) + if 0 <= cx - k {
                        covered(cy - k + 1, y - 1, height)
                    } else {
                        0
                    },
                decreases cy + k - y,
            {
                proof {
                    lemma_walk_on(
                        width,
                        height,
                        mines,
                        cx,
                        cy,
                        k,
                        6 * k + (y - (cy - k)),
                        mine_indices@,
                        current_mines_in_ring as int,
                    );
                }
                self.check_tile_for_mine_for_animation(
                    center_x - ring_level,
                    y,
                    &mut mine_indices,
                    &mut visited_tiles,
                    &mut current_mines_in_ring,
                );
                y += 1;
            }

            proof {
                lemma_ring_done(
                    width,
                    height,
                    mines,
                    cx,
                    cy,
                    k,
                    mine_indices@,
                    current_mines_in_ring,
                    mines_per_ring@,
                );
            }
            assert(mine_indices@.len() == found_before + current_mines_in_ring);
            if current_mines_in_ring > 0 {
                proof {
                    lemma_sum_agree(
                        mines_per_ring@,
                        mines_per_ring@.push(current_mines_in_ring),
                        mines_per_ring@.len() as int,
                    );
                }
                mines_per_ring.push_back(current_mines_in_ring);
            }
            ring_level += 1;
        }
        proof {
            lemma_cells_within_bounds(width, height, cx, cy, ring_level as int);
            lemma_reveal_order_lists_each_mine_once(width, height, mines, cx, cy);
        }
        Some((mine_indices, mines_per_ring))
    }
}

} // verus!
