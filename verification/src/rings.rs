//! The order in which the cells of a board are visited in square rings
//! around a centre, and the mines in that order.
//!
//! Ring 0 is the centre itself. Ring `k` is the border of the square of side
//! `2k + 1` around the centre: the cells at distance `k` from it, where the
//! distance of two cells is the larger of their distances in columns and in
//! rows. A ring is walked along its top edge from left to right, then down
//! its right edge, then along its bottom edge from left to right, then down
//! its left edge; no corner is visited twice.

use vstd::prelude::*;
use vstd::seq_lib::lemma_no_dup_in_concat;
use crate::board::{
    cell_index, count_mines, in_bounds, lemma_cell_index, lemma_cell_of_index,
    lemma_listing_counts_mines, listed, mine_at,
};

verus! {

/// The distance of two numbers.
pub open spec fn gap(a: int, b: int) -> int {
    if a <= b {
        b - a
    } else {
        a - b
    }
}

/// The distance of the cell `(x, y)` from the centre `(cx, cy)`: the larger
/// of the distances in columns and in rows.
pub open spec fn ring_distance(cx: int, cy: int, x: int, y: int) -> int {
    if gap(cx, x) >= gap(cy, y) {
        gap(cx, x)
    } else {
        gap(cy, y)
    }
}

/// The number of positions on ring `k`.
pub open spec fn ring_len(k: int) -> int {
    if k == 0 {
        1
    } else {
        8 * k
    }
}

/// The position `i` of ring `k` around `(cx, cy)`, in the order of the walk.
/// Positions may lie off the board.
pub open spec fn ring_cell(cx: int, cy: int, k: int, i: int) -> (int, int) {
    if i <= 2 * k {
        (cx - k + i, cy - k)
    } else if i <= 4 * k {
        (cx + k, cy - k + (i - 2 * k))
    } else if i <= 6 * k {
        (cx - k + (i - 4 * k - 1), cy + k)
    } else {
        (cx - k, cy - k + (i - 6 * k))
    }
}

/// Ring `k` around `(cx, cy)` as the sequence of its positions.
pub open spec fn ring(cx: int, cy: int, k: int) -> Seq<(int, int)> {
    Seq::new(ring_len(k) as nat, |i: int| ring_cell(cx, cy, k, i))
}

/// The last ring that holds a cell of the board: the distance from the
/// centre to the farthest cell.
pub open spec fn farthest_ring(width: int, height: int, cx: int, cy: int) -> int {
    let across = if cx >= width - 1 - cx {
        cx
    } else {
        width - 1 - cx
    };
    let down = if cy >= height - 1 - cy {
        cy
    } else {
        height - 1 - cy
    };
    if across >= down {
        across
    } else {
        down
    }
}

/// Maps a position to the index of its cell if it is a cell of the board
/// that holds a mine.
pub open spec fn mine_index_at(width: int, height: int, mines: Seq<bool>) -> spec_fn((int, int)) -> Option<
    usize,
> {
    |cell: (int, int)|
        if mine_at(width, height, mines, cell.0, cell.1) {
            Some(cell_index(height, cell.0, cell.1) as usize)
        } else {
            None
        }
}

/// The indices of the mines on ring `k`, in the order of the walk.
pub open spec fn ring_mines(
    width: int,
    height: int,
    mines: Seq<bool>,
    cx: int,
    cy: int,
    k: int,
) -> Seq<usize> {
    ring(cx, cy, k).filter_map(mine_index_at(width, height, mines))
}

/// The indices of the mines on the first `rings` rings, ring after ring.
pub open spec fn mines_within(
    width: int,
    height: int,
    mines: Seq<bool>,
    cx: int,
    cy: int,
    rings: int,
) -> Seq<usize>
    decreases rings,
{
    if rings <= 0 {
        Seq::empty()
    } else {
        mines_within(width, height, mines, cx, cy, rings - 1) + ring_mines(
            width,
            height,
            mines,
            cx,
            cy,
            rings - 1,
        )
    }
}

/// The number of mines on each of the first `rings` rings.
pub open spec fn ring_totals(
    width: int,
    height: int,
    mines: Seq<bool>,
    cx: int,
    cy: int,
    rings: int,
) -> Seq<i32> {
    Seq::new(
        rings as nat,
        |k: int| ring_mines(width, height, mines, cx, cy, k).len() as i32,
    )
}

/// All mines of the board in the order in which the rings around `(cx, cy)`
/// reach them.
pub open spec fn reveal_order(width: int, height: int, mines: Seq<bool>, cx: int, cy: int) -> Seq<
    usize,
> {
    mines_within(width, height, mines, cx, cy, farthest_ring(width, height, cx, cy) + 1)
}

/// The number of mines on each ring that holds a cell of the board, without
/// the rings that hold no mine.
pub open spec fn mines_per_ring(width: int, height: int, mines: Seq<bool>, cx: int, cy: int) -> Seq<
    i32,
> {
    ring_totals(width, height, mines, cx, cy, farthest_ring(width, height, cx, cy) + 1).filter(
        |total: i32| total > 0,
    )
}

/// Every position of ring `k` lies at distance exactly `k` from the centre.
pub proof fn lemma_ring_keeps_distance(cx: int, cy: int, k: int, i: int)
    requires
        0 <= k,
        0 <= i < ring_len(k),
    ensures
        ring_distance(cx, cy, ring_cell(cx, cy, k, i).0, ring_cell(cx, cy, k, i).1) == k,
{
}

/// No two positions of a ring are the same cell.
pub proof fn lemma_ring_positions_differ(cx: int, cy: int, k: int, i: int, j: int)
    requires
        0 <= k,
        0 <= i < ring_len(k),
        0 <= j < ring_len(k),
        ring_cell(cx, cy, k, i) == ring_cell(cx, cy, k, j),
    ensures
        i == j,
{
}

/// The position on its ring of the cell `(x, y)`.
pub open spec fn ring_position(cx: int, cy: int, x: int, y: int) -> int {
    let k = ring_distance(cx, cy, x, y);
    if y == cy - k {
        x - (cx - k)
    } else if x == cx + k {
        2 * k + (y - (cy - k))
    } else if y == cy + k {
        4 * k + 1 + (x - (cx - k))
    } else {
        6 * k + (y - (cy - k))
    }
}

/// Every cell is a position of the ring at its distance from the centre.
pub proof fn lemma_cell_is_on_its_ring(cx: int, cy: int, x: int, y: int)
    ensures
        0 <= ring_position(cx, cy, x, y) < ring_len(ring_distance(cx, cy, x, y)),
        ring_cell(cx, cy, ring_distance(cx, cy, x, y), ring_position(cx, cy, x, y)) == (x, y),
{
}

/// The rings up to the farthest one visit every cell of the board exactly
/// once: a cell of the board is a position of the ring at its distance from
/// the centre, that ring is not beyond the farthest, and any position of any
/// ring that is this cell is that same position of that same ring.
pub proof fn lemma_rings_visit_every_cell_once(
    width: int,
    height: int,
    cx: int,
    cy: int,
    x: int,
    y: int,
    k: int,
    i: int,
)
    requires
        in_bounds(width, height, cx, cy),
        in_bounds(width, height, x, y),
    ensures
        0 <= ring_distance(cx, cy, x, y) <= farthest_ring(width, height, cx, cy),
        0 <= ring_position(cx, cy, x, y) < ring_len(ring_distance(cx, cy, x, y)),
        ring_cell(cx, cy, ring_distance(cx, cy, x, y), ring_position(cx, cy, x, y)) == (x, y),
        0 <= k && 0 <= i < ring_len(k) && ring_cell(cx, cy, k, i) == (x, y) ==> k == ring_distance(
            cx,
            cy,
            x,
            y,
        ) && i == ring_position(cx, cy, x, y),
{
    lemma_cell_is_on_its_ring(cx, cy, x, y);
    if 0 <= k && 0 <= i < ring_len(k) && ring_cell(cx, cy, k, i) == (x, y) {
        lemma_ring_keeps_distance(cx, cy, k, i);
        lemma_ring_positions_differ(cx, cy, k, i, ring_position(cx, cy, x, y));
    }
}

/// Whether position `i` of ring `k` is the cell with the index `index` and
/// holds a mine.
pub open spec fn mine_on_ring(
    width: int,
    height: int,
    mines: Seq<bool>,
    cx: int,
    cy: int,
    k: int,
    i: int,
    index: usize,
) -> bool {
    &&& 0 <= i < ring_len(k)
    &&& mine_index_at(width, height, mines)(ring_cell(cx, cy, k, i)) == Some(index)
}

/// Whether one of the first `n` positions of ring `k` is the cell with the
/// index `index` and holds a mine.
spec fn mine_on_ring_before(
    width: int,
    height: int,
    mines: Seq<bool>,
    cx: int,
    cy: int,
    k: int,
    n: int,
    index: usize,
) -> bool {
    exists|i: int| 0 <= i < n && #[trigger] mine_on_ring(width, height, mines, cx, cy, k, i, index)
}

/// Whether a position of one of the first `rings` rings is the cell with the
/// index `index` and holds a mine.
spec fn mine_on_rings_before(
    width: int,
    height: int,
    mines: Seq<bool>,
    cx: int,
    cy: int,
    rings: int,
    index: usize,
) -> bool {
    exists|k: int, i: int|
        0 <= k < rings && #[trigger] mine_on_ring(width, height, mines, cx, cy, k, i, index)
}

/// Two positions that are mines with the same index are the same position
/// of the same ring.
proof fn lemma_mine_has_one_position(
    width: int,
    height: int,
    mines: Seq<bool>,
    cx: int,
    cy: int,
    k1: int,
    i1: int,
    k2: int,
    i2: int,
    index: usize,
)
    requires
        width * height <= usize::MAX,
        0 <= k1,
        0 <= k2,
        mine_on_ring(width, height, mines, cx, cy, k1, i1, index),
        mine_on_ring(width, height, mines, cx, cy, k2, i2, index),
    ensures
        k1 == k2,
        i1 == i2,
{
    let first = ring_cell(cx, cy, k1, i1);
    let second = ring_cell(cx, cy, k2, i2);
    lemma_cell_index(width, height, first.0, first.1);
    lemma_cell_index(width, height, second.0, second.1);
    assert(first == second);
    lemma_ring_keeps_distance(cx, cy, k1, i1);
    lemma_ring_keeps_distance(cx, cy, k2, i2);
    lemma_ring_positions_differ(cx, cy, k1, i1, i2);
}

/// The mines found on the first `n` positions of ring `k`: each of them is
/// the mine of one of these positions, each mine on these positions is among
/// them, and none is found twice.
proof fn lemma_ring_prefix_mines(
    width: int,
    height: int,
    mines: Seq<bool>,
    cx: int,
    cy: int,
    k: int,
    n: int,
)
    requires
        width * height <= usize::MAX,
        0 <= k,
        0 <= n <= ring_len(k),
    ensures
        ({
            let found = ring(cx, cy, k).take(n).filter_map(mine_index_at(width, height, mines));
            &&& found.no_duplicates()
            &&& forall|t: int|
                0 <= t < found.len() ==> #[trigger] mine_on_ring_before(
                    width,
                    height,
                    mines,
                    cx,
                    cy,
                    k,
                    n,
                    found[t],
                )
            &&& forall|i: int, index: usize|
                0 <= i < n && #[trigger] mine_on_ring(width, height, mines, cx, cy, k, i, index)
                    ==> listed(found, index as int)
        }),
    decreases n,
{
    let whole = ring(cx, cy, k);
    let pick = mine_index_at(width, height, mines);
    let found = whole.take(n).filter_map(pick);
    if n == 0 {
        assert(whole.take(0).filter_map(pick) =~= Seq::<usize>::empty());
    } else {
        lemma_ring_prefix_mines(width, height, mines, cx, cy, k, n - 1);
        let before = whole.take(n - 1).filter_map(pick);
        whole.lemma_filter_map_take_succ(pick, n - 1);
        assert(whole[n - 1] == ring_cell(cx, cy, k, n - 1));
        assert forall|t: int| 0 <= t < before.len() implies #[trigger] mine_on_ring_before(
            width,
            height,
            mines,
            cx,
            cy,
            k,
            n,
            before[t],
        ) by {
            assert(mine_on_ring_before(width, height, mines, cx, cy, k, n - 1, before[t]));
            let i = choose|i: int|
                0 <= i < n - 1 && #[trigger] mine_on_ring(
                    width,
                    height,
                    mines,
                    cx,
                    cy,
                    k,
                    i,
                    before[t],
                );
            assert(mine_on_ring(width, height, mines, cx, cy, k, i, before[t]));
        }
        match pick(whole[n - 1]) {
            Some(index) => {
                assert(found =~= before.push(index));
                assert(mine_on_ring(width, height, mines, cx, cy, k, n - 1, index));
                assert forall|t: int| 0 <= t < before.len() implies before[t] != index by {
                    assert(mine_on_ring_before(width, height, mines, cx, cy, k, n - 1, before[t]));
                    let i = choose|i: int|
                        0 <= i < n - 1 && #[trigger] mine_on_ring(
                            width,
                            height,
                            mines,
                            cx,
                            cy,
                            k,
                            i,
                            before[t],
                        );
                    if before[t] == index {
                        lemma_mine_has_one_position(
                            width,
                            height,
                            mines,
                            cx,
                            cy,
                            k,
                            i,
                            k,
                            n - 1,
                            index,
                        );
                    }
                }
                assert forall|i: int, other: usize|
                    0 <= i < n && #[trigger] mine_on_ring(
                        width,
                        height,
                        mines,
                        cx,
                        cy,
                        k,
                        i,
                        other,
                    ) implies listed(found, other as int) by {
                    if i < n - 1 {
                        let t = choose|t: int| 0 <= t < before.len() && #[trigger] before[t] == other;
                        assert(found[t] == other);
                    } else {
                        assert(found[before.len() as int] == other);
                    }
                }
            },
            None => {
                assert(found =~= before);
            },
        }
    }
}

/// The mines found on the first `rings` rings: each of them is the mine of a
/// position of one of these rings, each mine on these rings is among them,
/// and none is found twice.
proof fn lemma_rings_mines(
    width: int,
    height: int,
    mines: Seq<bool>,
    cx: int,
    cy: int,
    rings: int,
)
    requires
        width * height <= usize::MAX,
        0 <= rings,
    ensures
        ({
            let found = mines_within(width, height, mines, cx, cy, rings);
            &&& found.no_duplicates()
            &&& forall|t: int|
                0 <= t < found.len() ==> #[trigger] mine_on_rings_before(
                    width,
                    height,
                    mines,
                    cx,
                    cy,
                    rings,
                    found[t],
                )
            &&& forall|k: int, i: int, index: usize|
                0 <= k < rings && #[trigger] mine_on_ring(width, height, mines, cx, cy, k, i, index)
                    ==> listed(found, index as int)
        }),
    decreases rings,
{
    let found = mines_within(width, height, mines, cx, cy, rings);
    if rings > 0 {
        let last = rings - 1;
        lemma_rings_mines(width, height, mines, cx, cy, last);
        lemma_ring_prefix_mines(width, height, mines, cx, cy, last, ring_len(last));
        let before = mines_within(width, height, mines, cx, cy, last);
        let added = ring_mines(width, height, mines, cx, cy, last);
        assert(ring(cx, cy, last).take(ring_len(last)) =~= ring(cx, cy, last));
        assert(found == before + added);
        assert forall|s: int, t: int| 0 <= s < before.len() && 0 <= t < added.len() implies before[s]
            != added[t] by {
            assert(mine_on_rings_before(width, height, mines, cx, cy, last, before[s]));
            let (k, i) = choose|k: int, i: int|
                0 <= k < last && #[trigger] mine_on_ring(
                    width,
                    height,
                    mines,
                    cx,
                    cy,
                    k,
                    i,
                    before[s],
                );
            assert(mine_on_ring_before(width, height, mines, cx, cy, last, ring_len(last), added[t]));
            let j = choose|j: int|
                0 <= j < ring_len(last) && #[trigger] mine_on_ring(
                    width,
                    height,
                    mines,
                    cx,
                    cy,
                    last,
                    j,
                    added[t],
                );
            if before[s] == added[t] {
                lemma_mine_has_one_position(width, height, mines, cx, cy, k, i, last, j, added[t]);
            }
        }
        lemma_no_dup_in_concat(before, added);
        assert forall|t: int| 0 <= t < found.len() implies #[trigger] mine_on_rings_before(
            width,
            height,
            mines,
            cx,
            cy,
            rings,
            found[t],
        ) by {
            if t < before.len() {
                assert(found[t] == before[t]);
                assert(mine_on_rings_before(width, height, mines, cx, cy, last, before[t]));
                let (k, i) = choose|k: int, i: int|
                    0 <= k < last && #[trigger] mine_on_ring(
                        width,
                        height,
                        mines,
                        cx,
                        cy,
                        k,
                        i,
                        before[t],
                    );
                assert(mine_on_ring(width, height, mines, cx, cy, k, i, found[t]));
            } else {
                let within = t - before.len();
                assert(found[t] == added[within]);
                assert(mine_on_ring_before(
                    width,
                    height,
                    mines,
                    cx,
                    cy,
                    last,
                    ring_len(last),
                    added[within],
                ));
                let j = choose|j: int|
                    0 <= j < ring_len(last) && #[trigger] mine_on_ring(
                        width,
                        height,
                        mines,
                        cx,
                        cy,
                        last,
                        j,
                        added[within],
                    );
                assert(mine_on_ring(width, height, mines, cx, cy, last, j, found[t]));
            }
        }
        assert forall|k: int, i: int, index: usize|
            0 <= k < rings && #[trigger] mine_on_ring(
                width,
                height,
                mines,
                cx,
                cy,
                k,
                i,
                index,
            ) implies listed(found, index as int) by {
            if k < last {
                let t = choose|t: int| 0 <= t < before.len() && #[trigger] before[t] == index;
                assert(found[t] == index);
            } else {
                let t = choose|t: int| 0 <= t < added.len() && #[trigger] added[t] == index;
                assert(found[before.len() + t] == index);
            }
        }
    }
}

/// The order in which the mines are shown lists every mine of the board
/// once, and nothing else, whatever cell of the board is the centre.
pub proof fn lemma_reveal_order_lists_each_mine_once(
    width: int,
    height: int,
    mines: Seq<bool>,
    cx: int,
    cy: int,
)
    requires
        in_bounds(width, height, cx, cy),
        width * height <= usize::MAX,
        mines.len() == width * height,
    ensures
        reveal_order(width, height, mines, cx, cy).no_duplicates(),
        forall|index: int|
            #![trigger listed(reveal_order(width, height, mines, cx, cy), index)]
            #![trigger mines[index]]
            listed(reveal_order(width, height, mines, cx, cy), index) <==> 0 <= index < mines.len()
                && mines[index],
        reveal_order(width, height, mines, cx, cy).len() == count_mines(mines),
{
    let rings = farthest_ring(width, height, cx, cy) + 1;
    let order = reveal_order(width, height, mines, cx, cy);
    lemma_rings_mines(width, height, mines, cx, cy, rings);
    assert forall|index: int| listed(order, index) <==> 0 <= index < mines.len()
        && mines[index] by {
        if listed(order, index) {
            let t = choose|t: int| 0 <= t < order.len() && #[trigger] order[t] == index;
            assert(mine_on_rings_before(width, height, mines, cx, cy, rings, order[t]));
            let (k, i) = choose|k: int, i: int|
                0 <= k < rings && #[trigger] mine_on_ring(
                    width,
                    height,
                    mines,
                    cx,
                    cy,
                    k,
                    i,
                    order[t],
                );
            let cell = ring_cell(cx, cy, k, i);
            lemma_cell_index(width, height, cell.0, cell.1);
        }
        if 0 <= index < mines.len() && mines[index] {
            let x = index / height;
            let y = index % height;
            lemma_cell_of_index(width, height, index);
            lemma_rings_visit_every_cell_once(width, height, cx, cy, x, y, 0, 0);
            let k = ring_distance(cx, cy, x, y);
            let i = ring_position(cx, cy, x, y);
            assert(mine_on_ring(width, height, mines, cx, cy, k, i, index as usize));
        }
    }
    lemma_listing_counts_mines(mines, order);
}

} // verus!
