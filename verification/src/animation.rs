//! When each mine is shown after a loss: the mines of the first ring that
//! holds any at once, those of each further such ring one step later.

use std::collections::VecDeque;
use std::time::Duration;
use vstd::prelude::*;
use crate::time_span::TimeSpan;

verus! {

/// The time between the mines of one ring and those of the next, in
/// milliseconds.
pub const ANIMATION_DELAY_STEP_MILLIS: u64 = 100;

/// The mine at `index` is to be shown after `delay`.
#[derive(Copy, Clone, PartialEq, Eq, Debug, Structural)]
pub struct MineAnimation {
    pub index: usize,
    pub delay: TimeSpan,
}

/// The sum of the first `n` ring totals.
pub open spec fn sum_before(rings: Seq<i32>, n: int) -> int
    decreases n,
{
    if n <= 0 {
        0
    } else {
        sum_before(rings, n - 1) + rings[n - 1]
    }
}

/// The number of delay steps before the mine at `position` is shown: the
/// number of rings that the mines before it fill.
pub open spec fn delay_tier(rings: Seq<i32>, position: int) -> int
    decreases rings.len(),
{
    if rings.len() == 0 || position < rings[0] {
        0
    } else {
        1 + delay_tier(rings.drop_first(), position - rings[0])
    }
}

/// Whether `rings` can be the ring totals of `mines` mines: each ring holds
/// a mine, together they hold all mines, and the last delay can be counted
/// in ticks.
pub open spec fn schedule_fits(mines: int, rings: Seq<i32>) -> bool {
    &&& forall|k: int| 0 <= k < rings.len() ==> rings[k] > 0
    &&& sum_before(rings, rings.len() as int) == mines
    &&& rings.len() <= i32::MAX
}

/// Sums over a prefix see only the prefix.
pub proof fn lemma_sum_agree(a: Seq<i32>, b: Seq<i32>, n: int)
    requires
        forall|k: int| 0 <= k < n ==> a[k] == b[k],
    ensures
        sum_before(a, n) == sum_before(b, n),
    decreases n,
{
    if n > 0 {
        lemma_sum_agree(a, b, n - 1);
    }
}

/// Sums of positive totals grow with the number of rings.
proof fn lemma_sum_grows(rings: Seq<i32>, m: int, n: int)
    requires
        forall|k: int| 0 <= k < rings.len() ==> rings[k] > 0,
        0 <= m <= n <= rings.len(),
    ensures
        sum_before(rings, m) + (n - m) <= sum_before(rings, n),
    decreases n,
{
    if m < n {
        lemma_sum_grows(rings, m, n - 1);
    }
}

/// Without the first ring, the sums are smaller by its total.
proof fn lemma_sum_without_first(rings: Seq<i32>, n: int)
    requires
        1 <= n <= rings.len(),
    ensures
        sum_before(rings.drop_first(), n - 1) == sum_before(rings, n) - rings[0],
    decreases n,
{
    if n > 1 {
        lemma_sum_without_first(rings, n - 1);
        assert(rings.drop_first()[n - 2] == rings[n - 1]);
    } else {
        assert(sum_before(rings, 0) == 0);
        assert(sum_before(rings.drop_first(), 0) == 0);
    }
}

/// A mine that lies `within` mines into ring `ring` is shown `ring` steps
/// late.
proof fn lemma_tier_of_ring(rings: Seq<i32>, ring: int, within: int)
    requires
        forall|k: int| 0 <= k < rings.len() ==> rings[k] > 0,
        0 <= ring < rings.len(),
        0 <= within < rings[ring],
    ensures
        delay_tier(rings, sum_before(rings, ring) + within) == ring,
    decreases ring,
{
    if ring == 0 {
    } else {
        let rest = rings.drop_first();
        lemma_sum_grows(rings, 1, ring);
        lemma_sum_without_first(rings, ring);
        assert(sum_before(rings, 1) == rings[0]) by {
            assert(sum_before(rings, 0) == 0);
        }
        assert(rest[ring - 1] == rings[ring]);
        assert forall|k: int| 0 <= k < rest.len() implies rest[k] > 0 by {
            assert(rest[k] == rings[k + 1]);
        }
        lemma_tier_of_ring(rest, ring - 1, within);
    }
}

/// For each mine of `mine_indices`, in their order, the delay after which
/// it is shown: nothing for the mines of the first ring, and one step of
/// `ANIMATION_DELAY_STEP_MILLIS` more for each ring after it.
pub fn mine_animation_delays(mine_indices: &VecDeque<usize>, mines_per_ring: &VecDeque<i32>) -> (animations:
    Vec<MineAnimation>)
    requires
        schedule_fits(mine_indices@.len() as int, mines_per_ring@),
    ensures
        animations.len() == mine_indices@.len(),
        forall|position: int|
            0 <= position < animations.len() ==> {
                &&& (#[trigger] animations[position]).index == mine_indices@[position]
                &&& Some(animations[position].delay) == TimeSpan::of_millis(
                    ANIMATION_DELAY_STEP_MILLIS * delay_tier(mines_per_ring@, position),
                )
            },
{
    let mut animations: Vec<MineAnimation> = Vec::new();
    let mut current_delay_millis: u64 = 0;
    let mut current_mines_count: i32 = 0;
    let mut ring: usize = 0;
    let mut position: usize = 0;
    while position < mine_indices.len()
        invariant
            schedule_fits(mine_indices@.len() as int, mines_per_ring@),
            position <= mine_indices@.len(),
            animations.len() == position,
            ring <= mines_per_ring@.len(),
            0 <= current_mines_count,
            ring < mines_per_ring@.len() ==> current_mines_count < mines_per_ring@[ring as int],
            ring == mines_per_ring@.len() ==> current_mines_count == 0,
            position == sum_before(mines_per_ring@, ring as int) + current_mines_count,
            current_delay_millis == ANIMATION_DELAY_STEP_MILLIS * ring,
            forall|done: int|
                0 <= done < position ==> {
                    &&& (#[trigger] animations[done]).index == mine_indices@[done]
                    &&& Some(animations[done].delay) == TimeSpan::of_millis(
                        ANIMATION_DELAY_STEP_MILLIS * delay_tier(mines_per_ring@, done),
                    )
                },
        decreases mine_indices@.len() - position,
    {
        proof {
            lemma_sum_grows(mines_per_ring@, ring as int, mines_per_ring@.len() as int);
            lemma_tier_of_ring(mines_per_ring@, ring as int, current_mines_count as int);
        }
        let mine_index = mine_indices[position];
        let delay = TimeSpan::from(Duration::from_millis(current_delay_millis));
        animations.push(MineAnimation { index: mine_index, delay });
        current_mines_count += 1;

        let mines_on_current_level = mines_per_ring[ring];
        if current_mines_count == mines_on_current_level {
            current_mines_count = 0;
            ring += 1;
            current_delay_millis += ANIMATION_DELAY_STEP_MILLIS;
        }
        position += 1;
    }
    animations
}

} // verus!
