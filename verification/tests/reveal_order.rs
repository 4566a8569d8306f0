use minesweeper::animation::{mine_animation_delays, MineAnimation};
use minesweeper::minesweeper::Minesweeper;
use minesweeper::time_span::TimeSpan;
use std::collections::VecDeque;

fn game_with(width: i32, height: i32, mines: &[(i32, i32)]) -> Minesweeper {
    let mut cells = vec![false; (width * height) as usize];
    for &(x, y) in mines {
        cells[(x * height + y) as usize] = true;
    }
    let mut game = Minesweeper::new();
    assert_eq!(game.new_game(width, height, mines.len() as i32), Ok(()));
    assert!(game.lay_mines(cells));
    game
}

#[test]
fn mines_come_ring_by_ring() {
    let game = game_with(4, 4, &[(1, 1), (0, 0), (3, 1), (2, 3), (3, 3)]);
    let (mine_indices, rings) = game.compute_mine_reveal_order(1, 1).unwrap();
    assert_eq!(mine_indices, VecDeque::from(vec![5, 0, 13, 15, 11]));
    assert_eq!(rings, VecDeque::from(vec![1, 1, 3]));
}

#[test]
fn ring_is_walked_top_right_bottom_left() {
    // every cell around the centre holds a mine
    let around = [(0, 0), (1, 0), (2, 0), (0, 1), (2, 1), (0, 2), (1, 2), (2, 2)];
    let game = game_with(3, 3, &around);
    let (mine_indices, rings) = game.compute_mine_reveal_order(1, 1).unwrap();
    // top from left to right, right downwards, bottom from left, left
    assert_eq!(mine_indices, VecDeque::from(vec![0, 3, 6, 7, 8, 2, 5, 1]));
    assert_eq!(rings, VecDeque::from(vec![8]));
}

#[test]
fn rings_without_mines_are_left_out() {
    let game = game_with(7, 1, &[(0, 0), (3, 0), (6, 0)]);
    let (mine_indices, rings) = game.compute_mine_reveal_order(0, 0).unwrap();
    assert_eq!(mine_indices, VecDeque::from(vec![0, 3, 6]));
    assert_eq!(rings, VecDeque::from(vec![1, 1, 1]));
    let (mine_indices, rings) = game.compute_mine_reveal_order(1, 0).unwrap();
    assert_eq!(mine_indices, VecDeque::from(vec![0, 3, 6]));
    assert_eq!(rings, VecDeque::from(vec![1, 1, 1]));
    let (mine_indices, rings) = game.compute_mine_reveal_order(3, 0).unwrap();
    assert_eq!(mine_indices, VecDeque::from(vec![3, 6, 0]));
    assert_eq!(rings, VecDeque::from(vec![1, 2]));
}

#[test]
fn every_mine_is_listed_once_from_every_centre() {
    let mines = [(0, 0), (4, 2), (1, 2), (3, 0), (2, 1), (4, 0)];
    let game = game_with(5, 3, &mines);
    for cx in 0..5 {
        for cy in 0..3 {
            let (mine_indices, rings) = game.compute_mine_reveal_order(cx, cy).unwrap();
            assert_eq!(mine_indices.len(), mines.len());
            for &(x, y) in &mines {
                let index = (x * 3 + y) as usize;
                assert_eq!(mine_indices.iter().filter(|&&listed| listed == index).count(), 1);
            }
            // ring after ring: the distance from the centre never falls
            let distances: Vec<i32> = mine_indices
                .iter()
                .map(|&index| {
                    let (x, y) = (index as i32 / 3, index as i32 % 3);
                    (x - cx).abs().max((y - cy).abs())
                })
                .collect();
            assert!(distances.windows(2).all(|pair| pair[0] <= pair[1]));
            // and the totals are those of the distances
            let mut expected = VecDeque::new();
            for ring in 0..5 {
                let total = distances.iter().filter(|&&distance| distance == ring).count() as i32;
                if total > 0 {
                    expected.push_back(total);
                }
            }
            assert_eq!(rings, expected);
        }
    }
}

#[test]
fn rings_reach_every_cell_once() {
    // all cells but one hold a mine; the one free cell moves over the board
    let (width, height) = (4, 3);
    for free in 0..(width * height) as usize {
        let mines: Vec<(i32, i32)> = (0..width)
            .flat_map(|x| (0..height).map(move |y| (x, y)))
            .filter(|&(x, y)| (x * height + y) as usize != free)
            .collect();
        let game = game_with(width, height, &mines);
        for cx in 0..width {
            for cy in 0..height {
                let (mine_indices, rings) = game.compute_mine_reveal_order(cx, cy).unwrap();
                let mut listed: Vec<usize> = mine_indices.iter().copied().collect();
                listed.sort();
                let expected: Vec<usize> =
                    (0..(width * height) as usize).filter(|&index| index != free).collect();
                assert_eq!(listed, expected);
                assert_eq!(rings.iter().sum::<i32>() as usize, expected.len());
                assert!(rings.iter().all(|&total| total > 0));
            }
        }
    }
}

#[test]
fn order_needs_mines_and_a_cell() {
    let mut game = Minesweeper::new();
    assert_eq!(game.new_game(3, 3, 1), Ok(()));
    assert_eq!(game.compute_mine_reveal_order(1, 1), None);
    assert!(game.lay_mines(vec![false, false, false, false, true, false, false, false, false]));
    assert!(game.compute_mine_reveal_order(1, 1).is_some());
    assert_eq!(game.compute_mine_reveal_order(-1, 1), None);
    assert_eq!(game.compute_mine_reveal_order(1, 3), None);
    assert_eq!(game.compute_mine_reveal_order(3, 0), None);
}

#[test]
fn centre_without_mine_is_not_listed() {
    let game = game_with(3, 3, &[(0, 0), (2, 2)]);
    let (mine_indices, rings) = game.compute_mine_reveal_order(1, 1).unwrap();
    assert_eq!(mine_indices, VecDeque::from(vec![0, 8]));
    assert_eq!(rings, VecDeque::from(vec![2]));
}

#[test]
fn delays_grow_by_ring() {
    let mine_indices = VecDeque::from(vec![5, 0, 13, 15, 11, 2]);
    let rings = VecDeque::from(vec![1, 1, 3, 1]);
    let animations = mine_animation_delays(&mine_indices, &rings);
    assert_eq!(
        animations,
        vec![
            MineAnimation { index: 5, delay: TimeSpan { duration: 0 } },
            MineAnimation { index: 0, delay: TimeSpan { duration: 1_000_000 } },
            MineAnimation { index: 13, delay: TimeSpan { duration: 2_000_000 } },
            MineAnimation { index: 15, delay: TimeSpan { duration: 2_000_000 } },
            MineAnimation { index: 11, delay: TimeSpan { duration: 2_000_000 } },
            MineAnimation { index: 2, delay: TimeSpan { duration: 3_000_000 } },
        ]
    );
}

#[test]
fn no_mines_no_delays() {
    let animations = mine_animation_delays(&VecDeque::new(), &VecDeque::new());
    assert!(animations.is_empty());
}

#[test]
fn delays_of_a_game() {
    let game = game_with(4, 4, &[(1, 1), (0, 0), (3, 1), (2, 3), (3, 3)]);
    let (mine_indices, rings) = game.compute_mine_reveal_order(3, 3).unwrap();
    assert_eq!(mine_indices, VecDeque::from(vec![15, 11, 5, 13, 0]));
    assert_eq!(rings, VecDeque::from(vec![1, 1, 2, 1]));
    let delays: Vec<i64> = mine_animation_delays(&mine_indices, &rings)
        .iter()
        .map(|animation| animation.delay.duration)
        .collect();
    assert_eq!(delays, vec![0, 1_000_000, 2_000_000, 2_000_000, 3_000_000]);
}
