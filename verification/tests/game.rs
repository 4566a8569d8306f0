use minesweeper::board::MineState;
use minesweeper::game_view::GameStatus;
use minesweeper::minesweeper::{Minesweeper, NewGameError};

/// A layout for a board of the given size with mines at the given cells.
fn layout(width: i32, height: i32, mines: &[(i32, i32)]) -> Vec<bool> {
    let mut cells = vec![false; (width * height) as usize];
    for &(x, y) in mines {
        cells[(x * height + y) as usize] = true;
    }
    cells
}

/// A game on a board of the given size with mines at the given cells.
fn game_with(width: i32, height: i32, mines: &[(i32, i32)]) -> Minesweeper {
    let mut game = Minesweeper::new();
    assert_eq!(game.new_game(width, height, mines.len() as i32), Ok(()));
    assert!(game.lay_mines(layout(width, height, mines)));
    game
}

/// The number of mines around a cell, counted directly.
fn mines_around(mines: &[(i32, i32)], x: i32, y: i32) -> i32 {
    mines
        .iter()
        .filter(|&&(mx, my)| (mx, my) != (x, y) && (mx - x).abs() <= 1 && (my - y).abs() <= 1)
        .count() as i32
}

#[test]
fn standard_game() {
    let game = Minesweeper::new();
    assert_eq!(game.width(), 16);
    assert_eq!(game.height(), 16);
    assert_eq!(game.num_mines(), 40);
    assert_eq!(game.status(), GameStatus::InProgress);
    assert!(!game.game_over());
    for x in 0..16 {
        for y in 0..16 {
            assert_eq!(game.mine_state(x, y), Some(MineState::Empty));
            assert_eq!(game.neighbor_count(x, y), None);
        }
    }
    assert_eq!(game.compute_mine_reveal_order(3, 3), None);
}

#[test]
fn new_game_is_empty_and_in_progress() {
    for (width, height, mines) in [(1, 2, 1), (2, 1, 1), (3, 3, 1), (8, 8, 5), (5, 9, 44), (30, 16, 99)] {
        let mut game = Minesweeper::new();
        assert_eq!(game.new_game(width, height, mines), Ok(()));
        assert_eq!(game.width(), width);
        assert_eq!(game.height(), height);
        assert_eq!(game.num_mines(), mines);
        assert_eq!(game.status(), GameStatus::InProgress);
        for x in 0..width {
            for y in 0..height {
                assert_eq!(game.mine_state(x, y), Some(MineState::Empty));
            }
        }
        assert_eq!(game.mine_state(width, 0), None);
        assert_eq!(game.mine_state(0, height), None);
        assert!(!game.check_if_won());
    }
}

#[test]
fn new_game_after_play_resets() {
    let mut game = game_with(3, 3, &[(2, 2)]);
    assert!(game.sweep(2, 2).unwrap().hit_mine);
    assert_eq!(game.status(), GameStatus::Lost);
    assert_eq!(game.cycle_mark(0, 0), Some(MineState::Flag));
    assert_eq!(game.new_game(4, 2, 3), Ok(()));
    assert_eq!(game.status(), GameStatus::InProgress);
    for x in 0..4 {
        for y in 0..2 {
            assert_eq!(game.mine_state(x, y), Some(MineState::Empty));
            assert_eq!(game.neighbor_count(x, y), None);
        }
    }
    assert_eq!(game.mine_state(2, 2), None);
    assert_eq!(game.compute_mine_reveal_order(0, 0), None);
}

#[test]
fn new_game_refuses_bad_values() {
    let mut game = Minesweeper::new();
    assert_eq!(game.cycle_mark(1, 1), Some(MineState::Flag));
    assert_eq!(game.new_game(0, 5, 1), Err(NewGameError::EmptyBoard));
    assert_eq!(game.new_game(5, 0, 1), Err(NewGameError::EmptyBoard));
    assert_eq!(game.new_game(-3, 5, 1), Err(NewGameError::EmptyBoard));
    assert_eq!(game.new_game(5, -1, 1), Err(NewGameError::EmptyBoard));
    assert_eq!(game.new_game(65536, 32768, 1), Err(NewGameError::BoardTooLarge));
    assert_eq!(game.new_game(i32::MAX, i32::MAX, 1), Err(NewGameError::BoardTooLarge));
    assert_eq!(game.new_game(4, 4, 0), Err(NewGameError::NoMines));
    assert_eq!(game.new_game(4, 4, -2), Err(NewGameError::NoMines));
    assert_eq!(game.new_game(4, 4, 16), Err(NewGameError::TooManyMines));
    assert_eq!(game.new_game(4, 4, 17), Err(NewGameError::TooManyMines));
    assert_eq!(game.new_game(1, 1, 1), Err(NewGameError::TooManyMines));
    // the game at hand goes on
    assert_eq!(game.width(), 16);
    assert_eq!(game.height(), 16);
    assert_eq!(game.num_mines(), 40);
    assert_eq!(game.mine_state(1, 1), Some(MineState::Flag));
    assert_eq!(game.new_game(4, 4, 15), Ok(()));
}

#[test]
fn marks_cycle_on_the_board() {
    let mut game = Minesweeper::new();
    assert_eq!(game.cycle_mark(2, 3), Some(MineState::Flag));
    assert_eq!(game.mine_state(2, 3), Some(MineState::Flag));
    assert_eq!(game.cycle_mark(2, 3), Some(MineState::Question));
    assert_eq!(game.mine_state(2, 3), Some(MineState::Question));
    assert_eq!(game.cycle_mark(2, 3), Some(MineState::Empty));
    assert_eq!(game.mine_state(2, 3), Some(MineState::Empty));
    assert_eq!(game.mine_state(3, 2), Some(MineState::Empty));
}

#[test]
fn three_marks_bring_the_mark_back() {
    let mut game = game_with(4, 3, &[(0, 0)]);
    assert_eq!(game.cycle_mark(1, 1), Some(MineState::Flag));
    assert_eq!(game.cycle_mark(2, 2), Some(MineState::Flag));
    assert_eq!(game.cycle_mark(2, 2), Some(MineState::Question));
    for (x, y) in [(0, 0), (1, 1), (2, 2), (3, 0)] {
        let before = game.mine_state(x, y);
        game.cycle_mark(x, y);
        game.cycle_mark(x, y);
        game.cycle_mark(x, y);
        assert_eq!(game.mine_state(x, y), before);
    }
}

#[test]
fn marks_off_the_board_and_on_revealed_cells_are_refused() {
    let mut game = game_with(3, 3, &[(2, 2)]);
    assert_eq!(game.cycle_mark(-1, 0), None);
    assert_eq!(game.cycle_mark(0, 3), None);
    assert_eq!(game.cycle_mark(3, 3), None);
    assert!(game.sweep(1, 1).is_some());
    assert_eq!(game.mine_state(1, 1), Some(MineState::Revealed));
    assert_eq!(game.cycle_mark(1, 1), None);
    assert_eq!(game.mine_state(1, 1), Some(MineState::Revealed));
}

#[test]
fn lay_mines_takes_fitting_layouts_only() {
    let mut game = Minesweeper::new();
    assert_eq!(game.new_game(3, 2, 2), Ok(()));
    assert!(!game.lay_mines(vec![true, true, false, false, false]));
    assert!(!game.lay_mines(vec![true, true, false, false, false, false, false]));
    assert!(!game.lay_mines(vec![true, false, false, false, false, false]));
    assert!(!game.lay_mines(vec![true, true, true, false, false, false]));
    assert_eq!(game.compute_mine_reveal_order(0, 0), None);
    assert!(game.lay_mines(vec![true, false, false, false, false, true]));
    assert!(game.compute_mine_reveal_order(0, 0).is_some());
    // laid once, the mines stay
    assert!(!game.lay_mines(vec![false, true, true, false, false, false]));
    let report = game.sweep(0, 0).unwrap();
    assert!(report.hit_mine);
    assert_eq!(game.neighbor_count(0, 0), Some(-1));
}

#[test]
fn corner_mine_on_three_by_three() {
    let mut game = game_with(3, 3, &[(2, 2)]);
    let report = game.sweep(0, 0).unwrap();
    assert!(!report.hit_mine);
    // east, south-east and south of the corner; then east and south-east of
    // (1, 0); then south-east and south of (0, 1)
    assert_eq!(report.revealed, vec![0, 3, 4, 1, 6, 7, 5, 2]);
    assert_eq!(game.neighbor_count(1, 1), Some(1));
    assert_eq!(game.neighbor_count(2, 1), Some(1));
    assert_eq!(game.neighbor_count(1, 2), Some(1));
    for (x, y) in [(0, 0), (1, 0), (2, 0), (0, 1), (0, 2)] {
        assert_eq!(game.neighbor_count(x, y), Some(0));
    }
    assert_eq!(game.mine_state(2, 2), Some(MineState::Empty));
    assert_eq!(game.neighbor_count(2, 2), None);
    assert!(game.check_if_won());
    assert_eq!(game.status(), GameStatus::Won);
}

#[test]
fn numbered_cell_opens_alone() {
    let mines = [(2, 2), (5, 1), (0, 7)];
    for x in 0..8 {
        for y in 0..8 {
            if mines.contains(&(x, y)) || mines_around(&mines, x, y) == 0 {
                continue;
            }
            let mut game = game_with(8, 8, &mines);
            let report = game.sweep(x, y).unwrap();
            assert!(!report.hit_mine);
            assert_eq!(report.revealed, vec![(x * 8 + y) as usize]);
            for cx in 0..8 {
                for cy in 0..8 {
                    let expected =
                        if (cx, cy) == (x, y) { MineState::Revealed } else { MineState::Empty };
                    assert_eq!(game.mine_state(cx, cy), Some(expected));
                }
            }
            assert_eq!(game.status(), GameStatus::InProgress);
        }
    }
}

#[test]
fn fill_stops_at_numbered_cells() {
    // a wall of numbers between the two halves of the board
    let mines = [(3, 0), (3, 1), (3, 2), (3, 3)];
    let mut game = game_with(7, 4, &mines);
    let report = game.sweep(0, 0).unwrap();
    assert!(!report.hit_mine);
    assert_eq!(report.revealed.len(), 12);
    for x in 0..7 {
        for y in 0..4 {
            let expected = if x <= 2 { MineState::Revealed } else { MineState::Empty };
            assert_eq!(game.mine_state(x, y), Some(expected));
        }
    }
    assert_eq!(game.neighbor_count(1, 1), Some(0));
    assert_eq!(game.neighbor_count(2, 0), Some(2));
    assert_eq!(game.neighbor_count(2, 1), Some(3));
    assert_eq!(game.status(), GameStatus::InProgress);
    assert!(!game.check_if_won());
}

#[test]
fn revealed_counts_are_the_mines_around() {
    let mines = [(0, 0), (1, 0), (2, 0), (0, 1), (2, 1), (0, 2), (1, 2), (2, 2), (5, 5), (7, 0), (6, 1)];
    let mut game = game_with(8, 6, &mines);
    for x in 0..8 {
        for y in 0..6 {
            if !mines.contains(&(x, y)) {
                game.sweep(x, y);
            }
        }
    }
    assert_eq!(game.neighbor_count(1, 1), Some(8));
    for x in 0..8 {
        for y in 0..6 {
            if mines.contains(&(x, y)) {
                assert_eq!(game.mine_state(x, y), Some(MineState::Empty));
                assert_eq!(game.neighbor_count(x, y), None);
            } else {
                assert_eq!(game.mine_state(x, y), Some(MineState::Revealed));
                assert_eq!(game.neighbor_count(x, y), Some(mines_around(&mines, x, y)));
            }
        }
    }
    assert_eq!(game.status(), GameStatus::Won);
}

#[test]
fn fill_goes_around_flags() {
    let mut game = game_with(5, 1, &[(4, 0)]);
    assert_eq!(game.cycle_mark(2, 0), Some(MineState::Flag));
    let report = game.sweep(0, 0).unwrap();
    assert_eq!(report.revealed, vec![0, 1]);
    assert_eq!(game.mine_state(2, 0), Some(MineState::Flag));
    assert_eq!(game.mine_state(3, 0), Some(MineState::Empty));
    // a flagged or questioned cell is not swept
    assert!(game.sweep(2, 0).is_none());
    assert_eq!(game.cycle_mark(2, 0), Some(MineState::Question));
    assert!(game.sweep(2, 0).is_none());
    assert_eq!(game.cycle_mark(2, 0), Some(MineState::Empty));
    let report = game.sweep(2, 0).unwrap();
    assert_eq!(report.revealed, vec![2, 3]);
    assert_eq!(game.status(), GameStatus::Won);
}

#[test]
fn sweep_off_the_board_or_twice_does_nothing() {
    let mut game = game_with(3, 3, &[(2, 2)]);
    assert!(game.sweep(-1, 0).is_none());
    assert!(game.sweep(0, -1).is_none());
    assert!(game.sweep(3, 0).is_none());
    assert!(game.sweep(0, 3).is_none());
    assert!(game.sweep(i32::MAX, i32::MAX).is_none());
    assert!(game.sweep(1, 1).is_some());
    assert!(game.sweep(1, 1).is_none());
    assert_eq!(game.status(), GameStatus::InProgress);
}

#[test]
fn sweep_off_the_board_lays_no_mines() {
    let mut game = Minesweeper::new();
    assert!(game.sweep(16, 0).is_none());
    assert_eq!(game.compute_mine_reveal_order(0, 0), None);
}

#[test]
fn hitting_a_mine_reveals_it_alone_and_loses() {
    let mut game = game_with(4, 4, &[(1, 1), (3, 3)]);
    let report = game.sweep(1, 1).unwrap();
    assert!(report.hit_mine);
    assert_eq!(report.revealed, vec![5]);
    assert_eq!(game.status(), GameStatus::Lost);
    assert!(game.game_over());
    assert_eq!(game.neighbor_count(1, 1), Some(-1));
    for x in 0..4 {
        for y in 0..4 {
            if (x, y) != (1, 1) {
                assert_eq!(game.mine_state(x, y), Some(MineState::Empty));
            }
        }
    }
}

#[test]
fn a_lost_game_stays_lost() {
    let mut game = game_with(2, 2, &[(0, 0)]);
    assert!(game.sweep(0, 0).unwrap().hit_mine);
    assert_eq!(game.status(), GameStatus::Lost);
    // the engine still sweeps when asked, but the game has ended
    for (x, y) in [(1, 0), (0, 1), (1, 1)] {
        let report = game.sweep(x, y).unwrap();
        assert!(!report.hit_mine);
        assert_eq!(game.status(), GameStatus::Lost);
    }
    // no cell is hidden, so the hidden cells are not as many as the mines
    assert!(!game.check_if_won());
    assert_eq!(game.status(), GameStatus::Lost);
}

#[test]
fn eight_by_eight_with_five_mines_is_won_after_59_cells() {
    let mines = [(0, 0), (7, 7), (3, 4), (4, 3), (6, 1)];
    let mut game = game_with(8, 8, &mines);
    let mut revealed = 0;
    for x in 0..8 {
        for y in 0..8 {
            if mines.contains(&(x, y)) {
                continue;
            }
            assert!(!game.check_if_won());
            assert_eq!(game.status(), GameStatus::InProgress);
            if let Some(report) = game.sweep(x, y) {
                assert!(!report.hit_mine);
                revealed += report.revealed.len();
            }
            if revealed == 59 {
                break;
            }
        }
        if revealed == 59 {
            break;
        }
    }
    assert_eq!(revealed, 59);
    assert!(game.check_if_won());
    assert_eq!(game.status(), GameStatus::Won);
}

#[test]
fn won_means_hidden_cells_equal_mines() {
    let mut game = game_with(3, 1, &[(2, 0)]);
    assert!(!game.check_if_won());
    assert_eq!(game.sweep(1, 0).unwrap().revealed, vec![1]);
    assert!(!game.check_if_won());
    assert_eq!(game.sweep(0, 0).unwrap().revealed, vec![0]);
    assert!(game.check_if_won());
    // one hidden cell, one mine, also when the hidden cell is flagged
    assert_eq!(game.cycle_mark(2, 0), Some(MineState::Flag));
    assert!(game.check_if_won());
}

#[test]
fn first_sweep_is_never_a_mine() {
    for (width, height, mines) in [(2, 1, 1), (3, 3, 8), (4, 5, 7), (8, 8, 63), (9, 9, 10)] {
        for x in 0..width {
            for y in 0..height {
                for _ in 0..5 {
                    let mut game = Minesweeper::new();
                    assert_eq!(game.new_game(width, height, mines), Ok(()));
                    let report = game.sweep(x, y).unwrap();
                    assert!(!report.hit_mine);
                    assert_eq!(report.revealed[0], (x * height + y) as usize);
                    let count = game.neighbor_count(x, y).unwrap();
                    assert!((0..=8).contains(&count));
                    let (mine_indices, _) = game.compute_mine_reveal_order(x, y).unwrap();
                    assert_eq!(mine_indices.len(), mines as usize);
                    assert!(!mine_indices.contains(&((x * height + y) as usize)));
                }
            }
        }
    }
}

#[test]
fn random_mines_are_as_many_as_asked_and_distinct() {
    for mines in [1, 2, 17, 40, 128, 254, 255] {
        let mut game = Minesweeper::new();
        assert_eq!(game.new_game(16, 16, mines), Ok(()));
        assert!(game.sweep(7, 9).is_some());
        let (mine_indices, rings) = game.compute_mine_reveal_order(7, 9).unwrap();
        assert_eq!(mine_indices.len(), mines as usize);
        let mut seen = vec![false; 256];
        for &index in &mine_indices {
            assert!(index < 256);
            assert!(!seen[index]);
            seen[index] = true;
        }
        assert!(!seen[7 * 16 + 9]);
        assert_eq!(rings.iter().sum::<i32>(), mines);
    }
}

#[test]
fn random_game_counts_are_true() {
    for _ in 0..20 {
        let mut game = Minesweeper::new();
        assert_eq!(game.new_game(10, 7, 12), Ok(()));
        assert!(game.sweep(4, 3).is_some());
        let (mine_indices, _) = game.compute_mine_reveal_order(4, 3).unwrap();
        let mines: Vec<(i32, i32)> =
            mine_indices.iter().map(|&index| (index as i32 / 7, index as i32 % 7)).collect();
        for x in 0..10 {
            for y in 0..7 {
                if !mines.contains(&(x, y)) {
                    game.sweep(x, y);
                    assert_eq!(game.neighbor_count(x, y), Some(mines_around(&mines, x, y)));
                }
            }
        }
        assert_eq!(game.status(), GameStatus::Won);
    }
}
