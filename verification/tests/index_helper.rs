use minesweeper::board::MineState;
use minesweeper::minesweeper::IndexHelper;

#[test]
fn index_is_column_major() {
    let helper = IndexHelper::new(3, 5);
    assert_eq!(helper.compute_index(0, 0), 0);
    assert_eq!(helper.compute_index(0, 4), 4);
    assert_eq!(helper.compute_index(1, 0), 5);
    assert_eq!(helper.compute_index(2, 3), 13);
    assert_eq!(helper.compute_index(2, 4), 14);
}

#[test]
fn coordinates_come_back_from_index() {
    let helper = IndexHelper::new(4, 7);
    for x in 0..4 {
        for y in 0..7 {
            let index = helper.compute_index(x, y);
            assert!(index < 28);
            assert_eq!(helper.compute_x_from_index(index), x);
            assert_eq!(helper.compute_y_from_index(index), y);
        }
    }
    assert_eq!(helper.compute_x_from_index(27), 3);
    assert_eq!(helper.compute_y_from_index(27), 6);
}

#[test]
fn bounds() {
    let helper = IndexHelper::new(16, 9);
    assert!(helper.is_in_bounds(0, 0));
    assert!(helper.is_in_bounds(15, 8));
    assert!(!helper.is_in_bounds(16, 0));
    assert!(!helper.is_in_bounds(0, 9));
    assert!(!helper.is_in_bounds(-1, 0));
    assert!(!helper.is_in_bounds(0, -1));
    assert!(!helper.is_in_bounds(i32::MAX, i32::MIN));
}

#[test]
fn empty_helper_has_no_cells() {
    let helper = IndexHelper::new(0, 0);
    assert!(!helper.is_in_bounds(0, 0));
}

#[test]
fn marks_cycle() {
    assert_eq!(MineState::Empty.cycle(), MineState::Flag);
    assert_eq!(MineState::Flag.cycle(), MineState::Question);
    assert_eq!(MineState::Question.cycle(), MineState::Empty);
}

#[test]
fn three_cycles_are_none() {
    for state in [MineState::Empty, MineState::Flag, MineState::Question] {
        assert_eq!(state.cycle().cycle().cycle(), state);
        assert_ne!(state.cycle(), state);
        assert_ne!(state.cycle().cycle(), state);
    }
}
