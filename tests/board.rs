use game_of_life::board::GameBoard;

fn board_with(width: usize, height: usize, cells: &[(usize, usize)]) -> GameBoard {
    let mut b = GameBoard::new(width, height, false);
    for &(x, y) in cells {
        b.set(x, y, true);
    }
    b
}

fn live_set(b: &GameBoard) -> Vec<(usize, usize)> {
    let mut v = b.live_cells();
    v.sort();
    v
}

fn sorted(cells: &[(usize, usize)]) -> Vec<(usize, usize)> {
    let mut v = cells.to_vec();
    v.sort();
    v
}

#[test]
fn new_without_random_is_all_dead() {
    let b = GameBoard::new(7, 4, false);
    assert_eq!(b.width(), 7);
    assert_eq!(b.height(), 4);
    for y in 0..4 {
        for x in 0..7 {
            assert!(!b.get(x, y));
        }
    }
}

#[test]
fn dead_board_is_fixed_point() {
    let mut b = GameBoard::new(5, 5, false);
    b.update();
    assert_eq!(b.width(), 5);
    assert_eq!(b.height(), 5);
    assert!(b.live_cells().is_empty());
}

#[test]
fn random_board_has_requested_shape() {
    let mut b = GameBoard::new(9, 3, true);
    assert_eq!(b.width(), 9);
    assert_eq!(b.height(), 3);
    b.update();
    assert_eq!(b.width(), 9);
    assert_eq!(b.height(), 3);
    assert!(!b.get(9, 0));
    assert!(!b.get(0, 3));
}

#[test]
fn empty_board_operations_are_no_ops() {
    let mut b = GameBoard::new(0, 0, true);
    b.set(0, 0, true);
    b.update();
    b.recreate(true);
    assert_eq!(b.height(), 0);
    assert_eq!(b.width(), 0);
    assert!(!b.get(0, 0));
    assert!(b.live_cells().is_empty());
}

#[test]
fn set_then_get_in_range() {
    let mut b = GameBoard::new(4, 3, false);
    b.set(3, 2, true);
    assert!(b.get(3, 2));
    assert_eq!(b.live_cells(), vec![(3, 2)]);
    b.set(3, 2, false);
    assert!(!b.get(3, 2));
    assert!(b.live_cells().is_empty());
}

#[test]
fn set_out_of_range_is_ignored() {
    let mut b = board_with(4, 3, &[(1, 1)]);
    b.set(4, 0, true);
    b.set(0, 3, true);
    b.set(usize::MAX, usize::MAX, true);
    assert_eq!(b.live_cells(), vec![(1, 1)]);
}

#[test]
fn live_cells_are_row_major() {
    let b = board_with(3, 3, &[(2, 2), (0, 1), (2, 0), (1, 0)]);
    assert_eq!(b.live_cells(), vec![(1, 0), (2, 0), (0, 1), (2, 2)]);
}

#[test]
fn neighbor_count_excludes_self() {
    let b = board_with(3, 3, &[(0, 0), (1, 0), (2, 0), (0, 1), (1, 1), (2, 1), (0, 2), (1, 2), (2, 2)]);
    assert_eq!(b.get_neighbor_count(1, 1), 8);
    assert_eq!(b.get_neighbor_count(0, 0), 3);
    assert_eq!(b.get_neighbor_count(2, 1), 5);
    let c = board_with(3, 3, &[(1, 1)]);
    assert_eq!(c.get_neighbor_count(1, 1), 0);
    assert_eq!(c.get_neighbor_count(0, 0), 1);
}

#[test]
fn corner_cell_has_three_neighbors_at_most() {
    let b = board_with(4, 4, &[(0, 0)]);
    assert_eq!(b.get_neighbor_count(0, 0), 0);
    let full = board_with(2, 2, &[(0, 0), (1, 0), (0, 1), (1, 1)]);
    assert_eq!(full.get_neighbor_count(0, 0), 3);
    assert_eq!(full.get_neighbor_count(1, 1), 3);
    let mut lone = board_with(4, 4, &[(0, 0)]);
    lone.update();
    assert!(lone.live_cells().is_empty());
}

#[test]
fn neighbor_count_at_far_edges() {
    let b = board_with(3, 2, &[(0, 0), (1, 0), (2, 0), (0, 1), (1, 1), (2, 1)]);
    assert_eq!(b.get_neighbor_count(2, 1), 3);
    assert_eq!(b.get_neighbor_count(1, 1), 5);
}

#[test]
fn glider_moves_diagonally_after_four_steps() {
    let start = [(1, 0), (2, 1), (0, 2), (1, 2), (2, 2)];
    let mut b = board_with(6, 6, &start);
    for _ in 0..4 {
        b.update();
    }
    let moved: Vec<(usize, usize)> = start.iter().map(|&(x, y)| (x + 1, y + 1)).collect();
    assert_eq!(live_set(&b), sorted(&moved));
}

#[test]
fn glider_first_step() {
    let mut b = board_with(6, 6, &[(1, 0), (2, 1), (0, 2), (1, 2), (2, 2)]);
    b.update();
    assert_eq!(live_set(&b), sorted(&[(0, 1), (2, 1), (1, 2), (2, 2), (1, 3)]));
}

#[test]
fn block_is_still_life() {
    let block = [(3, 3), (4, 3), (3, 4), (4, 4)];
    let mut b = board_with(8, 8, &block);
    for _ in 0..5 {
        b.update();
        assert_eq!(live_set(&b), sorted(&block));
    }
}

#[test]
fn block_in_corner_is_still_life() {
    let block = [(0, 0), (1, 0), (0, 1), (1, 1)];
    let mut b = board_with(4, 4, &block);
    b.update();
    b.update();
    assert_eq!(live_set(&b), sorted(&block));
}

#[test]
fn blinker_oscillates() {
    let across = [(2, 3), (3, 3), (4, 3)];
    let down = [(3, 2), (3, 3), (3, 4)];
    let mut b = board_with(7, 7, &across);
    b.update();
    assert_eq!(live_set(&b), sorted(&down));
    b.update();
    assert_eq!(live_set(&b), sorted(&across));
}

#[test]
fn recreate_clear_after_steps_and_edits() {
    let mut b = GameBoard::new(6, 5, true);
    b.update();
    b.set(2, 2, true);
    b.update();
    b.recreate(false);
    assert_eq!(b.width(), 6);
    assert_eq!(b.height(), 5);
    assert!(b.live_cells().is_empty());
}

#[test]
fn recreate_random_keeps_shape() {
    let mut b = board_with(5, 4, &[(1, 1)]);
    b.recreate(true);
    assert_eq!(b.width(), 5);
    assert_eq!(b.height(), 4);
}

#[test]
fn neighbor_count_on_boards_without_cells() {
    let b = GameBoard::new(0, 0, false);
    assert_eq!(b.get_neighbor_count(0, 0), 0);
    let c = GameBoard::new(0, 3, true);
    assert_eq!(c.get_neighbor_count(0, 1), 0);
    let d = GameBoard::new(usize::MAX, 0, false);
    assert_eq!(d.height(), 0);
    assert_eq!(d.get_neighbor_count(5, 5), 0);
}

#[test]
fn neighbor_count_off_the_board() {
    let b = board_with(3, 3, &[(0, 0), (1, 0), (2, 0), (0, 1), (1, 1), (2, 1), (0, 2), (1, 2), (2, 2)]);
    assert_eq!(b.get_neighbor_count(3, 1), 3);
    assert_eq!(b.get_neighbor_count(3, 3), 1);
    assert_eq!(b.get_neighbor_count(4, 1), 0);
    assert_eq!(b.get_neighbor_count(usize::MAX, usize::MAX), 0);
}

#[test]
fn fill_from_copies_draws() {
    let mut b = board_with(3, 2, &[(0, 0)]);
    let draws = vec![vec![false, true, false], vec![true, true, false]];
    b.fill_from(&draws);
    assert_eq!(b.live_cells(), vec![(1, 0), (0, 1), (1, 1)]);
    b.fill_from(&vec![vec![false; 3]; 2]);
    assert!(b.live_cells().is_empty());
}
