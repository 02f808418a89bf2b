use game_of_life::grid::{get_surroundings, new_board, next_board, set_tile, GameConfig};

fn config(w: i32, h: i32) -> GameConfig {
    GameConfig { game_width: w, game_height: h, tile_size: 10 }
}

fn grid_with(c: &GameConfig, cells: &[(usize, usize)]) -> Vec<Vec<bool>> {
    let mut g = new_board(false, c);
    for &(x, y) in cells {
        set_tile(&mut g, c, x, y, true);
    }
    g
}

fn live(g: &Vec<Vec<bool>>) -> Vec<(usize, usize)> {
    let mut v = Vec::new();
    for (y, row) in g.iter().enumerate() {
        for (x, &c) in row.iter().enumerate() {
            if c {
                v.push((x, y));
            }
        }
    }
    v
}

#[test]
fn standard_config() {
    let c = GameConfig::new();
    assert_eq!(c.game_width, 190);
    assert_eq!(c.game_height, 100);
    assert_eq!(c.tile_size, 10);
}

#[test]
fn new_board_shapes() {
    let c = config(4, 3);
    let g = new_board(false, &c);
    assert_eq!(g.len(), 3);
    assert!(g.iter().all(|r| r.len() == 4 && r.iter().all(|&b| !b)));
    let r = new_board(true, &c);
    assert_eq!(r.len(), 3);
    assert!(r.iter().all(|row| row.len() == 4));
    assert!(new_board(false, &config(-2, 5)).iter().all(|row| row.is_empty()));
    assert!(new_board(false, &config(3, -1)).is_empty());
}

#[test]
fn surroundings_count() {
    let c = config(3, 3);
    let g = grid_with(&c, &[(0, 0), (1, 0), (2, 0), (0, 1), (1, 1), (2, 1), (0, 2), (1, 2), (2, 2)]);
    assert_eq!(get_surroundings(&g, &c, 1, 1), 8);
    assert_eq!(get_surroundings(&g, &c, 0, 0), 3);
    assert_eq!(get_surroundings(&g, &c, 2, 1), 5);
    assert_eq!(get_surroundings(&g, &c, -1, -1), 1);
    assert_eq!(get_surroundings(&g, &c, 3, 1), 3);
    assert_eq!(get_surroundings(&g, &c, 10, 10), 0);
}

#[test]
fn set_tile_in_and_out_of_range() {
    let c = config(3, 2);
    let mut g = new_board(false, &c);
    set_tile(&mut g, &c, 2, 1, true);
    set_tile(&mut g, &c, 3, 0, true);
    set_tile(&mut g, &c, 0, 2, true);
    assert_eq!(live(&g), vec![(2, 1)]);
    set_tile(&mut g, &c, 2, 1, false);
    assert!(live(&g).is_empty());
}

#[test]
fn next_board_blinker() {
    let c = config(5, 5);
    let g = grid_with(&c, &[(1, 2), (2, 2), (3, 2)]);
    let n = next_board(&g, &c);
    assert_eq!(live(&n), vec![(2, 1), (2, 2), (2, 3)]);
    assert_eq!(live(&next_board(&n, &c)), vec![(1, 2), (2, 2), (3, 2)]);
    assert_eq!(live(&g), vec![(1, 2), (2, 2), (3, 2)]);
}

#[test]
fn next_board_glider() {
    let c = config(6, 6);
    let mut g = grid_with(&c, &[(1, 0), (2, 1), (0, 2), (1, 2), (2, 2)]);
    for _ in 0..4 {
        g = next_board(&g, &c);
    }
    assert_eq!(live(&g), vec![(2, 1), (3, 2), (1, 3), (2, 3), (3, 3)]);
}

#[test]
fn next_board_dead_and_block() {
    let c = config(4, 4);
    let dead = new_board(false, &c);
    assert_eq!(next_board(&dead, &c), dead);
    let block = grid_with(&c, &[(2, 2), (3, 2), (2, 3), (3, 3)]);
    assert_eq!(next_board(&block, &c), block);
}

#[test]
fn surroundings_near_the_i32_limits() {
    let c = config(3, 3);
    let g = grid_with(&c, &[(0, 0), (2, 2)]);
    assert_eq!(get_surroundings(&g, &c, i32::MAX - 1, 0), 0);
    assert_eq!(get_surroundings(&g, &c, i32::MIN + 1, i32::MIN + 1), 0);
    assert_eq!(get_surroundings(&g, &c, 0, i32::MAX - 1), 0);
    assert_eq!(get_surroundings(&g, &c, 1, 1), 2);
}
