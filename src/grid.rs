//! A game held as a plain grid of `bool` rows, its size fixed by a `GameConfig`.

use vstd::prelude::*;
use crate::bits::random_bit;
use crate::life::{
    all_dead, in_grid, lemma_full_window, neighbor_count, next_cell, row_window, rows_have_len, step, window,
    with_cell,
};

verus! {

/// The size of the game: its grid in cells and the edge of a cell in pixels.
pub struct GameConfig {
    pub game_width: i32,
    pub game_height: i32,
    pub tile_size: i32,
}

impl GameConfig {
    /// The standard game: 190 by 100 cells of 10 pixels.
    pub fn new() -> (r: GameConfig)
        ensures
            r.game_width == 190,
            r.game_height == 100,
            r.tile_size == 10,
    {
        GameConfig { game_width: 190, game_height: 100, tile_size: 10 }
    }
}

/// The cells of a grid of rows.
pub open spec fn grid_of(board: Vec<Vec<bool>>) -> Seq<Seq<bool>> {
    board@.map_values(|r: Vec<bool>| r@)
}

/// `board` has `game_height` rows of `game_width` cells.
pub open spec fn fits(board: Vec<Vec<bool>>, config: GameConfig) -> bool {
    &&& config.game_width >= 0
    &&& config.game_height >= 0
    &&& grid_of(board).len() == config.game_height
    &&& rows_have_len(grid_of(board), config.game_width as int)
}

/// A grid of the configured size; each cell is drawn at random when `random`
/// holds, and dead otherwise. A negative size gives no rows or no cells.
pub fn new_board(random: bool, config: &GameConfig) -> (r: Vec<Vec<bool>>)
    ensures
        grid_of(r).len() == if config.game_height < 0 { 0 } else { config.game_height as int },
        rows_have_len(grid_of(r), if config.game_width < 0 { 0 } else { config.game_width as int }),
        !random ==> all_dead(grid_of(r)),
{
    let mut vec: Vec<Vec<bool>> = Vec::new();
    let mut y: i32 = 0;
    while y < config.game_height
        invariant
            0 <= y,
            config.game_height >= 0 ==> y <= config.game_height,
            config.game_height < 0 ==> y == 0,
            vec@.len() == y,
            forall|j: int| 0 <= j < y ==> #[trigger] vec@[j]@.len()
                == if config.game_width < 0 { 0 } else { config.game_width as int },
            !random ==> forall|j: int, i: int|
                0 <= j < y && 0 <= i < vec@[j]@.len() ==> !#[trigger] vec@[j]@[i],
        decreases config.game_height - y,
    {
        let mut vec_row: Vec<bool> = Vec::new();
        let mut x: i32 = 0;
        while x < config.game_width
            invariant
                0 <= x,
                config.game_width >= 0 ==> x <= config.game_width,
                config.game_width < 0 ==> x == 0,
                vec_row@.len() == x,
                !random ==> forall|i: int| 0 <= i < x ==> !#[trigger] vec_row@[i],
            decreases config.game_width - x,
        {
            if random {
                vec_row.push(random_bit());
            } else {
                vec_row.push(false);
            }
            x = x + 1;
        }
        vec.push(vec_row);
        y = y + 1;
    }
    vec
}

/// The live cells among the eight around `(x, y)` that lie on the grid.
/// `(x, y)` itself need not lie on it.
pub fn get_surroundings(board: &Vec<Vec<bool>>, config: &GameConfig, x: i32, y: i32) -> (r: i32)
    requires
        fits(*board, *config),
        i32::MIN < x < i32::MAX,
        i32::MIN < y < i32::MAX,
    ensures
        r == neighbor_count(grid_of(*board), x as int, y as int),
        0 <= r <= 8,
{
    let ghost g = grid_of(*board);
    let mut alive: i32 = 0;
    let mut dy: i32 = -1;
    while dy <= 1
        invariant
            fits(*board, *config),
            g == grid_of(*board),
            i32::MIN < x < i32::MAX,
            i32::MIN < y < i32::MAX,
            -1 <= dy <= 2,
            alive == window(g, x as int, y as int, y - 1, y + dy, x - 1, x + 2),
            0 <= alive <= 3 * (dy + 1),
        decreases 2 - dy,
    {
        let board_y = y + dy;
        let mut dx: i32 = -1;
        while dx <= 1
            invariant
                fits(*board, *config),
                g == grid_of(*board),
                i32::MIN < x < i32::MAX,
                i32::MIN < y < i32::MAX,
                -1 <= dy <= 1,
                board_y == y + dy,
                -1 <= dx <= 2,
                alive == window(g, x as int, y as int, y - 1, y + dy, x - 1, x + 2)
                    + row_window(g, x as int, y as int, board_y as int, x - 1, x + dx),
                0 <= alive <= 3 * (dy + 1) + (dx + 1),
            decreases 2 - dx,
        {
            let board_x = x + dx;
            if !(board_x < 0 || board_x >= config.game_width || board_y < 0 || board_y >= config.game_height)
                && !(board_x == x && board_y == y) {
                assert(g[board_y as int].len() == config.game_width);
                if board[board_y as usize][board_x as usize] {
                    alive = alive + 1;
                }
            }
            dx = dx + 1;
        }
        dy = dy + 1;
    }
    proof {
        lemma_full_window(g, x as int, y as int);
    }
    alive
}

/// The grid of the next generation: every cell is computed from `board`,
/// which is left as it is.
pub fn next_board(board: &Vec<Vec<bool>>, config: &GameConfig) -> (r: Vec<Vec<bool>>)
    requires
        fits(*board, *config),
    ensures
        grid_of(r) == step(grid_of(*board)),
{
    let ghost g = grid_of(*board);
    let ghost w = config.game_width as int;
    let ghost h = config.game_height as int;
    let mut new_game_board = new_board(false, config);
    let mut y: i32 = 0;
    while y < config.game_height
        invariant
            fits(*board, *config),
            g == grid_of(*board),
            w == config.game_width,
            h == config.game_height,
            0 <= y <= h,
            grid_of(new_game_board).len() == h,
            rows_have_len(grid_of(new_game_board), w),
            forall|j: int, i: int| 0 <= j < h && 0 <= i < w ==>
                #[trigger] grid_of(new_game_board)[j][i] == (j < y && next_cell(g, i, j)),
        decreases h - y,
    {
        let mut x: i32 = 0;
        while x < config.game_width
            invariant
                fits(*board, *config),
                g == grid_of(*board),
                w == config.game_width,
                h == config.game_height,
                0 <= y < h,
                0 <= x <= w,
                grid_of(new_game_board).len() == h,
                rows_have_len(grid_of(new_game_board), w),
                forall|j: int, i: int| 0 <= j < h && 0 <= i < w ==>
                    #[trigger] grid_of(new_game_board)[j][i]
                        == ((j < y || (j == y && i < x)) && next_cell(g, i, j)),
            decreases w - x,
        {
            let alive = get_surroundings(board, config, x, y);

            let yu = y as usize;
            let xu = x as usize;
            assert(g[y as int].len() == w);
            assert(grid_of(new_game_board)[y as int].len() == w);
            let ghost before = grid_of(new_game_board);

            let v = if board[yu][xu] {
                if alive < 2 || alive > 3 {
                    false
                } else {
                    true
                }
            } else {
                if alive == 3 {
                    true
                } else {
                    false
                }
            };
            new_game_board[yu][xu] = v;
            assert(grid_of(new_game_board) =~= before.update(y as int, before[y as int].update(x as int, v)));
            x = x + 1;
        }
        y = y + 1;
    }
    assert forall|j: int| 0 <= j < h implies #[trigger] grid_of(new_game_board)[j] =~= step(g)[j] by {
        assert(grid_of(new_game_board)[j].len() == w);
        assert(g[j].len() == w);
    }
    assert(grid_of(new_game_board) =~= step(g));
    new_game_board
}

/// Sets the cell at `(tile_x, tile_y)` to `value`; a position off the grid
/// is ignored.
pub fn set_tile(board: &mut Vec<Vec<bool>>, config: &GameConfig, tile_x: usize, tile_y: usize, value: bool)
    requires
        fits(*old(board), *config),
    ensures
        fits(*final(board), *config),
        grid_of(*final(board)) == with_cell(grid_of(*old(board)), tile_x as int, tile_y as int, value),
{
    let ghost g = grid_of(*board);
    if tile_x >= config.game_width as usize || tile_y >= config.game_height as usize {
        assert(!in_grid(g, tile_x as int, tile_y as int)) by {
            if 0 <= tile_y < g.len() {
                assert(g[tile_y as int].len() == config.game_width);
            }
        }
        return;
    }
    assert(g[tile_y as int].len() == config.game_width);
    board[tile_y][tile_x] = value;
    assert(grid_of(*board) =~= with_cell(g, tile_x as int, tile_y as int, value));
}

} // verus!
