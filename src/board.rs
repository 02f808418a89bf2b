//! A board of cells stored row by row in bit vectors.

use vstd::prelude::*;
use crate::bits::{bits_get, bits_len, bits_new, bits_of, bits_push, bits_set, max_bits, random_bit, BitRow};
use crate::grid::grid_of;
use crate::life::{
    alive_at, all_dead, is_rectangular, live_in_row, live_in_rows, live_positions, neighbor_count,
    next_cell, pos_int, row_window, rows_have_len, same_shape, step, width_of, window, with_cell,
};

verus! {

/// The edge of one cell on screen, in pixels.
pub const TILE_SIZE: usize = 5;

/// A fixed-size grid of cells, one bit vector per row.
pub struct GameBoard {
    board: Vec<BitRow>,
}

impl View for GameBoard {
    type V = Seq<Seq<bool>>;

    closed spec fn view(&self) -> Seq<Seq<bool>> {
        self.board@.map_values(|r: BitRow| bits_of(r))
    }
}

/// Counting over the neighbourhood cut to the grid's edges gives the count
/// over the whole neighbourhood, for any position on or off a grid with rows.
proof fn lemma_clamped_window(g: Seq<Seq<bool>>, x: int, y: int, ylo: int, yhi: int, xlo: int, xhi: int)
    requires
        is_rectangular(g),
        g.len() > 0,
        width_of(g) > 0,
        0 <= x,
        0 <= y,
        ylo == if y == 0 { 0 } else { y - 1 },
        yhi == if y + 2 <= g.len() { y + 2 } else { g.len() as int },
        xlo == if x == 0 { 0 } else { x - 1 },
        xhi == if x + 2 <= width_of(g) { x + 2 } else { width_of(g) },
    ensures
        window(g, x, y, ylo, yhi, xlo, xhi) == neighbor_count(g, x, y),
{
    reveal_with_fuel(window, 4);
    reveal_with_fuel(row_window, 4);
    if 0 <= y - 1 < g.len() {
        assert(g[y - 1].len() == width_of(g));
    }
    if y < g.len() {
        assert(g[y].len() == width_of(g));
    }
    if y + 1 < g.len() {
        assert(g[y + 1].len() == width_of(g));
    }
}

/// `height` rows of `width` values: each drawn at random when `random`
/// holds, and false otherwise.
fn draw_rows(width: usize, height: usize, random: bool) -> (r: Vec<Vec<bool>>)
    ensures
        grid_of(r).len() == height,
        rows_have_len(grid_of(r), width as int),
        !random ==> all_dead(grid_of(r)),
{
    let mut rows: Vec<Vec<bool>> = Vec::new();
    let mut y: usize = 0;
    while y < height
        invariant
            y <= height,
            rows@.len() == y,
            forall|j: int| 0 <= j < y ==> #[trigger] rows@[j]@.len() == width,
            !random ==> forall|j: int, i: int| 0 <= j < y && 0 <= i < width ==> !#[trigger] rows@[j]@[i],
        decreases height - y,
    {
        let mut row: Vec<bool> = Vec::new();
        let mut x: usize = 0;
        while x < width
            invariant
                x <= width,
                row@.len() == x,
                !random ==> forall|i: int| 0 <= i < x ==> !#[trigger] row@[i],
            decreases width - x,
        {
            if random {
                row.push(random_bit());
            } else {
                row.push(false);
            }
            x = x + 1;
        }
        rows.push(row);
        y = y + 1;
    }
    let r = rows;
    assert(rows_have_len(grid_of(r), width as int));
    r
}

impl GameBoard {
    /// The rows are of one length, short enough for a bit vector to hold.
    pub open spec fn wf(&self) -> bool {
        is_rectangular(self@) && width_of(self@) <= max_bits()
    }

    /// A board of `height` rows of `width` cells; each cell is drawn at random
    /// when `random` holds, and dead otherwise.
    pub fn new(width: usize, height: usize, random: bool) -> (r: Self)
        requires
            height == 0 || width <= max_bits(),
        ensures
            r.wf(),
            r@.len() == height,
            rows_have_len(r@, width as int),
            !random ==> all_dead(r@),
    {
        let mut vec: Vec<BitRow> = Vec::new();
        let mut y: usize = 0;
        while y < height
            invariant
                y <= height,
                height == 0 || width <= max_bits(),
                vec@.len() == y,
                forall|j: int| 0 <= j < y ==> #[trigger] bits_of(vec@[j]).len() == width,
                forall|j: int, i: int| 0 <= j < y && 0 <= i < width ==> !#[trigger] bits_of(vec@[j])[i],
            decreases height - y,
        {
            let mut vec_row = bits_new();
            let mut x: usize = 0;
            while x < width
                invariant
                    x <= width,
                    width <= max_bits(),
                    bits_of(vec_row).len() == x,
                    forall|i: int| 0 <= i < x ==> !#[trigger] bits_of(vec_row)[i],
                decreases width - x,
            {
                bits_push(&mut vec_row, false);
                x = x + 1;
            }
            vec.push(vec_row);
            y = y + 1;
        }
        let mut r = GameBoard { board: vec };
        assert(rows_have_len(r@, width as int));
        if random {
            let draws = draw_rows(width, height, true);
            r.fill_from(&draws);
        }
        r
    }

    /// Overwrites every cell with the value at the same place in `draws`,
    /// which has the board's shape.
    pub fn fill_from(&mut self, draws: &Vec<Vec<bool>>)
        requires
            old(self).wf(),
            same_shape(grid_of(*draws), old(self)@),
        ensures
            final(self).wf(),
            final(self)@ == grid_of(*draws),
    {
        let ghost g0 = self@;
        let ghost d = grid_of(*draws);
        let mut y: usize = 0;
        while y < self.board.len()
            invariant
                y <= self@.len(),
                d == grid_of(*draws),
                same_shape(self@, g0),
                same_shape(d, g0),
                forall|j: int| 0 <= j < y ==> #[trigger] self@[j] == d[j],
            decreases self@.len() - y,
        {
            let mut x: usize = 0;
            while x < bits_len(&self.board[y])
                invariant
                    y < self@.len(),
                    x <= self@[y as int].len(),
                    d == grid_of(*draws),
                    same_shape(self@, g0),
                    same_shape(d, g0),
                    forall|j: int| 0 <= j < y ==> #[trigger] self@[j] == d[j],
                    forall|i: int| 0 <= i < x ==> #[trigger] self@[y as int][i] == d[y as int][i],
                decreases self@[y as int].len() - x,
            {
                assert(d[y as int].len() == self@[y as int].len());
                let b = draws[y][x];
                let ghost before = self@;
                bits_set(&mut self.board[y], x, b);
                assert(self@ == before.update(y as int, before[y as int].update(x as int, b)));
                x = x + 1;
            }
            assert(self@[y as int] =~= d[y as int]);
            y = y + 1;
        }
        assert(self@ =~= d);
    }

    /// Sets the cell at column `x` of row `y` to `value`; a position off the
    /// board is ignored.
    pub fn set(&mut self, x: usize, y: usize, value: bool)
        requires
            old(self).wf(),
        ensures
            final(self).wf(),
            final(self)@ == with_cell(old(self)@, x as int, y as int, value),
    {
        if y < self.board.len() && x < bits_len(&self.board[y]) {
            bits_set(&mut self.board[y], x, value);
            assert(self@ =~= with_cell(old(self)@, x as int, y as int, value));
        }
    }

    /// The number of rows.
    pub fn height(&self) -> (r: usize)
        ensures
            r == self@.len(),
    {
        self.board.len()
    }

    /// The number of cells in a row (zero for a board without rows).
    pub fn width(&self) -> (r: usize)
        requires
            self.wf(),
        ensures
            r == width_of(self@),
    {
        if self.board.len() == 0 {
            0
        } else {
            bits_len(&self.board[0])
        }
    }

    /// Whether the cell at column `x` of row `y` is alive; false off the board.
    pub fn get(&self, x: usize, y: usize) -> (r: bool)
        ensures
            r == alive_at(self@, x as int, y as int),
    {
        if y < self.board.len() && x < bits_len(&self.board[y]) {
            bits_get(&self.board[y], x)
        } else {
            false
        }
    }

    /// Redraws every cell at random when `random` holds, and kills it
    /// otherwise; the shape of the board stays.
    pub fn recreate(&mut self, random: bool)
        requires
            old(self).wf(),
        ensures
            final(self).wf(),
            same_shape(final(self)@, old(self)@),
            !random ==> all_dead(final(self)@),
    {
        let w = self.width();
        let h = self.board.len();
        let draws = draw_rows(w, h, random);
        assert(same_shape(grid_of(draws), self@)) by {
            assert forall|j: int| 0 <= j < h implies #[trigger] grid_of(draws)[j].len() == self@[j].len() by {
                assert(self@[j].len() == width_of(self@));
            }
        }
        self.fill_from(&draws);
    }

    /// The live cells around column `x` of row `y`, the neighbourhood cut
    /// at the board's edges. The position may lie off the board; on a board
    /// without cells the count is zero.
    pub fn get_neighbor_count(&self, x: usize, y: usize) -> (r: u32)
        requires
            self.wf(),
        ensures
            r == neighbor_count(self@, x as int, y as int),
            r <= 8,
    {
        let ghost g = self@;
        let h = self.board.len();
        if h == 0 {
            return 0;
        }
        let w = bits_len(&self.board[0]);
        if w == 0 {
            assert(neighbor_count(g, x as int, y as int) == 0) by {
                assert(forall|j: int| 0 <= j < h ==> #[trigger] g[j].len() == 0);
            }
            return 0;
        }
        let mut alive: u32 = 0;

        let y_min = if y >= 1 { y - 1 } else { 0 };
        let y_end = if y < h - 1 { y + 2 } else { h };
        let x_min = if x >= 1 { x - 1 } else { 0 };
        let x_end = if x < w - 1 { x + 2 } else { w };

        let mut board_y = y_min;
        while board_y < y_end
            invariant
                y_min <= board_y,
                board_y <= y_end || board_y == y_min,
                y_end <= h,
                x_end <= w,
                h == g.len(),
                w == width_of(g),
                is_rectangular(g),
                g == self@,
                y_end <= y + 2,
                y <= y_min + 1,
                x_end <= x + 2,
                x <= x_min + 1,
                alive == window(g, x as int, y as int, y_min as int, board_y as int, x_min as int, x_end as int),
                alive <= 3 * (board_y - y_min),
            decreases y_end - board_y,
        {
            let mut board_x = x_min;
            assert(g[board_y as int].len() == w);
            while board_x < x_end
                invariant
                    x_min <= board_x,
                    board_x <= x_end || board_x == x_min,
                    x_end <= w,
                    x_end <= x + 2,
                    x <= x_min + 1,
                    y_min <= board_y < y_end,
                    y_end <= y + 2,
                    y <= y_min + 1,
                    board_y < h,
                    h == g.len(),
                    g[board_y as int].len() == w,
                    g == self@,
                    alive == window(g, x as int, y as int, y_min as int, board_y as int, x_min as int, x_end as int)
                        + row_window(g, x as int, y as int, board_y as int, x_min as int, board_x as int),
                    alive <= 3 * (board_y - y_min) + (board_x - x_min),
                decreases x_end - board_x,
            {
                if !(board_x == x && board_y == y) && bits_get(&self.board[board_y], board_x) {
                    alive = alive + 1;
                }
                board_x = board_x + 1;
            }
            proof {
                reveal_with_fuel(row_window, 1);
                reveal_with_fuel(window, 1);
                if board_x == x_min {
                    assert(row_window(g, x as int, y as int, board_y as int, x_min as int, x_end as int) == 0);
                }
            }
            board_y = board_y + 1;
        }
        proof {
            reveal_with_fuel(window, 1);
            lemma_clamped_window(g, x as int, y as int, y_min as int, y_end as int, x_min as int, x_end as int);
        }
        alive
    }

    /// Advances the board one generation: every cell of the new grid is
    /// computed from the old one, which is then replaced whole.
    pub fn update(&mut self)
        requires
            old(self).wf(),
        ensures
            final(self).wf(),
            final(self)@ == step(old(self)@),
    {
        let ghost g = self@;
        if self.board.len() == 0 {
            assert(self@ =~= step(g));
            return;
        }
        let h = self.board.len();
        let w = bits_len(&self.board[0]);
        let mut new_board = Self::new(w, h, false);

        let mut y: usize = 0;
        while y < h
            invariant
                self@ == g,
                self.wf(),
                h == g.len(),
                w == width_of(g),
                y <= h,
                new_board.wf(),
                new_board@.len() == h,
                rows_have_len(new_board@, w as int),
                forall|j: int, i: int| 0 <= j < h && 0 <= i < w ==>
                    #[trigger] new_board@[j][i] == (j < y && next_cell(g, i, j)),
            decreases h - y,
        {
            let mut x: usize = 0;
            assert(g[y as int].len() == w);
            while x < w
                invariant
                    self@ == g,
                    self.wf(),
                    h == g.len(),
                    w == width_of(g),
                    y < h,
                    x <= w,
                    g[y as int].len() == w,
                    new_board.wf(),
                    new_board@.len() == h,
                    rows_have_len(new_board@, w as int),
                    forall|j: int, i: int| 0 <= j < h && 0 <= i < w ==>
                        #[trigger] new_board@[j][i] == ((j < y || (j == y && i < x)) && next_cell(g, i, j)),
                decreases w - x,
            {
                let alive = self.get_neighbor_count(x, y);
                let cell = bits_get(&self.board[y], x);
                if (cell && alive == 2) || alive == 3 {
                    new_board.set(x, y, true);
                }
                x = x + 1;
            }
            y = y + 1;
        }
        self.board = new_board.board;
        assert forall|j: int| 0 <= j < h implies #[trigger] self@[j] =~= step(g)[j] by {
            assert(self@[j].len() == w);
            assert(g[j].len() == w);
        }
        assert(self@ =~= step(g));
    }

    /// The live cells as `(column, row)` pairs in row-major order: what a
    /// renderer needs to place one tile per live cell.
    pub fn live_cells(&self) -> (r: Vec<(usize, usize)>)
        ensures
            r@.map_values(|p: (usize, usize)| pos_int(p)) == live_positions(self@),
    {
        let ghost g = self@;
        let mut out: Vec<(usize, usize)> = Vec::new();
        let mut y: usize = 0;
        while y < self.board.len()
            invariant
                g == self@,
                y <= g.len(),
                out@.map_values(|p: (usize, usize)| pos_int(p)) == live_in_rows(g, y as int),
            decreases g.len() - y,
        {
            let w = bits_len(&self.board[y]);
            let mut x: usize = 0;
            while x < w
                invariant
                    g == self@,
                    y < g.len(),
                    w == g[y as int].len(),
                    x <= w,
                    out@.map_values(|p: (usize, usize)| pos_int(p))
                        == live_in_rows(g, y as int) + live_in_row(g[y as int], y as int, x as int),
                decreases w - x,
            {
                let ghost before = out@;
                if bits_get(&self.board[y], x) {
                    out.push((x, y));
                    assert(out@.map_values(|p: (usize, usize)| pos_int(p))
                        =~= before.map_values(|p: (usize, usize)| pos_int(p)).push((x as int, y as int)));
                }
                x = x + 1;
            }
            y = y + 1;
        }
        out
    }
}

} // verus!
