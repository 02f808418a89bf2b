//! The mathematical model of a generation: a grid is a sequence of rows, each
//! a sequence of cells, with `true` for a live cell. Positions outside the grid
//! hold no cell; they count as dead and are never created.

use vstd::prelude::*;

verus! {

/// Every row of `g` holds `w` cells.
pub open spec fn rows_have_len(g: Seq<Seq<bool>>, w: int) -> bool {
    forall|y: int| 0 <= y < g.len() ==> #[trigger] g[y].len() == w
}

/// The number of cells in a row, read off the first row (zero for no rows).
pub open spec fn width_of(g: Seq<Seq<bool>>) -> int {
    if g.len() == 0 { 0 } else { g[0].len() as int }
}

/// All rows have one length.
pub open spec fn is_rectangular(g: Seq<Seq<bool>>) -> bool {
    rows_have_len(g, width_of(g))
}

/// `(x, y)` names a cell of `g`: column `x` of row `y`.
pub open spec fn in_grid(g: Seq<Seq<bool>>, x: int, y: int) -> bool {
    0 <= y < g.len() && 0 <= x < g[y].len()
}

/// The cell at `(x, y)` exists and is alive.
pub open spec fn alive_at(g: Seq<Seq<bool>>, x: int, y: int) -> bool {
    in_grid(g, x, y) && g[y][x]
}

/// One for a live cell at `(x, y)`, zero otherwise (also off the grid).
pub open spec fn live(g: Seq<Seq<bool>>, x: int, y: int) -> int {
    if alive_at(g, x, y) { 1 } else { 0 }
}

/// The live cells among the eight around `(x, y)`; positions off the grid add
/// nothing, and `(x, y)` itself is not among them.
pub open spec fn neighbor_count(g: Seq<Seq<bool>>, x: int, y: int) -> int {
    live(g, x - 1, y - 1) + live(g, x, y - 1) + live(g, x + 1, y - 1)
        + live(g, x - 1, y) + live(g, x + 1, y)
        + live(g, x - 1, y + 1) + live(g, x, y + 1) + live(g, x + 1, y + 1)
}

/// The rule of Life: a live cell survives with two or three live neighbours,
/// a dead one is born with exactly three.
pub open spec fn next_alive(alive: bool, n: int) -> bool {
    if alive { n == 2 || n == 3 } else { n == 3 }
}

/// The state of `(x, y)` in the generation after `g`.
pub open spec fn next_cell(g: Seq<Seq<bool>>, x: int, y: int) -> bool {
    next_alive(alive_at(g, x, y), neighbor_count(g, x, y))
}

/// The generation after `g`, of the same shape, every cell computed from `g`.
pub open spec fn step(g: Seq<Seq<bool>>) -> Seq<Seq<bool>> {
    Seq::new(g.len(), |y: int| Seq::new(g[y].len(), |x: int| next_cell(g, x, y)))
}

/// The generation `n` steps after `g`.
pub open spec fn steps(g: Seq<Seq<bool>>, n: nat) -> Seq<Seq<bool>>
    decreases n,
{
    if n == 0 { g } else { step(steps(g, (n - 1) as nat)) }
}

/// No cell of `g` is alive.
pub open spec fn all_dead(g: Seq<Seq<bool>>) -> bool {
    forall|y: int, x: int| in_grid(g, x, y) ==> !#[trigger] g[y][x]
}

/// `g` and `h` have the same number of rows, and rows of equal length.
pub open spec fn same_shape(g: Seq<Seq<bool>>, h: Seq<Seq<bool>>) -> bool {
    g.len() == h.len() && forall|y: int| 0 <= y < g.len() ==> #[trigger] g[y].len() == h[y].len()
}

/// `g` with the cell at `(x, y)` set to `v` when it exists; `g` itself otherwise.
pub open spec fn with_cell(g: Seq<Seq<bool>>, x: int, y: int, v: bool) -> Seq<Seq<bool>> {
    if in_grid(g, x, y) { g.update(y, g[y].update(x, v)) } else { g }
}

/// The live cells of row `by` in columns `lo .. hi`, leaving out `(x, y)`.
pub open spec fn row_window(g: Seq<Seq<bool>>, x: int, y: int, by: int, lo: int, hi: int) -> int
    decreases hi - lo,
{
    if hi <= lo {
        0
    } else {
        row_window(g, x, y, by, lo, hi - 1) + if hi - 1 == x && by == y { 0 } else { live(g, hi - 1, by) }
    }
}

/// The live cells of rows `ylo .. yhi` in columns `xlo .. xhi`, leaving out `(x, y)`.
pub open spec fn window(g: Seq<Seq<bool>>, x: int, y: int, ylo: int, yhi: int, xlo: int, xhi: int) -> int
    decreases yhi - ylo,
{
    if yhi <= ylo {
        0
    } else {
        window(g, x, y, ylo, yhi - 1, xlo, xhi) + row_window(g, x, y, yhi - 1, xlo, xhi)
    }
}

/// Counting over the whole neighbourhood, row by row, gives `neighbor_count`.
pub proof fn lemma_full_window(g: Seq<Seq<bool>>, x: int, y: int)
    ensures
        window(g, x, y, y - 1, y + 2, x - 1, x + 2) == neighbor_count(g, x, y),
{
    reveal_with_fuel(window, 4);
    reveal_with_fuel(row_window, 4);
}

/// The live cells of the first `n` cells of `row`, which is row `y`, as
/// `(column, row)` pairs from left to right.
pub open spec fn live_in_row(row: Seq<bool>, y: int, n: int) -> Seq<(int, int)>
    decreases n,
{
    if n <= 0 {
        Seq::empty()
    } else if row[n - 1] {
        live_in_row(row, y, n - 1).push((n - 1, y))
    } else {
        live_in_row(row, y, n - 1)
    }
}

/// The live cells of the first `m` rows of `g`, in row-major order.
pub open spec fn live_in_rows(g: Seq<Seq<bool>>, m: int) -> Seq<(int, int)>
    decreases m,
{
    if m <= 0 {
        Seq::empty()
    } else {
        live_in_rows(g, m - 1) + live_in_row(g[m - 1], m - 1, g[m - 1].len() as int)
    }
}

/// The live cells of `g` as `(column, row)` pairs, in row-major order.
pub open spec fn live_positions(g: Seq<Seq<bool>>) -> Seq<(int, int)> {
    live_in_rows(g, g.len() as int)
}

/// A pair of machine coordinates as a pair of integers.
pub open spec fn pos_int(p: (usize, usize)) -> (int, int) {
    (p.0 as int, p.1 as int)
}

} // verus!
