//! Laws of the model that the board's operations are stated over.

use vstd::prelude::*;
use crate::life::{alive_at, all_dead, in_grid, live, neighbor_count, next_cell, step, steps, with_cell};

verus! {

/// A `w` by `h` grid whose live cells are those of `cells`.
pub open spec fn grid_from(w: nat, h: nat, cells: Set<(int, int)>) -> Seq<Seq<bool>> {
    Seq::new(h, |y: int| Seq::new(w, |x: int| cells.contains((x, y))))
}

/// A 2 by 2 block with its top left cell at `(x, y)`.
pub open spec fn block_at(x: int, y: int) -> Set<(int, int)> {
    set![(x, y), (x + 1, y), (x, y + 1), (x + 1, y + 1)]
}

/// Three cells in a row, centred on `(x, y)`.
pub open spec fn blinker_across(x: int, y: int) -> Set<(int, int)> {
    set![(x - 1, y), (x, y), (x + 1, y)]
}

/// Three cells in a column, centred on `(x, y)`.
pub open spec fn blinker_down(x: int, y: int) -> Set<(int, int)> {
    set![(x, y - 1), (x, y), (x, y + 1)]
}

/// The glider heading down and right, its 3 by 3 box at `(dx, dy)`.
pub open spec fn glider_at(dx: int, dy: int) -> Set<(int, int)> {
    set![(dx + 1, dy), (dx + 2, dy + 1), (dx, dy + 2), (dx + 1, dy + 2), (dx + 2, dy + 2)]
}

/// The glider's second phase, its 3 by 3 box at `(dx, dy)`.
pub open spec fn glider_phase1(dx: int, dy: int) -> Set<(int, int)> {
    set![(dx, dy + 1), (dx + 2, dy + 1), (dx + 1, dy + 2), (dx + 2, dy + 2), (dx + 1, dy + 3)]
}

/// The glider's third phase, its 3 by 3 box at `(dx, dy)`.
pub open spec fn glider_phase2(dx: int, dy: int) -> Set<(int, int)> {
    set![(dx + 2, dy + 1), (dx, dy + 2), (dx + 2, dy + 2), (dx + 1, dy + 3), (dx + 2, dy + 3)]
}

/// The glider's fourth phase, its 3 by 3 box at `(dx, dy)`.
pub open spec fn glider_phase3(dx: int, dy: int) -> Set<(int, int)> {
    set![(dx + 1, dy + 1), (dx + 2, dy + 2), (dx + 3, dy + 2), (dx + 1, dy + 3), (dx + 2, dy + 3)]
}

/// Where every cell of a `w` by `h` grid drawn from `c` steps to its state in
/// `d`, the grid drawn from `c` steps to the one drawn from `d`.
proof fn lemma_step_from(w: nat, h: nat, c: Set<(int, int)>, d: Set<(int, int)>)
    requires
        forall|x: int, y: int| 0 <= x < w && 0 <= y < h ==>
            #[trigger] next_cell(grid_from(w, h, c), x, y) == d.contains((x, y)),
    ensures
        step(grid_from(w, h, c)) == grid_from(w, h, d),
{
    let g = grid_from(w, h, c);
    assert forall|y: int| 0 <= y < h implies #[trigger] step(g)[y] =~= grid_from(w, h, d)[y] by {
        assert forall|x: int| 0 <= x < w implies #[trigger] step(g)[y][x] == grid_from(w, h, d)[y][x] by {
            assert(next_cell(g, x, y) == d.contains((x, y)));
        }
    }
    assert(step(g) =~= grid_from(w, h, d));
}

/// A block is a still life: a single one on an otherwise dead grid is
/// unchanged by any number of steps, wherever on the grid it stands.
pub proof fn lemma_block_is_still(w: nat, h: nat, x: int, y: int, n: nat)
    requires
        0 <= x && x + 1 < w,
        0 <= y && y + 1 < h,
    ensures
        steps(grid_from(w, h, block_at(x, y)), n) == grid_from(w, h, block_at(x, y)),
    decreases n,
{
    let c = block_at(x, y);
    let g = grid_from(w, h, c);
    assert forall|i: int, j: int| 0 <= i < w && 0 <= j < h implies
        #[trigger] next_cell(g, i, j) == c.contains((i, j)) by {
    }
    lemma_step_from(w, h, c, c);
    if n > 0 {
        lemma_block_is_still(w, h, x, y, (n - 1) as nat);
    }
}

/// A dead grid stays dead: stepping it gives it back unchanged.
pub proof fn lemma_dead_grid_is_fixed(g: Seq<Seq<bool>>)
    requires
        all_dead(g),
    ensures
        step(g) == g,
{
    assert forall|y: int| 0 <= y < g.len() implies #[trigger] step(g)[y] =~= g[y] by {
        assert forall|x: int| 0 <= x < g[y].len() implies #[trigger] step(g)[y][x] == g[y][x] by {
            assert(!g[y][x]);
            assert(neighbor_count(g, x, y) == 0);
        }
    }
    assert(step(g) =~= g);
}

/// The neighbour count lies in `0 ..= 8` and does not depend on the cell
/// itself: setting `(x, y)` to any value leaves its count as it was.
pub proof fn lemma_neighbor_count_excludes_self(g: Seq<Seq<bool>>, x: int, y: int, v: bool)
    ensures
        0 <= neighbor_count(g, x, y) <= 8,
        neighbor_count(with_cell(g, x, y, v), x, y) == neighbor_count(g, x, y),
{
}

/// Setting a cell on the grid and reading it back gives the value set; a
/// position off the grid leaves the grid as it was.
pub proof fn lemma_set_then_read(g: Seq<Seq<bool>>, x: int, y: int, v: bool)
    ensures
        in_grid(g, x, y) ==> alive_at(with_cell(g, x, y, v), x, y) == v,
        !in_grid(g, x, y) ==> with_cell(g, x, y, v) == g,
{
}

/// The corner `(0, 0)` has three neighbours at most, all on the grid: the
/// count reads no position off it.
pub proof fn lemma_corner_neighbors(g: Seq<Seq<bool>>)
    ensures
        neighbor_count(g, 0, 0) == live(g, 1, 0) + live(g, 0, 1) + live(g, 1, 1),
        neighbor_count(g, 0, 0) <= 3,
{
}

/// A blinker turns from a row of three into a column of three in one step,
/// and back in the next.
pub proof fn lemma_blinker_oscillates(w: nat, h: nat, x: int, y: int)
    requires
        1 <= x && x + 1 < w,
        1 <= y && y + 1 < h,
    ensures
        step(grid_from(w, h, blinker_across(x, y))) == grid_from(w, h, blinker_down(x, y)),
        step(grid_from(w, h, blinker_down(x, y))) == grid_from(w, h, blinker_across(x, y)),
        steps(grid_from(w, h, blinker_across(x, y)), 2) == grid_from(w, h, blinker_across(x, y)),
{
    let a = blinker_across(x, y);
    let d = blinker_down(x, y);
    assert forall|i: int, j: int| 0 <= i < w && 0 <= j < h implies
        #[trigger] next_cell(grid_from(w, h, a), i, j) == d.contains((i, j)) by {
    }
    lemma_step_from(w, h, a, d);
    assert forall|i: int, j: int| 0 <= i < w && 0 <= j < h implies
        #[trigger] next_cell(grid_from(w, h, d), i, j) == a.contains((i, j)) by {
    }
    lemma_step_from(w, h, d, a);
    reveal_with_fuel(steps, 3);
}

/// One phase of the glider steps to the next: `c` to `d`.
proof fn lemma_glider_phase(w: nat, h: nat, c: Set<(int, int)>, d: Set<(int, int)>, k: int)
    requires
        w >= 6,
        h >= 6,
        0 <= k < 4,
        c == if k == 0 { glider_at(0, 0) } else if k == 1 { glider_phase1(0, 0) } else if k == 2 {
            glider_phase2(0, 0) } else { glider_phase3(0, 0) },
        d == if k == 0 { glider_phase1(0, 0) } else if k == 1 { glider_phase2(0, 0) } else if k == 2 {
            glider_phase3(0, 0) } else { glider_at(1, 1) },
    ensures
        step(grid_from(w, h, c)) == grid_from(w, h, d),
{
    assert forall|i: int, j: int| 0 <= i < w && 0 <= j < h implies
        #[trigger] next_cell(grid_from(w, h, c), i, j) == d.contains((i, j)) by {
        if k == 0 {
            assert(next_cell(grid_from(w, h, c), i, j) == d.contains((i, j)));
        } else if k == 1 {
            assert(next_cell(grid_from(w, h, c), i, j) == d.contains((i, j)));
        } else if k == 2 {
            assert(next_cell(grid_from(w, h, c), i, j) == d.contains((i, j)));
        } else {
            assert(next_cell(grid_from(w, h, c), i, j) == d.contains((i, j)));
        }
    }
    lemma_step_from(w, h, c, d);
}

/// A glider on a grid of at least 6 by 6 comes back after four steps, moved
/// one cell right and one down.
pub proof fn lemma_glider_moves(w: nat, h: nat)
    requires
        w >= 6,
        h >= 6,
    ensures
        steps(grid_from(w, h, glider_at(0, 0)), 4) == grid_from(w, h, glider_at(1, 1)),
{
    lemma_glider_phase(w, h, glider_at(0, 0), glider_phase1(0, 0), 0);
    lemma_glider_phase(w, h, glider_phase1(0, 0), glider_phase2(0, 0), 1);
    lemma_glider_phase(w, h, glider_phase2(0, 0), glider_phase3(0, 0), 2);
    lemma_glider_phase(w, h, glider_phase3(0, 0), glider_at(1, 1), 3);
    reveal_with_fuel(steps, 5);
}

} // verus!
