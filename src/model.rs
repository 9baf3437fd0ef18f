//! The mathematical model of a generation and of the rule that gives the next.

use vstd::prelude::*;
use vstd::arithmetic::div_mod::{
    lemma_fundamental_div_mod_converse_div,
    lemma_fundamental_div_mod_converse_mod,
    lemma_mod_add_multiples_vanish,
    lemma_mod_self_0,
    lemma_small_mod,
};

verus! {

/// One generation: the dimensions and the cells in row-major order, the cell
/// at row `r` and column `c` standing at index `r * cols + c`.
pub struct Generation {
    pub rows: nat,
    pub cols: nat,
    pub cells: Seq<bool>,
}

/// The fate of one cell: a dead cell with exactly three live neighbours comes
/// alive, a live cell with fewer than two or more than three dies, and every
/// other cell keeps its state.
pub open spec fn next_state(alive: bool, live_neighbors: nat) -> bool {
    if !alive && live_neighbors == 3 {
        true
    } else if alive && (live_neighbors < 2 || live_neighbors > 3) {
        false
    } else {
        alive
    }
}

impl Generation {
    /// At least one row and one column, and one cell for each position.
    pub open spec fn valid(self) -> bool {
        &&& self.rows >= 1
        &&& self.cols >= 1
        &&& self.cells.len() == self.rows * self.cols
    }

    /// The state of the cell at row `r`, column `c` (both inside the grid).
    pub open spec fn cell(self, r: int, c: int) -> bool {
        self.cells[r * self.cols + c]
    }

    /// 1 if the cell at `(r, c)`, wrapped around both edges, is alive, else 0.
    pub open spec fn live_at(self, r: int, c: int) -> nat {
        if self.cell(r % (self.rows as int), c % (self.cols as int)) {
            1
        } else {
            0
        }
    }

    /// How many of the eight cells of the wrapped Moore neighbourhood of
    /// `(r, c)` are alive; a position that the wrap reaches more than once
    /// counts each time.
    pub open spec fn live_neighbors(self, r: int, c: int) -> nat {
        self.live_at(r - 1, c - 1) + self.live_at(r - 1, c) + self.live_at(r - 1, c + 1)
            + self.live_at(r, c + 1) + self.live_at(r + 1, c + 1) + self.live_at(r + 1, c)
            + self.live_at(r + 1, c - 1) + self.live_at(r, c - 1)
    }

    /// The following generation, each cell computed from this one alone.
    pub open spec fn next(self) -> Generation {
        Generation {
            rows: self.rows,
            cols: self.cols,
            cells: Seq::new(
                self.cells.len(),
                |i: int|
                    next_state(
                        self.cells[i],
                        self.live_neighbors(i / (self.cols as int), i % (self.cols as int)),
                    ),
            ),
        }
    }

    /// No cell is alive.
    pub open spec fn all_dead(self) -> bool {
        forall|i: int| 0 <= i < self.cells.len() ==> !self.cells[i]
    }
}

/// The generation `n` steps after `g`.
pub open spec fn generations(g: Generation, n: nat) -> Generation
    decreases n,
{
    if n == 0 {
        g
    } else {
        generations(g, (n - 1) as nat).next()
    }
}

/// A position inside the grid has an index inside the cells, and decodes back.
pub proof fn lemma_index(g: Generation, r: int, c: int)
    requires
        g.valid(),
        0 <= r < g.rows,
        0 <= c < g.cols,
    ensures
        0 <= r * g.cols + c < g.cells.len(),
        (r * g.cols + c) / (g.cols as int) == r,
        (r * g.cols + c) % (g.cols as int) == c,
{
    let n = g.cols as int;
    assert(0 <= r * n + c < (g.rows as int) * n) by (nonlinear_arith)
        requires
            0 <= r < g.rows,
            0 <= c < n,
    ;
    lemma_fundamental_div_mod_converse_div(r * n + c, n, r, c);
    lemma_fundamental_div_mod_converse_mod(r * n + c, n, r, c);
}

/// An index inside the cells decodes to a position inside the grid.
pub proof fn lemma_position(g: Generation, i: int)
    requires
        g.valid(),
        0 <= i < g.cells.len(),
    ensures
        0 <= i / (g.cols as int) < g.rows,
        0 <= i % (g.cols as int) < g.cols,
        (i / (g.cols as int)) * g.cols + i % (g.cols as int) == i,
{
    let n = g.cols as int;
    assert(0 <= i / n < g.rows && 0 <= i % n < n && (i / n) * n + i % n == i) by (nonlinear_arith)
        requires
            0 <= i < (g.rows as int) * n,
            n >= 1,
    ;
}

/// One step off the edge of `[0, n)` wraps to the other edge.
pub proof fn lemma_wrap(a: int, n: int)
    requires
        n >= 1,
        -1 <= a <= n,
    ensures
        a % n == (if a < 0 {
            a + n
        } else if a == n {
            0
        } else {
            a
        }),
{
    if a < 0 {
        lemma_mod_add_multiples_vanish(a, n);
        lemma_small_mod((n + a) as nat, n as nat);
    } else if a == n {
        lemma_mod_self_0(n);
    } else {
        lemma_small_mod(a as nat, n as nat);
    }
}

/// The cell at `(r, c)` in the next generation, by position.
pub proof fn lemma_next_cell(g: Generation, r: int, c: int)
    requires
        g.valid(),
        0 <= r < g.rows,
        0 <= c < g.cols,
    ensures
        g.next().valid(),
        g.next().cell(r, c) == next_state(g.cell(r, c), g.live_neighbors(r, c)),
{
    lemma_index(g, r, c);
}

} // verus!
