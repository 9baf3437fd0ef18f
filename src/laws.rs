//! Properties of the generation rule, stated over the model and proved.

use vstd::prelude::*;
use crate::model::{generations, lemma_index, lemma_next_cell, lemma_wrap, Generation};

verus! {

/// Whether `(r, c)` is one of the four cells of the 2×2 block whose top-left
/// cell is `(r0, c0)`.
pub open spec fn in_block(r0: int, c0: int, r: int, c: int) -> bool {
    (r == r0 || r == r0 + 1) && (c == c0 || c == c0 + 1)
}

/// The grid has no edge: the last row neighbours the first and the last
/// column neighbours the first, so a live cell on one edge counts as a
/// neighbour of the cell facing it on the opposite edge, and the two opposite
/// corners are neighbours of each other.
pub proof fn lemma_edges_wrap(g: Generation, r: int, c: int)
    requires
        g.valid(),
        0 <= r < g.rows,
        0 <= c < g.cols,
    ensures
        g.cell(g.rows - 1, c) ==> g.live_neighbors(0, c) >= 1,
        g.cell(0, c) ==> g.live_neighbors(g.rows - 1, c) >= 1,
        g.cell(r, g.cols - 1) ==> g.live_neighbors(r, 0) >= 1,
        g.cell(r, 0) ==> g.live_neighbors(r, g.cols - 1) >= 1,
        g.cell(g.rows - 1, g.cols - 1) ==> g.live_neighbors(0, 0) >= 1,
        g.cell(0, 0) ==> g.live_neighbors(g.rows - 1, g.cols - 1) >= 1,
{
    let (n, m) = (g.rows as int, g.cols as int);
    lemma_wrap(-1, n);
    lemma_wrap(-1, m);
    lemma_wrap(n, n);
    lemma_wrap(m, m);
    lemma_wrap(0, n);
    lemma_wrap(0, m);
    lemma_wrap(r, n);
    lemma_wrap(c, m);
    lemma_wrap(n - 1, n);
    lemma_wrap(m - 1, m);
}

/// A 2×2 block of live cells, alone on a grid of at least 4×4 and not
/// itself split by an edge, stays alive: each of its cells has exactly three
/// live neighbours.
pub proof fn lemma_block_is_still(g: Generation, r0: int, c0: int)
    requires
        g.valid(),
        g.rows >= 4,
        g.cols >= 4,
        0 <= r0 && r0 + 1 < g.rows,
        0 <= c0 && c0 + 1 < g.cols,
        forall|r: int, c: int|
            0 <= r < g.rows && 0 <= c < g.cols ==> #[trigger] g.cell(r, c) == in_block(r0, c0, r, c),
    ensures
        g.next().cell(r0, c0),
        g.next().cell(r0, c0 + 1),
        g.next().cell(r0 + 1, c0),
        g.next().cell(r0 + 1, c0 + 1),
{
    let (n, m) = (g.rows as int, g.cols as int);
    lemma_wrap(r0 - 1, n);
    lemma_wrap(r0, n);
    lemma_wrap(r0 + 1, n);
    lemma_wrap(r0 + 2, n);
    lemma_wrap(c0 - 1, m);
    lemma_wrap(c0, m);
    lemma_wrap(c0 + 1, m);
    lemma_wrap(c0 + 2, m);
    assert(g.live_neighbors(r0, c0) == 3);
    assert(g.live_neighbors(r0, c0 + 1) == 3);
    assert(g.live_neighbors(r0 + 1, c0) == 3);
    assert(g.live_neighbors(r0 + 1, c0 + 1) == 3);
    lemma_next_cell(g, r0, c0);
    lemma_next_cell(g, r0, c0 + 1);
    lemma_next_cell(g, r0 + 1, c0);
    lemma_next_cell(g, r0 + 1, c0 + 1);
}

/// A grid with no live cell has none in the next generation either.
proof fn lemma_dead_stays_dead(g: Generation)
    requires
        g.valid(),
        g.all_dead(),
    ensures
        g.next().valid(),
        g.next().all_dead(),
{
    let (n, m) = (g.rows as int, g.cols as int);
    assert forall|r: int, c: int| #![trigger g.live_at(r, c)] g.live_at(r, c) == 0 by {
        lemma_index(g, r % n, c % m);
    }
    assert forall|i: int| 0 <= i < g.cells.len() implies !#[trigger] g.next().cells[i] by {
        assert(g.live_neighbors(i / m, i % m) == 0);
    }
}

/// An all-dead grid of any size stays all dead however many generations pass.
pub proof fn lemma_empty_stays_empty(g: Generation, steps: nat)
    requires
        g.valid(),
        g.all_dead(),
    ensures
        generations(g, steps).valid(),
        generations(g, steps).all_dead(),
        generations(g, steps).rows == g.rows,
        generations(g, steps).cols == g.cols,
    decreases steps,
{
    if steps > 0 {
        lemma_empty_stays_empty(g, (steps - 1) as nat);
        lemma_dead_stays_dead(generations(g, (steps - 1) as nat));
    }
}

} // verus!
