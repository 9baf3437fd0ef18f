//! The grid engine: a toroidal grid of cells held in a bit set, advanced one
//! generation at a time.

use vstd::prelude::*;
use crate::bitset::{bit_at, bits_copy, bits_len, bits_of, bits_with_len, set_bit};
use crate::model::{lemma_index, lemma_next_cell, lemma_position, lemma_wrap, next_state, Generation};

verus! {

/// Why a universe could not be built.
#[derive(Debug, Clone, Copy, PartialEq, Eq, Structural)]
pub enum UniverseError {
    /// A grid needs at least one row and one column.
    InvalidDimensions,
}

/// A grid of `rows * cols` cells whose opposite edges touch.
pub struct Universe {
    cells: fixedbitset::FixedBitSet,
    rows: usize,
    cols: usize,
}

impl View for Universe {
    type V = Generation;

    closed spec fn view(&self) -> Generation {
        Generation { rows: self.rows as nat, cols: self.cols as nat, cells: bits_of(self.cells) }
    }
}

/// The positions before and after `x` on a circle of `n` positions, that is
/// `(x + n - 1) % n` and `(x + 1) % n`.
fn wrap_around(x: usize, n: usize) -> (r: (usize, usize))
    requires
        x < n,
    ensures
        r.0 == (x - 1) % (n as int),
        r.1 == (x + 1) % (n as int),
{
    proof {
        lemma_wrap(x - 1, n as int);
        lemma_wrap(x + 1, n as int);
    }
    let prev = if x == 0 { n - 1 } else { x - 1 };
    let next = if x + 1 == n { 0 } else { x + 1 };
    (prev, next)
}

impl Universe {
    /// A valid generation whose cells can be indexed by a `usize`.
    pub open spec fn wf(&self) -> bool {
        &&& self@.valid()
        &&& self@.cells.len() <= usize::MAX
    }

    /// Builds a `rows` by `cols` universe, the cell at index `i` taking the
    /// state `seed(i)`; fails when either dimension is zero.
    pub fn new<F: Fn(usize) -> bool>(rows: usize, cols: usize, seed: F) -> (r: Result<
        Universe,
        UniverseError,
    >)
        requires
            rows * cols <= usize::MAX,
            forall|i: usize| i < rows * cols ==> seed.requires((i,)),
        ensures
            r is Err <==> (rows == 0 || cols == 0),
            r is Err ==> r == Err::<Universe, UniverseError>(UniverseError::InvalidDimensions),
            r matches Ok(u) ==> {
                &&& u.wf()
                &&& u@.rows == rows
                &&& u@.cols == cols
                &&& forall|i: int|
                    0 <= i < rows * cols ==> seed.ensures((i as usize,), #[trigger] u@.cells[i])
            },
    {
        if rows == 0 || cols == 0 {
            return Err(UniverseError::InvalidDimensions);
        }
        let n: usize = rows * cols;
        let mut cells = bits_with_len(n);
        for i in 0..n
            invariant
                n == rows * cols,
                forall|i: usize| i < rows * cols ==> seed.requires((i,)),
                bits_of(cells).len() == n,
                forall|j: int| 0 <= j < i ==> seed.ensures((j as usize,), #[trigger] bits_of(cells)[j]),
        {
            let v = seed(i);
            set_bit(&mut cells, i, v);
        }
        Ok(Universe { rows, cols, cells })
    }

    /// The cells in row-major order.
    pub fn cells(&self) -> (r: Vec<bool>)
        requires
            self.wf(),
        ensures
            r@ == self@.cells,
    {
        let n = bits_len(&self.cells);
        let mut out: Vec<bool> = Vec::with_capacity(n);
        for i in 0..n
            invariant
                n == self@.cells.len(),
                out@ == self@.cells.take(i as int),
        {
            out.push(bit_at(&self.cells, i));
            assert(out@ =~= self@.cells.take(i + 1));
        }
        assert(out@ =~= self@.cells);
        out
    }

    /// The number of rows and of columns.
    pub fn dimensions(&self) -> (r: (usize, usize))
        ensures
            r.0 == self@.rows,
            r.1 == self@.cols,
    {
        (self.rows, self.cols)
    }

    /// Whether the cell at `row`, `col` is alive.
    pub fn is_alive(&self, row: usize, col: usize) -> (r: bool)
        requires
            self.wf(),
            row < self@.rows,
            col < self@.cols,
        ensures
            r == self@.cell(row as int, col as int),
    {
        proof {
            lemma_index(self@, row as int, col as int);
        }
        bit_at(&self.cells, self.get_index((row, col)))
    }

    /// Advances the universe by one generation: every cell's next state is
    /// computed from the generation as it stood before the call.
    pub fn tick(&mut self)
        requires
            old(self).wf(),
        ensures
            final(self).wf(),
            final(self)@ == old(self)@.next(),
            final(self)@.rows == old(self)@.rows,
            final(self)@.cols == old(self)@.cols,
            forall|r: int, c: int|
                0 <= r < old(self)@.rows && 0 <= c < old(self)@.cols ==> {
                    let n = old(self)@.live_neighbors(r, c);
                    &&& (!old(self)@.cell(r, c) && n == 3 ==> #[trigger] final(self)@.cell(r, c))
                    &&& (old(self)@.cell(r, c) && (n < 2 || n > 3) ==> !final(self)@.cell(r, c))
                    &&& final(self)@.cell(r, c) == next_state(old(self)@.cell(r, c), n)
                },
    {
        let ghost g = self@;
        let mut new_cells = bits_copy(&self.cells);
        let len = bits_len(&self.cells);
        for index in 0..len
            invariant
                self@ == g,
                g.valid(),
                len == g.cells.len(),
                bits_of(new_cells).len() == len,
                forall|j: int|
                    0 <= j < index ==> #[trigger] bits_of(new_cells)[j] == g.next().cells[j],
                forall|j: int| index <= j < len ==> #[trigger] bits_of(new_cells)[j] == g.cells[j],
        {
            let live_neighbor_count = self.number_of_live_neighbors(index);
            let cell = bit_at(&self.cells, index);
            if !cell && live_neighbor_count == 3 {
                set_bit(&mut new_cells, index, true);
            } else if cell && (live_neighbor_count < 2 || live_neighbor_count > 3) {
                set_bit(&mut new_cells, index, false);
            }
        }
        self.cells = new_cells;
        proof {
            assert(self@.cells =~= g.next().cells);
            assert forall|r: int, c: int| 0 <= r < g.rows && 0 <= c < g.cols implies
                #[trigger] self@.cell(r, c) == next_state(g.cell(r, c), g.live_neighbors(r, c)) by {
                lemma_next_cell(g, r, c);
            }
        }
    }

    /// How many of the eight wrapped neighbours of the cell at `index` are alive.
    fn number_of_live_neighbors(&self, index: usize) -> (r: usize)
        requires
            self.wf(),
            index < self@.cells.len(),
        ensures
            r == self@.live_neighbors(
                index as int / self@.cols as int,
                index as int % self@.cols as int,
            ),
    {
        let (row, col) = self.get_row_col(index);
        let ghost g = self@;
        let ghost (r, c) = (row as int, col as int);
        proof {
            lemma_position(g, index as int);
        }
        let (prev_row, next_row) = wrap_around(row, self.rows);
        let (prev_col, next_col) = wrap_around(col, self.cols);
        proof {
            lemma_wrap(r, g.rows as int);
            lemma_wrap(c, g.cols as int);
        }

        let mut live_count: usize = 0;
        live_count += self.live_value(prev_row, prev_col);
        live_count += self.live_value(prev_row, col);
        live_count += self.live_value(prev_row, next_col);
        live_count += self.live_value(row, next_col);
        live_count += self.live_value(next_row, next_col);
        live_count += self.live_value(next_row, col);
        live_count += self.live_value(next_row, prev_col);
        live_count += self.live_value(row, prev_col);
        assert(live_count == g.live_neighbors(r, c));
        live_count
    }

    /// 1 if the cell at `row`, `col` is alive, else 0.
    fn live_value(&self, row: usize, col: usize) -> (r: usize)
        requires
            self.wf(),
            row < self@.rows,
            col < self@.cols,
        ensures
            r == (if self@.cell(row as int, col as int) { 1usize } else { 0usize }),
    {
        if self.is_alive(row, col) { 1 } else { 0 }
    }

    /// The position of the cell at `index`.
    fn get_row_col(&self, index: usize) -> (r: (usize, usize))
        requires
            self.wf(),
        ensures
            r.0 == index as int / self@.cols as int,
            r.1 == index as int % self@.cols as int,
    {
        let row = index / self.cols;
        let col = index % self.cols;

        (row, col)
    }

    /// The index of the cell at a position inside the grid.
    fn get_index(&self, rc: (usize, usize)) -> (r: usize)
        requires
            self.wf(),
            rc.0 < self@.rows,
            rc.1 < self@.cols,
        ensures
            r == rc.0 * self@.cols + rc.1,
    {
        let (row, col) = rc;
        proof {
            lemma_index(self@, row as int, col as int);
        }
        row * self.cols + col
    }
}

} // verus!
