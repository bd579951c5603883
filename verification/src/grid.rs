//! Rectangular cell container with row/column bounds.
//!
//! A `Grid` owns its cells in row-major order; every coordinate inside the
//! bounds has a defined value, and the size is fixed after creation.

use vstd::prelude::*;

verus! {

/// The error taxonomy of the puzzle core.
#[derive(Clone, Copy, PartialEq, Eq, Structural, Debug)]
pub enum MinesError {
    /// A grid was requested with zero rows or zero columns.
    InvalidDimensions,
    /// A coordinate outside `[0, rows) x [0, cols)` was accessed.
    OutOfBounds,
    /// The mine-placement retry budget ran out before all mines were placed.
    GenerationExhausted,
}

/// Mathematical model of a grid: its dimensions and the row-major sequence of
/// cell values.
#[verifier::ext_equal]
pub ghost struct GridModel<T> {
    pub rows: int,
    pub cols: int,
    pub cells: Seq<T>,
}

impl<T> GridModel<T> {
    /// Well-formedness: at least one row and column, and the cell sequence
    /// has exactly one entry per coordinate (and fits the machine).
    pub open spec fn wf(self) -> bool {
        &&& self.rows >= 1
        &&& self.cols >= 1
        &&& self.rows <= usize::MAX
        &&& self.cols <= usize::MAX
        &&& self.cells.len() == self.rows * self.cols
        &&& self.cells.len() <= usize::MAX
    }

    pub open spec fn in_bounds(self, y: int, x: int) -> bool {
        0 <= y < self.rows && 0 <= x < self.cols
    }

    /// Row-major position of the coordinate `(y, x)`.
    pub open spec fn idx(self, y: int, x: int) -> int {
        y * self.cols + x
    }

    /// The value stored at `(y, x)`.
    pub open spec fn at(self, y: int, x: int) -> T
        recommends
            self.wf(),
            self.in_bounds(y, x),
    {
        self.cells[self.idx(y, x)]
    }

    /// The same grid with the value at `(y, x)` replaced by `v`.
    pub open spec fn set_at(self, y: int, x: int, v: T) -> GridModel<T> {
        GridModel { cells: self.cells.update(self.idx(y, x), v), ..self }
    }

    /// Two grids of the same shape.
    pub open spec fn same_shape(self, other: GridModel<T>) -> bool {
        self.rows == other.rows && self.cols == other.cols && self.cells.len() == other.cells.len()
    }
}

/// A coordinate inside the bounds names a position inside the cell sequence.
pub broadcast proof fn lemma_idx_bounds<T>(m: GridModel<T>, y: int, x: int)
    requires
        m.wf(),
        m.in_bounds(y, x),
    ensures
        0 <= #[trigger] m.idx(y, x) < m.cells.len(),
{
    assert(y * m.cols + x < m.rows * m.cols) by (nonlinear_arith)
        requires
            0 <= y < m.rows,
            0 <= x < m.cols,
    ;
}

/// Distinct in-bounds coordinates have distinct row-major positions.
pub proof fn lemma_idx_injective<T>(m: GridModel<T>, y: int, x: int, r: int, c: int)
    requires
        m.wf(),
        m.in_bounds(y, x),
        m.in_bounds(r, c),
        m.idx(y, x) == m.idx(r, c),
    ensures
        y == r && x == c,
{
    assert(y == r && x == c) by (nonlinear_arith)
        requires
            0 <= y,
            0 <= x < m.cols,
            0 <= r,
            0 <= c < m.cols,
            y * m.cols + x == r * m.cols + c,
    ;
}

/// Reading after a single-cell update: the written coordinate holds the new
/// value and every other coordinate is unchanged.
pub broadcast proof fn lemma_at_set_at<T>(m: GridModel<T>, y: int, x: int, v: T, r: int, c: int)
    requires
        m.wf(),
        m.in_bounds(y, x),
        m.in_bounds(r, c),
    ensures
        #[trigger] m.set_at(y, x, v).at(r, c) == if r == y && c == x {
            v
        } else {
            m.at(r, c)
        },
{
    lemma_idx_bounds(m, y, x);
    lemma_idx_bounds(m, r, c);
    if r != y || c != x {
        assert(y * m.cols + x != r * m.cols + c) by (nonlinear_arith)
            requires
                0 <= y,
                0 <= x < m.cols,
                0 <= r,
                0 <= c < m.cols,
                r != y || c != x,
        ;
    }
}

/// A single-cell update keeps the grid well-formed and its shape.
pub broadcast proof fn lemma_set_at_shape<T>(m: GridModel<T>, y: int, x: int, v: T)
    requires
        m.wf(),
        m.in_bounds(y, x),
    ensures
        (#[trigger] m.set_at(y, x, v)).wf(),
        m.set_at(y, x, v).rows == m.rows,
        m.set_at(y, x, v).cols == m.cols,
        m.set_at(y, x, v).cells.len() == m.cells.len(),
{
    lemma_idx_bounds(m, y, x);
}

/// Every flat position is the row-major index of its coordinate.
pub proof fn lemma_flat_coords<T>(m: GridModel<T>, i: int)
    requires
        m.wf(),
        0 <= i < m.cells.len(),
    ensures
        m.in_bounds(i / m.cols, i % m.cols),
        m.idx(i / m.cols, i % m.cols) == i,
{
    vstd::arithmetic::div_mod::lemma_fundamental_div_mod(i, m.cols);
    assert(0 <= i % m.cols < m.cols) by (nonlinear_arith)
        requires
            m.cols >= 1,
            0 <= i,
    ;
    assert(0 <= i / m.cols) by (nonlinear_arith)
        requires
            m.cols >= 1,
            0 <= i,
    ;
    assert(i / m.cols < m.rows) by (nonlinear_arith)
        requires
            m.cols >= 1,
            i < m.rows * m.cols,
            i == m.cols * (i / m.cols) + i % m.cols,
            0 <= i % m.cols < m.cols,
            0 <= i / m.cols,
    ;
}

/// Grids of the same shape that agree on every coordinate are equal.
pub proof fn lemma_models_equal<T>(p: GridModel<T>, q: GridModel<T>)
    requires
        p.wf(),
        q.rows == p.rows,
        q.cols == p.cols,
        q.cells.len() == p.cells.len(),
        forall|a: int, b: int| p.in_bounds(a, b) ==> #[trigger] q.at(a, b) == p.at(a, b),
    ensures
        q == p,
{
    assert forall|i: int| 0 <= i < p.cells.len() implies q.cells[i] == p.cells[i] by {
        lemma_flat_coords(p, i);
        let a = i / p.cols;
        let b = i % p.cols;
        assert(q.at(a, b) == p.at(a, b));
    }
    assert(q.cells =~= p.cells);
    assert(q =~= p);
}

/// Rectangular container of cell values, addressed by `(row, col)`.
pub struct Grid<T> {
    rows: usize,
    cols: usize,
    cells: Vec<T>,
}

impl<T> View for Grid<T> {
    type V = GridModel<T>;

    closed spec fn view(&self) -> GridModel<T> {
        GridModel { rows: self.rows as int, cols: self.cols as int, cells: self.cells@ }
    }
}

impl<T> Grid<T> {
    pub fn rows(&self) -> (r: usize)
        ensures
            r == self@.rows,
    {
        self.rows
    }

    pub fn cols(&self) -> (r: usize)
        ensures
            r == self@.cols,
    {
        self.cols
    }

    /// Builds a `rows` by `cols` grid with every cell set to `fill`.
    pub(crate) fn new_filled(rows: usize, cols: usize, fill: T) -> (g: Grid<T>) where T: Copy
        requires
            1 <= rows,
            1 <= cols,
            rows * cols <= usize::MAX,
        ensures
            g@.wf(),
            g@.rows == rows,
            g@.cols == cols,
            forall|y: int, x: int| g@.in_bounds(y, x) ==> g@.at(y, x) == fill,
    {
        let total = rows * cols;
        let mut cells: Vec<T> = Vec::new();
        let mut i: usize = 0;
        while i < total
            invariant
                i <= total,
                cells@.len() == i,
                forall|j: int| 0 <= j < i ==> cells@[j] == fill,
            decreases total - i,
        {
            cells.push(fill);
            i = i + 1;
        }
        let g = Grid { rows, cols, cells };
        proof {
            assert forall|y: int, x: int| g@.in_bounds(y, x) implies g@.at(y, x) == fill by {
                lemma_idx_bounds(g@, y, x);
            }
        }
        g
    }

    /// Creates a grid, rejecting zero dimensions.
    pub fn create(rows: usize, cols: usize, fill: T) -> (r: Result<Grid<T>, MinesError>) where
        T: Copy
        requires
            rows * cols <= usize::MAX,
        ensures
            r is Ok <==> rows >= 1 && cols >= 1,
            r matches Err(e) ==> e == MinesError::InvalidDimensions,
            r matches Ok(g) ==> g@.wf() && g@.rows == rows && g@.cols == cols && forall|
                y: int,
                x: int,
            | g@.in_bounds(y, x) ==> g@.at(y, x) == fill,
    {
        if rows == 0 || cols == 0 {
            Err(MinesError::InvalidDimensions)
        } else {
            Ok(Grid::new_filled(rows, cols, fill))
        }
    }

    /// Direct read of an in-bounds coordinate.
    pub(crate) fn at(&self, y: usize, x: usize) -> (v: &T)
        requires
            self@.wf(),
            self@.in_bounds(y as int, x as int),
        ensures
            *v == self@.at(y as int, x as int),
    {
        proof {
            lemma_idx_bounds(self@, y as int, x as int);
        }
        &self.cells[y * self.cols + x]
    }

    /// Direct write of an in-bounds coordinate.
    pub(crate) fn put(&mut self, y: usize, x: usize, v: T)
        requires
            old(self)@.wf(),
            old(self)@.in_bounds(y as int, x as int),
        ensures
            final(self)@ == old(self)@.set_at(y as int, x as int, v),
    {
        proof {
            lemma_idx_bounds(self@, y as int, x as int);
        }
        let i = y * self.cols + x;
        self.cells.set(i, v);
    }

    /// Bounds-checked read.
    pub fn get(&self, y: usize, x: usize) -> (r: Result<&T, MinesError>)
        requires
            self@.wf(),
        ensures
            r is Ok <==> self@.in_bounds(y as int, x as int),
            r matches Ok(v) ==> *v == self@.at(y as int, x as int),
            r matches Err(e) ==> e == MinesError::OutOfBounds,
    {
        if y < self.rows && x < self.cols {
            Ok(self.at(y, x))
        } else {
            Err(MinesError::OutOfBounds)
        }
    }

    /// Bounds-checked write.
    pub fn set(&mut self, y: usize, x: usize, v: T) -> (r: Result<(), MinesError>)
        requires
            old(self)@.wf(),
        ensures
            r is Ok <==> old(self)@.in_bounds(y as int, x as int),
            r is Ok ==> final(self)@ == old(self)@.set_at(y as int, x as int, v),
            r is Err ==> final(self)@ == old(self)@,
            r matches Err(e) ==> e == MinesError::OutOfBounds,
    {
        if y < self.rows && x < self.cols {
            self.put(y, x, v);
            Ok(())
        } else {
            Err(MinesError::OutOfBounds)
        }
    }
}

} // verus!
