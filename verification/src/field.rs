//! The fixed mine layout of a board: placement with a safe starting zone and
//! incrementally maintained adjacent-mine counts.

use vstd::prelude::*;
use crate::grid::Grid;
use crate::grid::GridModel;
use crate::grid::MinesError;
use crate::matrix::MatrixExt;
use crate::matrix::EqCell;
use crate::matrix::adj8;
use crate::matrix::nbr_y;
use crate::matrix::nbr_x;
use crate::matrix::count_around_eq;
use crate::matrix::lemma_adj_slots;
use crate::matrix::lemma_slots_distinct;
use crate::matrix::slot_active;
use crate::rng::RandomSource;

verus! {

broadcast use crate::grid::lemma_at_set_at, crate::grid::lemma_set_at_shape, crate::grid::lemma_idx_bounds;

/// One cell of the mine layout: no adjacent mines, `1..=8` adjacent mines,
/// or a mine.
#[derive(Clone, Copy, PartialEq, Eq, Structural, Debug)]
pub enum FieldCell {
    Empty,
    NearMine(u8),
    Mine,
}

impl EqCell for FieldCell {
    fn eq_cell(&self, other: &Self) -> (r: bool) {
        *self == *other
    }
}

/// Number of mines among the valid 8-neighbors of `(y, x)`.
pub open spec fn adj_mines(m: GridModel<FieldCell>, y: int, x: int) -> int {
    count_around_eq(m, y, x, true, FieldCell::Mine)
}

/// The cell at `(y, x)` is consistent with the mines around it: `Empty`
/// means zero adjacent mines and `NearMine(k)` means exactly `k` of them.
pub open spec fn cell_ok(m: GridModel<FieldCell>, y: int, x: int) -> bool {
    match m.at(y, x) {
        FieldCell::Empty => adj_mines(m, y, x) == 0,
        FieldCell::NearMine(k) => 1 <= k <= 8 && k == adj_mines(m, y, x),
        FieldCell::Mine => true,
    }
}

/// Every cell of the layout is consistent.
pub open spec fn field_ok(m: GridModel<FieldCell>) -> bool {
    forall|y: int, x: int| m.in_bounds(y, x) ==> #[trigger] cell_ok(m, y, x)
}

/// `(y, x)` lies in the 8-neighborhood, center included, of `(ey, ex)`.
pub open spec fn in_safe_zone(y: int, x: int, ey: int, ex: int) -> bool {
    -1 <= y - ey <= 1 && -1 <= x - ex <= 1
}

/// No mine lies in the safe zone around `(ey, ex)`.
pub open spec fn safe_zone_clear(m: GridModel<FieldCell>, ey: int, ex: int) -> bool {
    forall|y: int, x: int|
        m.in_bounds(y, x) && in_safe_zone(y, x, ey, ex) ==> !(#[trigger] m.at(y, x) is Mine)
}

/// Number of mines in a row-major cell sequence.
pub open spec fn count_mines(s: Seq<FieldCell>) -> int
    decreases s.len(),
{
    if s.len() == 0 {
        0
    } else {
        count_mines(s.drop_last()) + if s.last() is Mine {
            1int
        } else {
            0int
        }
    }
}

/// Total number of mines in the layout.
pub open spec fn num_mines(m: GridModel<FieldCell>) -> int {
    count_mines(m.cells)
}

/// Sequences whose entries agree on being mines hold the same number of
/// mines.
proof fn lemma_count_mines_congruent(s0: Seq<FieldCell>, s1: Seq<FieldCell>)
    requires
        s0.len() == s1.len(),
        forall|i: int| 0 <= i < s0.len() ==> ((#[trigger] s0[i]) is Mine <==> s1[i] is Mine),
    ensures
        count_mines(s0) == count_mines(s1),
    decreases s0.len(),
{
    if s0.len() > 0 {
        lemma_count_mines_congruent(s0.drop_last(), s1.drop_last());
    }
}

/// Turning exactly one non-mine entry into a mine raises the count by one.
proof fn lemma_count_mines_flip(s0: Seq<FieldCell>, s1: Seq<FieldCell>, i0: int)
    requires
        s0.len() == s1.len(),
        0 <= i0 < s0.len(),
        !(s0[i0] is Mine),
        s1[i0] is Mine,
        forall|i: int| 0 <= i < s0.len() && i != i0 ==> ((#[trigger] s0[i]) is Mine <==> s1[i] is Mine),
    ensures
        count_mines(s1) == count_mines(s0) + 1,
    decreases s0.len(),
{
    if i0 == s0.len() - 1 {
        lemma_count_mines_congruent(s0.drop_last(), s1.drop_last());
    } else {
        lemma_count_mines_flip(s0.drop_last(), s1.drop_last(), i0);
    }
}

/// A sequence with no mines counts zero.
proof fn lemma_count_mines_zero(s: Seq<FieldCell>)
    requires
        forall|i: int| 0 <= i < s.len() ==> !((#[trigger] s[i]) is Mine),
    ensures
        count_mines(s) == 0,
    decreases s.len(),
{
    if s.len() > 0 {
        lemma_count_mines_zero(s.drop_last());
    }
}

/// A neighbor's value after one more adjacent mine: an empty cell starts
/// counting at one, a count grows by one, a mine stays a mine.
pub open spec fn bump(c: FieldCell) -> FieldCell {
    match c {
        FieldCell::Empty => FieldCell::NearMine(1),
        FieldCell::NearMine(k) => FieldCell::NearMine((k + 1) as u8),
        FieldCell::Mine => FieldCell::Mine,
    }
}

/// How placing a mine at `(y, x)` rewrites the cell at `(a, b)`.
pub open spec fn placed_cell(
    m: GridModel<FieldCell>,
    y: int,
    x: int,
    a: int,
    b: int,
) -> FieldCell {
    if a == y && b == x {
        FieldCell::Mine
    } else if adj8(y, x, a, b) {
        bump(m.at(a, b))
    } else {
        m.at(a, b)
    }
}

/// Intermediate shape of the placement loop: the center holds the mine and
/// the neighbors of the first `k` enumeration slots are bumped.
spec fn bumped_cell(
    m: GridModel<FieldCell>,
    y: int,
    x: int,
    a: int,
    b: int,
    k: int,
) -> FieldCell {
    if a == y && b == x {
        FieldCell::Mine
    } else if exists|j: int| 0 <= j < k && a == #[trigger] nbr_y(y, j) && b == nbr_x(x, j) {
        bump(m.at(a, b))
    } else {
        m.at(a, b)
    }
}

/// Mine-ness after placement: exactly the old mines plus the center.
proof fn lemma_placed_mineness(m: GridModel<FieldCell>, y: int, x: int, a: int, b: int)
    ensures
        placed_cell(m, y, x, a, b) is Mine <==> (m.at(a, b) is Mine || (a == y && b == x)),
{
}

/// After placing a mine at an adjacency-consistent, mine-free cell, every
/// cell's adjacent-mine count grows by one exactly in the 8-neighborhood of
/// the placement.
proof fn lemma_adj_mines_shift(
    m0: GridModel<FieldCell>,
    m1: GridModel<FieldCell>,
    y: int,
    x: int,
)
    requires
        m0.wf(),
        m1.wf(),
        m0.rows == m1.rows,
        m0.cols == m1.cols,
        m0.in_bounds(y, x),
        !(m0.at(y, x) is Mine),
        forall|a: int, b: int|
            m0.in_bounds(a, b) ==> ((#[trigger] m1.at(a, b)) is Mine <==> (m0.at(a, b) is Mine || (
            a == y && b == x))),
    ensures
        forall|a: int, b: int|
            m0.in_bounds(a, b) ==> #[trigger] adj_mines(m1, a, b) == adj_mines(m0, a, b) + if adj8(
                y,
                x,
                a,
                b,
            ) {
                1int
            } else {
                0int
            },
{
    assert forall|a: int, b: int| m0.in_bounds(a, b) implies #[trigger] adj_mines(m1, a, b)
        == adj_mines(m0, a, b) + if adj8(y, x, a, b) {
        1int
    } else {
        0int
    } by {
        lemma_adj_slots(a, b, true);
        lemma_slots_distinct(a, b);
    }
}

/// The fixed mine layout and the counts derived from it. Created once via
/// generation and immutable afterwards.
pub struct Field(Grid<FieldCell>);

impl View for Field {
    type V = GridModel<FieldCell>;

    closed spec fn view(&self) -> GridModel<FieldCell> {
        self.0@
    }
}

impl Field {
    /// A generated field is well-formed: its grid is rectangular and every
    /// cell's count is consistent with the mines around it.
    pub open spec fn wf(self) -> bool {
        self@.wf() && field_ok(self@)
    }

    /// Read access to the underlying grid.
    pub fn grid(&self) -> (g: &Grid<FieldCell>)
        ensures
            g@ == self@,
    {
        &self.0
    }

    pub fn rows(&self) -> (r: usize)
        ensures
            r == self@.rows,
    {
        self.0.rows()
    }

    pub fn cols(&self) -> (r: usize)
        ensures
            r == self@.cols,
    {
        self.0.cols()
    }

    /// The cell at an in-bounds coordinate.
    pub fn cell(&self, y: usize, x: usize) -> (c: FieldCell)
        requires
            self@.wf(),
            self@.in_bounds(y as int, x as int),
        ensures
            c == self@.at(y as int, x as int),
    {
        *self.0.at(y, x)
    }

    /// Generates a field of `h` rows by `w` columns holding exactly `mines`
    /// mines, none of them in the safe zone around `(except_y, except_x)`.
    /// Placement draws coordinates from `rand` and retries on rejection; a
    /// generous retry budget (one hundred draws per cell) guards the loop,
    /// and exhausting it surfaces `GenerationExhausted`.
    pub fn generate<R: RandomSource>(
        h: usize,
        w: usize,
        mines: usize,
        except_y: usize,
        except_x: usize,
        rand: &mut R,
    ) -> (r: Result<Field, MinesError>)
        requires
            mines < h * w,
            h * w <= usize::MAX,
            except_y < h,
            except_x < w,
        ensures
            r matches Ok(f) ==> f.wf() && f@.rows == h && f@.cols == w && num_mines(f@) == mines
                && safe_zone_clear(f@, except_y as int, except_x as int),
            r matches Err(e) ==> e == MinesError::GenerationExhausted,
            mines == 0 ==> r is Ok,
    {
        proof {
            assert(h >= 1 && w >= 1) by (nonlinear_arith)
                requires
                    mines < h * w,
                    0 <= mines,
            ;
        }
        let grid = Grid::new_filled(h, w, FieldCell::Empty);
        let mut field = Field(grid);
        proof {
            assert forall|y: int, x: int| field@.in_bounds(y, x) implies #[trigger] cell_ok(
                field@,
                y,
                x,
            ) by {
                lemma_adj_slots(y, x, true);
            }
            assert forall|i: int| 0 <= i < field@.cells.len() implies !((#[trigger] field@.cells[i])
                is Mine) by {
                crate::grid::lemma_flat_coords(field@, i);
            }
            lemma_count_mines_zero(field@.cells);
        }
        let cells64 = (h as u64) * (w as u64);
        let cap: u64 = if cells64 <= u64::MAX / 100 {
            100 * cells64
        } else {
            u64::MAX
        };
        let mut placed: usize = 0;
        let mut attempts: u64 = 0;
        while placed < mines && attempts < cap
            invariant
                field.wf(),
                field@.rows == h,
                field@.cols == w,
                num_mines(field@) == placed,
                safe_zone_clear(field@, except_y as int, except_x as int),
                placed <= mines,
                mines < h * w,
                except_y < h,
                except_x < w,
                attempts <= cap,
            decreases cap - attempts,
        {
            let ry = rand.uniform_int(0, h);
            let rx = rand.uniform_int(0, w);
            if field.set_mine(ry, rx, except_y, except_x) {
                placed = placed + 1;
            }
            attempts = attempts + 1;
        }
        if placed == mines {
            Ok(field)
        } else {
            Err(MinesError::GenerationExhausted)
        }
    }

    /// One placement attempt at `(y, x)`. The attempt is rejected — leaving
    /// the field unchanged — when the cell lies in the safe zone around
    /// `(except_y, except_x)` or already holds a mine. Otherwise the cell
    /// becomes a mine, the count of every valid 8-neighbor grows by one, and
    /// the layout stays consistent.
    fn set_mine(&mut self, y: usize, x: usize, except_y: usize, except_x: usize) -> (placed: bool)
        requires
            old(self).wf(),
            old(self)@.in_bounds(y as int, x as int),
            old(self)@.in_bounds(except_y as int, except_x as int),
        ensures
            final(self).wf(),
            final(self)@.rows == old(self)@.rows,
            final(self)@.cols == old(self)@.cols,
            !placed ==> final(self)@ == old(self)@ && (in_safe_zone(
                y as int,
                x as int,
                except_y as int,
                except_x as int,
            ) || old(self)@.at(y as int, x as int) is Mine),
            placed ==> !in_safe_zone(y as int, x as int, except_y as int, except_x as int) && !(
            old(self)@.at(y as int, x as int) is Mine) && num_mines(final(self)@) == num_mines(
                old(self)@,
            ) + 1 && (forall|a: int, b: int|
                old(self)@.in_bounds(a, b) ==> #[trigger] final(self)@.at(a, b) == placed_cell(
                    old(self)@,
                    y as int,
                    x as int,
                    a,
                    b,
                )),
            placed && safe_zone_clear(old(self)@, except_y as int, except_x as int)
                ==> safe_zone_clear(final(self)@, except_y as int, except_x as int),
    {
        if y + 1 >= except_y && y <= except_y + 1 && x + 1 >= except_x && x <= except_x + 1 {
            return false;
        }
        let cur = *self.0.at(y, x);
        if let FieldCell::Mine = cur {
            return false;
        }
        let ghost m0 = self@;
        self.0.put(y, x, FieldCell::Mine);
        let coords = self.0.coordinates_around(y, x, true);
        proof {
            lemma_slots_distinct(y as int, x as int);
        }
        let mut k: usize = 0;
        while k < 8
            invariant
                m0.wf(),
                field_ok(m0),
                m0.in_bounds(y as int, x as int),
                !(m0.at(y as int, x as int) is Mine),
                self@.wf(),
                self@.rows == m0.rows,
                self@.cols == m0.cols,
                k <= 8,
                forall|j: int|
                    0 <= j < 8 ==> coords@[j] == crate::matrix::spec_slot(
                        m0,
                        y as int,
                        x as int,
                        true,
                        j,
                    ),
                forall|a: int, b: int|
                    m0.in_bounds(a, b) ==> #[trigger] self@.at(a, b) == bumped_cell(
                        m0,
                        y as int,
                        x as int,
                        a,
                        b,
                        k as int,
                    ),
            decreases 8 - k,
        {
            proof {
                lemma_slots_distinct(y as int, x as int);
            }
            if let Some(p) = coords[k] {
                let c = *self.0.at(p.0, p.1);
                let nc = match c {
                    FieldCell::Empty => FieldCell::NearMine(1),
                    FieldCell::NearMine(q) => {
                        proof {
                            assert(cell_ok(m0, p.0 as int, p.1 as int));
                        }
                        FieldCell::NearMine(q + 1)
                    },
                    FieldCell::Mine => FieldCell::Mine,
                };
                self.0.put(p.0, p.1, nc);
                proof {
                    assert(p.0 as int == nbr_y(y as int, k as int) && p.1 as int == nbr_x(
                        x as int,
                        k as int,
                    ));
                    assert(exists|j: int|
                        0 <= j < k + 1 && p.0 as int == #[trigger] nbr_y(y as int, j) && p.1 as int
                            == nbr_x(x as int, j));
                }
            }
            k = k + 1;
        }
        proof {
            lemma_adj_slots(y as int, x as int, true);
            let m1 = self@;
            assert forall|a: int, b: int| m0.in_bounds(a, b) implies #[trigger] m1.at(a, b)
                == placed_cell(m0, y as int, x as int, a, b) by {
                if adj8(y as int, x as int, a, b) {
                    assert(crate::matrix::adj(y as int, x as int, a, b, true));
                    let j = choose|k: int|
                        0 <= k < 8 && #[trigger] slot_active(true, k) && a == nbr_y(y as int, k)
                            && b == nbr_x(x as int, k);
                    assert(0 <= j < 8 && a == nbr_y(y as int, j) && b == nbr_x(x as int, j));
                }
            }
            assert forall|a: int, b: int| m0.in_bounds(a, b) implies ((#[trigger] m1.at(a, b))
                is Mine <==> (m0.at(a, b) is Mine || (a == y as int && b == x as int))) by {
                lemma_placed_mineness(m0, y as int, x as int, a, b);
            }
            lemma_adj_mines_shift(m0, m1, y as int, x as int);
            assert forall|a: int, b: int| m1.in_bounds(a, b) implies #[trigger] cell_ok(
                m1,
                a,
                b,
            ) by {
                assert(cell_ok(m0, a, b));
                assert(0 <= adj_mines(m1, a, b) <= 8);
            }
            assert forall|i: int| 0 <= i < m0.cells.len() implies ((#[trigger] m1.cells[i]) is Mine
                <==> (m0.cells[i] is Mine || i == m0.idx(y as int, x as int))) by {
                crate::grid::lemma_flat_coords(m0, i);
                let a = i / m0.cols;
                let b = i % m0.cols;
                assert(m1.at(a, b) == placed_cell(m0, y as int, x as int, a, b));
                lemma_placed_mineness(m0, y as int, x as int, a, b);
                assert(m1.cells[i] == m1.at(a, b));
                if i == m0.idx(y as int, x as int) {
                    crate::grid::lemma_idx_injective(m0, a, b, y as int, x as int);
                }
                if a == y as int && b == x as int {
                    assert(i == m0.idx(y as int, x as int));
                }
            }
            crate::grid::lemma_idx_bounds(m0, y as int, x as int);
            lemma_count_mines_flip(m0.cells, m1.cells, m0.idx(y as int, x as int));
        }
        true
    }
}

} // verus!
