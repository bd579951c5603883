//! Neighborhood helpers over a grid: the ordered list of valid neighbor
//! coordinates of a cell (with or without corners), and counting/replacement
//! over that neighbor set.
//!
//! Enumeration order is top-left, top, top-right, left, right, bottom-left,
//! bottom, bottom-right; corner entries are present only in 8-neighbor mode,
//! and entries outside the grid bounds are skipped.

use vstd::prelude::*;
use crate::grid::Grid;
use crate::grid::GridModel;

verus! {

broadcast use crate::grid::lemma_at_set_at, crate::grid::lemma_set_at_shape, crate::grid::lemma_idx_bounds;

/// Read access to one neighbor cell together with its coordinate.
pub struct Cell<'a, T> {
    pub value: &'a T,
    pub y: usize,
    pub x: usize,
}

/// Whether enumeration slot `k` (0..8) is used: corner slots only in
/// 8-neighbor mode.
pub open spec fn slot_active(corners: bool, k: int) -> bool {
    corners || k == 1 || k == 3 || k == 4 || k == 6
}

/// Row of enumeration slot `k` around center row `y`.
pub open spec fn nbr_y(y: int, k: int) -> int {
    if k <= 2 {
        y - 1
    } else if k <= 4 {
        y
    } else {
        y + 1
    }
}

/// Column of enumeration slot `k` around center column `x`.
pub open spec fn nbr_x(x: int, k: int) -> int {
    if k == 0 || k == 3 || k == 5 {
        x - 1
    } else if k == 1 || k == 6 {
        x
    } else {
        x + 1
    }
}

/// `(r, c)` lies in the 8-neighborhood of `(y, x)` (center excluded).
pub open spec fn adj8(y: int, x: int, r: int, c: int) -> bool {
    &&& -1 <= r - y <= 1
    &&& -1 <= c - x <= 1
    &&& (r != y || c != x)
}

/// `(r, c)` is an orthogonal neighbor of `(y, x)`.
pub open spec fn adj4(y: int, x: int, r: int, c: int) -> bool {
    ||| (r == y && (c == x - 1 || c == x + 1))
    ||| (c == x && (r == y - 1 || r == y + 1))
}

/// The neighborhood relation selected by the `corners` flag.
pub open spec fn adj(y: int, x: int, r: int, c: int, corners: bool) -> bool {
    if corners {
        adj8(y, x, r, c)
    } else {
        adj4(y, x, r, c)
    }
}

/// The neighbor coordinates of distinct slots are distinct.
pub proof fn lemma_slots_distinct(y: int, x: int)
    ensures
        forall|j: int, k: int|
            #![trigger nbr_y(y, j), nbr_y(y, k)]
            0 <= j < 8 && 0 <= k < 8 && j != k ==> (nbr_y(y, j), nbr_x(x, j)) != (
                nbr_y(y, k),
                nbr_x(x, k),
            ),
{
}

/// The active slots enumerate exactly the neighborhood relation.
pub proof fn lemma_adj_slots(y: int, x: int, corners: bool)
    ensures
        forall|k: int|
            0 <= k < 8 && slot_active(corners, k) ==> adj(
                y,
                x,
                #[trigger] nbr_y(y, k),
                #[trigger] nbr_x(x, k),
                corners,
            ),
        forall|r: int, c: int|
            adj(y, x, r, c, corners) ==> exists|k: int|
                0 <= k < 8 && #[trigger] slot_active(corners, k) && r == nbr_y(y, k) && c == nbr_x(
                    x,
                    k,
                ),
{
    assert forall|r: int, c: int| adj(y, x, r, c, corners) implies exists|k: int|
        0 <= k < 8 && #[trigger] slot_active(corners, k) && r == nbr_y(y, k) && c == nbr_x(
            x,
            k,
        ) by {
        let dy = r - y;
        let dx = c - x;
        if dy == -1 && dx == -1 {
            assert(slot_active(corners, 0) && r == nbr_y(y, 0) && c == nbr_x(x, 0));
        } else if dy == -1 && dx == 0 {
            assert(slot_active(corners, 1) && r == nbr_y(y, 1) && c == nbr_x(x, 1));
        } else if dy == -1 && dx == 1 {
            assert(slot_active(corners, 2) && r == nbr_y(y, 2) && c == nbr_x(x, 2));
        } else if dy == 0 && dx == -1 {
            assert(slot_active(corners, 3) && r == nbr_y(y, 3) && c == nbr_x(x, 3));
        } else if dy == 0 && dx == 1 {
            assert(slot_active(corners, 4) && r == nbr_y(y, 4) && c == nbr_x(x, 4));
        } else if dy == 1 && dx == -1 {
            assert(slot_active(corners, 5) && r == nbr_y(y, 5) && c == nbr_x(x, 5));
        } else if dy == 1 && dx == 0 {
            assert(slot_active(corners, 6) && r == nbr_y(y, 6) && c == nbr_x(x, 6));
        } else {
            assert(slot_active(corners, 7) && r == nbr_y(y, 7) && c == nbr_x(x, 7));
        }
    }
}

/// The entry of the neighbor-coordinate list at slot `k`.
pub open spec fn spec_slot<T>(
    m: GridModel<T>,
    y: int,
    x: int,
    corners: bool,
    k: int,
) -> Option<(usize, usize)> {
    if slot_active(corners, k) && m.in_bounds(nbr_y(y, k), nbr_x(x, k)) {
        Some((nbr_y(y, k) as usize, nbr_x(x, k) as usize))
    } else {
        None
    }
}

/// 1 when slot `k` holds a valid neighbor equal to `needle`, else 0.
pub open spec fn eq01<T>(
    m: GridModel<T>,
    y: int,
    x: int,
    corners: bool,
    needle: T,
    k: int,
) -> int {
    if slot_active(corners, k) && m.in_bounds(nbr_y(y, k), nbr_x(x, k)) && m.at(
        nbr_y(y, k),
        nbr_x(x, k),
    ) == needle {
        1
    } else {
        0
    }
}

/// 1 when slot `k` holds a valid neighbor different from `needle`, else 0.
pub open spec fn ne01<T>(
    m: GridModel<T>,
    y: int,
    x: int,
    corners: bool,
    needle: T,
    k: int,
) -> int {
    if slot_active(corners, k) && m.in_bounds(nbr_y(y, k), nbr_x(x, k)) && m.at(
        nbr_y(y, k),
        nbr_x(x, k),
    ) != needle {
        1
    } else {
        0
    }
}

/// Number of valid neighbors of `(y, x)` equal to `needle`.
pub open spec fn count_around_eq<T>(
    m: GridModel<T>,
    y: int,
    x: int,
    corners: bool,
    needle: T,
) -> int {
    eq01(m, y, x, corners, needle, 0) + eq01(m, y, x, corners, needle, 1) + eq01(
        m,
        y,
        x,
        corners,
        needle,
        2,
    ) + eq01(m, y, x, corners, needle, 3) + eq01(m, y, x, corners, needle, 4) + eq01(
        m,
        y,
        x,
        corners,
        needle,
        5,
    ) + eq01(m, y, x, corners, needle, 6) + eq01(m, y, x, corners, needle, 7)
}

/// Number of valid neighbors of `(y, x)` different from `needle`.
pub open spec fn count_around_ne<T>(
    m: GridModel<T>,
    y: int,
    x: int,
    corners: bool,
    needle: T,
) -> int {
    ne01(m, y, x, corners, needle, 0) + ne01(m, y, x, corners, needle, 1) + ne01(
        m,
        y,
        x,
        corners,
        needle,
        2,
    ) + ne01(m, y, x, corners, needle, 3) + ne01(m, y, x, corners, needle, 4) + ne01(
        m,
        y,
        x,
        corners,
        needle,
        5,
    ) + ne01(m, y, x, corners, needle, 6) + ne01(m, y, x, corners, needle, 7)
}

/// Partial count of `eq01` over slots `0..k`, the loop-order prefix.
pub open spec fn count_eq_upto<T>(
    m: GridModel<T>,
    y: int,
    x: int,
    corners: bool,
    needle: T,
    k: int,
) -> int
    decreases k,
{
    if k <= 0 {
        0
    } else {
        count_eq_upto(m, y, x, corners, needle, k - 1) + eq01(m, y, x, corners, needle, k - 1)
    }
}

/// Partial count of `ne01` over slots `0..k`.
pub open spec fn count_ne_upto<T>(
    m: GridModel<T>,
    y: int,
    x: int,
    corners: bool,
    needle: T,
    k: int,
) -> int
    decreases k,
{
    if k <= 0 {
        0
    } else {
        count_ne_upto(m, y, x, corners, needle, k - 1) + ne01(m, y, x, corners, needle, k - 1)
    }
}

/// The full prefix equals the eight-term sum.
pub proof fn lemma_count_upto_full<T>(m: GridModel<T>, y: int, x: int, corners: bool, needle: T)
    ensures
        count_eq_upto(m, y, x, corners, needle, 8) == count_around_eq(m, y, x, corners, needle),
        count_ne_upto(m, y, x, corners, needle, 8) == count_around_ne(m, y, x, corners, needle),
{
    reveal_with_fuel(count_eq_upto, 9);
    reveal_with_fuel(count_ne_upto, 9);
}

/// Partial counts stay between 0 and the number of slots seen.
pub proof fn lemma_count_upto_bounds<T>(
    m: GridModel<T>,
    y: int,
    x: int,
    corners: bool,
    needle: T,
    k: int,
)
    requires
        0 <= k,
    ensures
        0 <= count_eq_upto(m, y, x, corners, needle, k) <= k,
        0 <= count_ne_upto(m, y, x, corners, needle, k) <= k,
    decreases k,
{
    if k > 0 {
        lemma_count_upto_bounds(m, y, x, corners, needle, k - 1);
    }
}

/// One conditional replacement step at slot `k`: a valid neighbor equal to
/// `old_value` is set to `new_value`.
pub open spec fn replace_one<T>(
    m: GridModel<T>,
    y: int,
    x: int,
    corners: bool,
    old_value: T,
    new_value: T,
    k: int,
) -> GridModel<T> {
    if slot_active(corners, k) && m.in_bounds(nbr_y(y, k), nbr_x(x, k)) && m.at(
        nbr_y(y, k),
        nbr_x(x, k),
    ) == old_value {
        m.set_at(nbr_y(y, k), nbr_x(x, k), new_value)
    } else {
        m
    }
}

/// Replacement applied to slots `0..k` in enumeration order.
pub open spec fn replace_upto<T>(
    m: GridModel<T>,
    y: int,
    x: int,
    corners: bool,
    old_value: T,
    new_value: T,
    k: int,
) -> GridModel<T>
    decreases k,
{
    if k <= 0 {
        m
    } else {
        replace_one(
            replace_upto(m, y, x, corners, old_value, new_value, k - 1),
            y,
            x,
            corners,
            old_value,
            new_value,
            k - 1,
        )
    }
}

/// The grid after replacing every valid neighbor of `(y, x)` equal to
/// `old_value` by `new_value`.
pub open spec fn replace_around_spec<T>(
    m: GridModel<T>,
    y: int,
    x: int,
    corners: bool,
    old_value: T,
    new_value: T,
) -> GridModel<T> {
    replace_upto(m, y, x, corners, old_value, new_value, 8)
}

/// Pointwise reading of the partial replacement: a cell is `new_value` when
/// some processed slot names it and it held `old_value`; otherwise it is
/// unchanged. Shape is preserved.
pub proof fn lemma_replace_upto_at<T>(
    m: GridModel<T>,
    y: int,
    x: int,
    corners: bool,
    old_value: T,
    new_value: T,
    k: int,
)
    requires
        m.wf(),
        0 <= k <= 8,
    ensures
        replace_upto(m, y, x, corners, old_value, new_value, k).wf(),
        replace_upto(m, y, x, corners, old_value, new_value, k).rows == m.rows,
        replace_upto(m, y, x, corners, old_value, new_value, k).cols == m.cols,
        forall|r: int, c: int|
            m.in_bounds(r, c) ==> #[trigger] replace_upto(
                m,
                y,
                x,
                corners,
                old_value,
                new_value,
                k,
            ).at(r, c) == if (exists|j: int|
                0 <= j < k && #[trigger] slot_active(corners, j) && r == nbr_y(y, j) && c == nbr_x(
                    x,
                    j,
                ) && m.at(r, c) == old_value) {
                new_value
            } else {
                m.at(r, c)
            },
    decreases k,
{
    if k > 0 {
        lemma_replace_upto_at(m, y, x, corners, old_value, new_value, k - 1);
        lemma_slots_distinct(y, x);
        let prev = replace_upto(m, y, x, corners, old_value, new_value, k - 1);
        let cur = replace_upto(m, y, x, corners, old_value, new_value, k);
        assert forall|r: int, c: int| m.in_bounds(r, c) implies #[trigger] cur.at(r, c) == if (
        exists|j: int|
            0 <= j < k && #[trigger] slot_active(corners, j) && r == nbr_y(y, j) && c == nbr_x(
                x,
                j,
            ) && m.at(r, c) == old_value) {
            new_value
        } else {
            m.at(r, c)
        } by {
            let ny = nbr_y(y, k - 1);
            let nx = nbr_x(x, k - 1);
            if slot_active(corners, k - 1) && m.in_bounds(ny, nx) && prev.at(ny, nx) == old_value {
                // the step writes slot k - 1
                if r == ny && c == nx {
                    assert(m.at(r, c) == old_value);
                    assert(0 <= k - 1 < k && slot_active(corners, k - 1) && r == nbr_y(y, k - 1)
                        && c == nbr_x(x, k - 1) && m.at(r, c) == old_value);
                }
            }
        }
    }
}

/// Iteration, counting, and replacement over the neighbor set of one cell.
pub trait MatrixExt<T>: Sized {
    /// The grid model that the contracts below speak of.
    spec fn model(&self) -> GridModel<T>;

    /// Read access to the cell at `(y, x)` together with its coordinate.
    fn cell_at<'a>(&'a self, y: usize, x: usize) -> (c: Cell<'a, T>)
        requires
            self.model().wf(),
            self.model().in_bounds(y as int, x as int),
        ensures
            *c.value == self.model().at(y as int, x as int),
            c.y == y,
            c.x == x,
    ;

    /// The ordered list of neighbor coordinates of `(y, x)`: slot `k` holds
    /// the coordinate when the slot is active and inside the bounds, and
    /// `None` otherwise. Every coordinate handed out is in range, whatever
    /// the grid size and the position of the center.
    fn coordinates_around(&self, y: usize, x: usize, corners: bool) -> (r: [Option<
        (usize, usize),
    >; 8])
        requires
            self.model().wf(),
            self.model().in_bounds(y as int, x as int),
        ensures
            forall|k: int|
                0 <= k < 8 ==> r@[k] == spec_slot(self.model(), y as int, x as int, corners, k),
            forall|k: int|
                0 <= k < 8 ==> ((#[trigger] r@[k]) matches Some(p) ==> p.0 < self.model().rows
                    && p.1 < self.model().cols && adj(
                    y as int,
                    x as int,
                    p.0 as int,
                    p.1 as int,
                    corners,
                )),
    ;
}

/// Counting and replacement over the neighbor set, for cell types that can
/// be compared for equality.
pub trait MatrixExtPartEq<T: EqCell>: MatrixExt<T> {
    /// Number of neighbors of `(y, x)` equal to `needle`.
    fn count_around_of(&self, y: usize, x: usize, corners: bool, needle: T) -> (n: u8)
        requires
            self.model().wf(),
            self.model().in_bounds(y as int, x as int),
        ensures
            n == count_around_eq(self.model(), y as int, x as int, corners, needle),
    ;

    /// Number of neighbors of `(y, x)` different from `needle`.
    fn count_around_not(&self, y: usize, x: usize, corners: bool, needle: T) -> (n: u8)
        requires
            self.model().wf(),
            self.model().in_bounds(y as int, x as int),
        ensures
            n == count_around_ne(self.model(), y as int, x as int, corners, needle),
    ;

    /// Sets every neighbor of `(y, x)` equal to `old_value` to `new_value`
    /// and returns how many were replaced. The center cell is never touched.
    fn replace_around(&mut self, y: usize, x: usize, corners: bool, old_value: T, new_value: T) -> (n:
        u8)
        requires
            old(self).model().wf(),
            old(self).model().in_bounds(y as int, x as int),
        ensures
            final(self).model() == replace_around_spec(
                old(self).model(),
                y as int,
                x as int,
                corners,
                old_value,
                new_value,
            ),
            n == count_around_eq(old(self).model(), y as int, x as int, corners, old_value),
    ;
}

/// Cell values that can be compared by executable code, with the comparison
/// agreeing with mathematical equality.
pub trait EqCell: Sized + Copy {
    fn eq_cell(&self, other: &Self) -> (r: bool)
        ensures
            r == (*self == *other),
    ;
}

impl<T> MatrixExt<T> for Grid<T> {
    open spec fn model(&self) -> GridModel<T> {
        self@
    }

    fn cell_at<'a>(&'a self, y: usize, x: usize) -> (c: Cell<'a, T>) {
        Cell { value: self.at(y, x), y, x }
    }

    fn coordinates_around(&self, y: usize, x: usize, corners: bool) -> (r: [Option<
        (usize, usize),
    >; 8]) {
        let c = corners;
        let has_l = x != 0;
        let has_t = y != 0;
        let has_r = x + 1 < self.cols();
        let has_b = y + 1 < self.rows();
        let r: [Option<(usize, usize)>; 8] = [
            if c && has_t && has_l {
                Some((y - 1, x - 1))
            } else {
                None
            },
            if has_t {
                Some((y - 1, x))
            } else {
                None
            },
            if c && has_t && has_r {
                Some((y - 1, x + 1))
            } else {
                None
            },
            if has_l {
                Some((y, x - 1))
            } else {
                None
            },
            if has_r {
                Some((y, x + 1))
            } else {
                None
            },
            if c && has_b && has_l {
                Some((y + 1, x - 1))
            } else {
                None
            },
            if has_b {
                Some((y + 1, x))
            } else {
                None
            },
            if c && has_b && has_r {
                Some((y + 1, x + 1))
            } else {
                None
            },
        ];
        proof {
            lemma_adj_slots(y as int, x as int, corners);
        }
        r
    }
}

impl<T: EqCell> MatrixExtPartEq<T> for Grid<T> {
    fn count_around_of(&self, y: usize, x: usize, corners: bool, needle: T) -> (n: u8) {
        let coords = self.coordinates_around(y, x, corners);
        let mut n: u8 = 0;
        let mut k: usize = 0;
        while k < 8
            invariant
                self@.wf(),
                self@.in_bounds(y as int, x as int),
                k <= 8,
                forall|j: int|
                    0 <= j < 8 ==> coords@[j] == spec_slot(self@, y as int, x as int, corners, j),
                n == count_eq_upto(self@, y as int, x as int, corners, needle, k as int),
                n <= k,
            decreases 8 - k,
        {
            if let Some(p) = coords[k] {
                if self.at(p.0, p.1).eq_cell(&needle) {
                    n = n + 1;
                }
            }
            k = k + 1;
        }
        proof {
            lemma_count_upto_full(self@, y as int, x as int, corners, needle);
        }
        n
    }

    fn count_around_not(&self, y: usize, x: usize, corners: bool, needle: T) -> (n: u8) {
        let coords = self.coordinates_around(y, x, corners);
        let mut n: u8 = 0;
        let mut k: usize = 0;
        while k < 8
            invariant
                self@.wf(),
                self@.in_bounds(y as int, x as int),
                k <= 8,
                forall|j: int|
                    0 <= j < 8 ==> coords@[j] == spec_slot(self@, y as int, x as int, corners, j),
                n == count_ne_upto(self@, y as int, x as int, corners, needle, k as int),
                n <= k,
            decreases 8 - k,
        {
            if let Some(p) = coords[k] {
                if !self.at(p.0, p.1).eq_cell(&needle) {
                    n = n + 1;
                }
            }
            k = k + 1;
        }
        proof {
            lemma_count_upto_full(self@, y as int, x as int, corners, needle);
        }
        n
    }

    fn replace_around(&mut self, y: usize, x: usize, corners: bool, old_value: T, new_value: T) -> (n:
        u8) {
        let ghost m0 = self@;
        let coords = self.coordinates_around(y, x, corners);
        let mut n: u8 = 0;
        let mut k: usize = 0;
        while k < 8
            invariant
                m0.wf(),
                m0.in_bounds(y as int, x as int),
                k <= 8,
                forall|j: int|
                    0 <= j < 8 ==> coords@[j] == spec_slot(m0, y as int, x as int, corners, j),
                self@ == replace_upto(m0, y as int, x as int, corners, old_value, new_value, k as int),
                n == count_eq_upto(m0, y as int, x as int, corners, old_value, k as int),
                n <= k,
            decreases 8 - k,
        {
            proof {
                lemma_replace_upto_at(m0, y as int, x as int, corners, old_value, new_value, k as int);
                lemma_slots_distinct(y as int, x as int);
            }
            if let Some(p) = coords[k] {
                if self.at(p.0, p.1).eq_cell(&old_value) {
                    self.put(p.0, p.1, new_value);
                    n = n + 1;
                }
            }
            k = k + 1;
        }
        proof {
            lemma_count_upto_full(m0, y as int, x as int, corners, old_value);
        }
        n
    }
}

} // verus!
