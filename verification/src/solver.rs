//! Mathematical model of the two solver heuristics.
//!
//! Both passes walk the grid in row-major order and apply their effect
//! immediately, so a flag or reveal made at one cell is seen by the cells
//! visited after it; the folds here reproduce exactly that order-dependent
//! behavior. `auto_flag` flags the hidden neighbors of a shown counted cell
//! whose not-shown neighbors are exactly its count; `auto_open` reveals the
//! hidden neighbors of a shown counted cell whose flagged neighbors are
//! exactly its count.

use vstd::prelude::*;
use crate::grid::GridModel;
use crate::field::FieldCell;
use crate::matrix::count_around_eq;
use crate::matrix::count_around_ne;
use crate::matrix::count_eq_upto;
use crate::matrix::replace_around_spec;
use crate::matrix::replace_upto;
use crate::matrix::lemma_replace_upto_at;
use crate::matrix::lemma_count_upto_full;
use crate::matrix::lemma_slots_distinct;
use crate::matrix::nbr_y;
use crate::matrix::nbr_x;
use crate::matrix::slot_active;
use crate::flood::reveal_at_spec;
use crate::session::CellView;

verus! {

broadcast use crate::grid::lemma_at_set_at, crate::grid::lemma_set_at_shape, crate::grid::lemma_idx_bounds;

/// Number of hidden entries of a row-major cell sequence.
pub open spec fn count_hidden(s: Seq<CellView>) -> int
    decreases s.len(),
{
    if s.len() == 0 {
        0
    } else {
        count_hidden(s.drop_last()) + if s.last() is Hidden {
            1int
        } else {
            0int
        }
    }
}

pub proof fn lemma_count_hidden_bounds(s: Seq<CellView>)
    ensures
        0 <= count_hidden(s) <= s.len(),
    decreases s.len(),
{
    if s.len() > 0 {
        lemma_count_hidden_bounds(s.drop_last());
    }
}

proof fn lemma_count_hidden_update(s: Seq<CellView>, i: int, v: CellView)
    requires
        0 <= i < s.len(),
    ensures
        count_hidden(s.update(i, v)) == count_hidden(s) - (if s[i] is Hidden {
            1int
        } else {
            0int
        }) + (if v is Hidden {
            1int
        } else {
            0int
        }),
    decreases s.len(),
{
    let s1 = s.update(i, v);
    if i == s.len() - 1 {
        assert(s1.drop_last() =~= s.drop_last());
    } else {
        assert(s1.drop_last() =~= s.drop_last().update(i, v));
        lemma_count_hidden_update(s.drop_last(), i, v);
    }
}

/// Flagging around a cell removes exactly as many hidden cells as it
/// counts: the replaced neighbors.
proof fn lemma_replace_hidden_count_upto(p: GridModel<CellView>, y: int, x: int, k: int)
    requires
        p.wf(),
        p.in_bounds(y, x),
        0 <= k <= 8,
    ensures
        count_hidden(replace_upto(p, y, x, true, CellView::Hidden, CellView::Flagged, k).cells)
            == count_hidden(p.cells) - count_eq_upto(p, y, x, true, CellView::Hidden, k),
    decreases k,
{
    if k > 0 {
        lemma_replace_hidden_count_upto(p, y, x, k - 1);
        lemma_replace_upto_at(p, y, x, true, CellView::Hidden, CellView::Flagged, k - 1);
        lemma_replace_upto_at(p, y, x, true, CellView::Hidden, CellView::Flagged, k);
        lemma_slots_distinct(y, x);
        let prev = replace_upto(p, y, x, true, CellView::Hidden, CellView::Flagged, k - 1);
        let ny = nbr_y(y, k - 1);
        let nx = nbr_x(x, k - 1);
        if p.in_bounds(ny, nx) && prev.at(ny, nx) == CellView::Hidden {
            crate::grid::lemma_idx_bounds(prev, ny, nx);
            lemma_count_hidden_update(prev.cells, prev.idx(ny, nx), CellView::Flagged);
            assert(prev.cells[prev.idx(ny, nx)] == prev.at(ny, nx));
        }
    }
}

/// The count handed back by a full neighborhood flagging equals the hidden
/// cells it removed.
pub proof fn lemma_replace_hidden_count(p: GridModel<CellView>, y: int, x: int)
    requires
        p.wf(),
        p.in_bounds(y, x),
    ensures
        count_hidden(replace_around_spec(p, y, x, true, CellView::Hidden, CellView::Flagged).cells)
            == count_hidden(p.cells) - count_around_eq(p, y, x, true, CellView::Hidden),
        0 <= count_around_eq(p, y, x, true, CellView::Hidden),
{
    lemma_replace_hidden_count_upto(p, y, x, 8);
    lemma_count_upto_full(p, y, x, true, CellView::Hidden);
    crate::matrix::lemma_count_upto_bounds(p, y, x, true, CellView::Hidden, 8);
}

/// The solver may flag around `(y, x)`: the cell is shown, counts `n`
/// adjacent mines, and exactly `n` of its neighbors are not shown.
pub open spec fn flag_eligible(
    f: GridModel<FieldCell>,
    p: GridModel<CellView>,
    y: int,
    x: int,
) -> bool {
    &&& p.at(y, x) is Shown
    &&& (f.at(y, x) matches FieldCell::NearMine(n) && count_around_ne(p, y, x, true, CellView::Shown)
        == n)
}

/// One flag step: an eligible cell has all its hidden neighbors flagged,
/// counting the newly flagged ones.
pub open spec fn flag_cell(
    f: GridModel<FieldCell>,
    p: GridModel<CellView>,
    y: int,
    x: int,
) -> (GridModel<CellView>, int) {
    if flag_eligible(f, p, y, x) {
        (
            replace_around_spec(p, y, x, true, CellView::Hidden, CellView::Flagged),
            count_around_eq(p, y, x, true, CellView::Hidden),
        )
    } else {
        (p, 0)
    }
}

/// Shape and pointwise facts of one flag step: shown cells stay shown and
/// nothing but hidden cells turns flagged; the count is the number of
/// hidden cells removed.
pub proof fn lemma_flag_cell_props(
    f: GridModel<FieldCell>,
    p: GridModel<CellView>,
    y: int,
    x: int,
)
    requires
        p.wf(),
        p.in_bounds(y, x),
    ensures
        flag_cell(f, p, y, x).0.wf(),
        flag_cell(f, p, y, x).0.rows == p.rows,
        flag_cell(f, p, y, x).0.cols == p.cols,
        forall|a: int, b: int|
            p.in_bounds(a, b) ==> #[trigger] flag_cell(f, p, y, x).0.at(a, b) == p.at(a, b) || (
            p.at(a, b) is Hidden && flag_cell(f, p, y, x).0.at(a, b) is Flagged),
        forall|a: int, b: int|
            p.in_bounds(a, b) ==> ((#[trigger] flag_cell(f, p, y, x).0.at(a, b)) is Shown <==> p.at(
                a,
                b,
            ) is Shown),
        count_hidden(flag_cell(f, p, y, x).0.cells) == count_hidden(p.cells) - flag_cell(
            f,
            p,
            y,
            x,
        ).1,
        0 <= flag_cell(f, p, y, x).1,
        flag_eligible(f, p, y, x) ==> forall|a: int, b: int|
            p.in_bounds(a, b) && crate::matrix::adj8(y, x, a, b) && p.at(a, b) is Hidden
                ==> (#[trigger] flag_cell(f, p, y, x).0.at(a, b)) is Flagged,
{
    if flag_eligible(f, p, y, x) {
        lemma_replace_upto_at(p, y, x, true, CellView::Hidden, CellView::Flagged, 8);
        lemma_replace_hidden_count(p, y, x);
        crate::matrix::lemma_adj_slots(y, x, true);
        assert forall|a: int, b: int|
            p.in_bounds(a, b) && crate::matrix::adj8(y, x, a, b) && p.at(a, b)
                is Hidden implies (#[trigger] flag_cell(f, p, y, x).0.at(a, b)) is Flagged by {
            assert(crate::matrix::adj(y, x, a, b, true));
            let j = choose|k: int|
                0 <= k < 8 && #[trigger] slot_active(true, k) && a == nbr_y(y, k) && b == nbr_x(
                    x,
                    k,
                );
            assert(0 <= j < 8 && slot_active(true, j) && a == nbr_y(y, j) && b == nbr_x(x, j)
                && p.at(a, b) == CellView::Hidden);
            assert(flag_cell(f, p, y, x).0.at(a, b) == replace_upto(
                p,
                y,
                x,
                true,
                CellView::Hidden,
                CellView::Flagged,
                8,
            ).at(a, b));
        }
        assert forall|a: int, b: int| p.in_bounds(a, b) implies #[trigger] flag_cell(
            f,
            p,
            y,
            x,
        ).0.at(a, b) == p.at(a, b) || (p.at(a, b) is Hidden && flag_cell(f, p, y, x).0.at(a, b)
            is Flagged) by {
            assert(flag_cell(f, p, y, x).0.at(a, b) == replace_upto(
                p,
                y,
                x,
                true,
                CellView::Hidden,
                CellView::Flagged,
                8,
            ).at(a, b));
        }
    }
}

/// The rest of the row-major flag pass, starting at `(y, x)`.
pub open spec fn flag_from(
    f: GridModel<FieldCell>,
    p: GridModel<CellView>,
    y: int,
    x: int,
) -> (GridModel<CellView>, int)
    decreases f.rows - y, f.cols - x,
{
    if y >= f.rows {
        (p, 0)
    } else if x >= f.cols {
        flag_from(f, p, y + 1, 0)
    } else {
        let step = flag_cell(f, p, y, x);
        let rest = flag_from(f, step.0, y, x + 1);
        (rest.0, step.1 + rest.1)
    }
}

/// The whole flag pass.
pub open spec fn auto_flag_spec(f: GridModel<FieldCell>, p: GridModel<CellView>) -> (
    GridModel<CellView>,
    int,
) {
    flag_from(f, p, 0, 0)
}

/// The solver may open around `(y, x)`: the cell is shown, counts `n`
/// adjacent mines, and exactly `n` of its neighbors are flagged.
pub open spec fn open_eligible(
    f: GridModel<FieldCell>,
    p: GridModel<CellView>,
    y: int,
    x: int,
) -> bool {
    &&& p.at(y, x) is Shown
    &&& (f.at(y, x) matches FieldCell::NearMine(n) && count_around_eq(p, y, x, true, CellView::Flagged)
        == n)
}

/// The neighbor openings of one eligible cell, from enumeration slot `k`
/// on: each neighbor that is hidden at its turn is revealed (flooding
/// through empty cells), and counts one.
pub open spec fn open_nbrs(
    f: GridModel<FieldCell>,
    p: GridModel<CellView>,
    y: int,
    x: int,
    k: int,
) -> (GridModel<CellView>, int)
    decreases 8 - k,
{
    if k >= 8 {
        (p, 0)
    } else {
        let ny = nbr_y(y, k);
        let nx = nbr_x(x, k);
        let step: (GridModel<CellView>, int) = if p.in_bounds(ny, nx) && p.at(ny, nx) is Hidden {
            (reveal_at_spec(f, p, ny, nx), 1int)
        } else {
            (p, 0int)
        };
        let rest = open_nbrs(f, step.0, y, x, k + 1);
        (rest.0, step.1 + rest.1)
    }
}

/// One open step: an eligible cell has its hidden neighbors revealed.
pub open spec fn open_cell(
    f: GridModel<FieldCell>,
    p: GridModel<CellView>,
    y: int,
    x: int,
) -> (GridModel<CellView>, int) {
    if open_eligible(f, p, y, x) {
        open_nbrs(f, p, y, x, 0)
    } else {
        (p, 0)
    }
}

/// The rest of the row-major open pass, starting at `(y, x)`.
pub open spec fn open_from(
    f: GridModel<FieldCell>,
    p: GridModel<CellView>,
    y: int,
    x: int,
) -> (GridModel<CellView>, int)
    decreases f.rows - y, f.cols - x,
{
    if y >= f.rows {
        (p, 0)
    } else if x >= f.cols {
        open_from(f, p, y + 1, 0)
    } else {
        let step = open_cell(f, p, y, x);
        let rest = open_from(f, step.0, y, x + 1);
        (rest.0, step.1 + rest.1)
    }
}

/// The whole open pass.
pub open spec fn auto_open_spec(f: GridModel<FieldCell>, p: GridModel<CellView>) -> (
    GridModel<CellView>,
    int,
) {
    open_from(f, p, 0, 0)
}

/// `(a, b)` is `(y, x)` or comes after it in row-major order.
pub open spec fn at_or_after(y: int, x: int, a: int, b: int) -> bool {
    a > y || (a == y && b >= x)
}

/// Pointwise facts of the whole flag pass: shape is kept; cells only turn
/// from hidden to flagged; in particular the shown set is untouched.
pub proof fn lemma_flag_from_pointwise(f: GridModel<FieldCell>, p: GridModel<CellView>, y: int, x: int)
    requires
        p.wf(),
        f.rows == p.rows,
        f.cols == p.cols,
        0 <= y,
        0 <= x,
    ensures
        flag_from(f, p, y, x).0.wf(),
        flag_from(f, p, y, x).0.rows == p.rows,
        flag_from(f, p, y, x).0.cols == p.cols,
        forall|a: int, b: int|
            p.in_bounds(a, b) ==> #[trigger] flag_from(f, p, y, x).0.at(a, b) == p.at(a, b) || (
            p.at(a, b) is Hidden && flag_from(f, p, y, x).0.at(a, b) is Flagged),
        forall|a: int, b: int|
            p.in_bounds(a, b) ==> ((#[trigger] flag_from(f, p, y, x).0.at(a, b)) is Shown <==> p.at(
                a,
                b,
            ) is Shown),
    decreases f.rows - y, f.cols - x,
{
    if y >= f.rows {
    } else if x >= f.cols {
        lemma_flag_from_pointwise(f, p, y + 1, 0);
    } else {
        lemma_flag_cell_props(f, p, y, x);
        lemma_flag_from_pointwise(f, flag_cell(f, p, y, x).0, y, x + 1);
    }
}

/// Eligibility for flagging depends only on the shown set, which a flag
/// pass never changes.
pub proof fn lemma_eligible_stable(
    f: GridModel<FieldCell>,
    p: GridModel<CellView>,
    q: GridModel<CellView>,
    a: int,
    b: int,
)
    requires
        p.rows == q.rows,
        p.cols == q.cols,
        p.in_bounds(a, b),
        forall|i: int, j: int|
            p.in_bounds(i, j) ==> ((#[trigger] q.at(i, j)) is Shown <==> p.at(i, j) is Shown),
    ensures
        flag_eligible(f, q, a, b) <==> flag_eligible(f, p, a, b),
{
    assert forall|k: int| 0 <= k < 8 implies crate::matrix::ne01(q, a, b, true, CellView::Shown, k)
        == crate::matrix::ne01(p, a, b, true, CellView::Shown, k) by {
        let ny = nbr_y(a, k);
        let nx = nbr_x(b, k);
        if p.in_bounds(ny, nx) {
            assert(q.at(ny, nx) is Shown <==> p.at(ny, nx) is Shown);
            assert((q.at(ny, nx) == CellView::Shown) <==> (p.at(ny, nx) == CellView::Shown));
        }
    }
    assert(count_around_ne(q, a, b, true, CellView::Shown) == count_around_ne(
        p,
        a,
        b,
        true,
        CellView::Shown,
    ));
    assert(q.at(a, b) is Shown <==> p.at(a, b) is Shown);
}

/// After the flag pass has visited a cell that was eligible, none of its
/// neighbors is hidden any more, and the rest of the pass keeps it so.
pub proof fn lemma_flag_from_clears(f: GridModel<FieldCell>, p: GridModel<CellView>, y: int, x: int)
    requires
        p.wf(),
        f.rows == p.rows,
        f.cols == p.cols,
        0 <= y,
        0 <= x,
    ensures
        forall|a: int, b: int|
            p.in_bounds(a, b) && at_or_after(y, x, a, b) && #[trigger] flag_eligible(f, p, a, b)
                ==> count_around_eq(flag_from(f, p, y, x).0, a, b, true, CellView::Hidden) == 0,
    decreases f.rows - y, f.cols - x,
{
    if y >= f.rows {
    } else if x >= f.cols {
        lemma_flag_from_clears(f, p, y + 1, 0);
    } else {
        let q1 = flag_cell(f, p, y, x).0;
        let r = flag_from(f, p, y, x).0;
        lemma_flag_cell_props(f, p, y, x);
        lemma_flag_from_clears(f, q1, y, x + 1);
        lemma_flag_from_pointwise(f, q1, y, x + 1);
        assert forall|a: int, b: int|
            p.in_bounds(a, b) && at_or_after(y, x, a, b) && #[trigger] flag_eligible(
                f,
                p,
                a,
                b,
            ) implies count_around_eq(r, a, b, true, CellView::Hidden) == 0 by {
            if a == y && b == x {
                // the visited cell itself: its hidden neighbors were just
                // flagged, and later steps never create hidden cells
                assert forall|k: int|
                    0 <= k < 8 implies crate::matrix::eq01(r, a, b, true, CellView::Hidden, k)
                    == 0 by {
                    let ny = nbr_y(a, k);
                    let nx = nbr_x(b, k);
                    if p.in_bounds(ny, nx) {
                        assert(crate::matrix::adj8(y, x, ny, nx));
                        if p.at(ny, nx) is Hidden {
                            assert(q1.at(ny, nx) is Flagged);
                        }
                        assert(!(q1.at(ny, nx) is Hidden));
                        assert(r.at(ny, nx) == q1.at(ny, nx) || (q1.at(ny, nx) is Hidden && r.at(
                            ny,
                            nx,
                        ) is Flagged));
                        assert(!(r.at(ny, nx) is Hidden));
                    }
                }
            } else {
                // a later cell: eligibility transfers to the state after
                // this step, and the recursion clears it
                lemma_eligible_stable(f, p, q1, a, b);
                assert(at_or_after(y, x + 1, a, b));
                assert(flag_eligible(f, q1, a, b));
                assert(count_around_eq(flag_from(f, q1, y, x + 1).0, a, b, true, CellView::Hidden)
                    == 0);
            }
        }
    }
}

/// A flag pass over a state in which every eligible cell already has no
/// hidden neighbor does nothing.
pub proof fn lemma_flag_from_zero(f: GridModel<FieldCell>, p: GridModel<CellView>, y: int, x: int)
    requires
        p.wf(),
        f.rows == p.rows,
        f.cols == p.cols,
        0 <= y,
        0 <= x,
        forall|a: int, b: int|
            p.in_bounds(a, b) && at_or_after(y, x, a, b) && #[trigger] flag_eligible(f, p, a, b)
                ==> count_around_eq(p, a, b, true, CellView::Hidden) == 0,
    ensures
        flag_from(f, p, y, x) == (p, 0int),
    decreases f.rows - y, f.cols - x,
{
    if y >= f.rows {
    } else if x >= f.cols {
        lemma_flag_from_zero(f, p, y + 1, 0);
    } else {
        let step = flag_cell(f, p, y, x);
        lemma_flag_cell_props(f, p, y, x);
        if flag_eligible(f, p, y, x) {
            assert(at_or_after(y, x, y, x));
            assert(count_around_eq(p, y, x, true, CellView::Hidden) == 0);
            lemma_replace_upto_at(p, y, x, true, CellView::Hidden, CellView::Flagged, 8);
            lemma_count_upto_full(p, y, x, true, CellView::Hidden);
            crate::matrix::lemma_count_upto_bounds(p, y, x, true, CellView::Hidden, 8);
            // no neighbor is hidden, so the replacement touches nothing
            assert forall|a: int, b: int| p.in_bounds(a, b) implies #[trigger] step.0.at(a, b)
                == p.at(a, b) by {
                if p.at(a, b) is Hidden && step.0.at(a, b) is Flagged {
                    crate::matrix::lemma_adj_slots(y, x, true);
                    assert(step.0.at(a, b) == replace_upto(
                        p,
                        y,
                        x,
                        true,
                        CellView::Hidden,
                        CellView::Flagged,
                        8,
                    ).at(a, b));
                    let j = choose|j: int|
                        0 <= j < 8 && #[trigger] slot_active(true, j) && a == nbr_y(y, j) && b
                            == nbr_x(x, j) && p.at(a, b) == CellView::Hidden;
                    assert(crate::matrix::eq01(p, y, x, true, CellView::Hidden, j) == 1);
                    assert(count_around_eq(p, y, x, true, CellView::Hidden) >= 1);
                }
            }
            crate::grid::lemma_models_equal(p, step.0);
        }
        assert(step.0 == p && step.1 == 0);
        lemma_flag_from_zero(f, p, y, x + 1);
    }
}

/// Law: a flag pass over a presentation without eligible cells returns
/// zero and mutates nothing.
pub proof fn lemma_auto_flag_no_eligible(f: GridModel<FieldCell>, p: GridModel<CellView>)
    requires
        p.wf(),
        f.rows == p.rows,
        f.cols == p.cols,
        forall|a: int, b: int| p.in_bounds(a, b) ==> !(#[trigger] flag_eligible(f, p, a, b)),
    ensures
        auto_flag_spec(f, p) == (p, 0int),
{
    lemma_flag_from_zero(f, p, 0, 0);
}

/// Law: an open pass over a presentation without eligible cells returns
/// zero and mutates nothing.
pub proof fn lemma_open_from_no_eligible(f: GridModel<FieldCell>, p: GridModel<CellView>, y: int, x: int)
    requires
        p.wf(),
        f.rows == p.rows,
        f.cols == p.cols,
        0 <= y,
        0 <= x,
        forall|a: int, b: int| p.in_bounds(a, b) ==> !(#[trigger] open_eligible(f, p, a, b)),
    ensures
        open_from(f, p, y, x) == (p, 0int),
    decreases f.rows - y, f.cols - x,
{
    if y >= f.rows {
    } else if x >= f.cols {
        lemma_open_from_no_eligible(f, p, y + 1, 0);
    } else {
        assert(!open_eligible(f, p, y, x));
        lemma_open_from_no_eligible(f, p, y, x + 1);
    }
}

/// Law: the whole open pass, without eligible cells, is a no-op.
pub proof fn lemma_auto_open_no_eligible(f: GridModel<FieldCell>, p: GridModel<CellView>)
    requires
        p.wf(),
        f.rows == p.rows,
        f.cols == p.cols,
        forall|a: int, b: int| p.in_bounds(a, b) ==> !(#[trigger] open_eligible(f, p, a, b)),
    ensures
        auto_open_spec(f, p) == (p, 0int),
{
    lemma_open_from_no_eligible(f, p, 0, 0);
}

/// Law: running the flag pass a second time, with no cell newly shown in
/// between, flags nothing — the first pass already flagged every neighbor
/// that the counts determine.
pub proof fn lemma_auto_flag_rerun_zero(f: GridModel<FieldCell>, p: GridModel<CellView>)
    requires
        p.wf(),
        f.rows == p.rows,
        f.cols == p.cols,
    ensures
        auto_flag_spec(f, auto_flag_spec(f, p).0).1 == 0,
{
    let q = auto_flag_spec(f, p).0;
    lemma_flag_from_pointwise(f, p, 0, 0);
    lemma_flag_from_clears(f, p, 0, 0);
    assert forall|a: int, b: int|
        q.in_bounds(a, b) && at_or_after(0, 0, a, b) && #[trigger] flag_eligible(
            f,
            q,
            a,
            b,
        ) implies count_around_eq(q, a, b, true, CellView::Hidden) == 0 by {
        lemma_eligible_stable(f, p, q, a, b);
        assert(flag_eligible(f, p, a, b));
    }
    lemma_flag_from_zero(f, q, 0, 0);
}

} // verus!
