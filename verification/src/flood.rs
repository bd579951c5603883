//! Mathematical model of the flood-fill reveal.
//!
//! The reveal is modeled as a work-list computation: the pending stack holds
//! cells whose four orthogonal neighbors are still to be processed; each step
//! pops one, shows its valid non-mine neighbors, and pushes the newly shown
//! empty ones. The lemmas here give the facts the session operations rely
//! on: preservation of shape, monotonicity of the shown set, that mines are
//! never newly shown, closure of the result, idempotence on an already shown
//! empty cell, and completeness on an all-empty board.

use vstd::prelude::*;
use crate::grid::GridModel;
use crate::field::FieldCell;
use crate::matrix::adj4;
use crate::session::CellView;

verus! {

broadcast use crate::grid::lemma_at_set_at, crate::grid::lemma_set_at_shape, crate::grid::lemma_idx_bounds;

/// Number of entries of a row-major cell sequence that are not shown.
pub open spec fn count_not_shown(s: Seq<CellView>) -> int
    decreases s.len(),
{
    if s.len() == 0 {
        0
    } else {
        count_not_shown(s.drop_last()) + if s.last() is Shown {
            0int
        } else {
            1int
        }
    }
}

/// Number of cells of the presentation that are not shown.
pub open spec fn non_shown(p: GridModel<CellView>) -> int {
    count_not_shown(p.cells)
}

/// The presentation with the cell at `(y, x)` shown.
pub open spec fn set_shown(p: GridModel<CellView>, y: int, x: int) -> GridModel<CellView> {
    p.set_at(y, x, CellView::Shown)
}

pub proof fn lemma_count_not_shown_bounds(s: Seq<CellView>)
    ensures
        0 <= count_not_shown(s) <= s.len(),
    decreases s.len(),
{
    if s.len() > 0 {
        lemma_count_not_shown_bounds(s.drop_last());
    }
}

proof fn lemma_count_not_shown_update(s: Seq<CellView>, i: int, v: CellView)
    requires
        0 <= i < s.len(),
    ensures
        count_not_shown(s.update(i, v)) == count_not_shown(s) - (if s[i] is Shown {
            0int
        } else {
            1int
        }) + (if v is Shown {
            0int
        } else {
            1int
        }),
    decreases s.len(),
{
    let s1 = s.update(i, v);
    if i == s.len() - 1 {
        assert(s1.drop_last() =~= s.drop_last());
    } else {
        assert(s1.drop_last() =~= s.drop_last().update(i, v));
        lemma_count_not_shown_update(s.drop_last(), i, v);
    }
}

/// Showing a cell that was not shown lowers the not-shown count by one;
/// showing a shown cell changes nothing.
pub proof fn lemma_set_shown_count(p: GridModel<CellView>, y: int, x: int)
    requires
        p.wf(),
        p.in_bounds(y, x),
    ensures
        !(p.at(y, x) is Shown) ==> non_shown(set_shown(p, y, x)) == non_shown(p) - 1,
        p.at(y, x) is Shown ==> set_shown(p, y, x) == p,
        non_shown(p) >= 0,
{
    lemma_count_not_shown_bounds(p.cells);
    lemma_count_not_shown_update(p.cells, p.idx(y, x), CellView::Shown);
    if p.at(y, x) is Shown {
        assert(p.cells.update(p.idx(y, x), CellView::Shown) =~= p.cells);
        assert(set_shown(p, y, x) =~= p);
    }
}

proof fn lemma_count_not_shown_le(s0: Seq<CellView>, s1: Seq<CellView>)
    requires
        s0.len() == s1.len(),
        forall|i: int| 0 <= i < s0.len() ==> #[trigger] s1[i] == s0[i] || s1[i] is Shown,
    ensures
        count_not_shown(s1) <= count_not_shown(s0),
    decreases s0.len(),
{
    if s0.len() > 0 {
        lemma_count_not_shown_le(s0.drop_last(), s1.drop_last());
    }
}

proof fn lemma_count_not_shown_lt(s0: Seq<CellView>, s1: Seq<CellView>, i0: int)
    requires
        s0.len() == s1.len(),
        forall|i: int| 0 <= i < s0.len() ==> #[trigger] s1[i] == s0[i] || s1[i] is Shown,
        0 <= i0 < s0.len(),
        s1[i0] is Shown,
        !(s0[i0] is Shown),
    ensures
        count_not_shown(s1) <= count_not_shown(s0) - 1,
    decreases s0.len(),
{
    if i0 == s0.len() - 1 {
        lemma_count_not_shown_le(s0.drop_last(), s1.drop_last());
    } else {
        lemma_count_not_shown_lt(s0.drop_last(), s1.drop_last(), i0);
    }
}

/// A reveal that shows the not yet shown cell at `(y, x)` and otherwise
/// only turns cells shown lowers the not-shown count by at least one.
pub proof fn lemma_non_shown_reveal(
    p: GridModel<CellView>,
    q: GridModel<CellView>,
    y: int,
    x: int,
)
    requires
        p.wf(),
        q.wf(),
        p.rows == q.rows,
        p.cols == q.cols,
        forall|a: int, b: int|
            p.in_bounds(a, b) ==> #[trigger] q.at(a, b) == p.at(a, b) || q.at(a, b) is Shown,
        p.in_bounds(y, x),
        q.at(y, x) is Shown,
        !(p.at(y, x) is Shown),
    ensures
        non_shown(q) <= non_shown(p) - 1,
        non_shown(q) >= 0,
{
    assert forall|i: int| 0 <= i < p.cells.len() implies #[trigger] q.cells[i] == p.cells[i]
        || q.cells[i] is Shown by {
        crate::grid::lemma_flat_coords(p, i);
        let a = i / p.cols;
        let b = i % p.cols;
        assert(q.at(a, b) == p.at(a, b) || q.at(a, b) is Shown);
        assert(p.cells[i] == p.at(a, b) && q.cells[i] == q.at(a, b));
    }
    crate::grid::lemma_idx_bounds(p, y, x);
    lemma_count_not_shown_lt(p.cells, q.cells, p.idx(y, x));
    lemma_count_not_shown_bounds(q.cells);
}

/// One neighbor inspection of the reveal: a valid, non-mine, not yet shown
/// cell is shown, and pushed for further spreading when it is empty.
pub open spec fn visit(
    f: GridModel<FieldCell>,
    p: GridModel<CellView>,
    y: int,
    x: int,
) -> (GridModel<CellView>, Seq<(int, int)>) {
    if f.in_bounds(y, x) && !(f.at(y, x) is Mine) && !(p.at(y, x) is Shown) {
        (set_shown(p, y, x), if f.at(y, x) is Empty {
            seq![(y, x)]
        } else {
            Seq::empty()
        })
    } else {
        (p, Seq::empty())
    }
}

/// Processing of one popped cell: its four orthogonal neighbors are
/// inspected in the order top, left, right, bottom.
pub open spec fn visits4(
    f: GridModel<FieldCell>,
    p: GridModel<CellView>,
    y: int,
    x: int,
) -> (GridModel<CellView>, Seq<(int, int)>) {
    let v1 = visit(f, p, y - 1, x);
    let v2 = visit(f, v1.0, y, x - 1);
    let v3 = visit(f, v2.0, y, x + 1);
    let v4 = visit(f, v3.0, y + 1, x);
    (v4.0, v1.1 + v2.1 + v3.1 + v4.1)
}

/// All facts of one popped cell's processing: shape and measure; each cell
/// keeps its value or becomes a shown non-mine orthogonal neighbor of the
/// center; every valid non-mine orthogonal neighbor ends shown; and the
/// pushed list holds exactly the newly shown empty cells.
#[verifier::rlimit(80)]
pub proof fn lemma_visits4_props(f: GridModel<FieldCell>, p: GridModel<CellView>, y: int, x: int)
    requires
        p.wf(),
        f.rows == p.rows,
        f.cols == p.cols,
    ensures
        visits4(f, p, y, x).0.wf(),
        visits4(f, p, y, x).0.rows == p.rows,
        visits4(f, p, y, x).0.cols == p.cols,
        0 <= non_shown(visits4(f, p, y, x).0),
        non_shown(visits4(f, p, y, x).0) + visits4(f, p, y, x).1.len() <= non_shown(p),
        non_shown(p) >= 0,
        forall|a: int, b: int|
            p.in_bounds(a, b) ==> #[trigger] visits4(f, p, y, x).0.at(a, b) == p.at(a, b) || (
            visits4(f, p, y, x).0.at(a, b) is Shown && !(f.at(a, b) is Mine) && adj4(y, x, a, b)),
        forall|a: int, b: int|
            p.in_bounds(a, b) && adj4(y, x, a, b) && !((#[trigger] f.at(a, b)) is Mine) ==> visits4(
                f,
                p,
                y,
                x,
            ).0.at(a, b) is Shown,
        forall|i: int|
            0 <= i < visits4(f, p, y, x).1.len() ==> p.in_bounds(
                (#[trigger] visits4(f, p, y, x).1[i]).0,
                visits4(f, p, y, x).1[i].1,
            ) && visits4(f, p, y, x).0.at(
                visits4(f, p, y, x).1[i].0,
                visits4(f, p, y, x).1[i].1,
            ) is Shown && f.at(visits4(f, p, y, x).1[i].0, visits4(f, p, y, x).1[i].1) is Empty,
        forall|a: int, b: int|
            p.in_bounds(a, b) && (#[trigger] visits4(f, p, y, x).0.at(a, b)) is Shown && !(p.at(
                a,
                b,
            ) is Shown) && f.at(a, b) is Empty ==> visits4(f, p, y, x).1.contains((a, b)),
{
    let v1 = visit(f, p, y - 1, x);
    let v2 = visit(f, v1.0, y, x - 1);
    let v3 = visit(f, v2.0, y, x + 1);
    let v4 = visit(f, v3.0, y + 1, x);
    let q = v4.0;
    let s = v1.1 + v2.1 + v3.1 + v4.1;
    if f.in_bounds(y - 1, x) && !(f.at(y - 1, x) is Mine) && !(p.at(y - 1, x) is Shown) {
        lemma_set_shown_count(p, y - 1, x);
    }
    if f.in_bounds(y, x - 1) && !(f.at(y, x - 1) is Mine) && !(v1.0.at(y, x - 1) is Shown) {
        lemma_set_shown_count(v1.0, y, x - 1);
    }
    if f.in_bounds(y, x + 1) && !(f.at(y, x + 1) is Mine) && !(v2.0.at(y, x + 1) is Shown) {
        lemma_set_shown_count(v2.0, y, x + 1);
    }
    if f.in_bounds(y + 1, x) && !(f.at(y + 1, x) is Mine) && !(v3.0.at(y + 1, x) is Shown) {
        lemma_set_shown_count(v3.0, y + 1, x);
    }
    lemma_count_not_shown_bounds(p.cells);
    lemma_count_not_shown_bounds(q.cells);
    assert forall|a: int, b: int|
        p.in_bounds(a, b) && (#[trigger] q.at(a, b)) is Shown && !(p.at(a, b) is Shown) && f.at(
            a,
            b,
        ) is Empty implies s.contains((a, b)) by {
        if v1.1.len() == 1 && v1.1[0] == (a, b) {
            assert(s[0] == (a, b));
        } else if v2.1.len() == 1 && v2.1[0] == (a, b) {
            assert(s[v1.1.len() as int] == (a, b));
        } else if v3.1.len() == 1 && v3.1[0] == (a, b) {
            assert(s[v1.1.len() + v2.1.len() as int] == (a, b));
        } else {
            assert(v4.1.len() == 1 && v4.1[0] == (a, b));
            assert(s[v1.1.len() + v2.1.len() + v3.1.len() as int] == (a, b));
        }
    }
}

/// The reveal work-list computation: pop a pending cell, process its four
/// orthogonal neighbors, and continue until nothing is pending.
pub open spec fn reveal_step(
    f: GridModel<FieldCell>,
    p: GridModel<CellView>,
    stack: Seq<(int, int)>,
) -> GridModel<CellView>
    decreases non_shown(p) * 5 + stack.len(),
        via reveal_step_decreases
{
    if stack.len() == 0 || !(p.wf() && f.rows == p.rows && f.cols == p.cols) {
        p
    } else {
        let c = stack.last();
        let vv = visits4(f, p, c.0, c.1);
        reveal_step(f, vv.0, stack.drop_last() + vv.1)
    }
}

#[via_fn]
proof fn reveal_step_decreases(
    f: GridModel<FieldCell>,
    p: GridModel<CellView>,
    stack: Seq<(int, int)>,
) {
    if !(stack.len() == 0 || !(p.wf() && f.rows == p.rows && f.cols == p.cols)) {
        let c = stack.last();
        lemma_visits4_props(f, p, c.0, c.1);
    }
}

/// The full reveal entered at `(y, x)`: the entry cell is shown
/// unconditionally, then spreading starts from it.
pub open spec fn reveal_at_spec(
    f: GridModel<FieldCell>,
    p: GridModel<CellView>,
    y: int,
    x: int,
) -> GridModel<CellView> {
    reveal_step(f, set_shown(p, y, x), seq![(y, x)])
}

/// Every pending cell is a valid, already shown coordinate.
pub open spec fn stack_ok(p: GridModel<CellView>, stack: Seq<(int, int)>) -> bool {
    forall|i: int|
        0 <= i < stack.len() ==> p.in_bounds((#[trigger] stack[i]).0, stack[i].1) && p.at(
            stack[i].0,
            stack[i].1,
        ) is Shown
}

/// A presentation is closed when every shown empty cell has all its valid
/// non-mine orthogonal neighbors shown: spreading has nothing left to do.
pub open spec fn closed(f: GridModel<FieldCell>, p: GridModel<CellView>) -> bool {
    forall|y: int, x: int, a: int, b: int|
        #![trigger p.at(y, x), p.at(a, b)]
        p.in_bounds(y, x) && p.in_bounds(a, b) && p.at(y, x) is Shown && f.at(y, x) is Empty
            && adj4(y, x, a, b) && !(f.at(a, b) is Mine) ==> p.at(a, b) is Shown
}

/// Closure away from the pending cells: shown empty cells still on the
/// stack may have unprocessed neighbors.
pub open spec fn closed_except(
    f: GridModel<FieldCell>,
    p: GridModel<CellView>,
    stack: Seq<(int, int)>,
) -> bool {
    forall|y: int, x: int, a: int, b: int|
        #![trigger p.at(y, x), p.at(a, b)]
        p.in_bounds(y, x) && p.in_bounds(a, b) && p.at(y, x) is Shown && f.at(y, x) is Empty
            && adj4(y, x, a, b) && !(f.at(a, b) is Mine) && !stack.contains((y, x)) ==> p.at(
            a,
            b,
        ) is Shown
}

/// Main facts of the work-list run: shape is kept; every cell either keeps
/// its value or becomes shown; a newly shown cell is never a mine; and each
/// pending cell's valid non-mine orthogonal neighbors end up shown.
#[verifier::rlimit(60)]
pub proof fn lemma_reveal_step_props(
    f: GridModel<FieldCell>,
    p: GridModel<CellView>,
    stack: Seq<(int, int)>,
)
    requires
        p.wf(),
        f.rows == p.rows,
        f.cols == p.cols,
        stack_ok(p, stack),
    ensures
        reveal_step(f, p, stack).wf(),
        reveal_step(f, p, stack).rows == p.rows,
        reveal_step(f, p, stack).cols == p.cols,
        forall|a: int, b: int|
            p.in_bounds(a, b) ==> #[trigger] reveal_step(f, p, stack).at(a, b) == p.at(a, b)
                || reveal_step(f, p, stack).at(a, b) is Shown,
        forall|a: int, b: int|
            p.in_bounds(a, b) && (#[trigger] reveal_step(f, p, stack).at(a, b)) is Shown && !(p.at(
                a,
                b,
            ) is Shown) ==> !(f.at(a, b) is Mine),
        forall|i: int, a: int, b: int|
            #![trigger stack[i], reveal_step(f, p, stack).at(a, b)]
            0 <= i < stack.len() && p.in_bounds(a, b) && adj4(stack[i].0, stack[i].1, a, b) && !(
            f.at(a, b) is Mine) ==> reveal_step(f, p, stack).at(a, b) is Shown,
    decreases non_shown(p) * 5 + stack.len(),
{
    lemma_count_not_shown_bounds(p.cells);
    if stack.len() != 0 {
        let r = reveal_step(f, p, stack);
        let c = stack.last();
        let rest = stack.drop_last();
        lemma_visits4_props(f, p, c.0, c.1);
        let vv = visits4(f, p, c.0, c.1);
        let p4 = vv.0;
        let newstack = rest + vv.1;
        assert(stack_ok(p4, newstack));
        lemma_reveal_step_props(f, p4, newstack);
        assert(r == reveal_step(f, p4, newstack));
        assert forall|i: int, a: int, b: int|
            0 <= i < stack.len() && p.in_bounds(a, b) && adj4(
                (#[trigger] stack[i]).0,
                stack[i].1,
                a,
                b,
            ) && !(f.at(a, b) is Mine) implies (#[trigger] r.at(a, b)) is Shown by {
            if i < stack.len() - 1 {
                assert(newstack[i] == stack[i]);
                assert(reveal_step(f, p4, newstack).at(a, b) is Shown);
            } else {
                assert(p4.at(a, b) is Shown);
                assert(reveal_step(f, p4, newstack).at(a, b) == p4.at(a, b) || reveal_step(
                    f,
                    p4,
                    newstack,
                ).at(a, b) is Shown);
            }
        }
    }
}

/// A run started from a closed-except state ends closed.
#[verifier::rlimit(60)]
pub proof fn lemma_reveal_step_closed(
    f: GridModel<FieldCell>,
    p: GridModel<CellView>,
    stack: Seq<(int, int)>,
)
    requires
        p.wf(),
        f.rows == p.rows,
        f.cols == p.cols,
        stack_ok(p, stack),
        closed_except(f, p, stack),
    ensures
        closed(f, reveal_step(f, p, stack)),
    decreases non_shown(p) * 5 + stack.len(),
{
    lemma_count_not_shown_bounds(p.cells);
    if stack.len() == 0 {
    } else {
        let c = stack.last();
        let rest = stack.drop_last();
        lemma_visits4_props(f, p, c.0, c.1);
        let vv = visits4(f, p, c.0, c.1);
        let p4 = vv.0;
        let newstack = rest + vv.1;
        assert(stack_ok(p4, newstack));
        assert forall|y: int, x: int, a: int, b: int|
            #![trigger p4.at(y, x), p4.at(a, b)]
            p4.in_bounds(y, x) && p4.in_bounds(a, b) && p4.at(y, x) is Shown && f.at(y, x) is Empty
                && adj4(y, x, a, b) && !(f.at(a, b) is Mine) && !newstack.contains(
                (y, x),
            ) implies p4.at(a, b) is Shown by {
            if y == c.0 && x == c.1 {
                // the popped cell: its neighbors were just processed
                assert(p4.at(a, b) is Shown);
            } else if p.at(y, x) is Shown {
                if stack.contains((y, x)) {
                    // still pending: it sits in the remainder of the stack
                    let i = choose|i: int| 0 <= i < stack.len() && stack[i] == (y, x);
                    assert(i < stack.len() - 1);
                    assert(newstack[i] == (y, x));
                    assert(newstack.contains((y, x)));
                } else {
                    assert(p.at(a, b) is Shown);
                }
            } else {
                // newly shown empty cell: it was pushed
                assert(vv.1.contains((y, x)));
                let j = choose|j: int| 0 <= j < vv.1.len() && vv.1[j] == (y, x);
                assert(newstack[rest.len() + j] == (y, x));
                assert(newstack.contains((y, x)));
            }
        }
        lemma_reveal_step_closed(f, p4, newstack);
    }
}

/// Idempotence of the reveal: entering it at an already shown empty cell of
/// a closed presentation changes nothing.
pub proof fn lemma_reveal_idempotent(
    f: GridModel<FieldCell>,
    p: GridModel<CellView>,
    y: int,
    x: int,
)
    requires
        p.wf(),
        f.rows == p.rows,
        f.cols == p.cols,
        p.in_bounds(y, x),
        closed(f, p),
        p.at(y, x) is Shown,
        f.at(y, x) is Empty,
    ensures
        reveal_at_spec(f, p, y, x) == p,
{
    lemma_set_shown_count(p, y, x);
    assert(set_shown(p, y, x) == p);
    let stack: Seq<(int, int)> = seq![(y, x)];
    let vv = visits4(f, p, y, x);
    // every valid non-mine orthogonal neighbor of (y, x) is already shown
    assert(p.at(y, x) is Shown);
    if f.in_bounds(y - 1, x) && !(f.at(y - 1, x) is Mine) {
        assert(p.at(y - 1, x) is Shown);
    }
    if f.in_bounds(y, x - 1) && !(f.at(y, x - 1) is Mine) {
        assert(p.at(y, x - 1) is Shown);
    }
    if f.in_bounds(y, x + 1) && !(f.at(y, x + 1) is Mine) {
        assert(p.at(y, x + 1) is Shown);
    }
    if f.in_bounds(y + 1, x) && !(f.at(y + 1, x) is Mine) {
        assert(p.at(y + 1, x) is Shown);
    }
    assert(vv.0 == p);
    assert((stack.drop_last() + vv.1).len() == 0);
    assert(reveal_step(f, p, stack) == reveal_step(f, vv.0, stack.drop_last() + vv.1));
    assert(reveal_step(f, vv.0, stack.drop_last() + vv.1) == p);
}

/// One step of spreading on an all-empty board: a cell adjacent to the
/// start along a shortest path is shown.
proof fn lemma_shown_spreads(
    f: GridModel<FieldCell>,
    p: GridModel<CellView>,
    y0: int,
    x0: int,
    a: int,
    b: int,
)
    requires
        p.wf(),
        f.rows == p.rows,
        f.cols == p.cols,
        closed(f, p),
        p.in_bounds(y0, x0),
        p.at(y0, x0) is Shown,
        forall|y: int, x: int| f.in_bounds(y, x) ==> (#[trigger] f.at(y, x)) is Empty,
        p.in_bounds(a, b),
    ensures
        p.at(a, b) is Shown,
    decreases (if a >= y0 {
        a - y0
    } else {
        y0 - a
    }) + (if b >= x0 {
        b - x0
    } else {
        x0 - b
    }),
{
    if a == y0 && b == x0 {
    } else {
        let step: (int, int) = if a > y0 {
            (a - 1, b)
        } else if a < y0 {
            (a + 1, b)
        } else if b > x0 {
            (a, b - 1)
        } else {
            (a, b + 1)
        };
        lemma_shown_spreads(f, p, y0, x0, step.0, step.1);
        assert(adj4(step.0, step.1, a, b));
        assert(p.at(step.0, step.1) is Shown && f.at(step.0, step.1) is Empty);
        assert(p.at(a, b) is Shown);
    }
}

/// Law: on an all-empty board, one reveal into a closed presentation shows
/// every cell — the flood completes and reaches the whole grid.
pub proof fn lemma_reveal_empty_board(
    f: GridModel<FieldCell>,
    p: GridModel<CellView>,
    y: int,
    x: int,
)
    requires
        p.wf(),
        f.rows == p.rows,
        f.cols == p.cols,
        closed(f, p),
        p.in_bounds(y, x),
        forall|a: int, b: int| f.in_bounds(a, b) ==> (#[trigger] f.at(a, b)) is Empty,
    ensures
        forall|a: int, b: int|
            p.in_bounds(a, b) ==> (#[trigger] reveal_at_spec(f, p, y, x).at(a, b)) is Shown,
{
    let q = set_shown(p, y, x);
    let st: Seq<(int, int)> = seq![(y, x)];
    assert(q.at(y, x) is Shown);
    assert(stack_ok(q, st));
    assert forall|yy: int, xx: int, a: int, b: int|
        #![trigger q.at(yy, xx), q.at(a, b)]
        q.in_bounds(yy, xx) && q.in_bounds(a, b) && q.at(yy, xx) is Shown && f.at(yy, xx) is Empty
            && adj4(yy, xx, a, b) && !(f.at(a, b) is Mine) && !st.contains(
            (yy, xx),
        ) implies q.at(a, b) is Shown by {
        assert(st[0] == (y, x));
        assert(!(yy == y && xx == x));
        assert(q.at(yy, xx) == p.at(yy, xx));
        assert(p.at(a, b) is Shown);
    }
    lemma_reveal_step_closed(f, q, st);
    lemma_reveal_step_props(f, q, st);
    let r = reveal_step(f, q, st);
    assert(r.at(y, x) is Shown);
    lemma_empty_board_all_shown(f, r, y, x);
}

/// On an all-empty board, a closed presentation with at least one shown
/// cell has every cell shown: the flood reaches the whole grid.
pub proof fn lemma_empty_board_all_shown(
    f: GridModel<FieldCell>,
    p: GridModel<CellView>,
    y0: int,
    x0: int,
)
    requires
        p.wf(),
        f.rows == p.rows,
        f.cols == p.cols,
        closed(f, p),
        p.in_bounds(y0, x0),
        p.at(y0, x0) is Shown,
        forall|y: int, x: int| f.in_bounds(y, x) ==> (#[trigger] f.at(y, x)) is Empty,
    ensures
        forall|a: int, b: int| p.in_bounds(a, b) ==> (#[trigger] p.at(a, b)) is Shown,
{
    assert forall|a: int, b: int| p.in_bounds(a, b) implies (#[trigger] p.at(a, b)) is Shown by {
        lemma_shown_spreads(f, p, y0, x0, a, b);
    }
}

} // verus!
