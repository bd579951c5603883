//! A player's evolving view over one field: hidden, flagged, and shown
//! cells, the flood-fill reveal, and the two solver heuristics.

use vstd::prelude::*;
use crate::grid::Grid;
use crate::grid::GridModel;
use crate::field::Field;
use crate::field::FieldCell;
use crate::field::field_ok;
use crate::matrix::EqCell;
use crate::matrix::adj4;
use crate::flood::closed;
use crate::flood::non_shown;
use crate::flood::reveal_at_spec;
use crate::flood::reveal_step;
use crate::flood::set_shown;
use crate::flood::stack_ok;
use crate::flood::visit;
use crate::flood::visits4;
use crate::flood::lemma_reveal_idempotent;
use crate::flood::lemma_reveal_step_closed;
use crate::flood::lemma_reveal_step_props;
use crate::flood::lemma_visits4_props;
use crate::matrix::MatrixExtPartEq;
use crate::solver::auto_flag_spec;
use crate::solver::count_hidden;
use crate::solver::flag_cell;
use crate::solver::flag_from;
use crate::solver::lemma_count_hidden_bounds;
use crate::solver::lemma_flag_cell_props;
use crate::matrix::MatrixExt;
use crate::matrix::spec_slot;
use crate::solver::auto_open_spec;
use crate::solver::open_cell;
use crate::solver::open_eligible;
use crate::solver::open_from;
use crate::solver::open_nbrs;
use crate::flood::lemma_count_not_shown_bounds;
use crate::flood::lemma_non_shown_reveal;

verus! {

broadcast use crate::grid::lemma_at_set_at, crate::grid::lemma_set_at_shape, crate::grid::lemma_idx_bounds;

/// What the player sees of one cell: not yet revealed, marked as a
/// suspected mine, or revealed.
#[derive(Clone, Copy, PartialEq, Eq, Structural, Debug)]
pub enum CellView {
    Hidden,
    Flagged,
    Shown,
}

impl EqCell for CellView {
    fn eq_cell(&self, other: &Self) -> (r: bool) {
        *self == *other
    }
}

/// The presentation of a fresh session: every cell hidden.
pub open spec fn all_hidden(rows: int, cols: int) -> GridModel<CellView> {
    GridModel { rows, cols, cells: Seq::new((rows * cols) as nat, |i: int| CellView::Hidden) }
}

/// The integer view of an executable coordinate stack.
pub open spec fn coords_int(s: Seq<(usize, usize)>) -> Seq<(int, int)> {
    s.map_values(|t: (usize, usize)| (t.0 as int, t.1 as int))
}

/// A player's view (hidden/flagged/shown) over one shared, read-only field.
pub struct Session<'a> {
    field: &'a Field,
    presentation: Grid<CellView>,
}

impl<'a> Session<'a> {
    /// The mine layout the session plays on.
    pub closed spec fn fmodel(self) -> GridModel<FieldCell> {
        self.field@
    }

    /// The player's view grid.
    pub closed spec fn pres(self) -> GridModel<CellView> {
        self.presentation@
    }

    /// Session invariant: the field is a consistent layout, the presentation
    /// has the field's dimensions, and the shown set is closed under the
    /// flood rule (no shown empty cell has an unrevealed safe neighbor).
    pub open spec fn inv(self) -> bool {
        &&& self.fmodel().wf()
        &&& field_ok(self.fmodel())
        &&& self.pres().wf()
        &&& self.pres().rows == self.fmodel().rows
        &&& self.pres().cols == self.fmodel().cols
        &&& closed(self.fmodel(), self.pres())
    }

    /// Read access to the field.
    pub fn field(&self) -> (f: &Field)
        ensures
            f@ == self.fmodel(),
    {
        self.field
    }

    /// Read access to the presentation grid.
    pub fn presentation(&self) -> (g: &Grid<CellView>)
        ensures
            g@ == self.pres(),
    {
        &self.presentation
    }

    /// Builds a session over `field` with everything hidden, then reveals
    /// the starting coordinate, flooding outward from it.
    pub fn from_field(field: &'a Field, except_y: usize, except_x: usize) -> (s: Session<'a>)
        requires
            field.wf(),
            field@.in_bounds(except_y as int, except_x as int),
        ensures
            s.inv(),
            s.fmodel() == field@,
            s.pres() == reveal_at_spec(
                field@,
                all_hidden(field@.rows, field@.cols),
                except_y as int,
                except_x as int,
            ),
    {
        let rows = field.rows();
        let cols = field.cols();
        let presentation = Grid::new_filled(rows, cols, CellView::Hidden);
        let mut s = Session { field, presentation };
        proof {
            let h = all_hidden(field@.rows, field@.cols);
            assert forall|i: int| 0 <= i < s.pres().cells.len() implies s.pres().cells[i]
                == h.cells[i] by {
                crate::grid::lemma_flat_coords(s.pres(), i);
            }
            assert(s.pres().cells =~= h.cells);
            assert(s.pres() =~= h);
            assert forall|y: int, x: int, a: int, b: int|
                #![trigger s.pres().at(y, x), s.pres().at(a, b)]
                s.pres().in_bounds(y, x) && s.pres().in_bounds(a, b) && s.pres().at(y, x) is Shown
                    && field@.at(y, x) is Empty && adj4(y, x, a, b) && !(field@.at(a, b)
                    is Mine) implies s.pres().at(a, b) is Shown by {
                assert(s.pres().at(y, x) == CellView::Hidden);
            }
        }
        s.reveal_at(except_y, except_x);
        s
    }

    /// One neighbor inspection of the flood: shows the valid, non-mine, not
    /// yet shown cell at `(ny, nx)` and queues it for spreading when it is
    /// empty. Exactly the `visit` step of the reveal model.
    fn visit_neighbor(&mut self, stack: &mut Vec<(usize, usize)>, ny: usize, nx: usize)
        requires
            old(self).fmodel().wf(),
            old(self).pres().wf(),
            old(self).pres().rows == old(self).fmodel().rows,
            old(self).pres().cols == old(self).fmodel().cols,
            old(self).pres().in_bounds(ny as int, nx as int),
        ensures
            final(self).fmodel() == old(self).fmodel(),
            final(self).pres() == visit(
                old(self).fmodel(),
                old(self).pres(),
                ny as int,
                nx as int,
            ).0,
            coords_int(final(stack)@) == coords_int(old(stack)@) + visit(
                old(self).fmodel(),
                old(self).pres(),
                ny as int,
                nx as int,
            ).1,
    {
        let fc = self.field.cell(ny, nx);
        if fc != FieldCell::Mine {
            let pv = *self.presentation.at(ny, nx);
            if pv != CellView::Shown {
                self.presentation.put(ny, nx, CellView::Shown);
                if fc == FieldCell::Empty {
                    stack.push((ny, nx));
                }
            }
        }
        proof {
            let v = visit(old(self).fmodel(), old(self).pres(), ny as int, nx as int);
            assert(coords_int(stack@) =~= coords_int(old(stack)@) + v.1);
        }
    }

    /// Reveals the cell at `(y, x)` and floods outward: the entry cell is
    /// shown unconditionally; every valid non-mine orthogonal neighbor of a
    /// processed cell is shown, and empty ones are processed in turn. Cells
    /// only ever change to `Shown`; a mine other than the entry cell is
    /// never shown; and revealing an already shown empty cell changes
    /// nothing.
    #[verifier::rlimit(90)]
    pub fn reveal_at(&mut self, y: usize, x: usize)
        requires
            old(self).inv(),
            old(self).pres().in_bounds(y as int, x as int),
        ensures
            final(self).inv(),
            final(self).fmodel() == old(self).fmodel(),
            final(self).pres() == reveal_at_spec(
                old(self).fmodel(),
                old(self).pres(),
                y as int,
                x as int,
            ),
            forall|a: int, b: int|
                old(self).pres().in_bounds(a, b) ==> #[trigger] final(self).pres().at(a, b) == old(
                    self,
                ).pres().at(a, b) || final(self).pres().at(a, b) is Shown,
            final(self).pres().at(y as int, x as int) is Shown,
            forall|a: int, b: int|
                old(self).pres().in_bounds(a, b) && adj4(y as int, x as int, a, b) && !((
                #[trigger] old(self).fmodel().at(a, b)) is Mine) ==> final(self).pres().at(
                    a,
                    b,
                ) is Shown,
            forall|a: int, b: int|
                old(self).pres().in_bounds(a, b) && (#[trigger] final(self).pres().at(a, b))
                    is Shown && !(old(self).pres().at(a, b) is Shown) && !(a == y as int && b
                    == x as int) ==> !(old(self).fmodel().at(a, b) is Mine),
            old(self).pres().at(y as int, x as int) is Shown && old(self).fmodel().at(
                y as int,
                x as int,
            ) is Empty ==> final(self).pres() == old(self).pres(),
    {
        let ghost f = self.fmodel();
        let ghost p0 = self.pres();
        let ghost q = set_shown(p0, y as int, x as int);
        let ghost st_init: Seq<(int, int)> = seq![(y as int, x as int)];
        self.presentation.put(y, x, CellView::Shown);
        let mut stack: Vec<(usize, usize)> = Vec::new();
        stack.push((y, x));
        proof {
            assert(coords_int(stack@) =~= st_init);
            assert(stack_ok(self.pres(), coords_int(stack@)));
        }
        while stack.len() != 0
            invariant
                f.wf(),
                field_ok(f),
                self.fmodel() == f,
                self.pres().wf(),
                self.pres().rows == f.rows,
                self.pres().cols == f.cols,
                stack_ok(self.pres(), coords_int(stack@)),
                reveal_step(f, self.pres(), coords_int(stack@)) == reveal_step(f, q, st_init),
            decreases non_shown(self.pres()) * 5 + stack@.len(),
        {
            let ghost st_before = coords_int(stack@);
            let ghost p_before = self.pres();
            let top = stack.pop().unwrap();
            let cy = top.0;
            let cx = top.1;
            let ghost st_rest = coords_int(stack@);
            proof {
                assert(st_rest =~= st_before.drop_last());
                assert(st_before.last() == (cy as int, cx as int));
                lemma_visits4_props(f, p_before, cy as int, cx as int);
            }
            let ghost vv = visits4(f, p_before, cy as int, cx as int);
            // top neighbor
            let ghost pa = self.pres();
            let ghost sa = coords_int(stack@);
            if cy > 0 {
                self.visit_neighbor(&mut stack, cy - 1, cx);
            }
            proof {
                let v1 = visit(f, pa, cy as int - 1, cx as int);
                if cy == 0 {
                    assert(sa + v1.1 =~= sa);
                }
                assert(self.pres() == v1.0);
                assert(coords_int(stack@) == sa + v1.1);
            }
            // left neighbor
            let ghost pb = self.pres();
            let ghost sb = coords_int(stack@);
            if cx > 0 {
                self.visit_neighbor(&mut stack, cy, cx - 1);
            }
            proof {
                let v2 = visit(f, pb, cy as int, cx as int - 1);
                if cx == 0 {
                    assert(sb + v2.1 =~= sb);
                }
                assert(self.pres() == v2.0);
                assert(coords_int(stack@) == sb + v2.1);
            }
            // right neighbor
            let ghost pc = self.pres();
            let ghost sc = coords_int(stack@);
            let cols = self.presentation.cols();
            if cx + 1 < cols {
                self.visit_neighbor(&mut stack, cy, cx + 1);
            }
            proof {
                let v3 = visit(f, pc, cy as int, cx as int + 1);
                if cx + 1 >= cols {
                    assert(sc + v3.1 =~= sc);
                }
                assert(self.pres() == v3.0);
                assert(coords_int(stack@) == sc + v3.1);
            }
            // bottom neighbor
            let ghost pd = self.pres();
            let ghost sd = coords_int(stack@);
            let rows = self.presentation.rows();
            if cy + 1 < rows {
                self.visit_neighbor(&mut stack, cy + 1, cx);
            }
            proof {
                let v4 = visit(f, pd, cy as int + 1, cx as int);
                if cy + 1 >= rows {
                    assert(sd + v4.1 =~= sd);
                }
                assert(self.pres() == v4.0);
                assert(coords_int(stack@) == sd + v4.1);
                assert(self.pres() == vv.0);
                assert(coords_int(stack@) =~= st_rest + vv.1);
                assert(st_before.len() != 0);
                assert(reveal_step(f, p_before, st_before) == reveal_step(
                    f,
                    vv.0,
                    st_before.drop_last() + vv.1,
                ));
                assert(st_before.drop_last() + vv.1 =~= coords_int(stack@));
                assert(stack_ok(self.pres(), coords_int(stack@)));
            }
        }
        proof {
            assert(coords_int(stack@).len() == 0);
            assert(self.pres() == reveal_step(f, q, st_init));
            assert(q.wf() && q.rows == f.rows && q.cols == f.cols);
            assert(q.at(y as int, x as int) is Shown);
            assert(stack_ok(q, st_init));
            lemma_reveal_step_props(f, q, st_init);
            // closure holds away from the single pending entry cell
            assert forall|yy: int, xx: int, a: int, b: int|
                #![trigger q.at(yy, xx), q.at(a, b)]
                q.in_bounds(yy, xx) && q.in_bounds(a, b) && q.at(yy, xx) is Shown && f.at(yy, xx)
                    is Empty && adj4(yy, xx, a, b) && !(f.at(a, b) is Mine) && !st_init.contains(
                    (yy, xx),
                ) implies q.at(a, b) is Shown by {
                assert(st_init[0] == (y as int, x as int));
                assert(!(yy == y as int && xx == x as int));
                assert(q.at(yy, xx) == p0.at(yy, xx));
                assert(p0.at(a, b) is Shown);
            }
            lemma_reveal_step_closed(f, q, st_init);
            let r = reveal_step(f, q, st_init);
            // center stays shown, entry neighbors are shown
            assert(r.at(y as int, x as int) == q.at(y as int, x as int) || r.at(
                y as int,
                x as int,
            ) is Shown);
            assert forall|a: int, b: int|
                p0.in_bounds(a, b) && adj4(y as int, x as int, a, b) && !((#[trigger] f.at(a, b))
                    is Mine) implies r.at(a, b) is Shown by {
                assert(st_init[0] == (y as int, x as int));
                assert(r.at(a, b) is Shown);
            }
            // monotonicity and mine preservation relative to the state
            // before the entry cell was shown
            assert forall|a: int, b: int| p0.in_bounds(a, b) implies #[trigger] r.at(a, b) == p0.at(
                a,
                b,
            ) || r.at(a, b) is Shown by {
                assert(r.at(a, b) == q.at(a, b) || r.at(a, b) is Shown);
            }
            assert forall|a: int, b: int|
                p0.in_bounds(a, b) && (#[trigger] r.at(a, b)) is Shown && !(p0.at(a, b) is Shown)
                    && !(a == y as int && b == x as int) implies !(f.at(a, b) is Mine) by {
                assert(q.at(a, b) == p0.at(a, b));
            }
            if p0.at(y as int, x as int) is Shown && f.at(y as int, x as int) is Empty {
                lemma_reveal_idempotent(f, p0, y as int, x as int);
            }
        }
    }

    /// One solver pass in row-major order: every shown cell counting `n`
    /// adjacent mines whose not-shown neighbors number exactly `n` has all
    /// its hidden neighbors flagged, immediately, so that cells visited
    /// later in the same pass see the new flags. Returns how many cells
    /// were newly flagged.
    pub fn auto_flag(&mut self) -> (flagged: usize)
        requires
            old(self).inv(),
        ensures
            final(self).inv(),
            final(self).fmodel() == old(self).fmodel(),
            final(self).pres() == auto_flag_spec(old(self).fmodel(), old(self).pres()).0,
            flagged == auto_flag_spec(old(self).fmodel(), old(self).pres()).1,
    {
        let ghost f = self.fmodel();
        let ghost p0 = self.pres();
        proof {
            lemma_count_hidden_bounds(p0.cells);
        }
        let rows = self.presentation.rows();
        let cols = self.presentation.cols();
        let mut flagged: usize = 0;
        let mut yy: usize = 0;
        while yy < rows
            invariant
                self.fmodel() == f,
                f.wf(),
                field_ok(f),
                self.pres().wf(),
                self.pres().rows == f.rows,
                self.pres().cols == f.cols,
                closed(f, self.pres()),
                rows == f.rows,
                cols == f.cols,
                yy <= rows,
                p0.wf(),
                auto_flag_spec(f, p0).0 == flag_from(f, self.pres(), yy as int, 0).0,
                auto_flag_spec(f, p0).1 == flagged + flag_from(f, self.pres(), yy as int, 0).1,
                flagged == count_hidden(p0.cells) - count_hidden(self.pres().cells),
                count_hidden(p0.cells) <= p0.cells.len(),
                0 <= count_hidden(self.pres().cells),
            decreases rows - yy,
        {
            let mut xx: usize = 0;
            while xx < cols
                invariant
                    self.fmodel() == f,
                    f.wf(),
                    field_ok(f),
                    self.pres().wf(),
                    self.pres().rows == f.rows,
                    self.pres().cols == f.cols,
                    closed(f, self.pres()),
                    rows == f.rows,
                    cols == f.cols,
                    yy < rows,
                    xx <= cols,
                    p0.wf(),
                    auto_flag_spec(f, p0).0 == flag_from(f, self.pres(), yy as int, xx as int).0,
                    auto_flag_spec(f, p0).1 == flagged + flag_from(
                        f,
                        self.pres(),
                        yy as int,
                        xx as int,
                    ).1,
                    flagged == count_hidden(p0.cells) - count_hidden(self.pres().cells),
                    count_hidden(p0.cells) <= p0.cells.len(),
                    0 <= count_hidden(self.pres().cells),
                decreases cols - xx,
            {
                let ghost p_cell = self.pres();
                proof {
                    lemma_flag_cell_props(f, p_cell, yy as int, xx as int);
                    lemma_count_hidden_bounds(flag_cell(f, p_cell, yy as int, xx as int).0.cells);
                }
                let pv = *self.presentation.at(yy, xx);
                if pv == CellView::Shown {
                    let fc = self.field.cell(yy, xx);
                    if let FieldCell::NearMine(mines) = fc {
                        let potential = self.presentation.count_around_not(
                            yy,
                            xx,
                            true,
                            CellView::Shown,
                        );
                        if potential == mines {
                            let repl = self.presentation.replace_around(
                                yy,
                                xx,
                                true,
                                CellView::Hidden,
                                CellView::Flagged,
                            );
                            flagged = flagged + (repl as usize);
                        }
                    }
                }
                proof {
                    let step = flag_cell(f, p_cell, yy as int, xx as int);
                    assert(self.pres() == step.0);
                    // the shown set is untouched, so closure carries over
                    assert forall|cy: int, cx: int, a: int, b: int|
                        #![trigger self.pres().at(cy, cx), self.pres().at(a, b)]
                        self.pres().in_bounds(cy, cx) && self.pres().in_bounds(a, b) && self.pres().at(
                            cy,
                            cx,
                        ) is Shown && f.at(cy, cx) is Empty && adj4(cy, cx, a, b) && !(f.at(a, b)
                        is Mine) implies self.pres().at(a, b) is Shown by {
                        assert(p_cell.at(cy, cx) is Shown);
                        assert(p_cell.at(a, b) is Shown);
                    }
                }
                xx = xx + 1;
            }
            proof {
                assert(flag_from(f, self.pres(), yy as int, cols as int) == flag_from(
                    f,
                    self.pres(),
                    yy as int + 1,
                    0,
                ));
            }
            yy = yy + 1;
        }
        proof {
            assert(flag_from(f, self.pres(), rows as int, 0) == (self.pres(), 0int));
        }
        flagged
    }

    /// One open step at `(yy, xx)`: when the cell is shown, counts `n`
    /// adjacent mines and has exactly `n` flagged neighbors, each neighbor
    /// that is hidden at its turn is revealed (flooding through empty
    /// cells). Returns the number of direct reveals made here.
    fn open_cell_at(&mut self, yy: usize, xx: usize) -> (n: usize)
        requires
            old(self).inv(),
            old(self).pres().in_bounds(yy as int, xx as int),
        ensures
            final(self).inv(),
            final(self).fmodel() == old(self).fmodel(),
            final(self).pres() == open_cell(
                old(self).fmodel(),
                old(self).pres(),
                yy as int,
                xx as int,
            ).0,
            n == open_cell(old(self).fmodel(), old(self).pres(), yy as int, xx as int).1,
            non_shown(final(self).pres()) <= non_shown(old(self).pres()) - n,
            0 <= non_shown(final(self).pres()),
    {
        let ghost f = self.fmodel();
        let ghost p_cell = self.pres();
        proof {
            lemma_count_not_shown_bounds(p_cell.cells);
        }
        let pv = *self.presentation.at(yy, xx);
        let mut n: usize = 0;
        if pv == CellView::Shown {
            let fc = self.field.cell(yy, xx);
            if let FieldCell::NearMine(mines) = fc {
                let flcount = self.presentation.count_around_of(yy, xx, true, CellView::Flagged);
                if flcount == mines {
                    proof {
                        assert(open_eligible(f, p_cell, yy as int, xx as int));
                    }
                    let coords = self.presentation.coordinates_around(yy, xx, true);
                    let mut k: usize = 0;
                    while k < 8
                        invariant
                            self.fmodel() == f,
                            f.wf(),
                            field_ok(f),
                            self.pres().wf(),
                            self.pres().rows == f.rows,
                            self.pres().cols == f.cols,
                            closed(f, self.pres()),
                            p_cell.wf(),
                            p_cell.rows == f.rows,
                            p_cell.cols == f.cols,
                            p_cell.in_bounds(yy as int, xx as int),
                            k <= 8,
                            n <= k,
                            forall|j: int|
                                0 <= j < 8 ==> coords@[j] == spec_slot(
                                    p_cell,
                                    yy as int,
                                    xx as int,
                                    true,
                                    j,
                                ),
                            open_nbrs(f, p_cell, yy as int, xx as int, 0).0 == open_nbrs(
                                f,
                                self.pres(),
                                yy as int,
                                xx as int,
                                k as int,
                            ).0,
                            open_nbrs(f, p_cell, yy as int, xx as int, 0).1 == n + open_nbrs(
                                f,
                                self.pres(),
                                yy as int,
                                xx as int,
                                k as int,
                            ).1,
                            non_shown(self.pres()) <= non_shown(p_cell) - n,
                            0 <= non_shown(self.pres()),
                        decreases 8 - k,
                    {
                        let ghost p_it = self.pres();
                        if let Some(pq) = coords[k] {
                            let pv2 = *self.presentation.at(pq.0, pq.1);
                            if pv2 == CellView::Hidden {
                                self.reveal_at(pq.0, pq.1);
                                n = n + 1;
                                proof {
                                    lemma_non_shown_reveal(
                                        p_it,
                                        self.pres(),
                                        pq.0 as int,
                                        pq.1 as int,
                                    );
                                }
                            }
                        }
                        proof {
                            assert(open_nbrs(f, p_it, yy as int, xx as int, k as int).0
                                == open_nbrs(f, self.pres(), yy as int, xx as int, k as int + 1).0);
                        }
                        k = k + 1;
                    }
                    proof {
                        assert(open_nbrs(f, self.pres(), yy as int, xx as int, 8) == (
                            self.pres(),
                            0int,
                        ));
                    }
                }
            }
        }
        n
    }

    /// One solver pass in row-major order: every shown cell counting `n`
    /// adjacent mines with exactly `n` flagged neighbors has its hidden
    /// neighbors revealed, immediately, so that cells visited later in the
    /// same pass see the new reveals. Returns the number of cells directly
    /// revealed; cells shown transitively by the flood are not counted.
    pub fn auto_open(&mut self) -> (opened: usize)
        requires
            old(self).inv(),
        ensures
            final(self).inv(),
            final(self).fmodel() == old(self).fmodel(),
            final(self).pres() == auto_open_spec(old(self).fmodel(), old(self).pres()).0,
            opened == auto_open_spec(old(self).fmodel(), old(self).pres()).1,
    {
        let ghost f = self.fmodel();
        let ghost p0 = self.pres();
        proof {
            lemma_count_not_shown_bounds(p0.cells);
        }
        let rows = self.presentation.rows();
        let cols = self.presentation.cols();
        let mut opened: usize = 0;
        let mut yy: usize = 0;
        while yy < rows
            invariant
                self.fmodel() == f,
                f.wf(),
                field_ok(f),
                self.pres().wf(),
                self.pres().rows == f.rows,
                self.pres().cols == f.cols,
                closed(f, self.pres()),
                rows == f.rows,
                cols == f.cols,
                yy <= rows,
                p0.wf(),
                auto_open_spec(f, p0).0 == open_from(f, self.pres(), yy as int, 0).0,
                auto_open_spec(f, p0).1 == opened + open_from(f, self.pres(), yy as int, 0).1,
                opened <= non_shown(p0) - non_shown(self.pres()),
                non_shown(p0) <= p0.cells.len(),
                0 <= non_shown(self.pres()),
            decreases rows - yy,
        {
            let mut xx: usize = 0;
            while xx < cols
                invariant
                    self.fmodel() == f,
                    f.wf(),
                    field_ok(f),
                    self.pres().wf(),
                    self.pres().rows == f.rows,
                    self.pres().cols == f.cols,
                    closed(f, self.pres()),
                    rows == f.rows,
                    cols == f.cols,
                    yy < rows,
                    xx <= cols,
                    p0.wf(),
                    auto_open_spec(f, p0).0 == open_from(f, self.pres(), yy as int, xx as int).0,
                    auto_open_spec(f, p0).1 == opened + open_from(
                        f,
                        self.pres(),
                        yy as int,
                        xx as int,
                    ).1,
                    opened <= non_shown(p0) - non_shown(self.pres()),
                    non_shown(p0) <= p0.cells.len(),
                    0 <= non_shown(self.pres()),
                decreases cols - xx,
            {
                let ghost p_here = self.pres();
                let n = self.open_cell_at(yy, xx);
                opened = opened + n;
                proof {
                    assert(open_from(f, p_here, yy as int, xx as int).0 == open_from(
                        f,
                        self.pres(),
                        yy as int,
                        xx as int + 1,
                    ).0);
                }
                xx = xx + 1;
            }
            proof {
                assert(open_from(f, self.pres(), yy as int, cols as int) == open_from(
                    f,
                    self.pres(),
                    yy as int + 1,
                    0,
                ));
            }
            yy = yy + 1;
        }
        proof {
            assert(open_from(f, self.pres(), rows as int, 0) == (self.pres(), 0int));
        }
        opened
    }
}

} // verus!
