use mines::CellView;
use mines::Field;
use mines::FixedSource;
use mines::Session;

fn view(s: &Session, y: usize, x: usize) -> CellView {
    *s.presentation().get(y, x).unwrap()
}

#[test]
fn auto_flag_flags_exactly_the_determined_cells() {
    // a shown cell counting two mines with exactly two hidden neighbors:
    // both are flagged and the pass reports two
    let mut rng = FixedSource::new(vec![0, 0, 0, 1]);
    let field = Field::generate(3, 3, 2, 2, 2, &mut rng).unwrap();
    let mut session = Session::from_field(&field, 2, 2);
    assert_eq!(view(&session, 1, 0), CellView::Shown);
    assert_eq!(view(&session, 0, 0), CellView::Hidden);
    assert_eq!(view(&session, 0, 1), CellView::Hidden);
    let flagged = session.auto_flag();
    assert_eq!(flagged, 2);
    assert_eq!(view(&session, 0, 0), CellView::Flagged);
    assert_eq!(view(&session, 0, 1), CellView::Flagged);
    assert_eq!(view(&session, 0, 2), CellView::Hidden);
}

#[test]
fn auto_flag_rerun_without_new_reveals_returns_zero() {
    let mut rng = FixedSource::new(vec![0, 0, 0, 1]);
    let field = Field::generate(3, 3, 2, 2, 2, &mut rng).unwrap();
    let mut session = Session::from_field(&field, 2, 2);
    let first = session.auto_flag();
    assert_eq!(first, 2);
    assert_eq!(session.auto_flag(), 0);
}

#[test]
fn auto_flag_rerun_on_single_mine_board_returns_zero() {
    let mut rng = FixedSource::new(vec![0, 0]);
    let field = Field::generate(3, 3, 1, 2, 2, &mut rng).unwrap();
    let mut session = Session::from_field(&field, 2, 2);
    assert_eq!(session.auto_flag(), 1);
    assert_eq!(view(&session, 0, 0), CellView::Flagged);
    assert_eq!(session.auto_flag(), 0);
}

#[test]
fn auto_flag_without_eligible_cells_changes_nothing() {
    // every counted cell of the front still touches more unknown cells
    // than its count, so nothing may be flagged
    let mut rng = FixedSource::new(vec![0, 0, 0, 1]);
    let field = Field::generate(2, 4, 2, 1, 3, &mut rng).unwrap();
    let mut session = Session::from_field(&field, 1, 3);
    assert_eq!(session.auto_flag(), 0);
}

#[test]
fn auto_open_reveals_both_hidden_neighbors_of_satisfied_one() {
    // a board of two mines whose counted cells are walled in; after two
    // manual reveals and one flag pass, the cell at (1, 2) counts one
    // mine, sees exactly one flag and two hidden neighbors; the open pass
    // reveals both of them and reports two
    let mut rng = FixedSource::new(vec![1, 1, 1, 4]);
    let field = Field::generate(4, 5, 2, 3, 0, &mut rng).unwrap();
    let mut session = Session::from_field(&field, 3, 0);
    session.reveal_at(1, 0);
    session.reveal_at(1, 2);
    let flagged = session.auto_flag();
    assert_eq!(flagged, 2);
    // the satisfied cell: one flagged neighbor, two hidden neighbors
    assert_eq!(view(&session, 1, 2), CellView::Shown);
    assert_eq!(view(&session, 1, 1), CellView::Flagged);
    assert_eq!(view(&session, 0, 1), CellView::Hidden);
    assert_eq!(view(&session, 0, 3), CellView::Hidden);
    let opened = session.auto_open();
    assert_eq!(opened, 2);
    assert_eq!(view(&session, 0, 1), CellView::Shown);
    assert_eq!(view(&session, 0, 3), CellView::Shown);
}

#[test]
fn auto_open_without_satisfied_cells_returns_zero() {
    let mut rng = FixedSource::new(vec![0, 0, 0, 1]);
    let field = Field::generate(3, 3, 2, 2, 2, &mut rng).unwrap();
    let mut session = Session::from_field(&field, 2, 2);
    // no flags at all: no count can be satisfied with a positive count
    assert_eq!(session.auto_open(), 0);
    assert_eq!(view(&session, 0, 2), CellView::Hidden);
}

#[test]
fn alternating_passes_solve_the_corner_board() {
    let mut rng = FixedSource::new(vec![0, 0]);
    let field = Field::generate(3, 3, 1, 2, 2, &mut rng).unwrap();
    let mut session = Session::from_field(&field, 2, 2);
    assert_eq!(session.auto_flag(), 1);
    // everything safe is already shown, so opening finds nothing new
    assert_eq!(session.auto_open(), 0);
    assert_eq!(view(&session, 0, 0), CellView::Flagged);
}
