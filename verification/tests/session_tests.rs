use mines::CellView;
use mines::Field;
use mines::FieldCell;
use mines::FixedSource;
use mines::Session;

fn view(s: &Session, y: usize, x: usize) -> CellView {
    *s.presentation().get(y, x).unwrap()
}

fn all_views(s: &Session, rows: usize, cols: usize) -> Vec<CellView> {
    let mut v = Vec::new();
    for y in 0..rows {
        for x in 0..cols {
            v.push(view(s, y, x));
        }
    }
    v
}

#[test]
fn flood_reveals_all_cells_of_empty_board() {
    let mut rng = FixedSource::new(vec![]);
    let field = Field::generate(4, 6, 0, 1, 1, &mut rng).unwrap();
    let session = Session::from_field(&field, 1, 1);
    for y in 0..4 {
        for x in 0..6 {
            assert_eq!(view(&session, y, x), CellView::Shown);
        }
    }
}

#[test]
fn reveal_on_shown_empty_cell_changes_nothing() {
    let mut rng = FixedSource::new(vec![0, 0]);
    let field = Field::generate(3, 3, 1, 2, 2, &mut rng).unwrap();
    let mut session = Session::from_field(&field, 2, 2);
    assert_eq!(view(&session, 2, 2), CellView::Shown);
    let before = all_views(&session, 3, 3);
    session.reveal_at(2, 2);
    assert_eq!(all_views(&session, 3, 3), before);
}

#[test]
fn flood_from_safe_corner_spares_only_the_mine() {
    let mut rng = FixedSource::new(vec![0, 0]);
    let field = Field::generate(3, 3, 1, 2, 2, &mut rng).unwrap();
    assert_eq!(*field.grid().get(0, 0).unwrap(), FieldCell::Mine);
    let session = Session::from_field(&field, 2, 2);
    for y in 0..3 {
        for x in 0..3 {
            if y == 0 && x == 0 {
                assert_eq!(view(&session, y, x), CellView::Hidden);
            } else {
                assert_eq!(view(&session, y, x), CellView::Shown);
            }
        }
    }
}

#[test]
fn near_mine_cells_are_revealed_but_do_not_spread() {
    // two mines wall off the top row; the flood shows the counted cells of
    // the middle row and stops there
    let mut rng = FixedSource::new(vec![0, 0, 0, 1]);
    let field = Field::generate(3, 3, 2, 2, 2, &mut rng).unwrap();
    let session = Session::from_field(&field, 2, 2);
    assert_eq!(view(&session, 1, 0), CellView::Shown);
    assert_eq!(view(&session, 1, 1), CellView::Shown);
    assert_eq!(view(&session, 1, 2), CellView::Shown);
    assert_eq!(view(&session, 2, 0), CellView::Shown);
    assert_eq!(view(&session, 0, 0), CellView::Hidden);
    assert_eq!(view(&session, 0, 1), CellView::Hidden);
    assert_eq!(view(&session, 0, 2), CellView::Hidden);
}

#[test]
fn explicit_reveal_of_mine_shows_it_without_spreading_flags() {
    let mut rng = FixedSource::new(vec![0, 0]);
    let field = Field::generate(3, 3, 1, 2, 2, &mut rng).unwrap();
    let mut session = Session::from_field(&field, 2, 2);
    assert_eq!(view(&session, 0, 0), CellView::Hidden);
    session.reveal_at(0, 0);
    assert_eq!(view(&session, 0, 0), CellView::Shown);
}
