use mines::CellView;
use mines::Grid;
use mines::MatrixExt;
use mines::MatrixExtPartEq;
use mines::MinesError;

#[test]
fn create_rejects_zero_rows() {
    let g: Result<Grid<u8>, MinesError> = Grid::create(0, 5, 0u8);
    assert_eq!(g.err(), Some(MinesError::InvalidDimensions));
}

#[test]
fn create_rejects_zero_cols() {
    let g: Result<Grid<u8>, MinesError> = Grid::create(4, 0, 0u8);
    assert_eq!(g.err(), Some(MinesError::InvalidDimensions));
}

#[test]
fn create_fills_every_cell() {
    let g = Grid::create(3, 4, 7u8).unwrap();
    assert_eq!(g.rows(), 3);
    assert_eq!(g.cols(), 4);
    for y in 0..3 {
        for x in 0..4 {
            assert_eq!(*g.get(y, x).unwrap(), 7u8);
        }
    }
}

#[test]
fn get_out_of_bounds() {
    let g = Grid::create(2, 2, 0u8).unwrap();
    assert_eq!(g.get(2, 0).err(), Some(MinesError::OutOfBounds));
    assert_eq!(g.get(0, 2).err(), Some(MinesError::OutOfBounds));
}

#[test]
fn set_out_of_bounds_leaves_grid_unchanged() {
    let mut g = Grid::create(2, 2, 1u8).unwrap();
    assert_eq!(g.set(5, 5, 9u8).err(), Some(MinesError::OutOfBounds));
    for y in 0..2 {
        for x in 0..2 {
            assert_eq!(*g.get(y, x).unwrap(), 1u8);
        }
    }
}

#[test]
fn set_then_get_roundtrip() {
    let mut g = Grid::create(2, 3, 0u8).unwrap();
    assert!(g.set(1, 2, 42u8).is_ok());
    assert_eq!(*g.get(1, 2).unwrap(), 42u8);
    assert_eq!(*g.get(0, 2).unwrap(), 0u8);
}

#[test]
fn cell_at_reports_coordinate_and_value() {
    let mut g = Grid::create(2, 2, 0u8).unwrap();
    g.set(1, 0, 5u8).unwrap();
    let c = g.cell_at(1, 0);
    assert_eq!(*c.value, 5u8);
    assert_eq!(c.y, 1);
    assert_eq!(c.x, 0);
}

#[test]
fn coordinates_around_center_with_corners() {
    let g = Grid::create(3, 3, 0u8).unwrap();
    let r = g.coordinates_around(1, 1, true);
    assert_eq!(
        r,
        [
            Some((0, 0)),
            Some((0, 1)),
            Some((0, 2)),
            Some((1, 0)),
            Some((1, 2)),
            Some((2, 0)),
            Some((2, 1)),
            Some((2, 2)),
        ]
    );
}

#[test]
fn coordinates_around_center_without_corners() {
    let g = Grid::create(3, 3, 0u8).unwrap();
    let r = g.coordinates_around(1, 1, false);
    assert_eq!(
        r,
        [None, Some((0, 1)), None, Some((1, 0)), Some((1, 2)), None, Some((2, 1)), None]
    );
}

#[test]
fn coordinates_around_corner_stays_in_range() {
    let g = Grid::create(2, 2, 0u8).unwrap();
    let r = g.coordinates_around(0, 0, true);
    assert_eq!(r, [None, None, None, None, Some((0, 1)), None, Some((1, 0)), Some((1, 1))]);
    for entry in r.iter() {
        if let Some((y, x)) = entry {
            assert!(*y < 2 && *x < 2);
        }
    }
}

#[test]
fn coordinates_around_single_cell_grid() {
    let g = Grid::create(1, 1, 0u8).unwrap();
    assert_eq!(g.coordinates_around(0, 0, true), [None; 8]);
    assert_eq!(g.coordinates_around(0, 0, false), [None; 8]);
}

#[test]
fn count_around_of_and_not() {
    let mut g = Grid::create(3, 3, CellView::Hidden).unwrap();
    g.set(0, 0, CellView::Shown).unwrap();
    g.set(0, 1, CellView::Shown).unwrap();
    g.set(2, 2, CellView::Flagged).unwrap();
    assert_eq!(g.count_around_of(1, 1, true, CellView::Shown), 2);
    assert_eq!(g.count_around_not(1, 1, true, CellView::Shown), 6);
    assert_eq!(g.count_around_of(1, 1, false, CellView::Shown), 1);
    assert_eq!(g.count_around_of(1, 1, true, CellView::Flagged), 1);
}

#[test]
fn replace_around_touches_only_matching_neighbors() {
    let mut g = Grid::create(3, 3, CellView::Hidden).unwrap();
    g.set(0, 0, CellView::Shown).unwrap();
    g.set(1, 1, CellView::Shown).unwrap();
    let n = g.replace_around(1, 1, true, CellView::Hidden, CellView::Flagged);
    assert_eq!(n, 7);
    // the center and the already shown neighbor are untouched
    assert_eq!(*g.get(1, 1).unwrap(), CellView::Shown);
    assert_eq!(*g.get(0, 0).unwrap(), CellView::Shown);
    assert_eq!(*g.get(2, 2).unwrap(), CellView::Flagged);
    assert_eq!(*g.get(0, 1).unwrap(), CellView::Flagged);
}

#[test]
fn replace_around_without_corners() {
    let mut g = Grid::create(3, 3, CellView::Hidden).unwrap();
    let n = g.replace_around(0, 0, false, CellView::Hidden, CellView::Flagged);
    assert_eq!(n, 2);
    assert_eq!(*g.get(0, 1).unwrap(), CellView::Flagged);
    assert_eq!(*g.get(1, 0).unwrap(), CellView::Flagged);
    assert_eq!(*g.get(1, 1).unwrap(), CellView::Hidden);
}
