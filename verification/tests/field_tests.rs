use mines::Field;
use mines::FieldCell;
use mines::FixedSource;
use mines::MinesError;
use mines::RandomSource;
use mines::ThreadRandom;

fn cell(field: &Field, y: usize, x: usize) -> FieldCell {
    *field.grid().get(y, x).unwrap()
}

fn count_mines(field: &Field) -> usize {
    let mut n = 0;
    for y in 0..field.rows() {
        for x in 0..field.cols() {
            if cell(field, y, x) == FieldCell::Mine {
                n += 1;
            }
        }
    }
    n
}

fn adjacent_mines(field: &Field, y: usize, x: usize) -> u8 {
    let mut n = 0;
    for dy in [-1i64, 0, 1] {
        for dx in [-1i64, 0, 1] {
            if dy == 0 && dx == 0 {
                continue;
            }
            let ny = y as i64 + dy;
            let nx = x as i64 + dx;
            if ny >= 0 && nx >= 0 && (ny as usize) < field.rows() && (nx as usize) < field.cols() {
                if cell(field, ny as usize, nx as usize) == FieldCell::Mine {
                    n += 1;
                }
            }
        }
    }
    n
}

#[test]
fn generated_field_has_requested_mine_count() {
    let mut rng = ThreadRandom::new();
    let field = Field::generate(10, 30, 30, 3, 3, &mut rng).unwrap();
    assert_eq!(count_mines(&field), 30);
}

#[test]
fn generated_field_keeps_safe_zone_clear() {
    let mut rng = ThreadRandom::new();
    let field = Field::generate(10, 30, 30, 3, 3, &mut rng).unwrap();
    for y in 2..=4 {
        for x in 2..=4 {
            assert_ne!(cell(&field, y, x), FieldCell::Mine);
        }
    }
}

#[test]
fn generated_counts_match_recomputed_adjacency() {
    let mut rng = ThreadRandom::new();
    let field = Field::generate(10, 30, 30, 3, 3, &mut rng).unwrap();
    for y in 0..10 {
        for x in 0..30 {
            match cell(&field, y, x) {
                FieldCell::Empty => assert_eq!(adjacent_mines(&field, y, x), 0),
                FieldCell::NearMine(k) => assert_eq!(adjacent_mines(&field, y, x), k),
                FieldCell::Mine => {}
            }
        }
    }
}

#[test]
fn deterministic_generation_places_scripted_mine() {
    let mut rng = FixedSource::new(vec![0, 0]);
    let field = Field::generate(3, 3, 1, 2, 2, &mut rng).unwrap();
    assert_eq!(cell(&field, 0, 0), FieldCell::Mine);
    assert_eq!(cell(&field, 0, 1), FieldCell::NearMine(1));
    assert_eq!(cell(&field, 1, 0), FieldCell::NearMine(1));
    assert_eq!(cell(&field, 1, 1), FieldCell::NearMine(1));
    assert_eq!(cell(&field, 0, 2), FieldCell::Empty);
    assert_eq!(cell(&field, 2, 0), FieldCell::Empty);
    assert_eq!(cell(&field, 2, 2), FieldCell::Empty);
}

#[test]
fn rejected_draws_consume_no_placement() {
    // the first draw lands next to the safe coordinate and is rejected,
    // the second draw in the same cell as the third is rejected too
    let mut rng = FixedSource::new(vec![1, 1, 0, 0, 0, 0]);
    let field = Field::generate(3, 3, 1, 2, 2, &mut rng).unwrap();
    assert_eq!(cell(&field, 1, 1), FieldCell::NearMine(1));
    assert_eq!(cell(&field, 0, 0), FieldCell::Mine);
    assert_eq!(count_mines(&field), 1);
}

#[test]
fn zero_mines_yields_all_empty_board() {
    let mut rng = FixedSource::new(vec![]);
    let field = Field::generate(4, 4, 0, 0, 0, &mut rng).unwrap();
    assert_eq!(count_mines(&field), 0);
    for y in 0..4 {
        for x in 0..4 {
            assert_eq!(cell(&field, y, x), FieldCell::Empty);
        }
    }
}

#[test]
fn generation_exhausts_when_safe_zone_covers_board() {
    // on a 2x2 board the safe zone of (0, 0) covers every cell, so no draw
    // can ever be placed and the retry budget runs out
    let mut rng = FixedSource::new(vec![]);
    let r = Field::generate(2, 2, 1, 0, 0, &mut rng);
    assert_eq!(r.err(), Some(MinesError::GenerationExhausted));
}

#[test]
fn thread_random_draw_stays_in_range() {
    let mut rng = ThreadRandom::new();
    for _ in 0..100 {
        let v = rng.uniform_int(10, 13);
        assert!((10..13).contains(&v));
    }
    assert_eq!(rng.uniform_int(5, 6), 5);
}

#[test]
fn fixed_source_replays_and_clamps() {
    let mut rng = FixedSource::new(vec![2, 99]);
    assert_eq!(rng.uniform_int(0, 5), 2);
    // an out-of-range prepared value falls back to the lower bound
    assert_eq!(rng.uniform_int(0, 5), 0);
    // an exhausted list falls back to the lower bound
    assert_eq!(rng.uniform_int(3, 5), 3);
}
