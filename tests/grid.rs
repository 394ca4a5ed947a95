use conway::{Conway, DimensionMismatch, OutOfBounds, Position};

fn pos(x: usize, y: usize) -> Position {
    Position { x, y }
}

fn live_cells(c: &Conway) -> Vec<(usize, usize)> {
    let mut out = Vec::new();
    for y in 0..c.height() {
        for x in 0..c.width() {
            if c.get(pos(x, y)) == Some(true) {
                out.push((x, y));
            }
        }
    }
    out
}

fn with_live(w: usize, h: usize, live: &[(usize, usize)]) -> Conway {
    let mut c = Conway::new(w, h).unwrap();
    for &(x, y) in live {
        c.set(pos(x, y), true).unwrap();
    }
    c
}

fn sorted(mut v: Vec<(usize, usize)>) -> Vec<(usize, usize)> {
    v.sort();
    v
}

#[test]
fn new_grid_is_dead_with_given_dimensions() {
    let c = Conway::new(7, 3).unwrap();
    assert_eq!(c.width(), 7);
    assert_eq!(c.height(), 3);
    assert!(live_cells(&c).is_empty());
    assert_eq!(c.get(pos(6, 2)), Some(false));
    assert_eq!(c.get(pos(7, 2)), None);
}

#[test]
fn new_rejects_zero_dimensions() {
    assert!(Conway::new(0, 5).is_none());
    assert!(Conway::new(5, 0).is_none());
    assert!(Conway::new(0, 0).is_none());
    assert!(Conway::new(1, 1).is_some());
}

#[test]
fn dimensions_kept_through_edits_and_ticks() {
    let mut c = Conway::new(5, 4).unwrap();
    c.set(pos(1, 1), true).unwrap();
    c.toggle(pos(2, 1)).unwrap();
    c.tick();
    c.set_bulk(vec![vec![true; 5]; 4]).unwrap();
    c.tick();
    assert!(c.set_bulk(vec![vec![true; 4]; 5]).is_err());
    c.tick();
    assert_eq!(c.width(), 5);
    assert_eq!(c.height(), 4);
    let text = c.render();
    let lines: Vec<&str> = text.lines().collect();
    assert_eq!(lines.len(), 4);
    for line in lines {
        assert_eq!(line.chars().count(), 5);
    }
}

#[test]
fn set_out_of_bounds_is_rejected() {
    let mut c = with_live(4, 3, &[(1, 1), (3, 2)]);
    let before = c.render();
    assert_eq!(c.set(pos(4, 0), true), Err(OutOfBounds));
    assert_eq!(c.set(pos(0, 3), true), Err(OutOfBounds));
    assert_eq!(c.toggle(pos(4, 0)), Err(OutOfBounds));
    assert_eq!(c.toggle(pos(0, 3)), Err(OutOfBounds));
    assert_eq!(c.render(), before);
}

#[test]
fn set_writes_one_cell() {
    let mut c = Conway::new(3, 3).unwrap();
    assert_eq!(c.set(pos(2, 1), true), Ok(()));
    assert_eq!(live_cells(&c), vec![(2, 1)]);
    assert_eq!(c.set(pos(2, 1), false), Ok(()));
    assert!(live_cells(&c).is_empty());
}

#[test]
fn toggle_twice_restores_grid() {
    let mut c = with_live(4, 4, &[(0, 0), (3, 2)]);
    let before = c.render();
    c.toggle(pos(1, 2)).unwrap();
    assert_eq!(c.get(pos(1, 2)), Some(true));
    c.toggle(pos(1, 2)).unwrap();
    assert_eq!(c.render(), before);
    c.toggle(pos(3, 2)).unwrap();
    assert_eq!(c.get(pos(3, 2)), Some(false));
    c.toggle(pos(3, 2)).unwrap();
    assert_eq!(c.render(), before);
}

#[test]
fn block_is_still_life() {
    let block = [(2, 3), (3, 3), (2, 4), (3, 4)];
    let mut c = with_live(6, 7, &block);
    for _ in 0..3 {
        c.tick();
        assert_eq!(live_cells(&c), sorted_by_row(&block));
    }
}

fn sorted_by_row(cells: &[(usize, usize)]) -> Vec<(usize, usize)> {
    let mut v = cells.to_vec();
    v.sort_by_key(|&(x, y)| (y, x));
    v
}

#[test]
fn glider_moves_diagonally_on_ten_by_ten_torus() {
    let glider = [(4, 4), (5, 5), (3, 6), (4, 6), (5, 6)];
    let mut c = with_live(10, 10, &glider);
    for _ in 0..4 {
        c.tick();
    }
    let moved: Vec<(usize, usize)> = glider.iter().map(|&(x, y)| ((x + 1) % 10, (y + 1) % 10)).collect();
    assert_eq!(sorted(live_cells(&c)), sorted(moved));
    for _ in 4..40 {
        c.tick();
    }
    assert_eq!(sorted(live_cells(&c)), sorted(glider.to_vec()));
}

#[test]
fn glider_from_bulk_field() {
    let mut field = vec![vec![false; 10]; 10];
    field[4][4] = true;
    field[5][5] = true;
    field[6][3] = true;
    field[6][4] = true;
    field[6][5] = true;
    let mut c = Conway::new(10, 10).unwrap();
    c.set_bulk(field).unwrap();
    c.tick();
    assert_eq!(sorted(live_cells(&c)), sorted(vec![(3, 5), (5, 5), (4, 6), (5, 6), (4, 7)]));
}

#[test]
fn lone_cell_at_corner_dies() {
    let mut c = with_live(3, 3, &[(0, 0)]);
    c.tick();
    assert!(live_cells(&c).is_empty());
}

#[test]
fn neighbours_wrap_across_corners() {
    // (3, 3) sees (0, 0), (2, 0) and (0, 2) only through the edges.
    let mut c = with_live(4, 4, &[(0, 0), (2, 0), (0, 2)]);
    c.tick();
    assert_eq!(c.get(pos(3, 3)), Some(true));
    assert_eq!(c.get(pos(1, 1)), Some(true));
    assert_eq!(sorted(live_cells(&c)), vec![(1, 1), (1, 3), (3, 1), (3, 3)]);
}

#[test]
fn blinker_oscillates() {
    let mut c = with_live(5, 5, &[(1, 2), (2, 2), (3, 2)]);
    c.tick();
    assert_eq!(sorted(live_cells(&c)), vec![(2, 1), (2, 2), (2, 3)]);
    c.tick();
    assert_eq!(sorted(live_cells(&c)), vec![(1, 2), (2, 2), (3, 2)]);
}

#[test]
fn crowded_cell_dies_and_full_grid_dies() {
    let mut c = Conway::new(4, 4).unwrap();
    c.set_bulk(vec![vec![true; 4]; 4]).unwrap();
    c.tick();
    assert!(live_cells(&c).is_empty());
}

#[test]
fn set_bulk_overwrites_everything() {
    let mut c = with_live(3, 2, &[(0, 0), (1, 0), (2, 1)]);
    let field = vec![vec![false, false, true], vec![false, false, false]];
    assert_eq!(c.set_bulk(field), Ok(()));
    assert_eq!(live_cells(&c), vec![(2, 0)]);
}

#[test]
fn set_bulk_wrong_shape_leaves_grid() {
    let mut c = with_live(3, 2, &[(0, 0), (2, 1)]);
    let before = c.render();
    assert_eq!(c.set_bulk(vec![vec![true; 3]; 3]), Err(DimensionMismatch));
    assert_eq!(c.set_bulk(vec![vec![true; 3]; 1]), Err(DimensionMismatch));
    assert_eq!(c.set_bulk(vec![vec![true; 3], vec![true; 2]]), Err(DimensionMismatch));
    assert_eq!(c.set_bulk(vec![vec![true; 4], vec![true; 3]]), Err(DimensionMismatch));
    assert_eq!(c.render(), before);
}

#[test]
fn render_draws_one_glyph_per_cell() {
    let c = with_live(3, 2, &[(0, 0), (2, 1)]);
    assert_eq!(c.render(), "\u{25A0}\u{25A1}\u{25A1}\n\u{25A1}\u{25A1}\u{25A0}\n");
}
