use bezier_rust::raster::{
    filled_cells, fill_row, new_grid, render_splines_into_grid, spline_segments, Crossing,
    Direction, CELL_HEIGHT, CELL_WIDTH, GRID_HEIGHT, GRID_WIDTH, WINDOW_HEIGHT, WINDOW_WIDTH,
};

fn c(col: usize, direction: Direction) -> Crossing {
    Crossing { col, direction }
}

#[test]
fn window_and_grid_sizes() {
    assert_eq!((WINDOW_WIDTH, WINDOW_HEIGHT), (800, 600));
    assert_eq!((GRID_WIDTH, GRID_HEIGHT), (240, 180));
    assert_eq!((CELL_WIDTH, CELL_HEIGHT), (3, 3));
}

#[test]
fn new_grid_is_empty() {
    let g = new_grid();
    assert_eq!(g.len(), 180);
    assert!(g.iter().all(|r| r.len() == 240 && r.iter().all(|b| !b)));
}

#[test]
fn enter_then_leave_fills_between() {
    let mut row = vec![false; 8];
    fill_row(&mut row, &vec![c(2, Direction::Up), c(5, Direction::Down)]);
    assert_eq!(row, vec![false, false, true, true, true, true, false, false]);
}

#[test]
fn leave_then_enter_fills_nothing() {
    let mut row = vec![false; 8];
    fill_row(&mut row, &vec![c(2, Direction::Down), c(5, Direction::Up)]);
    assert_eq!(row, vec![false; 8]);
}

#[test]
fn nested_crossings_and_flat_touches() {
    let mut row = vec![false; 12];
    let cs = vec![
        c(1, Direction::Up),
        c(3, Direction::Flat),
        c(4, Direction::Down),
        c(6, Direction::Up),
        c(7, Direction::Up),
        c(9, Direction::Down),
        c(10, Direction::Down),
    ];
    fill_row(&mut row, &cs);
    let expect: Vec<bool> = (0..12).map(|j| (1..=4).contains(&j) || (6..=10).contains(&j)).collect();
    assert_eq!(row, expect);
}

#[test]
fn fill_keeps_earlier_cells() {
    let mut row = vec![true, false, false, false];
    fill_row(&mut row, &vec![c(2, Direction::Up)]);
    assert_eq!(row, vec![true, false, false, false]);
}

#[test]
fn render_clears_the_window_and_fills_spans() {
    let mut g = new_grid();
    for r in g.iter_mut() {
        r[0] = true;
        r.push(true);
    }
    let mut cs: Vec<Vec<Crossing>> = vec![Vec::new(); 180];
    cs[10] = vec![c(5, Direction::Up), c(8, Direction::Down)];
    render_splines_into_grid(&cs, &mut g);
    for (y, row) in g.iter().enumerate() {
        assert_eq!(row.len(), 241);
        for (x, cell) in row.iter().enumerate() {
            let expect = x == 240 || (y == 10 && (5..=8).contains(&x));
            assert_eq!(*cell, expect, "cell {} {}", x, y);
        }
    }
}

#[test]
fn filled_cells_lists_pixel_origins_in_order() {
    let mut g = new_grid();
    g[2][7] = true;
    g[0][239] = true;
    g[2][1] = true;
    assert_eq!(filled_cells(&g), vec![(717, 0), (3, 6), (21, 6)]);
    assert!(filled_cells(&new_grid()).is_empty());
}

#[test]
fn segments_of_a_closed_spline() {
    assert!(spline_segments(0).is_empty());
    assert!(spline_segments(1).is_empty());
    assert_eq!(spline_segments(2), vec![(0, 1, 0)]);
    assert_eq!(spline_segments(4), vec![(0, 1, 2), (2, 3, 0)]);
    assert_eq!(spline_segments(5), vec![(0, 1, 2), (2, 3, 4)]);
}
