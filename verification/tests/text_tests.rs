use game_of_life::Dimensions;
use game_of_life::Grid;

#[test]
fn to_text_renders_a_dead_grid() {
    let g = Grid::new(&Dimensions { rows: 2, cols: 3 });
    assert_eq!(g.to_text(), "Grid of size (2, 3)\n ----\n0 0 0 \n0 0 0 \n------\n");
}

#[test]
fn to_text_marks_live_cells() {
    let mut g = Grid::new(&Dimensions { rows: 3, cols: 3 });
    g.reproduce_at(1, 1);
    g.reproduce_at(0, 2);
    assert_eq!(g.to_text(), "Grid of size (3, 3)\n ----\n0 0 1 \n0 1 0 \n0 0 0 \n------\n");
}

#[test]
fn to_text_renders_multi_digit_dimensions() {
    let g = Grid::new(&Dimensions { rows: 12, cols: 10 });
    let text = g.to_text();
    assert!(text.starts_with("Grid of size (12, 10)\n ----\n"));
    assert!(text.ends_with("------\n"));
    assert_eq!(text.lines().count(), 2 + 12 + 1);
}

#[test]
fn to_text_twice_is_identical() {
    let mut g = Grid::new(&Dimensions { rows: 5, cols: 5 });
    g.reproduce_at(2, 2);
    g.reproduce_at(2, 3);
    let first = g.to_text();
    let second = g.to_text();
    assert_eq!(first, second);
}

#[test]
fn to_text_after_tick_shows_the_next_generation() {
    let mut g = Grid::new(&Dimensions { rows: 10, cols: 10 });
    g.reproduce_at(5, 5);
    g.reproduce_at(5, 6);
    g.reproduce_at(5, 7);
    g.tick();
    let text = g.to_text();
    let lines: Vec<&str> = text.lines().collect();
    assert_eq!(lines[0], "Grid of size (10, 10)");
    assert_eq!(lines[1], " ----");
    assert_eq!(lines[2 + 4], "0 0 0 0 0 0 1 1 0 0 ");
    assert_eq!(lines[2 + 5], "0 0 0 0 0 1 0 1 0 0 ");
    assert_eq!(lines[2 + 6], "0 0 0 0 0 0 0 0 0 0 ");
    assert_eq!(lines[12], "------");
}
