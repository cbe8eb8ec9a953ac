use game_of_life::Dimensions;
use game_of_life::Grid;

#[test]
fn new_grid_all_dead() {
    let g = Grid::new(&Dimensions { rows: 4, cols: 7 });
    assert_eq!(g.rows(), 4);
    assert_eq!(g.cols(), 7);
    for r in 0..4 {
        for c in 0..7 {
            assert!(!g.is_alive_at(r, c));
        }
    }
}

#[test]
fn seeded_cell_reads_alive() {
    let mut g = Grid::new(&Dimensions { rows: 3, cols: 3 });
    g.reproduce_at(1, 2);
    assert!(g.is_alive_at(1, 2));
    assert!(!g.is_alive_at(2, 1));
}

#[test]
fn isolated_cell_dies_after_one_tick() {
    let mut g = Grid::new(&Dimensions { rows: 10, cols: 10 });
    g.reproduce_at(5, 5);
    g.tick();
    for r in 0..10 {
        for c in 0..10 {
            assert!(!g.is_alive_at(r, c));
        }
    }
}

#[test]
fn blinker_after_one_sequential_tick() {
    let mut g = Grid::new(&Dimensions { rows: 10, cols: 10 });
    g.reproduce_at(5, 5);
    g.reproduce_at(5, 6);
    g.reproduce_at(5, 7);
    g.tick();
    // The in-place row-major scan gives this generation: (4,6) is born
    // from the three seeds, (4,7) from (4,6) and two seeds, (5,6) dies
    // of overcrowding once (4,6) and (4,7) are alive, and (5,5) and
    // (5,7) survive with two live neighbours each.
    for r in 0..10 {
        for c in 0..10 {
            let expect = (r == 4 && c == 6) || (r == 4 && c == 7) || (r == 5 && c == 5) || (r == 5
                && c == 7);
            assert_eq!(g.is_alive_at(r, c), expect);
        }
    }
}

#[test]
fn border_cells_never_change() {
    let mut g = Grid::new(&Dimensions { rows: 6, cols: 5 });
    g.reproduce_at(0, 0);
    g.reproduce_at(0, 3);
    g.reproduce_at(5, 4);
    g.reproduce_at(2, 0);
    g.reproduce_at(1, 1);
    g.reproduce_at(1, 2);
    g.reproduce_at(2, 1);
    for _ in 0..4 {
        g.tick();
        assert!(g.is_alive_at(0, 0));
        assert!(g.is_alive_at(0, 3));
        assert!(g.is_alive_at(5, 4));
        assert!(g.is_alive_at(2, 0));
        assert!(!g.is_alive_at(0, 1));
        assert!(!g.is_alive_at(5, 0));
    }
}

#[test]
fn neighbour_lookup_fails_on_borders() {
    let g = Grid::new(&Dimensions { rows: 10, cols: 10 });
    assert!(g.get_neighbours_of(0, 0).is_none());
    assert!(g.get_neighbours_of(9, 9).is_none());
    assert!(g.get_neighbours_of(0, 5).is_none());
    assert!(g.get_neighbours_of(5, 0).is_none());
    assert!(g.get_neighbours_of(9, 5).is_none());
    assert!(g.get_neighbours_of(5, 9).is_none());
}

#[test]
fn neighbour_lookup_returns_the_eight_neighbours() {
    let mut g = Grid::new(&Dimensions { rows: 4, cols: 4 });
    g.reproduce_at(0, 1);
    g.reproduce_at(1, 0);
    g.reproduce_at(2, 2);
    let ns = g.get_neighbours_of(1, 1).unwrap();
    assert_eq!(ns.len(), 8);
    let expect = [false, true, false, true, false, false, false, true];
    for i in 0..8 {
        assert_eq!(ns[i].isAlive(), expect[i]);
    }
}

#[test]
fn smallest_grid_has_no_interior_and_never_changes() {
    let mut g = Grid::new(&Dimensions { rows: 1, cols: 1 });
    g.reproduce_at(0, 0);
    g.tick();
    assert!(g.is_alive_at(0, 0));
    assert!(g.get_neighbours_of(0, 0).is_none());
}
