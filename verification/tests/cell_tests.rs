use game_of_life::Cell;

#[test]
fn new_cell_is_dead() {
    let c = Cell::new();
    assert!(!c.isAlive());
}

#[test]
fn kill_then_is_alive_is_false() {
    let mut c = Cell::new();
    c.kill();
    assert!(!c.isAlive());
    c.reproduce();
    c.kill();
    assert!(!c.isAlive());
    c.kill();
    c.kill();
    assert!(!c.isAlive());
}

#[test]
fn reproduce_then_is_alive_is_true() {
    let mut c = Cell::new();
    c.reproduce();
    assert!(c.isAlive());
    c.reproduce();
    assert!(c.isAlive());
    c.kill();
    c.reproduce();
    assert!(c.isAlive());
}
