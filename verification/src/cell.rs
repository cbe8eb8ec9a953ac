use vstd::prelude::*;

verus! {

/// The two states a cell can be in.
#[derive(Clone, Copy, PartialEq, Eq, Structural)]
pub enum State {
    Dead,
    Alive,
}

/// One cell of the grid.
///
/// Its view is a `bool`: `true` iff the cell is alive.
#[derive(Clone, Copy)]
pub struct Cell {
    state: State,
}

impl View for Cell {
    type V = bool;

    closed spec fn view(&self) -> bool {
        self.state is Alive
    }
}

impl Cell {
    /// Creates a dead cell.
    pub fn new() -> (c: Cell)
        ensures
            !c@,
    {
        Cell { state: State::Dead }
    }

    /// Sets the state to dead, whatever it was before.
    pub fn kill(&mut self)
        ensures
            !final(self)@,
    {
        self.state = State::Dead;
    }

    /// Sets the state to alive, whatever it was before.
    pub fn reproduce(&mut self)
        ensures
            final(self)@,
    {
        self.state = State::Alive;
    }

    /// Returns true iff the cell is alive.
    #[allow(non_snake_case)]
    pub fn isAlive(&self) -> (r: bool)
        ensures
            r == self@,
    {
        self.state == State::Alive
    }
}

} // verus!
