use vstd::prelude::*;

use crate::cell::Cell;

verus! {

/// The fixed size of a grid; both dimensions are positive.
#[derive(Clone, Copy)]
pub struct Dimensions {
    pub rows: usize,
    pub cols: usize,
}

/// A rectangular grid of cells, stored row-major.
///
/// The view is the sequence of rows, each row the sequence of its
/// cells' states (`true` = alive).
pub struct Grid {
    dimensions: Dimensions,
    cells: Vec<Cell>,
}

/// 1 if the cell is alive, else 0.
pub open spec fn live(b: bool) -> int {
    if b {
        1
    } else {
        0
    }
}

/// The number of columns of a grid state: the length of its first row.
pub open spec fn cols_of(g: Seq<Seq<bool>>) -> int {
    if g.len() == 0 {
        0
    } else {
        g[0].len() as int
    }
}

/// The grid state has exactly `rows` rows of `cols` cells each.
pub open spec fn rect(g: Seq<Seq<bool>>, rows: int, cols: int) -> bool {
    &&& g.len() == rows
    &&& forall|r: int| 0 <= r < rows ==> (#[trigger] g[r]).len() == cols
}

/// The number of live cells among the eight neighbours of `(row, col)`:
/// the full Moore neighbourhood, diagonal and orthogonal.
pub open spec fn neighbour_count(g: Seq<Seq<bool>>, row: int, col: int) -> int {
    live(g[row - 1][col - 1]) + live(g[row - 1][col]) + live(g[row - 1][col + 1]) + live(
        g[row][col - 1],
    ) + live(g[row][col + 1]) + live(g[row + 1][col - 1]) + live(g[row + 1][col]) + live(
        g[row + 1][col + 1],
    )
}

/// The classic rule: a live cell survives with 2 or 3 live neighbours
/// (it dies of isolation with 0 or 1 and of overcrowding with 4 or
/// more); a dead cell is born with exactly 3 and stays dead otherwise.
pub open spec fn next_state(alive: bool, n: int) -> bool {
    if alive {
        2 <= n && n <= 3
    } else {
        n == 3
    }
}

/// One cell updated in place, against the current state of the whole
/// grid: the rule applied to the cell's own state and its neighbour
/// count, both read from `g`.
pub open spec fn step_cell(g: Seq<Seq<bool>>, row: int, col: int) -> Seq<Seq<bool>> {
    g.update(row, g[row].update(col, next_state(g[row][col], neighbour_count(g, row, col))))
}

/// The in-place scan from `(row, col)` to the end of the interior, in
/// row-major order: the cell at `(row, col)` is updated against the
/// grid as it stands, and the scan goes on over the updated grid.
/// Border cells (row or column 0, or the last row or column) are never
/// updated.
pub open spec fn step_from(
    g: Seq<Seq<bool>>,
    rows: int,
    cols: int,
    row: int,
    col: int,
) -> Seq<Seq<bool>>
    decreases rows - row, cols - col,
{
    if row >= rows - 1 {
        g
    } else if col >= cols - 1 {
        step_from(g, rows, cols, row + 1, 1)
    } else {
        step_from(step_cell(g, row, col), rows, cols, row, col + 1)
    }
}

/// One generation: every strictly interior cell updated once, in
/// row-major order, each against the grid as already updated by the
/// cells scanned before it.
pub open spec fn step(g: Seq<Seq<bool>>) -> Seq<Seq<bool>> {
    step_from(g, g.len() as int, cols_of(g), 1, 1)
}

/// The scan from `(r0, c0)` only ever updates strictly interior cells,
/// so it leaves every border cell as it found it.
proof fn lemma_step_from_preserves_border(
    g: Seq<Seq<bool>>,
    rows: int,
    cols: int,
    r0: int,
    c0: int,
    row: int,
    col: int,
)
    requires
        rect(g, rows, cols),
        1 <= r0,
        1 <= c0,
        0 <= row < rows,
        0 <= col < cols,
        row == 0 || col == 0 || row == rows - 1 || col == cols - 1,
    ensures
        step_from(g, rows, cols, r0, c0)[row][col] == g[row][col],
    decreases rows - r0, cols - c0,
{
    if r0 >= rows - 1 {
    } else if c0 >= cols - 1 {
        lemma_step_from_preserves_border(g, rows, cols, r0 + 1, 1, row, col);
    } else {
        let g2 = step_cell(g, r0, c0);
        assert(rect(g2, rows, cols));
        assert(g2[row][col] == g[row][col]);
        lemma_step_from_preserves_border(g2, rows, cols, r0, c0 + 1, row, col);
    }
}

/// Law: a tick never changes a border cell.  For any rectangular grid
/// state and any coordinate on the outermost ring, the state after one
/// generation equals the state before it, whatever the neighbour
/// configuration; by induction the same holds for any number of ticks.
pub proof fn lemma_step_preserves_border(g: Seq<Seq<bool>>, row: int, col: int)
    requires
        rect(g, g.len() as int, cols_of(g)),
        0 <= row < g.len(),
        0 <= col < cols_of(g),
        row == 0 || col == 0 || row == g.len() - 1 || col == cols_of(g) - 1,
    ensures
        step(g)[row][col] == g[row][col],
{
    lemma_step_from_preserves_border(g, g.len() as int, cols_of(g), 1, 1, row, col);
}

/// The flat row-major position of `(row, col)` lies inside the grid's
/// storage.
proof fn lemma_flat_range(rows: int, cols: int, row: int, col: int)
    by (nonlinear_arith)
    requires
        0 <= row < rows,
        0 <= col < cols,
    ensures
        0 <= row * cols + col < rows * cols,
{
}

/// Distinct coordinates have distinct flat row-major positions.
proof fn lemma_flat_injective(cols: int, r1: int, c1: int, r2: int, c2: int)
    by (nonlinear_arith)
    requires
        0 <= c1 < cols,
        0 <= c2 < cols,
        r1 * cols + c1 == r2 * cols + c2,
    ensures
        r1 == r2 && c1 == c2,
{
}

impl View for Grid {
    type V = Seq<Seq<bool>>;

    closed spec fn view(&self) -> Seq<Seq<bool>> {
        Seq::new(
            self.dimensions.rows as nat,
            |r: int|
                Seq::new(
                    self.dimensions.cols as nat,
                    |c: int| self.cells@[r * self.dimensions.cols + c]@,
                ),
        )
    }
}

impl Grid {
    /// The grid's internal invariant: positive dimensions, and exactly
    /// `rows * cols` cells in the row-major storage.
    pub closed spec fn wf(&self) -> bool {
        &&& self.dimensions.rows >= 1
        &&& self.dimensions.cols >= 1
        &&& self.dimensions.rows * self.dimensions.cols <= usize::MAX
        &&& self.cells@.len() == self.dimensions.rows * self.dimensions.cols
    }

    /// A well-formed grid's view is rectangular and not empty.
    pub proof fn lemma_view_rect(&self)
        requires
            self.wf(),
        ensures
            rect(self@, self@.len() as int, cols_of(self@)),
            self@.len() >= 1,
            cols_of(self@) >= 1,
    {
    }

    /// The number of rows.
    pub fn rows(&self) -> (r: usize)
        ensures
            r as int == self@.len(),
    {
        self.dimensions.rows
    }

    /// The number of columns.
    pub fn cols(&self) -> (r: usize)
        requires
            self.wf(),
        ensures
            r as int == cols_of(self@),
    {
        self.dimensions.cols
    }

    /// Creates a grid of the given dimensions with every cell dead.
    pub fn new(dim: &Dimensions) -> (g: Grid)
        requires
            dim.rows >= 1,
            dim.cols >= 1,
            dim.rows * dim.cols <= usize::MAX,
        ensures
            g.wf(),
            rect(g@, dim.rows as int, dim.cols as int),
            forall|r: int, c: int|
                0 <= r < dim.rows && 0 <= c < dim.cols ==> !(#[trigger] g@[r][c]),
    {
        let n = dim.rows * dim.cols;
        let mut cells: Vec<Cell> = Vec::new();
        let mut i: usize = 0;
        while i < n
            invariant
                i <= n,
                cells@.len() == i as int,
                forall|j: int| 0 <= j < i as int ==> !(#[trigger] cells@[j])@,
            decreases n - i,
        {
            cells.push(Cell::new());
            i = i + 1;
        }
        let g = Grid { dimensions: *dim, cells };
        proof {
            assert forall|r: int, c: int|
                0 <= r < dim.rows && 0 <= c < dim.cols implies !(#[trigger] g@[r][c]) by {
                lemma_flat_range(dim.rows as int, dim.cols as int, r, c);
            }
        }
        g
    }

    /// The cell at `(row, col)`.
    fn cell_at(&self, row: usize, col: usize) -> (c: Cell)
        requires
            self.wf(),
            row < self.dimensions.rows,
            col < self.dimensions.cols,
        ensures
            c@ == self@[row as int][col as int],
    {
        proof {
            lemma_flat_range(
                self.dimensions.rows as int,
                self.dimensions.cols as int,
                row as int,
                col as int,
            );
        }
        self.cells[row * self.dimensions.cols + col]
    }

    /// Stores `cell` at `(row, col)`; every other cell is unchanged.
    fn set_cell(&mut self, row: usize, col: usize, cell: Cell)
        requires
            old(self).wf(),
            row < old(self).dimensions.rows,
            col < old(self).dimensions.cols,
        ensures
            final(self).wf(),
            final(self).dimensions == old(self).dimensions,
            final(self)@ == old(self)@.update(
                row as int,
                old(self)@[row as int].update(col as int, cell@),
            ),
    {
        let ghost rows = self.dimensions.rows as int;
        let ghost cols = self.dimensions.cols as int;
        proof {
            lemma_flat_range(rows, cols, row as int, col as int);
        }
        let i = row * self.dimensions.cols + col;
        self.cells[i] = cell;
        proof {
            assert forall|r: int, c: int| 0 <= r < rows && 0 <= c < cols implies #[trigger] self@[r][c]
                == (if r == row as int && c == col as int {
                cell@
            } else {
                old(self)@[r][c]
            }) by {
                lemma_flat_range(rows, cols, r, c);
                if r * cols + c == i as int {
                    lemma_flat_injective(cols, r, c, row as int, col as int);
                }
            }
            assert(self@ =~~= old(self)@.update(
                row as int,
                old(self)@[row as int].update(col as int, cell@),
            ));
        }
    }

    /// Returns true iff the cell at `(row, col)` is alive.
    pub fn is_alive_at(&self, row: usize, col: usize) -> (r: bool)
        requires
            self.wf(),
            (row as int) < self@.len(),
            (col as int) < cols_of(self@),
        ensures
            r == self@[row as int][col as int],
    {
        let cell = self.cell_at(row, col);
        cell.isAlive()
    }

    /// Brings the cell at `(row, col)` to life: the seeding operation a
    /// caller uses before the first tick.
    pub fn reproduce_at(&mut self, row: usize, col: usize)
        requires
            old(self).wf(),
            (row as int) < old(self)@.len(),
            (col as int) < cols_of(old(self)@),
        ensures
            final(self).wf(),
            final(self)@ == old(self)@.update(
                row as int,
                old(self)@[row as int].update(col as int, true),
            ),
    {
        let mut cell = self.cell_at(row, col);
        cell.reproduce();
        self.set_cell(row, col, cell);
    }

    /// The eight neighbours of a strictly interior cell, in row-major
    /// order (the row above, the two beside, the row below).  On a
    /// border coordinate — row or column 0, or the last row or column —
    /// there is no full Moore neighbourhood and the lookup fails with
    /// `None`; `tick` restricts itself to the interior, so that branch
    /// is defensive only.
    pub fn get_neighbours_of(&self, row: usize, col: usize) -> (r: Option<Vec<Cell>>)
        requires
            self.wf(),
            (row as int) < self@.len(),
            (col as int) < cols_of(self@),
        ensures
            r is Some <==> (1 <= row && (row as int) < self@.len() - 1 && 1 <= col && (col as int)
                < cols_of(self@) - 1),
            r matches Some(v) ==> {
                &&& v@.len() == 8
                &&& v@[0]@ == self@[row - 1][col - 1]
                &&& v@[1]@ == self@[row - 1][col as int]
                &&& v@[2]@ == self@[row - 1][col + 1]
                &&& v@[3]@ == self@[row as int][col - 1]
                &&& v@[4]@ == self@[row as int][col + 1]
                &&& v@[5]@ == self@[row + 1][col - 1]
                &&& v@[6]@ == self@[row + 1][col as int]
                &&& v@[7]@ == self@[row + 1][col + 1]
            },
    {
        if row == 0 || col == 0 || row >= self.dimensions.rows - 1 || col >= self.dimensions.cols
            - 1 {
            return None;
        }
        let mut v: Vec<Cell> = Vec::new();
        v.push(self.cell_at(row - 1, col - 1));
        v.push(self.cell_at(row - 1, col));
        v.push(self.cell_at(row - 1, col + 1));
        v.push(self.cell_at(row, col - 1));
        v.push(self.cell_at(row, col + 1));
        v.push(self.cell_at(row + 1, col - 1));
        v.push(self.cell_at(row + 1, col));
        v.push(self.cell_at(row + 1, col + 1));
        Some(v)
    }

    /// Advances the grid by one generation: the classic rule applied to
    /// every strictly interior cell, in row-major order, in place — a
    /// cell's neighbour count sees the already-updated states of cells
    /// earlier in the scan, as `step` spells out.
    pub fn tick(&mut self)
        requires
            old(self).wf(),
        ensures
            final(self).wf(),
            final(self)@ == step(old(self)@),
    {
        let rows = self.dimensions.rows;
        let cols = self.dimensions.cols;
        let ghost g0 = self@;
        let mut row: usize = 1;
        while row < rows - 1
            invariant
                self.wf(),
                self.dimensions.rows == rows,
                self.dimensions.cols == cols,
                1 <= row,
                step_from(self@, rows as int, cols as int, row as int, 1) == step_from(
                    g0,
                    rows as int,
                    cols as int,
                    1,
                    1,
                ),
            decreases rows - row,
        {
            let mut col: usize = 1;
            while col < cols - 1
                invariant
                    self.wf(),
                    self.dimensions.rows == rows,
                    self.dimensions.cols == cols,
                    1 <= row,
                    (row as int) < rows as int - 1,
                    1 <= col,
                    step_from(self@, rows as int, cols as int, row as int, col as int)
                        == step_from(g0, rows as int, cols as int, 1, 1),
                decreases cols - col,
            {
                let ghost g_before = self@;
                let neighbours = self.get_neighbours_of(row, col).unwrap();
                let mut n: usize = 0;
                if neighbours[0].isAlive() {
                    n = n + 1;
                }
                if neighbours[1].isAlive() {
                    n = n + 1;
                }
                if neighbours[2].isAlive() {
                    n = n + 1;
                }
                if neighbours[3].isAlive() {
                    n = n + 1;
                }
                if neighbours[4].isAlive() {
                    n = n + 1;
                }
                if neighbours[5].isAlive() {
                    n = n + 1;
                }
                if neighbours[6].isAlive() {
                    n = n + 1;
                }
                if neighbours[7].isAlive() {
                    n = n + 1;
                }
                proof {
                    assert(n as int == neighbour_count(g_before, row as int, col as int));
                }
                let mut cell = self.cell_at(row, col);
                let alive = cell.isAlive();
                if alive && (n <= 1 || n >= 4) {
                    cell.kill();
                    self.set_cell(row, col, cell);
                } else if !alive && n == 3 {
                    cell.reproduce();
                    self.set_cell(row, col, cell);
                }
                proof {
                    assert(self@ =~~= step_cell(g_before, row as int, col as int));
                }
                col = col + 1;
            }
            row = row + 1;
        }
    }
}

} // verus!
