use vstd::prelude::*;
use vstd::string::StringExecFns;

use crate::grid::Grid;
use crate::grid::cols_of;
use crate::grid::rect;

verus! {

/// The decimal digit `d` as a one-character text.
pub open spec fn digit_text(d: int) -> Seq<char> {
    if d == 0 {
        "0"@
    } else if d == 1 {
        "1"@
    } else if d == 2 {
        "2"@
    } else if d == 3 {
        "3"@
    } else if d == 4 {
        "4"@
    } else if d == 5 {
        "5"@
    } else if d == 6 {
        "6"@
    } else if d == 7 {
        "7"@
    } else if d == 8 {
        "8"@
    } else {
        "9"@
    }
}

/// The decimal numeral of `n`, most significant digit first.
pub open spec fn decimal_text(n: nat) -> Seq<char>
    decreases n,
{
    if n < 10 {
        digit_text(n as int)
    } else {
        decimal_text(n / 10) + digit_text((n % 10) as int)
    }
}

/// The text of one cell: its digit and the space that separates it from
/// the next token.
pub open spec fn cell_text(alive: bool) -> Seq<char> {
    if alive {
        "1 "@
    } else {
        "0 "@
    }
}

/// The tokens of one row, left to right.
pub open spec fn row_cells_text(row: Seq<bool>) -> Seq<char>
    decreases row.len(),
{
    if row.len() == 0 {
        Seq::empty()
    } else {
        row_cells_text(row.drop_last()) + cell_text(row.last())
    }
}

/// One rendered row: its tokens followed by a line break.
pub open spec fn row_text(row: Seq<bool>) -> Seq<char> {
    row_cells_text(row) + "\n"@
}

/// The rendered rows of the grid, first to last.
pub open spec fn rows_text(g: Seq<Seq<bool>>) -> Seq<char>
    decreases g.len(),
{
    if g.len() == 0 {
        Seq::empty()
    } else {
        rows_text(g.drop_last()) + row_text(g.last())
    }
}

/// The header block: a line naming the dimensions, then the opening
/// separator line.
pub open spec fn header_text(rows: nat, cols: nat) -> Seq<char> {
    "Grid of size ("@ + decimal_text(rows) + ", "@ + decimal_text(cols) + ")\n ----\n"@
}

/// The full rendering of a grid state: header, one line per row, and
/// the trailing separator line.
pub open spec fn grid_text(g: Seq<Seq<bool>>) -> Seq<char> {
    header_text(g.len(), cols_of(g) as nat) + rows_text(g) + "------\n"@
}

/// Appending the next cell extends the row's tokens by that cell's.
proof fn lemma_row_cells_text_snoc(row: Seq<bool>, c: int)
    requires
        0 <= c < row.len(),
    ensures
        row_cells_text(row.take(c + 1)) == row_cells_text(row.take(c)) + cell_text(row[c]),
{
    assert(row.take(c + 1).drop_last() =~= row.take(c));
}

/// Appending the next row extends the rendered rows by that row's line.
proof fn lemma_rows_text_snoc(g: Seq<Seq<bool>>, r: int)
    requires
        0 <= r < g.len(),
    ensures
        rows_text(g.take(r + 1)) == rows_text(g.take(r)) + row_text(g[r]),
{
    assert(g.take(r + 1).drop_last() =~= g.take(r));
}

/// Appends the decimal numeral of `n` to `s`.
fn push_decimal(s: &mut String, n: usize)
    ensures
        final(s)@ == old(s)@ + decimal_text(n as nat),
    decreases n,
{
    if n >= 10 {
        push_decimal(s, n / 10);
    }
    let d = n % 10;
    let t: &str = if d == 0 {
        "0"
    } else if d == 1 {
        "1"
    } else if d == 2 {
        "2"
    } else if d == 3 {
        "3"
    } else if d == 4 {
        "4"
    } else if d == 5 {
        "5"
    } else if d == 6 {
        "6"
    } else if d == 7 {
        "7"
    } else if d == 8 {
        "8"
    } else {
        "9"
    };
    s.append(t);
    proof {
        if n >= 10 {
            assert(old(s)@ + decimal_text((n / 10) as nat) + digit_text(d as int) =~= old(s)@
                + decimal_text(n as nat));
        }
    }
}

impl Grid {
    /// Renders the current state as text: a header stating the
    /// dimensions, one line per row with a `1` token for each live cell
    /// and a `0` token for each dead one, and a trailing separator — a
    /// pure projection that leaves the grid untouched.
    pub fn to_text(&self) -> (s: String)
        requires
            self.wf(),
        ensures
            s@ == grid_text(self@),
    {
        proof {
            self.lemma_view_rect();
        }
        let rows = self.rows();
        let cols = self.cols();
        let mut s = String::new();
        s.append("Grid of size (");
        push_decimal(&mut s, rows);
        s.append(", ");
        push_decimal(&mut s, cols);
        s.append(")\n ----\n");
        proof {
            assert(s@ =~= header_text(rows as nat, cols as nat));
        }
        let ghost header = header_text(rows as nat, cols as nat);
        let mut r: usize = 0;
        while r < rows
            invariant
                self.wf(),
                rows as int == self@.len(),
                cols as int == cols_of(self@),
                rect(self@, rows as int, cols as int),
                header == header_text(rows as nat, cols as nat),
                r <= rows,
                s@ == header + rows_text(self@.take(r as int)),
            decreases rows - r,
        {
            let mut c: usize = 0;
            proof {
                assert(self@[r as int].take(0) =~= Seq::<bool>::empty());
                assert(s@ =~= header + rows_text(self@.take(r as int)) + row_cells_text(
                    self@[r as int].take(0),
                ));
            }
            while c < cols
                invariant
                    self.wf(),
                    rows as int == self@.len(),
                    cols as int == cols_of(self@),
                    rect(self@, rows as int, cols as int),
                    header == header_text(rows as nat, cols as nat),
                    r < rows,
                    c <= cols,
                    s@ == header + rows_text(self@.take(r as int)) + row_cells_text(
                        self@[r as int].take(c as int),
                    ),
                decreases cols - c,
            {
                let alive = self.is_alive_at(r, c);
                if alive {
                    s.append("1 ");
                } else {
                    s.append("0 ");
                }
                proof {
                    lemma_row_cells_text_snoc(self@[r as int], c as int);
                    assert(s@ =~= header + rows_text(self@.take(r as int)) + row_cells_text(
                        self@[r as int].take(c as int + 1),
                    ));
                }
                c = c + 1;
            }
            s.append("\n");
            proof {
                assert(self@[r as int].take(cols as int) =~= self@[r as int]);
                lemma_rows_text_snoc(self@, r as int);
                assert(s@ =~= header + rows_text(self@.take(r as int + 1)));
            }
            r = r + 1;
        }
        s.append("------\n");
        proof {
            assert(self@.take(rows as int) =~= self@);
            assert(s@ =~= grid_text(self@));
        }
        s
    }
}

} // verus!
