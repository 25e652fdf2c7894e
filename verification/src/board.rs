//! The board: grid state, cell addressing and the generation step.

use vstd::prelude::*;

use crate::errors::ConwayError;
use crate::rules::cell_index;
use crate::rules::clamped_delta;
use crate::rules::delta_upto;
use crate::rules::lemma_cell_index_bounds;
use crate::rules::lemma_delta_upto_agree;
use crate::rules::lemma_render_index_mono;
use crate::rules::live_at;
use crate::rules::neighbor_count;
use crate::rules::next_cell;
use crate::rules::render_index;
use crate::rules::steps_to;
use vstd::string::StringExecFns;

verus! {

/// A Game-of-Life board: a `row x col` grid of cells stored as a flat
/// boolean vector in row-major order, `false` for dead and `true` for live.
#[derive(Debug)]
pub struct Conway {
    pub board: Vec<bool>,
    pub row: i32,
    pub col: i32,
}

/// A `(row, col)` cell position.
#[derive(Debug, Clone, Copy, PartialEq, Eq, Structural)]
pub struct Coordinates {
    pub row: i32,
    pub col: i32,
}

/// `c` addresses a cell of a `rows x cols` grid.
pub open spec fn coord_in_grid(c: Coordinates, rows: int, cols: int) -> bool {
    0 <= c.row < rows && 0 <= c.col < cols
}

/// Cell `i` is named by one of the first `k` coordinates in `cs`.
pub open spec fn marked_below(cs: Seq<Coordinates>, cols: int, i: int, k: int) -> bool {
    exists|j: int|
        0 <= j < k && j < cs.len() && cell_index(cs[j].row as int, cs[j].col as int, cols) == i
}

impl Conway {
    /// The board invariant: non-negative dimensions, a cell vector of
    /// exactly `row * col` entries, and a cell count a machine integer holds.
    pub open spec fn well_formed(&self) -> bool {
        &&& 0 <= self.row
        &&& 0 <= self.col
        &&& self.board@.len() == self.row * self.col
        &&& self.row * self.col <= i32::MAX
    }

    /// Builds a board of `c.row` rows and `c.col` columns with every cell
    /// dead.
    pub fn new(c: Coordinates) -> (b: Conway)
        requires
            0 <= c.row,
            0 <= c.col,
            c.row * c.col <= i32::MAX,
        ensures
            b.well_formed(),
            b.row == c.row,
            b.col == c.col,
            forall|i: int| 0 <= i < b.board@.len() ==> !b.board@[i],
    {
        proof {
            assert(0 <= c.row * c.col) by (nonlinear_arith)
                requires
                    0 <= c.row,
                    0 <= c.col,
            ;
        }
        let total = (c.row * c.col) as usize;
        let mut cells: Vec<bool> = Vec::new();
        while cells.len() < total
            invariant
                cells@.len() <= total,
                forall|i: int| 0 <= i < cells@.len() ==> !cells@[i],
            decreases total - cells@.len(),
        {
            cells.push(false);
        }
        Conway { board: cells, row: c.row, col: c.col }
    }

    /// Live-neighbour count of the cell with flat index `cell` in the
    /// snapshot `reader` of a `row_max x col_max` grid: the number of live
    /// cells among the at most eight adjacent positions inside the grid,
    /// with no wraparound at the edges.
    pub fn find_neighbours(cell: i32, reader: &[bool], row_max: i32, col_max: i32) -> (n: i32)
        requires
            0 <= row_max,
            0 <= col_max,
            row_max * col_max <= i32::MAX,
            reader@.len() == row_max * col_max,
            0 <= cell < row_max * col_max,
        ensures
            n == neighbor_count(
                reader@,
                row_max as int,
                col_max as int,
                cell as int / col_max as int,
                cell as int % col_max as int,
            ),
            0 <= n <= 8,
    {
        proof {
            assert(1 <= row_max && 1 <= col_max) by (nonlinear_arith)
                requires
                    0 <= row_max,
                    0 <= col_max,
                    0 <= cell < row_max * col_max,
            ;
        }
        let row: i32 = cell / col_max;
        let col: i32 = cell % col_max;
        proof {
            vstd::arithmetic::div_mod::lemma_fundamental_div_mod(cell as int, col_max as int);
            vstd::arithmetic::div_mod::lemma_mod_division_less_than_divisor(
                cell as int,
                col_max as int,
            );
            assert(0 <= row < row_max) by (nonlinear_arith)
                requires
                    cell == col_max * row + col,
                    0 <= col < col_max,
                    0 <= cell < row_max * col_max,
            ;
        }
        let mut counter: i32 = 0;
        if Conway::is_live(reader, row_max, col_max, row - 1, col - 1) {
            counter += 1;
        }
        if Conway::is_live(reader, row_max, col_max, row - 1, col) {
            counter += 1;
        }
        if Conway::is_live(reader, row_max, col_max, row - 1, col + 1) {
            counter += 1;
        }
        if Conway::is_live(reader, row_max, col_max, row, col - 1) {
            counter += 1;
        }
        if Conway::is_live(reader, row_max, col_max, row, col + 1) {
            counter += 1;
        }
        if Conway::is_live(reader, row_max, col_max, row + 1, col - 1) {
            counter += 1;
        }
        if Conway::is_live(reader, row_max, col_max, row + 1, col) {
            counter += 1;
        }
        if Conway::is_live(reader, row_max, col_max, row + 1, col + 1) {
            counter += 1;
        }
        counter
    }

    /// Marks every cell named in `coords` as alive. If any coordinate lies
    /// outside the grid, the whole batch is rejected with `OutOfRange` and
    /// the board is left unchanged.
    pub fn make_alive(&mut self, coords: Vec<Coordinates>) -> (res: Result<(), ConwayError>)
        requires
            old(self).well_formed(),
        ensures
            final(self).well_formed(),
            final(self).row == old(self).row,
            final(self).col == old(self).col,
            res is Ok <==> (forall|j: int|
                0 <= j < coords@.len() ==> coord_in_grid(
                    coords@[j],
                    old(self).row as int,
                    old(self).col as int,
                )),
            res is Ok ==> final(self).board@.len() == old(self).board@.len() && (forall|i: int|
                0 <= i < old(self).board@.len() ==> final(self).board@[i] == (old(self).board@[i]
                    || marked_below(
                    coords@,
                    old(self).col as int,
                    i,
                    coords@.len() as int,
                ))),
            res is Err ==> res == Err::<(), ConwayError>(ConwayError::OutOfRange) && *final(self)
                == *old(self),
    {
        let rows = self.row;
        let cols = self.col;
        let mut k: usize = 0;
        while k < coords.len()
            invariant
                k <= coords@.len(),
                *self == *old(self),
                self.well_formed(),
                rows == self.row,
                cols == self.col,
                forall|j: int|
                    0 <= j < k ==> coord_in_grid(coords@[j], rows as int, cols as int),
            decreases coords@.len() - k,
        {
            let c = coords[k];
            if c.row < 0 || c.row >= rows || c.col < 0 || c.col >= cols {
                return Err(ConwayError::OutOfRange);
            }
            k += 1;
        }
        let total = self.board.len();
        let mut k: usize = 0;
        while k < coords.len()
            invariant
                k <= coords@.len(),
                forall|j: int|
                    0 <= j < coords@.len() ==> coord_in_grid(coords@[j], rows as int, cols as int),
                self.row == rows,
                self.col == cols,
                self.well_formed(),
                self.board@.len() == total,
                old(self).board@.len() == total,
                forall|i: int|
                    0 <= i < total ==> self.board@[i] == (old(self).board@[i] || marked_below(
                        coords@,
                        cols as int,
                        i,
                        k as int,
                    )),
            decreases coords@.len() - k,
        {
            let c = coords[k];
            proof {
                lemma_cell_index_bounds(rows as int, cols as int, c.row as int, c.col as int);
            }
            let idx = (c.row * cols + c.col) as usize;
            self.board[idx] = true;
            proof {
                assert forall|i: int|
                    0 <= i < total implies self.board@[i] == (old(self).board@[i] || marked_below(
                        coords@,
                        cols as int,
                        i,
                        k as int + 1,
                    )) by {
                    if i == idx as int {
                        assert(marked_below(coords@, cols as int, i, k as int + 1)) by {
                            assert(cell_index(
                                coords@[k as int].row as int,
                                coords@[k as int].col as int,
                                cols as int,
                            ) == i);
                        }
                    } else {
                        assert(marked_below(coords@, cols as int, i, k as int + 1) == marked_below(
                            coords@,
                            cols as int,
                            i,
                            k as int,
                        )) by {
                            if marked_below(coords@, cols as int, i, k as int + 1) {
                                let j = choose|j: int|
                                    0 <= j < k as int + 1 && j < coords@.len() && cell_index(
                                        coords@[j].row as int,
                                        coords@[j].col as int,
                                        cols as int,
                                    ) == i;
                                assert(j < k as int);
                            }
                        }
                    }
                }
            }
            k += 1;
        }
        Ok(())
    }

    /// Computes and applies exactly one generation: every cell of the new
    /// grid is the rule applied to the old grid, and the returned value is
    /// the number of births minus the number of deaths, clamped to zero.
    pub fn next_state(&mut self) -> (delta: i32)
        requires
            old(self).well_formed(),
        ensures
            final(self).well_formed(),
            final(self).row == old(self).row,
            final(self).col == old(self).col,
            steps_to(
                old(self).board@,
                final(self).board@,
                old(self).row as int,
                old(self).col as int,
            ),
            delta == clamped_delta(old(self).board@, final(self).board@),
    {
        let rows = self.row;
        let cols = self.col;
        let max = rows * cols;
        let snapshot = clone_cells(&self.board);
        let mut cell: i32 = 0;
        let mut changed: i32 = 0;
        while cell < max
            invariant
                self.row == rows,
                self.col == cols,
                0 <= rows,
                0 <= cols,
                max == rows * cols,
                max <= i32::MAX,
                0 <= cell <= max,
                snapshot@ == old(self).board@,
                snapshot@.len() == max,
                self.board@.len() == max,
                forall|j: int|
                    0 <= j < cell ==> self.board@[j] == next_cell(
                        snapshot@[j],
                        neighbor_count(
                            snapshot@,
                            rows as int,
                            cols as int,
                            j / cols as int,
                            j % cols as int,
                        ),
                    ),
                forall|j: int| cell <= j < max ==> self.board@[j] == snapshot@[j],
                changed == delta_upto(snapshot@, self.board@, cell as int),
                -cell <= changed <= cell,
            decreases max - cell,
        {
            let n = Conway::find_neighbours(cell, snapshot.as_slice(), rows, cols);
            let idx = cell as usize;
            let alive = snapshot[idx];
            let next = if alive {
                n == 2 || n == 3
            } else {
                n == 3
            };
            let ghost before = self.board@;
            if next != alive {
                self.board[idx] = next;
                if next {
                    changed += 1;
                } else {
                    changed -= 1;
                }
            }
            proof {
                lemma_delta_upto_agree(snapshot@, before, self.board@, cell as int);
                assert(delta_upto(snapshot@, self.board@, cell as int + 1) == delta_upto(
                    snapshot@,
                    self.board@,
                    cell as int,
                ) + if self.board@[cell as int] && !snapshot@[cell as int] {
                    1int
                } else if snapshot@[cell as int] && !self.board@[cell as int] {
                    -1int
                } else {
                    0int
                });
            }
            cell += 1;
        }
        if changed < 0 {
            0
        } else {
            changed
        }
    }

    /// Whether position `(r, c)` holds a live cell; positions outside the
    /// grid are dead.
    fn is_live(reader: &[bool], row_max: i32, col_max: i32, r: i32, c: i32) -> (res: bool)
        requires
            0 <= row_max,
            0 <= col_max,
            row_max * col_max <= i32::MAX,
            reader@.len() == row_max * col_max,
            -1 <= r <= row_max,
            -1 <= c <= col_max,
        ensures
            res == live_at(reader@, row_max as int, col_max as int, r as int, c as int),
    {
        if r < 0 || r >= row_max || c < 0 || c >= col_max {
            false
        } else {
            proof {
                lemma_cell_index_bounds(row_max as int, col_max as int, r as int, c as int);
            }
            reader[(r * col_max + c) as usize]
        }
    }

    /// Serialises the grid to text: one character per cell, `'#'` for live
    /// and `'.'` for dead, every row of cells followed by a newline.
    pub fn render(&self) -> (out: String)
        requires
            self.well_formed(),
        ensures
            out@.len() == self.row * (self.col + 1),
            forall|r: int, c: int|
                0 <= r < self.row && 0 <= c < self.col ==> out@[render_index(
                    r,
                    c,
                    self.col as int,
                )] == (if self.board@[cell_index(r, c, self.col as int)] {
                    '#'
                } else {
                    '.'
                }),
            forall|r: int|
                0 <= r < self.row ==> out@[render_index(r, self.col as int, self.col as int)]
                    == '\n',
    {
        let rows = self.row;
        let cols = self.col;
        let mut out = String::new();
        proof {
            reveal_strlit("#");
            reveal_strlit(".");
            reveal_strlit("\n");
        }
        let mut r: i32 = 0;
        while r < rows
            invariant
                self.well_formed(),
                rows == self.row,
                cols == self.col,
                0 <= r <= rows,
                out@.len() == r * (cols + 1),
                forall|r2: int, c2: int|
                    0 <= r2 < r && 0 <= c2 < cols ==> out@[render_index(r2, c2, cols as int)] == (
                    if self.board@[cell_index(r2, c2, cols as int)] {
                        '#'
                    } else {
                        '.'
                    }),
                forall|r2: int|
                    0 <= r2 < r ==> out@[render_index(r2, cols as int, cols as int)] == '\n',
            decreases rows - r,
        {
            let mut c: i32 = 0;
            while c < cols
                invariant
                    self.well_formed(),
                    rows == self.row,
                    cols == self.col,
                    0 <= r < rows,
                    0 <= c <= cols,
                    out@.len() == r * (cols + 1) + c,
                    forall|r2: int, c2: int|
                        0 <= r2 < r && 0 <= c2 < cols ==> out@[render_index(r2, c2, cols as int)]
                            == (if self.board@[cell_index(r2, c2, cols as int)] {
                            '#'
                        } else {
                            '.'
                        }),
                    forall|r2: int|
                        0 <= r2 < r ==> out@[render_index(r2, cols as int, cols as int)] == '\n',
                    forall|c2: int|
                        0 <= c2 < c ==> out@[render_index(r as int, c2, cols as int)] == (
                        if self.board@[cell_index(r as int, c2, cols as int)] {
                            '#'
                        } else {
                            '.'
                        }),
                decreases cols - c,
            {
                proof {
                    reveal_strlit("#");
                    reveal_strlit(".");
                }
                let ghost before = out@;
                if self.cell(r, c) {
                    out.append("#");
                } else {
                    out.append(".");
                }
                proof {
                    assert(out@.len() == before.len() + 1);
                    assert forall|r2: int, c2: int|
                        0 <= r2 < r && 0 <= c2 <= cols implies render_index(r2, c2, cols as int)
                        < before.len() by {
                        lemma_render_index_mono(r2, c2, r as int, cols as int);
                    }
                    assert(out@[render_index(r as int, c as int, cols as int)] == (
                    if self.board@[cell_index(r as int, c as int, cols as int)] {
                        '#'
                    } else {
                        '.'
                    }));
                }
                c += 1;
            }
            proof {
                reveal_strlit("\n");
            }
            let ghost before = out@;
            out.append("\n");
            proof {
                assert(out@.len() == before.len() + 1);
                assert forall|r2: int, c2: int|
                    0 <= r2 < r && 0 <= c2 <= cols implies render_index(r2, c2, cols as int)
                    < before.len() by {
                    lemma_render_index_mono(r2, c2, r as int, cols as int);
                }
                assert(out@[render_index(r as int, cols as int, cols as int)] == '\n');
                assert((r + 1) * (cols + 1) == r * (cols + 1) + (cols + 1)) by (nonlinear_arith);
            }
            r += 1;
        }
        out
    }

    /// Reads the cell at `(r, c)`.
    pub fn cell(&self, r: i32, c: i32) -> (res: bool)
        requires
            self.well_formed(),
            0 <= r < self.row,
            0 <= c < self.col,
        ensures
            res == self.board@[cell_index(r as int, c as int, self.col as int)],
    {
        proof {
            lemma_cell_index_bounds(self.row as int, self.col as int, r as int, c as int);
        }
        self.board[(r * self.col + c) as usize]
    }
}

/// An element-for-element copy of a cell vector: the read-only snapshot a
/// generation step computes from.
pub fn clone_cells(cells: &Vec<bool>) -> (out: Vec<bool>)
    ensures
        out@ == cells@,
{
    let mut out: Vec<bool> = Vec::new();
    let mut i: usize = 0;
    while i < cells.len()
        invariant
            i <= cells@.len(),
            out@.len() == i,
            forall|j: int| 0 <= j < i ==> out@[j] == cells@[j],
        decreases cells@.len() - i,
    {
        out.push(cells[i]);
        i += 1;
    }
    proof {
        assert(out@ =~= cells@);
    }
    out
}

} // verus!
