//! The Game-of-Life transition rule, stated mathematically.
//!
//! A grid of `rows * cols` cells is modelled as a `Seq<bool>` in row-major
//! order: the cell at row `r`, column `c` sits at index `r * cols + c`.

use vstd::prelude::*;

verus! {

/// Row-major flat index of the cell at row `r`, column `c`.
pub open spec fn cell_index(r: int, c: int, cols: int) -> int {
    r * cols + c
}

/// True when `(r, c)` lies inside a `rows x cols` grid and the cell there is
/// live. Positions outside the grid count as dead: there is no wraparound.
pub open spec fn live_at(b: Seq<bool>, rows: int, cols: int, r: int, c: int) -> bool {
    0 <= r < rows && 0 <= c < cols && b[cell_index(r, c, cols)]
}

pub open spec fn one_if(b: bool) -> int {
    if b {
        1
    } else {
        0
    }
}

/// Number of live cells among the Moore neighbours of `(r, c)`: the at most
/// eight adjacent positions (diagonals included) that lie inside the grid.
pub open spec fn neighbor_count(b: Seq<bool>, rows: int, cols: int, r: int, c: int) -> int {
    one_if(live_at(b, rows, cols, r - 1, c - 1)) + one_if(live_at(b, rows, cols, r - 1, c))
        + one_if(live_at(b, rows, cols, r - 1, c + 1)) + one_if(live_at(b, rows, cols, r, c - 1))
        + one_if(live_at(b, rows, cols, r, c + 1)) + one_if(live_at(b, rows, cols, r + 1, c - 1))
        + one_if(live_at(b, rows, cols, r + 1, c)) + one_if(live_at(b, rows, cols, r + 1, c + 1))
}

/// The standard rule: a live cell survives exactly when it has 2 or 3 live
/// neighbours; a dead cell is born exactly when it has 3.
pub open spec fn next_cell(alive: bool, n: int) -> bool {
    if alive {
        n == 2 || n == 3
    } else {
        n == 3
    }
}

/// `post` is the grid obtained from `pre` by one full generation step.
pub open spec fn steps_to(pre: Seq<bool>, post: Seq<bool>, rows: int, cols: int) -> bool {
    &&& post.len() == pre.len()
    &&& forall|i: int|
        0 <= i < pre.len() ==> post[i] == next_cell(
            pre[i],
            neighbor_count(pre, rows, cols, i / cols, i % cols),
        )
}

/// A still life: a configuration that maps to itself under one transition.
pub open spec fn still_life(b: Seq<bool>, rows: int, cols: int) -> bool {
    steps_to(b, b, rows, cols)
}

/// Net population change over the first `n` cells: +1 for each birth
/// (dead in `a`, live in `b`), -1 for each death (live in `a`, dead in `b`).
pub open spec fn delta_upto(a: Seq<bool>, b: Seq<bool>, n: int) -> int
    decreases n,
{
    if n <= 0 {
        0
    } else {
        delta_upto(a, b, n - 1) + if b[n - 1] && !a[n - 1] {
            1int
        } else if a[n - 1] && !b[n - 1] {
            -1int
        } else {
            0int
        }
    }
}

/// The value a full generation step reports: the net population change over
/// the whole grid, clamped to zero as a floor.
pub open spec fn clamped_delta(a: Seq<bool>, b: Seq<bool>) -> int {
    if delta_upto(a, b, a.len() as int) >= 0 {
        delta_upto(a, b, a.len() as int)
    } else {
        0
    }
}

/// Position of the character for cell `(r, c)` in the printed form of the
/// grid, where every row takes `cols` cell characters plus a newline.
pub open spec fn render_index(r: int, c: int, cols: int) -> int {
    r * (cols + 1) + c
}

/// Characters of earlier rows stand strictly before the characters of row
/// `r` in the printed form.
pub proof fn lemma_render_index_mono(r2: int, c2: int, r: int, cols: int)
    by (nonlinear_arith)
    requires
        0 <= c2 <= cols,
        0 <= r2 < r,
    ensures
        0 <= render_index(r2, c2, cols) < r * (cols + 1),
{
}

/// A cell of a `rows x cols` grid has a flat index inside the grid.
pub proof fn lemma_cell_index_bounds(rows: int, cols: int, r: int, c: int)
    by (nonlinear_arith)
    requires
        0 <= r < rows,
        0 <= c < cols,
    ensures
        0 <= r * cols,
        0 <= cell_index(r, c, cols) < rows * cols,
{
}

/// In a generation step, the cell at `(r, c)` is decided by the rule applied
/// to its own state and its live-neighbour count in the old grid.
pub proof fn lemma_step_at_cell(pre: Seq<bool>, post: Seq<bool>, rows: int, cols: int, r: int, c: int)
    requires
        steps_to(pre, post, rows, cols),
        pre.len() == rows * cols,
        0 <= r < rows,
        0 <= c < cols,
    ensures
        post[cell_index(r, c, cols)] == next_cell(
            pre[cell_index(r, c, cols)],
            neighbor_count(pre, rows, cols, r, c),
        ),
{
    lemma_cell_index_bounds(rows, cols, r, c);
    let i = cell_index(r, c, cols);
    vstd::arithmetic::div_mod::lemma_fundamental_div_mod_converse_div(i, cols, r, c);
    vstd::arithmetic::div_mod::lemma_fundamental_div_mod_converse_mod(i, cols, r, c);
}

/// Underpopulation: a live cell with fewer than 2 live neighbours always
/// dies on the next transition.
pub proof fn lemma_underpopulation(pre: Seq<bool>, post: Seq<bool>, rows: int, cols: int, r: int, c: int)
    requires
        steps_to(pre, post, rows, cols),
        pre.len() == rows * cols,
        0 <= r < rows,
        0 <= c < cols,
        pre[cell_index(r, c, cols)],
        neighbor_count(pre, rows, cols, r, c) < 2,
    ensures
        !post[cell_index(r, c, cols)],
{
    lemma_step_at_cell(pre, post, rows, cols, r, c);
}

/// Survival and overpopulation: a live cell survives the transition exactly
/// when it has 2 or 3 live neighbours; with 4 or more (or fewer than 2) it
/// dies.
pub proof fn lemma_survival(pre: Seq<bool>, post: Seq<bool>, rows: int, cols: int, r: int, c: int)
    requires
        steps_to(pre, post, rows, cols),
        pre.len() == rows * cols,
        0 <= r < rows,
        0 <= c < cols,
        pre[cell_index(r, c, cols)],
    ensures
        post[cell_index(r, c, cols)] <==> (2 <= neighbor_count(pre, rows, cols, r, c)
            && neighbor_count(pre, rows, cols, r, c) <= 3),
{
    lemma_step_at_cell(pre, post, rows, cols, r, c);
}

/// Birth: a dead cell becomes alive on the transition exactly when it has 3
/// live neighbours; with any other count it stays dead.
pub proof fn lemma_birth(pre: Seq<bool>, post: Seq<bool>, rows: int, cols: int, r: int, c: int)
    requires
        steps_to(pre, post, rows, cols),
        pre.len() == rows * cols,
        0 <= r < rows,
        0 <= c < cols,
        !pre[cell_index(r, c, cols)],
    ensures
        post[cell_index(r, c, cols)] <==> neighbor_count(pre, rows, cols, r, c) == 3,
{
    lemma_step_at_cell(pre, post, rows, cols, r, c);
}

/// A corner cell counts no wrapped-around neighbour: at `(0, 0)` only the
/// three in-grid positions `(0,1)`, `(1,0)` and `(1,1)` can contribute, so
/// the count never reaches the 8 a wraparound would allow.
pub proof fn lemma_corner_no_wraparound(b: Seq<bool>, rows: int, cols: int)
    ensures
        neighbor_count(b, rows, cols, 0, 0) <= 3,
{
}

/// An edge cell counts no wrapped-around neighbour either: a cell on the
/// grid boundary sees at most 5 in-grid neighbours, never the 8 an interior
/// cell can.
pub proof fn lemma_edge_no_wraparound(b: Seq<bool>, rows: int, cols: int, r: int, c: int)
    requires
        0 <= r < rows,
        0 <= c < cols,
        r == 0 || r == rows - 1 || c == 0 || c == cols - 1,
    ensures
        neighbor_count(b, rows, cols, r, c) <= 5,
{
}

/// Comparing a grid with itself yields no population change.
pub proof fn lemma_delta_upto_same(a: Seq<bool>, n: int)
    ensures
        delta_upto(a, a, n) == 0,
    decreases n,
{
    if n > 0 {
        lemma_delta_upto_same(a, n - 1);
    }
}

/// `delta_upto` reads only the first `n` cells of its second argument.
pub proof fn lemma_delta_upto_agree(a: Seq<bool>, b1: Seq<bool>, b2: Seq<bool>, n: int)
    requires
        forall|i: int| 0 <= i < n ==> b1[i] == b2[i],
    ensures
        delta_upto(a, b1, n) == delta_upto(a, b2, n),
    decreases n,
{
    if n > 0 {
        lemma_delta_upto_agree(a, b1, b2, n - 1);
    }
}

/// Round trip through one generation of a still life: whatever state it
/// steps to is the state itself, so once a still life is among the tracked
/// snapshots, the state after the next transition is a repeat.
pub proof fn lemma_still_life_repeat(
    seen: Seq<Seq<bool>>,
    b: Seq<bool>,
    b2: Seq<bool>,
    rows: int,
    cols: int,
)
    requires
        still_life(b, rows, cols),
        steps_to(b, b2, rows, cols),
        exists|j: int| 0 <= j < seen.len() && seen[j] == b,
    ensures
        b2 == b,
        exists|j: int| 0 <= j < seen.len() && seen[j] == b2,
{
    assert(b2 =~= b);
}

/// A grid with no live cells is a fixed point of the transition: one
/// generation step leaves it unchanged and reports a net change of 0.
pub proof fn lemma_empty_grid_fixed(b: Seq<bool>, b2: Seq<bool>, rows: int, cols: int)
    requires
        0 <= rows,
        0 <= cols,
        b.len() == rows * cols,
        forall|i: int| 0 <= i < b.len() ==> !b[i],
        steps_to(b, b2, rows, cols),
    ensures
        b2 == b,
        clamped_delta(b, b2) == 0,
{
    assert forall|r: int, c: int| !live_at(b, rows, cols, r, c) by {
        if 0 <= r < rows && 0 <= c < cols {
            lemma_cell_index_bounds(rows, cols, r, c);
        }
    }
    assert(b2 =~= b);
    lemma_delta_upto_same(b, b.len() as int);
}

} // verus!
