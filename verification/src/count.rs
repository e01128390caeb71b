//! Counting the cells of a grid for which a predicate holds, and how a
//! count changes with the grid.

use crate::cell::Cell;
use crate::grid::{inside, rectangular, set_cell, width_of, Grid};
use vstd::prelude::*;

verus! {

/// Cells that hold a bomb.
pub open spec fn with_bomb() -> spec_fn(Cell) -> bool {
    |c: Cell| c.item() is Bomb
}

/// Cells without a bomb that are not yet discovered.
pub open spec fn undiscovered_empty() -> spec_fn(Cell) -> bool {
    |c: Cell| c.item() is Empty && !(c is Discovered)
}

/// Hidden cells without a bomb: not discovered and not pinned.
pub open spec fn hidden_and_empty() -> spec_fn(Cell) -> bool {
    |c: Cell| c.item() is Empty && c is Hidden
}

/// 1 for `true`, 0 for `false`.
pub open spec fn tick(b: bool) -> nat {
    if b {
        1
    } else {
        0
    }
}

/// The number of cells of `row` for which `p` holds.
pub open spec fn count_row(row: Seq<Cell>, p: spec_fn(Cell) -> bool) -> nat
    decreases row.len(),
{
    if row.len() == 0 {
        0
    } else {
        count_row(row.drop_last(), p) + tick(p(row.last()))
    }
}

/// The number of cells of `g` for which `p` holds.
pub open spec fn count_grid(g: Grid, p: spec_fn(Cell) -> bool) -> nat
    decreases g.len(),
{
    if g.len() == 0 {
        0
    } else {
        count_grid(g.drop_last(), p) + count_row(g.last(), p)
    }
}

/// Replacing one cell of a row changes the count by what the old and the
/// new cell contribute.
pub proof fn lemma_count_row_update(row: Seq<Cell>, i: int, c: Cell, p: spec_fn(Cell) -> bool)
    requires
        0 <= i < row.len(),
    ensures
        count_row(row.update(i, c), p) == count_row(row, p) - tick(p(row[i])) + tick(p(c)),
    decreases row.len(),
{
    let after = row.update(i, c);
    if i == row.len() - 1 {
        assert(after.drop_last() =~= row.drop_last());
    } else {
        assert(after.drop_last() =~= row.drop_last().update(i, c));
        lemma_count_row_update(row.drop_last(), i, c, p);
    }
}

/// Replacing one row of a grid changes the count by what the old and the
/// new row contribute.
pub proof fn lemma_count_grid_update(g: Grid, y: int, row: Seq<Cell>, p: spec_fn(Cell) -> bool)
    requires
        0 <= y < g.len(),
    ensures
        count_grid(g.update(y, row), p) == count_grid(g, p) - count_row(g[y], p)
            + count_row(row, p),
    decreases g.len(),
{
    let after = g.update(y, row);
    if y == g.len() - 1 {
        assert(after.drop_last() =~= g.drop_last());
    } else {
        assert(after.drop_last() =~= g.drop_last().update(y, row));
        lemma_count_grid_update(g.drop_last(), y, row, p);
    }
}

/// Replacing one cell of a grid changes the count by what the old and the
/// new cell contribute.
pub proof fn lemma_count_set_cell(g: Grid, x: int, y: int, c: Cell, p: spec_fn(Cell) -> bool)
    requires
        inside(g, x, y),
    ensures
        count_grid(set_cell(g, x, y, c), p) == count_grid(g, p) - tick(p(g[y][x])) + tick(p(c)),
{
    lemma_count_row_update(g[y], x, c, p);
    lemma_count_grid_update(g, y, g[y].update(x, c), p);
}

/// Rows that agree on `p` cell by cell have the same count.
pub proof fn lemma_count_row_same(a: Seq<Cell>, b: Seq<Cell>, p: spec_fn(Cell) -> bool)
    requires
        a.len() == b.len(),
        forall|i: int| 0 <= i < a.len() ==> p(#[trigger] a[i]) == p(b[i]),
    ensures
        count_row(a, p) == count_row(b, p),
    decreases a.len(),
{
    if a.len() > 0 {
        lemma_count_row_same(a.drop_last(), b.drop_last(), p);
    }
}

/// Grids of one shape that agree on `p` cell by cell have the same count.
pub proof fn lemma_count_grid_same(a: Grid, b: Grid, p: spec_fn(Cell) -> bool)
    requires
        a.len() == b.len(),
        forall|y: int| 0 <= y < a.len() ==> (#[trigger] a[y]).len() == b[y].len(),
        forall|x: int, y: int| inside(a, x, y) ==> p(#[trigger] a[y][x]) == p(b[y][x]),
    ensures
        count_grid(a, p) == count_grid(b, p),
    decreases a.len(),
{
    if a.len() > 0 {
        let y = a.len() - 1;
        let above_a = a.drop_last();
        let above_b = b.drop_last();
        lemma_count_row_same(a[y], b[y], p);
        lemma_count_grid_same(above_a, above_b, p);
    }
}

/// Where `q` holds of every cell of a row of which `p` holds, the count
/// for `p` is no higher than the count for `q`.
pub proof fn lemma_count_row_le(row: Seq<Cell>, p: spec_fn(Cell) -> bool, q: spec_fn(Cell) -> bool)
    requires
        forall|c: Cell| #[trigger] p(c) ==> q(c),
    ensures
        count_row(row, p) <= count_row(row, q),
    decreases row.len(),
{
    if row.len() > 0 {
        lemma_count_row_le(row.drop_last(), p, q);
    }
}

/// Where `q` holds of every cell of which `p` holds, the count for `p` is
/// no higher than the count for `q`.
pub proof fn lemma_count_grid_le(g: Grid, p: spec_fn(Cell) -> bool, q: spec_fn(Cell) -> bool)
    requires
        forall|c: Cell| #[trigger] p(c) ==> q(c),
    ensures
        count_grid(g, p) <= count_grid(g, q),
    decreases g.len(),
{
    if g.len() > 0 {
        lemma_count_grid_le(g.drop_last(), p, q);
        lemma_count_row_le(g.last(), p, q);
    }
}

/// A count over a row lies between 0, reached only where `p` holds of no
/// cell, and the row's length, reached only where `p` holds of every cell.
pub proof fn lemma_count_row_range(row: Seq<Cell>, p: spec_fn(Cell) -> bool)
    ensures
        count_row(row, p) <= row.len(),
        count_row(row, p) == 0 <==> forall|i: int| 0 <= i < row.len() ==> !p(#[trigger] row[i]),
        count_row(row, p) == row.len() <==> forall|i: int|
            0 <= i < row.len() ==> p(#[trigger] row[i]),
    decreases row.len(),
{
    if row.len() > 0 {
        let front = row.drop_last();
        let last = row.len() - 1;
        lemma_count_row_range(front, p);
        if forall|i: int| 0 <= i < front.len() ==> !p(#[trigger] front[i]) {
            assert forall|i: int| 0 <= i < last implies !p(#[trigger] row[i]) by {
                assert(!p(front[i]));
            }
        }
        if forall|i: int| 0 <= i < front.len() ==> p(#[trigger] front[i]) {
            assert forall|i: int| 0 <= i < last implies p(#[trigger] row[i]) by {
                assert(p(front[i]));
            }
        }
    }
}

/// A count over a rectangular grid lies between 0, reached only where `p`
/// holds of no cell, and the number of cells, reached only where `p` holds
/// of every cell.
pub proof fn lemma_count_grid_range(g: Grid, p: spec_fn(Cell) -> bool)
    requires
        rectangular(g),
    ensures
        count_grid(g, p) <= g.len() * width_of(g),
        count_grid(g, p) == 0 <==> forall|x: int, y: int|
            inside(g, x, y) ==> !p(#[trigger] g[y][x]),
        count_grid(g, p) == g.len() * width_of(g) <==> forall|x: int, y: int|
            inside(g, x, y) ==> p(#[trigger] g[y][x]),
    decreases g.len(),
{
    let w = width_of(g);
    let h = g.len();
    if h > 0 {
        let above = g.drop_last();
        let last = g.last();
        assert(above.len() * width_of(above) == (h - 1) * w && h * w == (h - 1) * w + w)
            by (nonlinear_arith)
            requires
                above.len() == h - 1,
                h > 1 ==> width_of(above) == w,
                h >= 1,
        ;
        lemma_count_grid_range(above, p);
        lemma_count_row_range(last, p);
        if count_grid(g, p) == 0 {
            assert forall|x: int, y: int| inside(g, x, y) implies !p(#[trigger] g[y][x]) by {
                if y < h - 1 {
                    assert(!p(above[y][x]));
                }
            }
        }
        if count_grid(g, p) == h * w {
            assert forall|x: int, y: int| inside(g, x, y) implies p(#[trigger] g[y][x]) by {
                if y < h - 1 {
                    assert(p(above[y][x]));
                }
            }
        }
    }
}

} // verus!
