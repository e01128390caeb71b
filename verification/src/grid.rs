//! The mine field as a mathematical grid: its shape, its positions and
//! their neighbours, and the bombs around a cell.

use crate::cell::{Cell, Item};
use crate::count::{count_grid, lemma_count_grid_same, with_bomb};
use vstd::prelude::*;

verus! {

/// The rows of a field, top to bottom; each row lists its cells left to right.
pub type Grid = Seq<Seq<Cell>>;

/// A position on a grid: column `x` of row `y`.
pub struct Pos {
    pub x: int,
    pub y: int,
}

/// The grid that an executable field stands for.
pub open spec fn grid_of(field: Seq<Vec<Cell>>) -> Grid {
    Seq::new(field.len(), |y: int| field[y]@)
}

/// The number of columns: the length of the first row, 0 without rows.
pub open spec fn width_of(g: Grid) -> nat {
    if g.len() == 0 {
        0
    } else {
        g[0].len()
    }
}

/// All rows have the same length.
pub open spec fn rectangular(g: Grid) -> bool {
    forall|y: int| 0 <= y < g.len() ==> (#[trigger] g[y]).len() == width_of(g)
}

/// Column `x` of row `y` exists.
pub open spec fn inside(g: Grid, x: int, y: int) -> bool {
    0 <= y < g.len() && 0 <= x < g[y].len()
}

/// The grid `g` with the cell at `(x, y)` replaced by `c`.
pub open spec fn set_cell(g: Grid, x: int, y: int, c: Cell) -> Grid {
    g.update(y, g[y].update(x, c))
}

/// Two distinct positions that differ by at most one column and one row.
pub open spec fn adjacent(a: Pos, b: Pos) -> bool {
    a != b && -1 <= a.x - b.x <= 1 && -1 <= a.y - b.y <= 1
}

/// There is a cell at `(x, y)` and it holds a bomb.
pub open spec fn has_bomb(g: Grid, x: int, y: int) -> bool {
    inside(g, x, y) && g[y][x].item() is Bomb
}

/// 1 where `(x, y)` holds a bomb, 0 elsewhere and off the grid.
pub open spec fn bomb_at(g: Grid, x: int, y: int) -> nat {
    if has_bomb(g, x, y) {
        1
    } else {
        0
    }
}

/// The number of bombs among the up to eight neighbours of `(x, y)`.
/// Positions off the grid count for nothing, which clamps the
/// neighbourhood at the edges.
pub open spec fn bombs_around(g: Grid, x: int, y: int) -> nat {
    bomb_at(g, x - 1, y - 1) + bomb_at(g, x, y - 1) + bomb_at(g, x + 1, y - 1)
        + bomb_at(g, x - 1, y) + bomb_at(g, x + 1, y)
        + bomb_at(g, x - 1, y + 1) + bomb_at(g, x, y + 1) + bomb_at(g, x + 1, y + 1)
}

/// Every cell without a bomb carries the number of bombs around it.
pub open spec fn counts_exact(g: Grid) -> bool {
    forall|x: int, y: int|
        inside(g, x, y) ==> match g[y][x].item() {
            Item::Empty(k) => k == #[trigger] bombs_around(g, x, y),
            Item::Bomb => true,
        }
}

/// Two grids with the same number of rows and, row by row, of cells.
pub open spec fn same_shape(a: Grid, b: Grid) -> bool {
    a.len() == b.len() && forall|y: int| 0 <= y < a.len() ==> (#[trigger] b[y]).len() == a[y].len()
}

/// Two grids of one shape whose cells hold the same content, whatever
/// their visibility.
pub open spec fn same_items(a: Grid, b: Grid) -> bool {
    same_shape(a, b) && forall|x: int, y: int|
        inside(a, x, y) ==> (#[trigger] b[y][x]).item() == a[y][x].item()
}

/// Grids with the same content have their bombs in the same places, so
/// their numbers are right together and they hold as many bombs.
pub proof fn lemma_same_items(a: Grid, b: Grid)
    requires
        same_items(a, b),
    ensures
        forall|x: int, y: int| #[trigger] has_bomb(b, x, y) == has_bomb(a, x, y),
        forall|x: int, y: int| #[trigger] bombs_around(b, x, y) == bombs_around(a, x, y),
        rectangular(a) ==> rectangular(b),
        width_of(b) == width_of(a),
        counts_exact(a) ==> counts_exact(b),
        count_grid(b, with_bomb()) == count_grid(a, with_bomb()),
{
    assert forall|x: int, y: int| #[trigger] bombs_around(b, x, y) == bombs_around(a, x, y) by {}
    lemma_count_grid_same(a, b, with_bomb());
}

} // verus!
