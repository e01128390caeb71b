//! What holds of every game, whatever the moves: stated over the game as a
//! mathematical value, and proved.

use crate::cell::{Cell, Item};
use crate::count::{count_grid, lemma_count_grid_range, undiscovered_empty};
use crate::flood::{flood, floodable, lemma_reaches_start, lemma_reaches_step, reaches, spreads};
use crate::grid::{adjacent, bombs_around, has_bomb, inside, same_items, Grid, Pos};
use crate::model::{all_bombs_shown, lemma_discover_wf, GameState, GameView};
use vstd::prelude::*;

verus! {

/// Every pin sits on a bomb.
pub open spec fn pins_on_bombs_only(g: Grid) -> bool {
    forall|x: int, y: int| inside(g, x, y) && #[trigger] g[y][x] is Pin ==> has_bomb(g, x, y)
}

/// Every cell that is discovered in `a` is discovered in `b`.
pub open spec fn keeps_discovered(a: Grid, b: Grid) -> bool {
    forall|x: int, y: int|
        inside(a, x, y) && a[y][x] is Discovered ==> #[trigger] b[y][x] is Discovered
}

impl GameView {
    /// The game after the cells at `cells` have been asked for, one after
    /// the other.
    pub open spec fn discover_each(self, cells: Seq<Pos>) -> GameView
        decreases cells.len(),
    {
        if cells.len() == 0 {
            self
        } else {
            self.discover_each(cells.drop_last()).discover(cells.last().x, cells.last().y)
        }
    }
}

/// In a well-formed game the number on a cell without a bomb is the number
/// of bombs among its neighbours on the field, eight at most.
pub proof fn lemma_numbers_exact(v: GameView, x: int, y: int, n: u8)
    requires
        v.wf(),
        inside(v.field, x, y),
        v.cell(x, y).item() == Item::Empty(n),
    ensures
        n == bombs_around(v.field, x, y),
        n <= 8,
{
    // each of the eight neighbours counts for one bomb at most
    assert(bombs_around(v.field, x, y) <= 8);
}

/// A game that is won or lost stays as it is: no move and no count, 0
/// included, changes its state or anything else.
pub proof fn lemma_over_is_over(v: GameView, x: int, y: int)
    requires
        v.state != GameState::Playing,
    ensures
        v.settle() == v,
        v.discover(x, y) == v,
        v.pin(x, y) == v,
{
}

/// Asking for a hidden bomb loses the game and discovers every bomb; the
/// cells without a bomb and the number of them left to discover stay as
/// they were.
pub proof fn lemma_bomb_loses(v: GameView, x: int, y: int)
    requires
        v.wf(),
        v.state == GameState::Playing,
        inside(v.field, x, y),
        v.cell(x, y) == Cell::Hidden(Item::Bomb),
    ensures
        v.discover(x, y).state == GameState::Loss,
        all_bombs_shown(v.discover(x, y).field),
        v.discover(x, y).hidden_empty == v.hidden_empty,
        forall|c: int, r: int|
            inside(v.field, c, r) && !has_bomb(v.field, c, r)
                ==> #[trigger] v.discover(x, y).cell(c, r) == v.cell(c, r),
{}

/// A flood leaves no gap: next to a cell with no bomb around it that the
/// flood has discovered, no cell without a bomb is still hidden.
pub proof fn lemma_flood_leaves_no_gap(g: Grid, from: Pos, p: Pos, d: Pos)
    requires
        reaches(g, from, p),
        spreads(g, p),
        adjacent(p, d),
        floodable(g, d),
    ensures
        flood(g, from)[p.y][p.x] == Cell::Discovered(Item::Empty(0)),
        flood(g, from)[d.y][d.x] == Cell::Discovered(g[d.y][d.x].item()),
{
    lemma_reaches_step(g, from, p, d);
}

/// A flood never discovers a bomb: every cell with a bomb is after the
/// flood as it was before.
pub proof fn lemma_flood_spares_bombs(g: Grid, from: Pos, x: int, y: int)
    requires
        has_bomb(g, x, y),
    ensures
        flood(g, from)[y][x] == g[y][x],
{}

/// Asking twice for a cell does no more than asking once.
pub proof fn lemma_discover_idempotent(v: GameView, x: int, y: int)
    requires
        v.wf(),
    ensures
        v.discover(x, y).discover(x, y) == v.discover(x, y),
{
    // after the first time the cell is discovered or pinned, or the game is
    // over; a flood discovers the cell that it starts from
    if inside(v.field, x, y) && v.cell(x, y) == Cell::Hidden(Item::Empty(0)) {
        lemma_reaches_start(v.field, Pos { x, y });
    }
}

/// Pinning a cell twice does no more than pinning it once.
pub proof fn lemma_pin_idempotent(v: GameView, x: int, y: int)
    requires
        v.wf(),
    ensures
        v.pin(x, y).pin(x, y) == v.pin(x, y),
{}

/// A cell that has just been pinned is safe: asking for it changes nothing.
pub proof fn lemma_pin_guards(v: GameView, x: int, y: int)
    requires
        v.wf(),
        inside(v.field, x, y),
        v.cell(x, y) is Hidden,
        v.state == GameState::Playing,
    ensures
        v.pin(x, y).cell(x, y) == Cell::Pin(v.cell(x, y).item()),
        v.pin(x, y).discover(x, y) == v.pin(x, y),
{}

/// Asking for a cell without a bomb, in a game that is not lost and has
/// pins on bombs only, discovers that cell and hides nothing again; the
/// game is still not lost and its pins are where they were.
pub proof fn lemma_discover_empty(v: GameView, x: int, y: int)
    requires
        v.wf(),
        v.state != GameState::Loss,
        pins_on_bombs_only(v.field),
        !has_bomb(v.field, x, y),
    ensures
        v.discover(x, y).wf(),
        v.discover(x, y).state != GameState::Loss,
        same_items(v.field, v.discover(x, y).field),
        pins_on_bombs_only(v.discover(x, y).field),
        keeps_discovered(v.field, v.discover(x, y).field),
        inside(v.field, x, y) ==> v.discover(x, y).cell(x, y) is Discovered,
{
    lemma_discover_wf(v, x, y);
    if inside(v.field, x, y) {
        if v.state == GameState::Win {
            lemma_count_grid_range(v.field, undiscovered_empty());
        } else if v.cell(x, y) == Cell::Hidden(Item::Empty(0)) {
            lemma_reaches_start(v.field, Pos { x, y });
        }
    }
}

/// What `lemma_discover_empty` says of one cell holds of a whole series of
/// cells without bombs, for each cell of the series.
pub proof fn lemma_discover_each_empty(v: GameView, cells: Seq<Pos>)
    requires
        v.wf(),
        v.state != GameState::Loss,
        pins_on_bombs_only(v.field),
        forall|i: int| 0 <= i < cells.len() ==> !has_bomb(v.field, cells[i].x, cells[i].y),
    ensures
        v.discover_each(cells).wf(),
        v.discover_each(cells).state != GameState::Loss,
        same_items(v.field, v.discover_each(cells).field),
        pins_on_bombs_only(v.discover_each(cells).field),
        keeps_discovered(v.field, v.discover_each(cells).field),
        forall|i: int|
            0 <= i < cells.len() && inside(v.field, cells[i].x, cells[i].y)
                ==> v.discover_each(cells).cell(cells[i].x, cells[i].y) is Discovered,
    decreases cells.len(),
{
    if cells.len() > 0 {
        let front = cells.drop_last();
        let last = cells.last();
        let u = v.discover_each(front);
        let w = u.discover(last.x, last.y);
        lemma_discover_each_empty(v, front);
        lemma_discover_empty(u, last.x, last.y);
        assert forall|i: int|
            0 <= i < cells.len() && inside(v.field, cells[i].x, cells[i].y) implies w.cell(
            cells[i].x,
            cells[i].y,
        ) is Discovered by {
            if i < front.len() {
                assert(front[i] == cells[i]);
            }
        }
    }
}

/// Discovering every cell without a bomb, in any order and as often as one
/// likes, but never a cell with a bomb, wins the game: nothing is left to
/// discover. This asks for a game that is not lost already and for all
/// pins to sit on bombs, since a pinned cell cannot be discovered.
pub proof fn lemma_discovering_all_empty_wins(v: GameView, cells: Seq<Pos>)
    requires
        v.wf(),
        v.state != GameState::Loss,
        pins_on_bombs_only(v.field),
        forall|i: int| 0 <= i < cells.len() ==> !has_bomb(v.field, cells[i].x, cells[i].y),
        forall|x: int, y: int|
            inside(v.field, x, y) && !has_bomb(v.field, x, y) ==> cells.contains(Pos { x, y }),
    ensures
        v.discover_each(cells).hidden_empty == 0,
        v.discover_each(cells).state == GameState::Win,
        count_grid(v.discover_each(cells).field, undiscovered_empty()) == 0,
{
    let w = v.discover_each(cells);
    lemma_discover_each_empty(v, cells);
    lemma_count_grid_range(w.field, undiscovered_empty());
    assert forall|x: int, y: int| inside(w.field, x, y) implies !undiscovered_empty()(
        #[trigger] w.field[y][x],
    ) by {
        // a cell without a bomb is in the series, and so it is discovered
        if !has_bomb(v.field, x, y) {
            assert(cells.contains(Pos { x, y }));
        }
    }
}

} // verus!
