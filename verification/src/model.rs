//! The game as a mathematical value: what a well-formed game is, and what
//! each move makes of it.

use crate::cell::{Cell, Item};
use crate::count::{
    count_grid, lemma_count_grid_same, lemma_count_set_cell, undiscovered_empty, with_bomb,
};
use crate::flood::flood;
use crate::grid::{
    counts_exact, has_bomb, inside, lemma_same_items, rectangular, same_items, set_cell, width_of,
    Grid, Pos,
};
use vstd::prelude::*;

verus! {

/// Where a game stands.
#[derive(Clone, Copy, Debug, PartialEq, Eq, Structural)]
pub enum GameState {
    /// Cells without a bomb are left to discover, and no bomb has gone off.
    Playing,
    /// Every cell without a bomb is discovered.
    Win,
    /// A bomb has been discovered.
    Loss,
}

/// Why a call was turned down.
#[derive(Clone, Copy, Debug, PartialEq, Eq, Structural)]
pub enum GameError {
    /// The coordinate lies outside the field.
    OutOfBounds,
    /// A field needs at least one column and one row, and no more cells
    /// than a `usize` can count.
    InvalidDimensions,
}

/// No bomb is discovered.
pub open spec fn no_bomb_shown(g: Grid) -> bool {
    forall|x: int, y: int| inside(g, x, y) ==> #[trigger] g[y][x] != Cell::Discovered(Item::Bomb)
}

/// Every bomb is discovered.
pub open spec fn all_bombs_shown(g: Grid) -> bool {
    forall|x: int, y: int| #[trigger] has_bomb(g, x, y) ==> g[y][x] is Discovered
}

/// Every cell is hidden: nothing is discovered and nothing is pinned.
pub open spec fn all_hidden(g: Grid) -> bool {
    forall|x: int, y: int| inside(g, x, y) ==> #[trigger] g[y][x] is Hidden
}

/// From `a` to `b` cells have been discovered and nothing else has
/// happened: a cell of `b` is as in `a`, or it is discovered with the
/// content that it has in `a`, where it was hidden or was a pinned bomb.
pub open spec fn only_discovers(a: Grid, b: Grid) -> bool {
    &&& b.len() == a.len()
    &&& forall|y: int| 0 <= y < a.len() ==> (#[trigger] b[y]).len() == a[y].len()
    &&& forall|x: int, y: int|
        inside(a, x, y) ==> #[trigger] b[y][x] == a[y][x] || (b[y][x] == Cell::Discovered(
            a[y][x].item(),
        ) && (a[y][x] is Hidden || a[y][x] == Cell::Pin(Item::Bomb)))
}

/// The grid with every bomb discovered and every other cell as it was.
pub open spec fn bombs_discovered(g: Grid) -> Grid {
    Seq::new(
        g.len(),
        |y: int|
            Seq::new(
                g[y].len(),
                |x: int|
                    if g[y][x].item() is Bomb {
                        Cell::Discovered(Item::Bomb)
                    } else {
                        g[y][x]
                    },
            ),
    )
}

/// A game as a mathematical value.
pub struct GameView {
    /// The cells, row by row.
    pub field: Grid,
    /// Where the game stands.
    pub state: GameState,
    /// The coordinates `(x, y)` of the bombs.
    pub bombs: Seq<(usize, usize)>,
    /// The coordinates `(x, y)` that were pinned, in the order of pinning.
    pub pins: Seq<(usize, usize)>,
    /// The number of cells without a bomb that are still to be discovered.
    pub hidden_empty: nat,
}

impl GameView {
    /// The number of columns of the field.
    pub open spec fn width(self) -> nat {
        width_of(self.field)
    }

    /// The number of rows of the field.
    pub open spec fn height(self) -> nat {
        self.field.len()
    }

    /// The cell in column `x` of row `y`.
    pub open spec fn cell(self, x: int, y: int) -> Cell {
        self.field[y][x]
    }

    /// `bombs` lists the cells that hold a bomb, each once.
    pub open spec fn bombs_listed(self) -> bool {
        &&& self.bombs.no_duplicates()
        &&& forall|i: int|
            0 <= i < self.bombs.len() ==> has_bomb(
                self.field,
                (#[trigger] self.bombs[i]).0 as int,
                self.bombs[i].1 as int,
            )
        &&& forall|x: int, y: int|
            #[trigger] has_bomb(self.field, x, y) ==> self.bombs.contains(
                (x as usize, y as usize),
            )
        &&& self.bombs.len() == count_grid(self.field, with_bomb())
    }

    /// `pins` lists the pinned cells, each once; a pinned bomb stays listed
    /// when a lost game discovers it.
    pub open spec fn pins_listed(self) -> bool {
        &&& self.pins.no_duplicates()
        &&& forall|i: int|
            0 <= i < self.pins.len() ==> {
                let x = (#[trigger] self.pins[i]).0 as int;
                let y = self.pins[i].1 as int;
                &&& inside(self.field, x, y)
                &&& self.field[y][x] is Pin || self.field[y][x] == Cell::Discovered(Item::Bomb)
            }
        &&& forall|x: int, y: int|
            inside(self.field, x, y) && #[trigger] self.field[y][x] is Pin
                ==> self.pins.contains((x as usize, y as usize))
    }

    /// The field is a rectangle of at least one cell whose coordinates fit
    /// a `usize`, every number on it is the number of bombs around, and the
    /// lists and the count agree with the field.
    pub open spec fn laid_out(self) -> bool {
        &&& 1 <= self.height() <= usize::MAX
        &&& 1 <= self.width() <= usize::MAX
        &&& rectangular(self.field)
        &&& counts_exact(self.field)
        &&& self.bombs_listed()
        &&& self.pins_listed()
        &&& self.hidden_empty == count_grid(self.field, undiscovered_empty())
    }

    /// The state says what the field shows: won exactly when nothing is
    /// left to discover, lost exactly when a bomb is discovered, and then
    /// all of them are.
    pub open spec fn settled(self) -> bool {
        &&& self.state == GameState::Win <==> self.hidden_empty == 0
        &&& self.state == GameState::Loss <==> !no_bomb_shown(self.field)
        &&& self.state == GameState::Loss ==> all_bombs_shown(self.field)
    }

    /// A well-formed game.
    pub open spec fn wf(self) -> bool {
        self.laid_out() && self.settled()
    }

    /// A laid out field with every cell hidden and no pin, in a game in
    /// play. A field is so while its bombs are laid, when the state may
    /// still have to be brought up to date.
    pub open spec fn covered(self) -> bool {
        &&& self.laid_out()
        &&& self.state == GameState::Playing
        &&& all_hidden(self.field)
        &&& self.pins.len() == 0
    }

    /// A game before the first move: well-formed, in play, with every cell
    /// hidden.
    pub open spec fn untouched(self) -> bool {
        self.covered() && self.settled()
    }

    /// The game with its state brought up to date: a game in play is won
    /// once nothing is left to discover. A game that is won or lost stays
    /// what it is, whatever the count.
    pub open spec fn settle(self) -> GameView {
        GameView {
            state: if self.hidden_empty == 0 && self.state == GameState::Playing {
                GameState::Win
            } else {
                self.state
            },
            ..self
        }
    }

    /// The game after the player asks for the cell at `(x, y)` to be
    /// discovered. Nothing changes off the field, once the game is over,
    /// and on a cell that is pinned or already discovered. A bomb ends the
    /// game as lost and discovers every bomb. A cell with bombs around it
    /// is discovered alone; one with none starts a flood. Then the game is
    /// won if nothing is left to discover.
    pub open spec fn discover(self, x: int, y: int) -> GameView {
        if !inside(self.field, x, y) || self.state != GameState::Playing {
            self
        } else {
            match self.field[y][x] {
                Cell::Hidden(Item::Bomb) => GameView {
                    field: bombs_discovered(self.field),
                    state: GameState::Loss,
                    ..self
                },
                Cell::Hidden(Item::Empty(n)) => {
                    let field = if n > 0 {
                        set_cell(self.field, x, y, Cell::Discovered(Item::Empty(n)))
                    } else {
                        flood(self.field, Pos { x, y })
                    };
                    GameView {
                        field,
                        hidden_empty: count_grid(field, undiscovered_empty()),
                        ..self
                    }.settle()
                },
                _ => self,
            }
        }
    }

    /// The game after the player asks for the cell at `(x, y)` to be
    /// pinned: a hidden cell of a game in play gets a pin and is listed;
    /// anything else changes nothing.
    pub open spec fn pin(self, x: int, y: int) -> GameView {
        if inside(self.field, x, y) && self.state == GameState::Playing
            && self.field[y][x] is Hidden {
            GameView {
                field: set_cell(self.field, x, y, Cell::Pin(self.field[y][x].item())),
                pins: self.pins.push((x as usize, y as usize)),
                ..self
            }
        } else {
            self
        }
    }
}

/// Discovering every bomb discovers cells and does nothing else; the cells
/// without a bomb stay as they are, and as many of them are left to
/// discover.
pub proof fn lemma_bombs_discovered(g: Grid)
    ensures
        only_discovers(g, bombs_discovered(g)),
        all_bombs_shown(bombs_discovered(g)),
        count_grid(bombs_discovered(g), undiscovered_empty()) == count_grid(
            g,
            undiscovered_empty(),
        ),
        forall|x: int, y: int|
            inside(g, x, y) && !has_bomb(g, x, y) ==> #[trigger] bombs_discovered(g)[y][x]
                == g[y][x],
{
    let shown = bombs_discovered(g);
    lemma_count_grid_same(g, shown, undiscovered_empty());
}

/// Where cells have been discovered and nothing else has happened, the
/// field is still laid out, once the cells left to discover are counted
/// again: no content has changed, and the pins are where they were.
pub proof fn lemma_only_discovers(v: GameView, field: Grid)
    requires
        v.laid_out(),
        only_discovers(v.field, field),
    ensures
        same_items(v.field, field),
        (GameView { field, hidden_empty: count_grid(field, undiscovered_empty()), ..v }).laid_out(),
{
    lemma_same_items(v.field, field);
}

/// A move on a well-formed game leaves a well-formed game: it discovers
/// cells and does nothing else to the field, and the lists of bombs and of
/// pins are as before.
pub proof fn lemma_discover_wf(v: GameView, x: int, y: int)
    requires
        v.wf(),
    ensures
        v.discover(x, y).wf(),
        only_discovers(v.field, v.discover(x, y).field),
        same_items(v.field, v.discover(x, y).field),
        v.discover(x, y).bombs == v.bombs,
        v.discover(x, y).pins == v.pins,
{
    let w = v.discover(x, y);
    if inside(v.field, x, y) && v.state == GameState::Playing && v.cell(x, y) is Hidden {
        if v.cell(x, y).item() is Bomb {
            lemma_bombs_discovered(v.field);
            // the game is lost: a bomb is there to see
            assert(w.cell(x, y) == Cell::Discovered(Item::Bomb));
        }
        lemma_only_discovers(v, w.field);
    }
}

/// Pinning a cell of a well-formed game leaves a well-formed game, with the
/// same content in every cell and as many cells left to discover.
pub proof fn lemma_pin_wf(v: GameView, x: int, y: int)
    requires
        v.wf(),
    ensures
        v.pin(x, y).wf(),
        same_items(v.field, v.pin(x, y).field),
        v.pin(x, y).bombs == v.bombs,
        v.pin(x, y).state == v.state,
        v.pin(x, y).hidden_empty == v.hidden_empty,
{
    let w = v.pin(x, y);
    if inside(v.field, x, y) && v.state == GameState::Playing && v.field[y][x] is Hidden {
        let at = (x as usize, y as usize);
        lemma_same_items(v.field, w.field);
        lemma_count_set_cell(v.field, x, y, w.field[y][x], undiscovered_empty());
        assert(w.pins_listed()) by {
            // the cell was hidden, so it is not among the pins yet
            assert forall|i: int| 0 <= i < v.pins.len() implies v.pins[i] != at by {}
            assert forall|i: int| 0 <= i < w.pins.len() implies {
                let px = (#[trigger] w.pins[i]).0 as int;
                let py = w.pins[i].1 as int;
                &&& inside(w.field, px, py)
                &&& w.field[py][px] is Pin || w.field[py][px] == Cell::Discovered(Item::Bomb)
            } by {
                if i < v.pins.len() {
                    assert(w.pins[i] == v.pins[i]);
                }
            }
            assert forall|px: int, py: int|
                inside(w.field, px, py) && #[trigger] w.field[py][px] is Pin implies
                w.pins.contains((px as usize, py as usize)) by {
                if px == x && py == y {
                    assert(w.pins[v.pins.len() as int] == at);
                } else {
                    let i = choose|i: int|
                        0 <= i < v.pins.len() && v.pins[i] == (px as usize, py as usize);
                    assert(w.pins[i] == v.pins[i]);
                }
            }
        }
    }
}

} // verus!
