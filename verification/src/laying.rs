//! Laying out a mine field: an empty field, and bombs laid on it one by
//! one, each raising the numbers around it.

use crate::cell::{Cell, Item};
use crate::count::{
    lemma_count_grid_range, lemma_count_grid_same, lemma_count_set_cell, undiscovered_empty,
    with_bomb,
};
use crate::game::Game;
use crate::grid::{
    adjacent, bombs_around, counts_exact, grid_of, has_bomb, inside, rectangular, set_cell,
    width_of, Grid, Pos,
};
use crate::model::{all_hidden, GameError, GameState, GameView};
use vstd::prelude::*;

verus! {

/// A cell beside a newly laid bomb: a hidden cell without a bomb counts one
/// bomb more.
pub open spec fn raised(c: Cell) -> Cell {
    match c {
        Cell::Hidden(Item::Empty(n)) => Cell::Hidden(Item::Empty((n + 1) as u8)),
        _ => c,
    }
}

/// The grid after a bomb is laid at `(x, y)`: the bomb lies there, hidden,
/// and each cell around it is raised.
pub open spec fn plant(g: Grid, x: int, y: int) -> Grid {
    Seq::new(
        g.len(),
        |r: int|
            Seq::new(
                g[r].len(),
                |c: int|
                    if c == x && r == y {
                        Cell::Hidden(Item::Bomb)
                    } else if adjacent(Pos { x: c, y: r }, Pos { x, y }) {
                        raised(g[r][c])
                    } else {
                        g[r][c]
                    },
            ),
    )
}

/// A field can have these sides: at least one column and one row, and no
/// more cells than a `usize` can count.
pub open spec fn valid_dimensions(width: usize, height: usize) -> bool {
    width >= 1 && height >= 1 && width * height <= usize::MAX
}

/// Every coordinate `(x, y)` of `s` lies on a field of `width` by `height`
/// cells.
pub open spec fn on_field(s: Seq<(usize, usize)>, width: usize, height: usize) -> bool {
    forall|i: int| 0 <= i < s.len() ==> (#[trigger] s[i]).0 < width && s[i].1 < height
}

/// The coordinates of `s` in their order, each at its first occurrence only.
pub open spec fn without_repeats(s: Seq<(usize, usize)>) -> Seq<(usize, usize)>
    decreases s.len(),
{
    if s.len() == 0 {
        s
    } else {
        let front = without_repeats(s.drop_last());
        if front.contains(s.last()) {
            front
        } else {
            front.push(s.last())
        }
    }
}

impl GameView {
    /// The game after a bomb is laid at `(x, y)` of a covered field. Where
    /// a bomb lies already, nothing changes.
    pub open spec fn lay(self, x: int, y: int) -> GameView {
        if has_bomb(self.field, x, y) {
            self
        } else {
            GameView {
                field: plant(self.field, x, y),
                bombs: self.bombs.push((x as usize, y as usize)),
                hidden_empty: (self.hidden_empty - 1) as nat,
                ..self
            }
        }
    }
}

/// No cell has more than eight bombs around it.
proof fn lemma_bombs_around_max(g: Grid, x: int, y: int)
    ensures
        bombs_around(g, x, y) <= 8,
{}

/// Laying a bomb on a free cell adds that one bomb to the grid and one to
/// the number of bombs around each of its neighbours.
proof fn lemma_plant_bombs(g: Grid, x: int, y: int, c: int, r: int)
    requires
        inside(g, x, y),
        !has_bomb(g, x, y),
    ensures
        has_bomb(plant(g, x, y), c, r) == (has_bomb(g, c, r) || (c == x && r == y)),
        bombs_around(plant(g, x, y), c, r) == bombs_around(g, c, r) + if adjacent(
            Pos { x: c, y: r },
            Pos { x, y },
        ) {
            1nat
        } else {
            0nat
        },
{}

/// Laying a bomb on a covered field leaves a covered field of the same
/// size, with that one bomb more unless it was there already.
pub proof fn lemma_lay(v: GameView, x: int, y: int)
    requires
        v.covered(),
        inside(v.field, x, y),
    ensures
        v.lay(x, y).covered(),
        v.lay(x, y).width() == v.width(),
        v.lay(x, y).height() == v.height(),
        !has_bomb(v.field, x, y) ==> v.hidden_empty >= 1,
        forall|c: int, r: int| #[trigger]
            has_bomb(v.lay(x, y).field, c, r) == (has_bomb(v.field, c, r) || (c == x && r == y)),
{
    let w = v.lay(x, y);
    let g = v.field;
    if !has_bomb(g, x, y) {
        let p = w.field;
        let at = (x as usize, y as usize);
        let one = set_cell(g, x, y, Cell::Hidden(Item::Bomb));
        assert forall|c: int, r: int| #[trigger]
            has_bomb(p, c, r) == (has_bomb(g, c, r) || (c == x && r == y)) by {}
        assert forall|c: int, r: int| inside(p, c, r) implies match p[r][c].item() {
            Item::Empty(k) => k == #[trigger] bombs_around(p, c, r),
            Item::Bomb => true,
        } by {
            // a hidden cell beside the new bomb is raised, and has one bomb
            // more around it
            lemma_plant_bombs(g, x, y, c, r);
            assert(g[r][c] is Hidden);
            assert(g[r][c].item() is Empty ==> g[r][c].item()->0 == bombs_around(g, c, r));
        }
        // for the counts, laying the bomb changes the one cell only
        lemma_count_grid_same(one, p, with_bomb());
        lemma_count_grid_same(one, p, undiscovered_empty());
        lemma_count_set_cell(g, x, y, Cell::Hidden(Item::Bomb), with_bomb());
        lemma_count_set_cell(g, x, y, Cell::Hidden(Item::Bomb), undiscovered_empty());
        assert(w.bombs_listed()) by {
            assert forall|i: int| 0 <= i < v.bombs.len() implies v.bombs[i] != at by {}
            assert forall|i: int| 0 <= i < w.bombs.len() implies has_bomb(
                p,
                (#[trigger] w.bombs[i]).0 as int,
                w.bombs[i].1 as int,
            ) by {
                if i < v.bombs.len() {
                    assert(w.bombs[i] == v.bombs[i]);
                }
            }
            assert forall|c: int, r: int| #[trigger] has_bomb(p, c, r) implies w.bombs.contains(
                (c as usize, r as usize),
            ) by {
                if c == x && r == y {
                    assert(w.bombs[v.bombs.len() as int] == at);
                } else {
                    let i = choose|i: int|
                        0 <= i < v.bombs.len() && v.bombs[i] == (c as usize, r as usize);
                    assert(w.bombs[i] == v.bombs[i]);
                }
            }
        }
    }
}

/// The grid in which the bomb at `(x, y)` has been laid as far as the cells
/// before column `col` of row `row`, in reading order.
spec fn planted_upto(g: Grid, x: int, y: int, row: int, col: int) -> Grid {
    Seq::new(
        g.len(),
        |r: int|
            Seq::new(
                g[r].len(),
                |c: int|
                    if r < row || (r == row && c < col) {
                        plant(g, x, y)[r][c]
                    } else {
                        g[r][c]
                    },
            ),
    )
}

/// `first` and `last` are the ends of the neighbourhood of `at` along one
/// side of a field, of length `limit`: one step either way, kept on the
/// field.
spec fn spans(at: usize, limit: usize, first: usize, last: usize) -> bool {
    &&& at < limit
    &&& first == if at > 0 { at - 1 } else { 0 }
    &&& last == if at + 1 < limit { at + 1 } else { at as int }
}

impl Game {
    /// A covered field of `width` by `height` cells without any bomb.
    pub(crate) fn blank(width: usize, height: usize) -> (game: Game)
        requires
            width >= 1,
            height >= 1,
            width * height <= usize::MAX,
        ensures
            game@.covered(),
            game@.width() == width,
            game@.height() == height,
            game@.bombs.len() == 0,
            game@.hidden_empty == width * height,
    {
        let mut field: Vec<Vec<Cell>> = Vec::new();
        let mut y: usize = 0;
        while y < height
            invariant
                y <= height,
                field@.len() == y,
                forall|r: int| 0 <= r < y ==> (#[trigger] field@[r])@.len() == width,
                forall|r: int, c: int|
                    0 <= r < y && 0 <= c < width ==> #[trigger] field@[r]@[c] == Cell::Hidden(
                        Item::Empty(0),
                    ),
            decreases height - y,
        {
            let mut row: Vec<Cell> = Vec::new();
            let mut x: usize = 0;
            while x < width
                invariant
                    x <= width,
                    row@.len() == x,
                    forall|c: int|
                        0 <= c < x ==> #[trigger] row@[c] == Cell::Hidden(Item::Empty(0)),
                decreases width - x,
            {
                row.push(Cell::Hidden(Item::Empty(0)));
                x += 1;
            }
            field.push(row);
            y += 1;
        }
        let game = Game {
            field,
            state: GameState::Playing,
            bombs: Vec::new(),
            pins: Vec::new(),
            hidden_empty: width * height,
        };
        proof {
            let g = game@.field;
            lemma_count_grid_range(g, with_bomb());
            lemma_count_grid_range(g, undiscovered_empty());
            assert(g.len() * width_of(g) == width * height) by (nonlinear_arith)
                requires
                    g.len() == height,
                    width_of(g) == width,
            ;
        }
        game
    }

    /// Lays a bomb in column `x` of row `y` of a covered field, unless one
    /// lies there already, and says whether it did. Each cell without a
    /// bomb around the new bomb counts one bomb more.
    pub(crate) fn place_bomb(&mut self, x: usize, y: usize) -> (placed: bool)
        requires
            old(self)@.covered(),
            inside(old(self)@.field, x as int, y as int),
        ensures
            final(self)@ == old(self)@.lay(x as int, y as int),
            placed == !has_bomb(old(self)@.field, x as int, y as int),
            final(self)@.covered(),
            final(self)@.width() == old(self)@.width(),
            final(self)@.height() == old(self)@.height(),
    {
        let ghost before = grid_of(self.field@);
        proof {
            lemma_lay(self@, x as int, y as int);
        }
        match self.field[y][x].get_item() {
            Item::Bomb => {
                return false;
            },
            Item::Empty(_) => {},
        }
        self.bombs.push((x, y));
        self.hidden_empty -= 1;
        let rows = self.field.len();
        let cols = self.field[0].len();
        let row_start = if y > 0 {
            y - 1
        } else {
            y
        };
        let row_end = if y + 1 < rows {
            y + 1
        } else {
            y
        };
        let col_start = if x > 0 {
            x - 1
        } else {
            x
        };
        let col_end = if x + 1 < cols {
            x + 1
        } else {
            x
        };
        let mut i = row_start;
        proof {
            assert(grid_of(self.field@) =~~= planted_upto(before, x as int, y as int, i as int, 0));
        }
        while i <= row_end
            invariant
                row_start <= i <= row_end + 1,
                spans(y, rows, row_start, row_end),
                spans(x, cols, col_start, col_end),
                rows == before.len(),
                cols == width_of(before),
                rectangular(before),
                counts_exact(before),
                all_hidden(before),
                grid_of(self.field@) == planted_upto(before, x as int, y as int, i as int, 0),
                self.bombs@ == old(self)@.bombs.push((x, y)),
                self.pins@ == old(self)@.pins,
                self.state == old(self)@.state,
                self.hidden_empty == old(self)@.hidden_empty - 1,
            decreases row_end + 1 - i,
        {
            let mut j = col_start;
            proof {
                assert(grid_of(self.field@) =~~= planted_upto(
                    before,
                    x as int,
                    y as int,
                    i as int,
                    j as int,
                ));
            }
            while j <= col_end
                invariant
                    col_start <= j <= col_end + 1,
                    row_start <= i <= row_end,
                    spans(y, rows, row_start, row_end),
                    spans(x, cols, col_start, col_end),
                    rows == before.len(),
                    cols == width_of(before),
                    rectangular(before),
                    counts_exact(before),
                    all_hidden(before),
                    grid_of(self.field@) == planted_upto(
                        before,
                        x as int,
                        y as int,
                        i as int,
                        j as int,
                    ),
                    self.bombs@ == old(self)@.bombs.push((x, y)),
                    self.pins@ == old(self)@.pins,
                    self.state == old(self)@.state,
                    self.hidden_empty == old(self)@.hidden_empty - 1,
                decreases col_end + 1 - j,
            {
                let ghost was = grid_of(self.field@);
                proof {
                    assert(was.len() == rows);
                    assert(was[i as int] == self.field@[i as int]@);
                    lemma_bombs_around_max(before, j as int, i as int);
                }
                if i == y && j == x {
                    self.field[i][j] = Cell::Hidden(Item::Bomb);
                } else {
                    match self.field[i][j] {
                        Cell::Hidden(Item::Empty(count)) => {
                            self.field[i][j] = Cell::Hidden(Item::Empty(count + 1));
                        },
                        _ => {},
                    }
                }
                proof {
                    let now = grid_of(self.field@);
                    let next = planted_upto(before, x as int, y as int, i as int, j + 1);
                    assert forall|r: int| 0 <= r < now.len() implies #[trigger] now[r]
                        =~= next[r] by {
                        assert(now[r].len() == was[r].len());
                        assert forall|c: int| 0 <= c < now[r].len() implies now[r][c]
                            == next[r][c] by {
                            if !(r == i && c == j) {
                                assert(now[r][c] == was[r][c]);
                            }
                        }
                    }
                }
                j += 1;
            }
            proof {
                assert(grid_of(self.field@) =~~= planted_upto(
                    before,
                    x as int,
                    y as int,
                    i + 1,
                    0,
                ));
            }
            i += 1;
        }
        proof {
            assert(grid_of(self.field@) =~~= plant(before, x as int, y as int));
        }
        true
    }

    /// A field of `width` by `height` cells with a bomb on each of the
    /// coordinates `(x, y)` listed in `bombs`, and nowhere else. A
    /// coordinate that is listed again counts once.
    ///
    /// Without a column or a row, or with more cells than a `usize` can
    /// count, the field is turned down as `InvalidDimensions`; with that in
    /// order, a coordinate off the field is turned down as `OutOfBounds`.
    /// The game is in play, unless every cell holds a bomb: with nothing to
    /// discover it is won.
    pub fn with_bombs(
        width: usize,
        height: usize,
        bombs: &[(usize, usize)],
    ) -> (made: Result<Game, GameError>)
        ensures
            made is Ok <==> valid_dimensions(width, height) && on_field(bombs@, width, height),
            made matches Err(GameError::InvalidDimensions) <==> !valid_dimensions(width, height),
            made matches Err(GameError::OutOfBounds) <==> valid_dimensions(width, height)
                && !on_field(bombs@, width, height),
            made matches Ok(game) ==> {
                &&& game.wf()
                &&& game@.width() == width
                &&& game@.height() == height
                &&& all_hidden(game@.field)
                &&& game@.pins.len() == 0
                &&& game@.bombs == without_repeats(bombs@)
                &&& forall|x: usize, y: usize|
                    #![trigger has_bomb(game@.field, x as int, y as int)]
                    #![trigger bombs@.contains((x, y))]
                    has_bomb(game@.field, x as int, y as int) <==> x < width && y < height
                        && bombs@.contains((x, y))
                &&& game@.hidden_empty == width * height - game@.bombs.len()
                &&& game@.state == if game@.hidden_empty == 0 {
                    GameState::Win
                } else {
                    GameState::Playing
                }
            },
    {
        if width == 0 || height == 0 || width.checked_mul(height).is_none() {
            return Err(GameError::InvalidDimensions);
        }
        let mut game = Game::blank(width, height);
        let mut i: usize = 0;
        while i < bombs.len()
            invariant
                i <= bombs@.len(),
                width >= 1,
                height >= 1,
                width * height <= usize::MAX,
                game@.covered(),
                game@.width() == width,
                game@.height() == height,
                game@.bombs == without_repeats(bombs@.take(i as int)),
                game@.hidden_empty == width * height - game@.bombs.len(),
                forall|j: int| 0 <= j < i ==> bombs@[j].0 < width && bombs@[j].1 < height,
                forall|x: usize, y: usize|
                    #![trigger has_bomb(game@.field, x as int, y as int)]
                    #![trigger bombs@.take(i as int).contains((x, y))]
                    has_bomb(game@.field, x as int, y as int) <==> x < width && y < height
                        && bombs@.take(i as int).contains((x, y)),
            decreases bombs@.len() - i,
        {
            let (x, y) = bombs[i];
            if x >= width || y >= height {
                return Err(GameError::OutOfBounds);
            }
            let ghost was = game@;
            let ghost seen = bombs@.take(i as int);
            let ghost more = bombs@.take(i + 1);
            proof {
                lemma_lay(was, x as int, y as int);
                assert(more.drop_last() =~= seen);
                assert(more.last() == (x, y));
            }
            game.place_bomb(x, y);
            i += 1;
        }
        proof {
            assert(bombs@.take(i as int) =~= bombs@);
        }
        game.update_game_state();
        Ok(game)
    }
}

} // verus!
