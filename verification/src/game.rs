//! The game that a player plays: a mine field, and the moves on it.

use crate::cell::{Cell, Face, Item};
use crate::count::{
    hidden_and_empty, lemma_count_grid_le, lemma_count_set_cell, undiscovered_empty,
};
use crate::flood::fill_area;
use crate::grid::{grid_of, has_bomb, inside, same_items, set_cell, Grid};
use crate::model::{
    all_bombs_shown, bombs_discovered, lemma_discover_wf, lemma_pin_wf, only_discovers,
    GameError, GameState, GameView,
};
use vstd::prelude::*;

verus! {

/// A game of Minesweeper.
pub struct Game {
    /// The cells, row by row.
    pub(crate) field: Vec<Vec<Cell>>,
    pub(crate) state: GameState,
    /// The coordinates `(x, y)` of the bombs, each once.
    pub(crate) bombs: Vec<(usize, usize)>,
    /// The coordinates `(x, y)` that were pinned, each once.
    pub(crate) pins: Vec<(usize, usize)>,
    /// The number of cells without a bomb that are still to be discovered.
    pub(crate) hidden_empty: usize,
}

impl View for Game {
    type V = GameView;

    open(crate) spec fn view(&self) -> GameView {
        GameView {
            field: grid_of(self.field@),
            state: self.state,
            bombs: self.bombs@,
            pins: self.pins@,
            hidden_empty: self.hidden_empty as nat,
        }
    }
}

/// What a player can ask of a game.
#[derive(Clone, Copy, Debug, PartialEq, Eq, Structural)]
pub enum Message {
    /// Discover the cell in column `x` of row `y`.
    Discover { x: usize, y: usize },
    /// Pin the cell in column `x` of row `y`.
    Pin { x: usize, y: usize },
}

impl GameView {
    /// The game after `message` has been carried out.
    pub open spec fn apply(self, message: Message) -> GameView {
        match message {
            Message::Discover { x, y } => self.discover(x as int, y as int),
            Message::Pin { x, y } => self.pin(x as int, y as int),
        }
    }
}

/// Carries out what the player asks for. A coordinate off the field
/// changes nothing.
pub fn update(game: &mut Game, message: Message)
    requires
        old(game).wf(),
    ensures
        final(game).wf(),
        final(game)@ == old(game)@.apply(message),
{
    match message {
        Message::Discover { x, y } => {
            let _ = game.discover(&x, &y);
        },
        Message::Pin { x, y } => {
            let _ = game.pin(x, y);
        },
    }
}

/// The bombs listed before `upto` are discovered in `now`, and every other
/// cell of `now` is as in `before`.
spec fn showing(before: Grid, now: Grid, bombs: Seq<(usize, usize)>, upto: int) -> bool {
    &&& now.len() == before.len()
    &&& forall|y: int| 0 <= y < before.len() ==> (#[trigger] now[y]).len() == before[y].len()
    &&& forall|x: int, y: int|
        inside(before, x, y) ==> #[trigger] now[y][x] == before[y][x] || (has_bomb(before, x, y)
            && now[y][x] == Cell::Discovered(Item::Bomb))
    &&& forall|i: int|
        0 <= i < upto ==> now[(#[trigger] bombs[i]).1 as int][bombs[i].0 as int]
            == Cell::Discovered(Item::Bomb)
}

impl Game {
    /// The game is well-formed.
    pub open spec fn wf(&self) -> bool {
        self@.wf()
    }

    /// The number of columns of the field.
    pub fn width(&self) -> (width: usize)
        ensures
            width == self@.width(),
    {
        if self.field.len() == 0 {
            0
        } else {
            self.field[0].len()
        }
    }

    /// The number of rows of the field.
    pub fn height(&self) -> (height: usize)
        ensures
            height == self@.height(),
    {
        self.field.len()
    }

    /// Where the game stands.
    pub fn state(&self) -> (state: GameState)
        ensures
            state == self@.state,
    {
        self.state
    }

    /// The number of cells without a bomb that are still to be discovered.
    pub fn hidden_empty(&self) -> (left: usize)
        ensures
            left == self@.hidden_empty,
    {
        self.hidden_empty
    }

    /// The number of bombs on the field.
    pub fn bomb_count(&self) -> (count: usize)
        ensures
            count == self@.bombs.len(),
    {
        self.bombs.len()
    }

    /// The coordinates `(x, y)` that were pinned, in the order of pinning.
    pub fn pins(&self) -> (pins: &Vec<(usize, usize)>)
        ensures
            pins@ == self@.pins,
    {
        &self.pins
    }

    /// What the cell in column `x` of row `y` shows: whether it is hidden,
    /// pinned or discovered, and its content only if it is discovered. A
    /// coordinate off the field is an error.
    pub fn face_at(&self, x: usize, y: usize) -> (face: Result<Face, GameError>)
        ensures
            face is Ok <==> inside(self@.field, x as int, y as int),
            face matches Ok(shown) ==> shown == self@.cell(x as int, y as int).shown(),
            face matches Err(error) ==> error == GameError::OutOfBounds,
    {
        if y >= self.field.len() {
            return Err(GameError::OutOfBounds);
        }
        if x >= self.field[y].len() {
            return Err(GameError::OutOfBounds);
        }
        Ok(self.field[y][x].face())
    }

    /// Brings the state up to date: a game in play is won once no cell
    /// without a bomb is left to discover. A game that is won or lost stays
    /// what it is, whatever the count, and on a well-formed game there is
    /// nothing to bring up to date.
    pub fn update_game_state(&mut self)
        ensures
            final(self)@ == old(self)@.settle(),
            old(self)@.state != GameState::Playing ==> final(self)@ == old(self)@,
            old(self).wf() ==> final(self)@ == old(self)@,
    {
        if self.hidden_empty == 0 && self.state == GameState::Playing {
            self.state = GameState::Win;
        }
    }

    /// Discovers every bomb of the field.
    fn show_bombs(&mut self)
        requires
            old(self)@.laid_out(),
        ensures
            final(self)@ == (GameView { field: bombs_discovered(old(self)@.field), ..old(self)@ }),
    {
        let ghost before = grid_of(self.field@);
        let mut i: usize = 0;
        while i < self.bombs.len()
            invariant
                i <= self.bombs@.len(),
                old(self)@.laid_out(),
                before == old(self)@.field,
                self.bombs@ == old(self)@.bombs,
                self.pins@ == old(self)@.pins,
                self.state == old(self)@.state,
                self.hidden_empty == old(self)@.hidden_empty,
                showing(before, grid_of(self.field@), self.bombs@, i as int),
            decreases self.bombs@.len() - i,
        {
            let ghost was = grid_of(self.field@);
            let (x, y) = self.bombs[i];
            self.field[y][x] = Cell::Discovered(Item::Bomb);
            proof {
                let shown = Cell::Discovered(Item::Bomb);
                assert(grid_of(self.field@) =~~= set_cell(was, x as int, y as int, shown));
            }
            i += 1;
        }
        proof {
            // every bomb is listed, and every bomb that is listed is discovered
            let now = grid_of(self.field@);
            let shown = bombs_discovered(before);
            assert forall|y: int| 0 <= y < now.len() implies #[trigger] now[y] =~= shown[y] by {
                assert forall|x: int| 0 <= x < now[y].len() implies now[y][x] == shown[y][x] by {
                    if has_bomb(before, x, y) {
                        assert(self.bombs@.contains((x as usize, y as usize)));
                    }
                }
            }
            assert(now =~= shown);
        }
    }

    /// Discovers the cell in column `x` of row `y`.
    ///
    /// A coordinate off the field is an error and changes nothing. Once the
    /// game is won or lost, and on a cell that is pinned or already
    /// discovered, nothing happens. A bomb loses the game and discovers
    /// every bomb. A cell with bombs around it is discovered alone; a cell
    /// with none is discovered together with the region of such cells
    /// around it and their numbered border. The game is won when the last
    /// cell without a bomb is discovered.
    pub fn discover(&mut self, x: &usize, y: &usize) -> (outcome: Result<(), GameError>)
        requires
            old(self).wf(),
        ensures
            final(self).wf(),
            final(self)@ == old(self)@.discover(*x as int, *y as int),
            outcome is Ok <==> inside(old(self)@.field, *x as int, *y as int),
            outcome matches Err(error) ==> error == GameError::OutOfBounds,
            // cells are discovered and nothing else happens to the field
            only_discovers(old(self)@.field, final(self)@.field),
            same_items(old(self)@.field, final(self)@.field),
            // what changes nothing
            outcome is Err ==> final(self)@ == old(self)@,
            old(self)@.state != GameState::Playing ==> final(self)@ == old(self)@,
            outcome is Ok && !(old(self)@.cell(*x as int, *y as int) is Hidden)
                ==> final(self)@ == old(self)@,
            // a bomb
            outcome is Ok && old(self)@.state == GameState::Playing
                && old(self)@.cell(*x as int, *y as int) == Cell::Hidden(Item::Bomb)
                ==> final(self)@.state == GameState::Loss && all_bombs_shown(final(self)@.field),
            // a cell with bombs around it
            forall|n: u8|
                outcome is Ok && old(self)@.state == GameState::Playing && n > 0
                    && old(self)@.cell(*x as int, *y as int) == Cell::Hidden(Item::Empty(n))
                    ==> final(self)@.cell(*x as int, *y as int) == Cell::Discovered(Item::Empty(n))
                    && final(self)@.hidden_empty == old(self)@.hidden_empty - 1,
            // the state is up to date
            final(self)@.state == GameState::Win <==> final(self)@.hidden_empty == 0,
    {
        let x = *x;
        let y = *y;
        proof {
            lemma_discover_wf(self@, x as int, y as int);
            if inside(self@.field, x as int, y as int) {
                lemma_count_set_cell(
                    self@.field,
                    x as int,
                    y as int,
                    Cell::Discovered(self@.cell(x as int, y as int).item()),
                    undiscovered_empty(),
                );
            }
        }
        if y >= self.field.len() || x >= self.field[0].len() {
            return Err(GameError::OutOfBounds);
        }
        if self.state != GameState::Playing {
            return Ok(());
        }
        match self.field[y][x] {
            Cell::Hidden(Item::Bomb) => {
                self.state = GameState::Loss;
                self.show_bombs();
            },
            Cell::Hidden(Item::Empty(score)) => {
                if score > 0 {
                    let ghost was = grid_of(self.field@);
                    let shown = self.field[y][x].turn_discovered();
                    self.field[y][x] = shown;
                    proof {
                        assert(grid_of(self.field@) =~~= set_cell(was, x as int, y as int, shown));
                    }
                    self.hidden_empty -= 1;
                } else {
                    proof {
                        let hidden = grid_of(self.field@);
                        lemma_count_grid_le(hidden, hidden_and_empty(), undiscovered_empty());
                    }
                    fill_area(&mut self.field, y, x, &mut self.hidden_empty);
                }
                self.update_game_state();
            },
            _ => {},
        }
        Ok(())
    }

    /// Pins the cell in column `x` of row `y`, to mark it as a suspected
    /// bomb.
    ///
    /// A coordinate off the field is an error and changes nothing. A hidden
    /// cell of a game in play gets the pin and is added to the list of
    /// pins; its content stays what it was. Nothing happens once the game
    /// is won or lost, and on a cell that is pinned or discovered. A pin
    /// stays where it is: there is no way to take it off again, and a cell
    /// under a pin cannot be discovered.
    pub fn pin(&mut self, x: usize, y: usize) -> (outcome: Result<(), GameError>)
        requires
            old(self).wf(),
        ensures
            final(self).wf(),
            final(self)@ == old(self)@.pin(x as int, y as int),
            outcome is Ok <==> inside(old(self)@.field, x as int, y as int),
            outcome matches Err(error) ==> error == GameError::OutOfBounds,
            // no content, no count and no state changes
            same_items(old(self)@.field, final(self)@.field),
            final(self)@.state == old(self)@.state,
            final(self)@.hidden_empty == old(self)@.hidden_empty,
            // what changes nothing
            outcome is Err ==> final(self)@ == old(self)@,
            old(self)@.state != GameState::Playing ==> final(self)@ == old(self)@,
            outcome is Ok && !(old(self)@.cell(x as int, y as int) is Hidden)
                ==> final(self)@ == old(self)@,
    {
        proof {
            lemma_pin_wf(self@, x as int, y as int);
        }
        if y >= self.field.len() || x >= self.field[0].len() {
            return Err(GameError::OutOfBounds);
        }
        if self.state != GameState::Playing {
            return Ok(());
        }
        let cell = self.field[y][x];
        match cell {
            Cell::Hidden(_) => {
                let ghost was = grid_of(self.field@);
                let pinned = Cell::Pin(cell.get_item());
                self.field[y][x] = pinned;
                self.pins.push((x, y));
                proof {
                    assert(grid_of(self.field@) =~~= set_cell(was, x as int, y as int, pinned));
                }
            },
            _ => {},
        }
        Ok(())
    }
}

} // verus!
