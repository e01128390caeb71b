//! The random field that a new game starts with.

use crate::count::{count_grid, lemma_count_grid_range, with_bomb};
use crate::game::Game;
use crate::grid::{counts_exact, has_bomb, inside};
use crate::laying::{lemma_lay, valid_dimensions};
use crate::model::{GameError, GameView};
use rand::Rng;
use rand::rngs::ThreadRng;
use vstd::prelude::*;

verus! {

/// How often a random coordinate is drawn for one bomb before the first
/// free cell is taken instead. A draw hits a bomb that is already there
/// with a probability below 0.15, so that all draws for one bomb fail with
/// a probability below 0.15 to the power of 64.
pub const MAX_DRAWS: usize = 64;

/// The number of bombs on a field: 15% of its cells, rounded down.
pub open spec fn bomb_budget(width: nat, height: nat) -> nat {
    width * height * 15 / 100
}

/// `rand::rngs::ThreadRng`, the handle on a thread's random number
/// generator. It is carried to the draws and nothing is known of what it
/// holds.
#[verifier::external_type_specification]
#[verifier::external_body]
pub struct ExThreadRng(rand::rngs::ThreadRng);

/// `rand::thread_rng`: the random number generator of the calling thread.
/// Nothing is claimed of it.
pub assume_specification[ rand::thread_rng ]() -> (rng: ThreadRng)
;

/// `rand::Rng::gen_range` on the range from 0 up to `bound`, `bound` left
/// out: some number below `bound`, whichever the generator comes up with.
/// An empty range would make it panic.
#[verifier::external_body]
fn draw_below(rng: &mut ThreadRng, bound: usize) -> (drawn: usize)
    requires
        bound > 0,
    ensures
        drawn < bound,
{
    rng.gen_range(0..bound)
}

/// The number of bombs for a field of `total` cells.
fn budget_for(total: usize) -> (budget: usize)
    ensures
        budget == total * 15 / 100,
        total > 0 ==> budget < total,
{
    let wide: u128 = total as u128 * 15 / 100;
    wide as usize
}

impl Game {
    /// Lays a bomb on the first cell without one, row by row from the top
    /// and from left to right in each row.
    fn place_first_free(&mut self)
        requires
            old(self)@.covered(),
            old(self)@.bombs.len() < old(self)@.height() * old(self)@.width(),
        ensures
            final(self)@.covered(),
            final(self)@.width() == old(self)@.width(),
            final(self)@.height() == old(self)@.height(),
            final(self)@.bombs.len() == old(self)@.bombs.len() + 1,
            final(self)@.hidden_empty == old(self)@.hidden_empty - 1,
    {
        let ghost before = self@;
        let rows = self.field.len();
        let cols = self.field[0].len();
        let mut y: usize = 0;
        while y < rows
            invariant
                y <= rows,
                rows == before.height(),
                cols == before.width(),
                self@ == before,
                before == old(self)@,
                before.covered(),
                forall|c: int, r: int|
                    0 <= r < y && 0 <= c < cols ==> #[trigger] has_bomb(before.field, c, r),
            decreases rows - y,
        {
            let mut x: usize = 0;
            while x < cols
                invariant
                    x <= cols,
                    y < rows,
                    rows == before.height(),
                    cols == before.width(),
                    self@ == before,
                    before == old(self)@,
                    before.covered(),
                    forall|c: int, r: int|
                        0 <= r < y && 0 <= c < cols ==> #[trigger] has_bomb(before.field, c, r),
                    forall|c: int| 0 <= c < x ==> #[trigger] has_bomb(before.field, c, y as int),
                decreases cols - x,
            {
                proof {
                    lemma_lay(before, x as int, y as int);
                }
                if self.place_bomb(x, y) {
                    return;
                }
                x += 1;
            }
            y += 1;
        }
        proof {
            // every cell holds a bomb, so there are as many bombs as cells
            let g = before.field;
            lemma_count_grid_range(g, with_bomb());
            assert forall|c: int, r: int| inside(g, c, r) implies with_bomb()(
                #[trigger] g[r][c],
            ) by {
                assert(has_bomb(g, c, r));
            }
        }
    }

    /// A new game on a field of `width` by `height` cells, with bombs on
    /// 15% of the cells, rounded down, at random.
    ///
    /// Coordinates are drawn at random; a draw that hits a bomb is thrown
    /// away and drawn again, so that every free cell is as likely as any
    /// other. After `MAX_DRAWS` draws in vain for one bomb, that bomb goes
    /// to the first free cell, which bounds the time that this takes.
    ///
    /// A field without a column or a row is turned down as
    /// `InvalidDimensions`, and so is one with more cells than a `usize`
    /// can count.
    pub fn new(width: usize, height: usize) -> (made: Result<Game, GameError>)
        ensures
            made is Ok <==> valid_dimensions(width, height),
            made matches Err(error) ==> error == GameError::InvalidDimensions,
            made matches Ok(game) ==> {
                &&& game@.untouched()
                &&& game@.width() == width
                &&& game@.height() == height
                &&& counts_exact(game@.field)
                &&& count_grid(game@.field, with_bomb()) == bomb_budget(width as nat, height as nat)
                &&& game@.bombs.len() == bomb_budget(width as nat, height as nat)
                &&& game@.hidden_empty == width * height - bomb_budget(width as nat, height as nat)
            },
    {
        if width == 0 || height == 0 {
            return Err(GameError::InvalidDimensions);
        }
        let total = match width.checked_mul(height) {
            Some(total) => total,
            None => {
                return Err(GameError::InvalidDimensions);
            },
        };
        let budget = budget_for(total);
        let mut rng = rand::thread_rng();
        let mut game = Game::blank(width, height);
        while game.bombs.len() < budget
            invariant
                width >= 1,
                height >= 1,
                total == width * height,
                budget < total,
                game@.covered(),
                game@.width() == width,
                game@.height() == height,
                game@.bombs.len() <= budget,
                game@.hidden_empty == total - game@.bombs.len(),
            decreases budget - game@.bombs.len(),
        {
            let ghost laid = game@.bombs.len();
            let mut placed = false;
            let mut draws: usize = 0;
            while !placed && draws < MAX_DRAWS
                invariant
                    draws <= MAX_DRAWS,
                    width >= 1,
                    height >= 1,
                    game@.covered(),
                    game@.width() == width,
                    game@.height() == height,
                    game@.bombs.len() == laid + if placed { 1nat } else { 0nat },
                    game@.hidden_empty == total - game@.bombs.len(),
                    laid < total,
                decreases MAX_DRAWS - draws,
            {
                let x = draw_below(&mut rng, width);
                let y = draw_below(&mut rng, height);
                placed = game.place_bomb(x, y);
                draws += 1;
            }
            if !placed {
                game.place_first_free();
            }
        }
        Ok(game)
    }
}

impl Default for Game {
    /// A new game on a field of 16 by 16 cells, with the cell in the
    /// middle discovered for a start.
    fn default() -> (game: Game)
        ensures
            game.wf(),
            game@.width() == 16,
            game@.height() == 16,
            game@.bombs.len() == 38,
            exists|fresh: GameView|
                #![trigger fresh.discover(7, 7)]
                fresh.untouched() && fresh.width() == 16 && fresh.height() == 16
                    && fresh.bombs.len() == 38 && game@ == fresh.discover(7, 7),
    {
        match Game::new(16, 16) {
            Ok(mut game) => {
                let _ = game.discover(&7, &7);
                game
            },
            Err(_) => vstd::pervasive::unreached(),
        }
    }
}

} // verus!
