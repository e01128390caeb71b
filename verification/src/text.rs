//! A game written out as text: the state, then the field row by row, three
//! characters to a cell with a single digit.

use crate::cell::{Cell, Item};
use crate::game::Game;
use crate::grid::{grid_of, Grid};
use crate::model::{GameState, GameView};
use vstd::prelude::*;
use vstd::string::StringExecFns;

verus! {

/// The digit `d`, for `d` below ten.
pub open spec fn digit_text(d: nat) -> Seq<char> {
    if d == 0 {
        "0"@
    } else if d == 1 {
        "1"@
    } else if d == 2 {
        "2"@
    } else if d == 3 {
        "3"@
    } else if d == 4 {
        "4"@
    } else if d == 5 {
        "5"@
    } else if d == 6 {
        "6"@
    } else if d == 7 {
        "7"@
    } else if d == 8 {
        "8"@
    } else {
        "9"@
    }
}

/// The number `n` in decimal digits, without leading zeros.
pub open spec fn decimal(n: nat) -> Seq<char>
    decreases n,
{
    if n < 10 {
        digit_text(n)
    } else {
        decimal(n / 10) + digit_text(n % 10)
    }
}

/// A cell as text: `_` while hidden, `I` under a pin, `H` for a discovered
/// bomb, else the number of bombs around; a space on each side.
pub open spec fn cell_text(c: Cell) -> Seq<char> {
    match c {
        Cell::Hidden(_) => " _ "@,
        Cell::Pin(_) => " I "@,
        Cell::Discovered(Item::Bomb) => " H "@,
        Cell::Discovered(Item::Empty(n)) => " "@ + decimal(n as nat) + " "@,
    }
}

/// The cells of a row, one after the other.
pub open spec fn row_text(row: Seq<Cell>) -> Seq<char>
    decreases row.len(),
{
    if row.len() == 0 {
        Seq::empty()
    } else {
        row_text(row.drop_last()) + cell_text(row.last())
    }
}

/// The rows of a field, each followed by a line break.
pub open spec fn field_text(g: Grid) -> Seq<char>
    decreases g.len(),
{
    if g.len() == 0 {
        Seq::empty()
    } else {
        field_text(g.drop_last()) + row_text(g.last()) + "\n"@
    }
}

/// The name of a state.
pub open spec fn state_text(state: GameState) -> Seq<char> {
    match state {
        GameState::Playing => "Playing"@,
        GameState::Win => "Win"@,
        GameState::Loss => "Loss"@,
    }
}

impl GameView {
    /// The game as text.
    pub open spec fn text(self) -> Seq<char> {
        "State: "@ + state_text(self.state) + "; Field:\n"@ + field_text(self.field)
    }
}

/// The digit `d` as text.
fn digit(d: u8) -> (text: &'static str)
    requires
        d < 10,
    ensures
        text@ == digit_text(d as nat),
{
    match d {
        0 => "0",
        1 => "1",
        2 => "2",
        3 => "3",
        4 => "4",
        5 => "5",
        6 => "6",
        7 => "7",
        8 => "8",
        _ => "9",
    }
}

/// Writes `n` in decimal digits at the end of `text`.
fn push_decimal(text: &mut String, n: u8)
    ensures
        final(text)@ == old(text)@ + decimal(n as nat),
{
    proof {
        reveal_with_fuel(decimal, 3);
    }
    if n >= 100 {
        text.append(digit(n / 100));
    }
    if n >= 10 {
        text.append(digit((n / 10) % 10));
    }
    text.append(digit(n % 10));
}

/// The name of `state`.
fn state_name(state: GameState) -> (name: &'static str)
    ensures
        name@ == state_text(state),
{
    match state {
        GameState::Playing => "Playing",
        GameState::Win => "Win",
        GameState::Loss => "Loss",
    }
}

impl Game {
    /// The game as text: `State: `, the state's name, `; Field:` and a line
    /// break, then one line for each row of the field. A cell takes three
    /// characters where its number has one digit: a space, its sign, a
    /// space. The sign is `_` for a hidden cell, `I` for a pin, `H` for a
    /// discovered bomb, and the number of bombs around for any other
    /// discovered cell.
    pub fn describe(&self) -> (text: String)
        ensures
            text@ == self@.text(),
    {
        let mut text = String::from_str("State: ");
        text.append(state_name(self.state));
        text.append("; Field:\n");
        let ghost head = text@;
        let ghost g = grid_of(self.field@);
        let mut y: usize = 0;
        while y < self.field.len()
            invariant
                y <= self.field@.len(),
                g == grid_of(self.field@),
                text@ == head + field_text(g.take(y as int)),
            decreases self.field@.len() - y,
        {
            let row = &self.field[y];
            let ghost done = text@;
            let mut x: usize = 0;
            while x < row.len()
                invariant
                    x <= row@.len(),
                    text@ == done + row_text(row@.take(x as int)),
                decreases row@.len() - x,
            {
                match row[x] {
                    Cell::Hidden(_) => {
                        text.append(" _ ");
                    },
                    Cell::Pin(_) => {
                        text.append(" I ");
                    },
                    Cell::Discovered(item) => {
                        match item {
                            Item::Bomb => {
                                text.append(" H ");
                            },
                            Item::Empty(i) => {
                                text.append(" ");
                                push_decimal(&mut text, i);
                                text.append(" ");
                            },
                        }
                    },
                }
                proof {
                    let next = row@.take(x + 1);
                    assert(next.drop_last() =~= row@.take(x as int));
                }
                x += 1;
            }
            text.append("\n");
            proof {
                assert(row@.take(x as int) =~= row@);
                let next = g.take(y + 1);
                assert(next.drop_last() =~= g.take(y as int));
            }
            y += 1;
        }
        proof {
            assert(g.take(y as int) =~= g);
        }
        text
    }
}

} // verus!
