//! Cells of the mine field: what a cell holds and how much of it is shown.

use vstd::prelude::*;

verus! {

/// What lies under a cell. It is fixed when the field is laid out; the
/// moves of a game change what is seen of it and nothing else.
#[derive(Clone, Copy, Debug, PartialEq, Eq, Structural)]
pub enum Item {
    /// A bomb.
    Bomb,
    /// No bomb, and the number of bombs among the up to eight neighbours.
    Empty(u8),
}

/// A cell of the field: its visibility, wrapped around its content.
#[derive(Clone, Copy, Debug, PartialEq, Eq, Structural)]
pub enum Cell {
    /// Not yet discovered.
    Hidden(Item),
    /// Not yet discovered, and pinned as a suspected bomb: a pinned cell
    /// cannot be discovered.
    Pin(Item),
    /// Discovered: its content is there to see.
    Discovered(Item),
}

/// What a player gets to see of a cell: its content only once it is
/// discovered.
#[derive(Clone, Copy, Debug, PartialEq, Eq, Structural)]
pub enum Face {
    /// Hidden, without a pin.
    Covered,
    /// Hidden under a pin.
    Pinned,
    /// A discovered bomb.
    Bomb,
    /// A discovered cell with no bomb around it.
    Blank,
    /// A discovered cell with that many bombs around it, at least one.
    Number(u8),
}

impl Cell {
    /// The content of the cell, whatever its visibility.
    pub open spec fn item(self) -> Item {
        match self {
            Cell::Hidden(item) => item,
            Cell::Pin(item) => item,
            Cell::Discovered(item) => item,
        }
    }

    /// What the cell shows.
    pub open spec fn shown(self) -> Face {
        match self {
            Cell::Hidden(_) => Face::Covered,
            Cell::Pin(_) => Face::Pinned,
            Cell::Discovered(Item::Bomb) => Face::Bomb,
            Cell::Discovered(Item::Empty(n)) => if n == 0 {
                Face::Blank
            } else {
                Face::Number(n)
            },
        }
    }

    /// The content of the cell, whatever its visibility.
    pub fn get_item(&self) -> (item: Item)
        ensures
            item == self.item(),
    {
        match self {
            Cell::Hidden(item) | Cell::Pin(item) | Cell::Discovered(item) => *item,
        }
    }

    /// The same content, discovered.
    pub fn turn_discovered(&self) -> (cell: Cell)
        ensures
            cell == Cell::Discovered(self.item()),
    {
        Cell::Discovered(self.get_item())
    }

    /// What a player gets to see of the cell.
    pub fn face(&self) -> (face: Face)
        ensures
            face == self.shown(),
    {
        match self {
            Cell::Hidden(_) => Face::Covered,
            Cell::Pin(_) => Face::Pinned,
            Cell::Discovered(item) => match item {
                Item::Bomb => Face::Bomb,
                Item::Empty(count) => {
                    if *count == 0 {
                        Face::Blank
                    } else {
                        Face::Number(*count)
                    }
                },
            },
        }
    }
}

} // verus!
