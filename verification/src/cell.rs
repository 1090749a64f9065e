//! The state of a single position of the grid, and the rule that carries it
//! from one generation to the next.

use vstd::prelude::*;

verus! {

/// A position of the grid is either dead or alive.
#[derive(Clone, Copy, Debug, PartialEq, Eq, Structural)]
pub enum Cell {
    Dead,
    Alive,
}

/// Bit pattern of the IEEE-754 double `0.5`.
///
/// For doubles in the range `[0, 1)` the order of the bit patterns, read as
/// unsigned integers, is the order of the numbers, so a draw from that range
/// lies below one half exactly when its pattern lies below this one.
pub const HALF_BITS: u64 = 0x3FE0_0000_0000_0000;

impl Cell {
    /// What a cell adds to the neighbour count of the cells around it.
    pub open spec fn weight(self) -> nat {
        match self {
            Cell::Dead => 0,
            Cell::Alive => 1,
        }
    }

    /// The opposite state.
    pub open spec fn toggled(self) -> Cell {
        match self {
            Cell::Dead => Cell::Alive,
            Cell::Alive => Cell::Dead,
        }
    }

    /// The state of a cell in the next generation, given how many of its
    /// eight neighbours are alive now: a live cell survives with two or three
    /// live neighbours, a dead cell comes alive with exactly three.
    pub open spec fn next_state(self, live_neighbors: nat) -> Cell {
        match self {
            Cell::Alive => if live_neighbors == 2 || live_neighbors == 3 {
                Cell::Alive
            } else {
                Cell::Dead
            },
            Cell::Dead => if live_neighbors == 3 {
                Cell::Alive
            } else {
                Cell::Dead
            },
        }
    }

    /// The state that a uniform draw from `[0, 1)`, given by its bit pattern,
    /// assigns to a cell: alive when the draw is below one half.
    pub open spec fn of_draw(bits: u64) -> Cell {
        if bits < HALF_BITS {
            Cell::Alive
        } else {
            Cell::Dead
        }
    }

    /// Flips the cell in place.
    pub fn toggle(&mut self)
        ensures
            *final(self) == old(self).toggled(),
    {
        *self = match *self {
            Cell::Dead => Cell::Alive,
            Cell::Alive => Cell::Dead,
        };
    }

    /// Applies the transition rule to one cell.
    pub fn evolve(self, live_neighbors: u8) -> (next: Cell)
        ensures
            next == self.next_state(live_neighbors as nat),
    {
        match self {
            Cell::Alive => {
                if live_neighbors < 2 {
                    // underpopulation
                    Cell::Dead
                } else if live_neighbors <= 3 {
                    Cell::Alive
                } else {
                    // overpopulation
                    Cell::Dead
                }
            },
            Cell::Dead => {
                if live_neighbors == 3 {
                    // reproduction
                    Cell::Alive
                } else {
                    Cell::Dead
                }
            },
        }
    }

    /// Turns one uniform draw from `[0, 1)`, given by its bit pattern, into a
    /// cell that is alive with probability one half.
    pub fn from_draw(bits: u64) -> (cell: Cell)
        ensures
            cell == Cell::of_draw(bits),
    {
        if bits < HALF_BITS {
            Cell::Alive
        } else {
            Cell::Dead
        }
    }

    /// `1` for a live cell, `0` for a dead one.
    pub fn count(self) -> (n: u8)
        ensures
            n == self.weight(),
    {
        match self {
            Cell::Dead => 0,
            Cell::Alive => 1,
        }
    }
}

} // verus!
