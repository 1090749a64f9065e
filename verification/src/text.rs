//! The universe as text: one line for each row, one symbol for each cell.

use vstd::prelude::*;
use vstd::arithmetic::div_mod::lemma_fundamental_div_mod_converse;
use crate::cell::Cell;
use crate::grid::Grid;
use crate::universe::Universe;

verus! {

/// The symbol of a dead cell, a white square.
pub const DEAD_SYMBOL: char = '\u{25FB}';

/// The symbol of a live cell, a black square.
pub const ALIVE_SYMBOL: char = '\u{25FC}';

impl Cell {
    /// The symbol that stands for the cell in text.
    pub open spec fn symbol(self) -> char {
        match self {
            Cell::Dead => DEAD_SYMBOL,
            Cell::Alive => ALIVE_SYMBOL,
        }
    }
}

impl Grid {
    /// The length of a line of text: one symbol for each column, and the
    /// line feed.
    pub open spec fn line(self) -> int {
        self.width as int + 1
    }

    /// The grid as text: the rows from first to last, each one the symbols of
    /// its cells followed by a line feed.
    pub open spec fn text(self) -> Seq<char> {
        Seq::new(
            (self.height * self.line()) as nat,
            |k: int|
                if k % self.line() == self.width {
                    '\n'
                } else {
                    self.at(k / self.line(), k % self.line()).symbol()
                },
        )
    }
}

impl Universe {
    /// The universe as text, for a log or a terminal.
    pub fn render_to_string(&self) -> (text: String)
        requires
            self.wf(),
        ensures
            text@ == self@.text(),
    {
        let ghost grid = self@;
        let ghost line = grid.line();
        let height = self.height();
        let width = self.width();
        let mut text = String::new();
        let mut row: u32 = 0;
        proof {
            reveal_strlit("\u{25FB}");
            reveal_strlit("\u{25FC}");
            reveal_strlit("\n");
        }
        while row < height
            invariant
                self.wf(),
                grid == self@,
                line == grid.line(),
                height == grid.height,
                width == grid.width,
                row <= height,
                text@.len() == row * line,
                forall|k: int| 0 <= k < text@.len() ==> text@[k] == grid.text()[k],
                "\u{25FB}"@ == seq![DEAD_SYMBOL],
                "\u{25FC}"@ == seq![ALIVE_SYMBOL],
                "\n"@ == seq!['\n'],
            decreases height - row,
        {
            let mut col: u32 = 0;
            while col < width
                invariant
                    self.wf(),
                    grid == self@,
                    line == grid.line(),
                    height == grid.height,
                    width == grid.width,
                    row < height,
                    col <= width,
                    text@.len() == row * line + col,
                    forall|k: int| 0 <= k < text@.len() ==> text@[k] == grid.text()[k],
                    "\u{25FB}"@ == seq![DEAD_SYMBOL],
                    "\u{25FC}"@ == seq![ALIVE_SYMBOL],
                    "\n"@ == seq!['\n'],
                decreases width - col,
            {
                proof {
                    lemma_text_position(grid, row as int, col as int);
                }
                match self.get_cell(row, col) {
                    Cell::Dead => text.append("\u{25FB}"),
                    Cell::Alive => text.append("\u{25FC}"),
                }
                col += 1;
            }
            proof {
                lemma_text_position(grid, row as int, width as int);
                assert((row + 1) * line == row * line + line) by (nonlinear_arith);
            }
            text.append("\n");
            row += 1;
        }
        proof {
            assert(height * line == grid.height * (grid.width + 1)) by (nonlinear_arith)
                requires
                    height == grid.height,
                    line == grid.line(),
            ;
            assert(text@ =~= grid.text());
        }
        text
    }
}

/// Where the symbol of the cell at `(row, col)` stands in the text; `col`
/// may be the width, which names the line feed that ends the row.
proof fn lemma_text_position(grid: Grid, row: int, col: int)
    requires
        grid.wf(),
        0 <= row < grid.height,
        0 <= col <= grid.width,
    ensures
        0 <= row * grid.line() + col < grid.height * grid.line(),
        (row * grid.line() + col) / grid.line() == row,
        (row * grid.line() + col) % grid.line() == col,
{
    let line = grid.line();
    lemma_fundamental_div_mod_converse(row * line + col, line, row, col);
    assert(0 <= row * line + col < grid.height * line) by (nonlinear_arith)
        requires
            0 <= row < grid.height,
            0 <= col < line,
    ;
}

} // verus!
