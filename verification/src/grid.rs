//! The mathematical model of the universe: a torus of cells.
//!
//! A [`Grid`] is a ghost value. It says what a universe holds and what the
//! operations on it mean; the executable code is proved against it.

use vstd::prelude::*;
use vstd::arithmetic::div_mod::{
    lemma_fundamental_div_mod, lemma_fundamental_div_mod_converse, lemma_mod_bound,
};
use crate::cell::Cell;
use crate::ring::{
    in_span, lemma_in_span_full, lemma_in_span_wraps, lemma_wrap_add, lemma_wrap_around,
    lemma_wrap_basics, ring_next, ring_prev, wrap,
};

verus! {

/// A rectangular torus of cells, stored row by row.
#[verifier::ext_equal]
pub struct Grid {
    pub width: nat,
    pub height: nat,
    pub cells: Seq<Cell>,
}

impl Grid {
    /// Both dimensions are positive and `cells` holds one cell per position.
    pub open spec fn wf(self) -> bool {
        &&& self.width > 0
        &&& self.height > 0
        &&& self.cells.len() == self.width * self.height
    }

    /// The grid of the given dimensions in which nothing lives.
    pub open spec fn dead(width: nat, height: nat) -> Grid {
        Grid { width, height, cells: Seq::new(width * height, |i: int| Cell::Dead) }
    }

    /// Where the cell at `(row, col)` stands in `cells`. Both coordinates wrap
    /// around: every pair of integers names a cell.
    pub open spec fn index(self, row: int, col: int) -> int {
        wrap(row, self.height) * self.width + wrap(col, self.width)
    }

    /// The row of the cell stored at position `i`.
    pub open spec fn row_of(self, i: int) -> int {
        i / (self.width as int)
    }

    /// The column of the cell stored at position `i`.
    pub open spec fn col_of(self, i: int) -> int {
        i % (self.width as int)
    }

    /// The cell at `(row, col)`, coordinates wrapping around.
    pub open spec fn at(self, row: int, col: int) -> Cell {
        self.cells[self.index(row, col)]
    }

    /// How many of the eight cells around `(row, col)` are alive.
    pub open spec fn live_neighbors(self, row: int, col: int) -> nat {
        self.at(row - 1, col - 1).weight() + self.at(row - 1, col).weight() + self.at(
            row - 1,
            col + 1,
        ).weight() + self.at(row, col - 1).weight() + self.at(row, col + 1).weight() + self.at(
            row + 1,
            col - 1,
        ).weight() + self.at(row + 1, col).weight() + self.at(row + 1, col + 1).weight()
    }

    /// The next generation: every cell follows the rule, all of them judged
    /// by the neighbours they have in `self`.
    pub open spec fn step(self) -> Grid {
        Grid {
            width: self.width,
            height: self.height,
            cells: Seq::new(
                self.cells.len(),
                |i: int|
                    self.cells[i].next_state(self.live_neighbors(self.row_of(i), self.col_of(i))),
            ),
        }
    }

    /// The grid after `n` generations.
    pub open spec fn steps(self, n: nat) -> Grid
        decreases n,
    {
        if n == 0 {
            self
        } else {
            self.step().steps((n - 1) as nat)
        }
    }

    /// Whether one of `coords` names the cell stored at position `i`.
    pub open spec fn lists(self, coords: Seq<(int, int)>, i: int) -> bool {
        exists|k: int| 0 <= k < coords.len() && self.index(#[trigger] coords[k].0, coords[k].1) == i
    }

    /// The grid with every cell that `coords` names alive and the others as
    /// they were.
    pub open spec fn with_alive(self, coords: Seq<(int, int)>) -> Grid {
        Grid {
            width: self.width,
            height: self.height,
            cells: Seq::new(
                self.cells.len(),
                |i: int|
                    if self.lists(coords, i) {
                        Cell::Alive
                    } else {
                        self.cells[i]
                    },
            ),
        }
    }

    /// Whether the cell at `(row, col)` lies in the rectangle of `box_height`
    /// rows and `box_width` columns whose first cell is `(top, left)`, the
    /// rectangle wrapping around the edges.
    pub open spec fn covers(
        self,
        top: int,
        left: int,
        box_width: int,
        box_height: int,
        row: int,
        col: int,
    ) -> bool {
        in_span(top, box_height, self.height, row) && in_span(left, box_width, self.width, col)
    }

    /// The grid with every cell of that rectangle dead and the others as they
    /// were.
    pub open spec fn cleared(self, top: int, left: int, box_width: int, box_height: int) -> Grid {
        Grid {
            width: self.width,
            height: self.height,
            cells: Seq::new(
                self.cells.len(),
                |i: int|
                    if self.covers(
                        top,
                        left,
                        box_width,
                        box_height,
                        self.row_of(i),
                        self.col_of(i),
                    ) {
                        Cell::Dead
                    } else {
                        self.cells[i]
                    },
            ),
        }
    }

    /// The grid with the cell at `(row, col)` replaced by `cell`.
    pub open spec fn with_cell(self, row: int, col: int, cell: Cell) -> Grid {
        Grid {
            width: self.width,
            height: self.height,
            cells: self.cells.update(self.index(row, col), cell),
        }
    }

    /// The grid with the cell at `(row, col)` flipped.
    pub open spec fn toggled(self, row: int, col: int) -> Grid {
        self.with_cell(row, col, self.at(row, col).toggled())
    }

    /// The grid in which the cell stored at position `i` is what the `i`-th
    /// draw makes of it, and dead where the draws have run out. A draw is the
    /// bit pattern of a number from `[0, 1)`.
    pub open spec fn populated(self, draws: Seq<u64>) -> Grid {
        Grid {
            width: self.width,
            height: self.height,
            cells: Seq::new(
                self.cells.len(),
                |i: int|
                    if i < draws.len() {
                        Cell::of_draw(draws[i])
                    } else {
                        Cell::Dead
                    },
            ),
        }
    }
}

impl Grid {
    /// Every pair of coordinates names a position of `cells`, and wrapping the
    /// coordinates first changes nothing.
    pub proof fn lemma_index_bounds(self, row: int, col: int)
        requires
            self.wf(),
        ensures
            0 <= self.index(row, col) < self.cells.len(),
            self.index(row, col) == self.index(wrap(row, self.height), wrap(col, self.width)),
            self.row_of(self.index(row, col)) == wrap(row, self.height),
            self.col_of(self.index(row, col)) == wrap(col, self.width),
    {
        let r = wrap(row, self.height);
        let c = wrap(col, self.width);
        let w = self.width as int;
        let h = self.height as int;
        lemma_wrap_basics(row, self.height);
        lemma_wrap_basics(col, self.width);
        assert(r * w + c < h * w) by (nonlinear_arith)
            requires
                0 <= r < h,
                0 <= c < w,
        ;
        assert(0 <= r * w + c) by (nonlinear_arith)
            requires
                0 <= r,
                0 <= c,
                0 < w,
        ;
        assert(h * w == self.width * self.height) by (nonlinear_arith)
            requires
                h == self.height,
                w == self.width,
        ;
        lemma_fundamental_div_mod_converse(r * w + c, w, r, c);
    }

    /// A cell is found under its wrapped coordinates too.
    pub proof fn lemma_at_wraps(self, row: int, col: int)
        requires
            self.wf(),
        ensures
            self.at(row, col) == self.at(wrap(row, self.height), wrap(col, self.width)),
    {
        self.lemma_index_bounds(row, col);
    }

    /// The neighbour count written over coordinates in range: the cells
    /// around `(row, col)` are those around the wrapped position, found with
    /// the ring's predecessor and successor.
    pub proof fn lemma_live_neighbors(self, row: int, col: int)
        requires
            self.wf(),
        ensures
            self.live_neighbors(row, col) <= 8,
            self.live_neighbors(row, col) == ({
                let r = wrap(row, self.height);
                let c = wrap(col, self.width);
                let north = ring_prev(r, self.height);
                let south = ring_next(r, self.height);
                let west = ring_prev(c, self.width);
                let east = ring_next(c, self.width);
                self.at(north, west).weight() + self.at(north, c).weight() + self.at(
                    north,
                    east,
                ).weight() + self.at(r, west).weight() + self.at(r, east).weight() + self.at(
                    south,
                    west,
                ).weight() + self.at(south, c).weight() + self.at(south, east).weight()
            }),
    {
        lemma_wrap_around(row, self.height);
        lemma_wrap_around(col, self.width);
        self.lemma_at_wraps(row - 1, col - 1);
        self.lemma_at_wraps(row - 1, col);
        self.lemma_at_wraps(row - 1, col + 1);
        self.lemma_at_wraps(row, col - 1);
        self.lemma_at_wraps(row, col + 1);
        self.lemma_at_wraps(row + 1, col - 1);
        self.lemma_at_wraps(row + 1, col);
        self.lemma_at_wraps(row + 1, col + 1);
    }

    /// Every position of `cells` is named by its row and its column, both in
    /// range.
    pub proof fn lemma_position(self, i: int)
        requires
            self.wf(),
            0 <= i < self.cells.len(),
        ensures
            0 <= self.row_of(i) < self.height,
            0 <= self.col_of(i) < self.width,
            self.index(self.row_of(i), self.col_of(i)) == i,
            self.at(self.row_of(i), self.col_of(i)) == self.cells[i],
    {
        let w = self.width as int;
        let h = self.height as int;
        lemma_fundamental_div_mod(i, w);
        lemma_mod_bound(i, w);
        let r = i / w;
        let c = i % w;
        assert(w * r == r * w) by (nonlinear_arith);
        assert(0 <= r < h) by (nonlinear_arith)
            requires
                0 <= i < w * h,
                i == r * w + c,
                0 <= c < w,
                self.cells.len() == w * h,
        ;
        lemma_wrap_basics(r, self.height);
        lemma_wrap_basics(c, self.width);
    }

    /// Two pairs of coordinates name the same position exactly when they wrap
    /// to the same row and the same column.
    pub proof fn lemma_index_same(self, row: int, col: int, other_row: int, other_col: int)
        requires
            self.wf(),
        ensures
            self.index(row, col) == self.index(other_row, other_col) <==> (wrap(row, self.height)
                == wrap(other_row, self.height) && wrap(col, self.width) == wrap(
                other_col,
                self.width,
            )),
    {
        self.lemma_index_bounds(row, col);
        self.lemma_index_bounds(other_row, other_col);
    }

    /// Listing one more pair of coordinates adds the position that the pair
    /// names, and no other.
    pub proof fn lemma_lists_step(self, coords: Seq<(int, int)>, n: int, i: int)
        requires
            0 <= n < coords.len(),
        ensures
            self.lists(coords.take(n + 1), i) <==> self.lists(coords.take(n), i) || self.index(
                coords[n].0,
                coords[n].1,
            ) == i,
            !self.lists(coords.take(0), i),
    {
        let shorter = coords.take(n);
        let longer = coords.take(n + 1);
        if self.lists(longer, i) {
            let k = choose|k: int|
                0 <= k < longer.len() && self.index(#[trigger] longer[k].0, longer[k].1) == i;
            if k < n {
                assert(self.index(shorter[k].0, shorter[k].1) == i);
            }
        }
        if self.lists(shorter, i) {
            let k = choose|k: int|
                0 <= k < shorter.len() && self.index(#[trigger] shorter[k].0, shorter[k].1) == i;
            assert(self.index(longer[k].0, longer[k].1) == i);
        }
        if self.index(coords[n].0, coords[n].1) == i {
            assert(self.index(longer[n].0, longer[n].1) == i);
        }
    }

    /// Making alive what one more pair of coordinates names is making one
    /// more cell alive.
    pub proof fn lemma_with_alive_step(self, coords: Seq<(int, int)>, n: int)
        requires
            self.wf(),
            0 <= n < coords.len(),
        ensures
            self.with_alive(coords.take(n + 1)) == self.with_alive(coords.take(n)).with_cell(
                coords[n].0,
                coords[n].1,
                Cell::Alive,
            ),
            self.with_alive(coords.take(0)) == self,
            self.with_alive(coords.take(coords.len() as int)) == self.with_alive(coords),
    {
        let longer = self.with_alive(coords.take(n + 1));
        let shorter = self.with_alive(coords.take(n));
        let stepped = shorter.with_cell(coords[n].0, coords[n].1, Cell::Alive);
        self.lemma_index_bounds(coords[n].0, coords[n].1);
        assert forall|i: int| 0 <= i < self.cells.len() implies longer.cells[i]
            == stepped.cells[i] by {
            self.lemma_lists_step(coords, n, i);
        }
        assert(longer.cells =~= stepped.cells);
        assert forall|i: int| 0 <= i < self.cells.len() implies self.with_alive(
            coords.take(0),
        ).cells[i] == self.cells[i] by {
            self.lemma_lists_step(coords, n, i);
        }
        assert(self.with_alive(coords.take(0)).cells =~= self.cells);
        assert(coords.take(coords.len() as int) =~= coords);
    }

    /// Two lists of coordinates that name the same positions, pair by pair,
    /// make the same cells alive.
    pub proof fn lemma_with_alive_same(self, coords: Seq<(int, int)>, others: Seq<(int, int)>)
        requires
            self.wf(),
            coords.len() == others.len(),
            forall|k: int|
                0 <= k < coords.len() ==> self.index(#[trigger] coords[k].0, coords[k].1)
                    == self.index(others[k].0, others[k].1),
        ensures
            self.with_alive(coords) == self.with_alive(others),
    {
        assert forall|i: int| 0 <= i < self.cells.len() implies self.lists(coords, i)
            == self.lists(others, i) by {
            if self.lists(coords, i) {
                let k = choose|k: int|
                    0 <= k < coords.len() && self.index(#[trigger] coords[k].0, coords[k].1) == i;
                assert(self.index(others[k].0, others[k].1) == i);
            }
            if self.lists(others, i) {
                let k = choose|k: int|
                    0 <= k < others.len() && self.index(#[trigger] others[k].0, others[k].1) == i;
                assert(self.index(coords[k].0, coords[k].1) == i);
            }
        }
        assert(self.with_alive(coords).cells =~= self.with_alive(others).cells);
    }

    /// A rectangle is the same wherever on the torus its first cell is named.
    pub proof fn lemma_cleared_wraps(self, top: int, left: int, box_width: int, box_height: int)
        requires
            self.wf(),
        ensures
            self.cleared(wrap(top, self.height), wrap(left, self.width), box_width, box_height)
                == self.cleared(top, left, box_width, box_height),
    {
        let a = self.cleared(wrap(top, self.height), wrap(left, self.width), box_width, box_height);
        let b = self.cleared(top, left, box_width, box_height);
        assert forall|i: int| 0 <= i < self.cells.len() implies a.cells[i] == b.cells[i] by {
            lemma_in_span_wraps(top, box_height, self.height, self.row_of(i));
            lemma_in_span_wraps(left, box_width, self.width, self.col_of(i));
        }
        assert(a.cells =~= b.cells);
    }

    /// A rectangle as large as the grid leaves nothing alive.
    pub proof fn lemma_cleared_all(self, top: int, left: int, box_width: int, box_height: int)
        requires
            self.wf(),
            box_width >= self.width,
            box_height >= self.height,
        ensures
            self.cleared(top, left, box_width, box_height) == Grid::dead(self.width, self.height),
    {
        let a = self.cleared(top, left, box_width, box_height);
        let b = Grid::dead(self.width, self.height);
        assert forall|i: int| 0 <= i < self.cells.len() implies a.cells[i] == b.cells[i] by {
            self.lemma_position(i);
            lemma_in_span_full(top, box_height, self.height, self.row_of(i));
            lemma_in_span_full(left, box_width, self.width, self.col_of(i));
        }
        assert(a.cells =~= b.cells);
    }

    /// Two grids of the same dimensions that agree cell by cell are the same
    /// grid.
    pub proof fn lemma_equal_by_cells(self, other: Grid)
        requires
            self.wf(),
            other.wf(),
            self.width == other.width,
            self.height == other.height,
            forall|row: int, col: int|
                0 <= row < self.height && 0 <= col < self.width ==> self.at(row, col) == other.at(
                    row,
                    col,
                ),
        ensures
            self == other,
    {
        assert forall|i: int| 0 <= i < self.cells.len() implies self.cells[i] == other.cells[i] by {
            self.lemma_position(i);
            other.lemma_position(i);
            let row = self.row_of(i);
            let col = self.col_of(i);
            assert(self.at(row, col) == other.at(row, col));
        }
        assert(self.cells =~= other.cells);
    }
}

} // verus!
