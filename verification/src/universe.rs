//! The engine: a universe held in memory, advanced one generation at a time.

use vstd::prelude::*;
use crate::cell::Cell;
use crate::error::{check_dimensions, valid_dimensions, GridError, MAX_CELLS};
use crate::grid::Grid;
use crate::random::random_bits;
use crate::ring::{
    in_span, lemma_in_span_step, lemma_wrap_around, lemma_wrap_basics, wrap, wrapping_sum,
};

verus! {

/// The width of the universe that [`Universe::new`] makes.
pub const DEFAULT_WIDTH: u32 = 192;

/// The height of the universe that [`Universe::new`] makes.
pub const DEFAULT_HEIGHT: u32 = 128;

/// The edge, in pixels, at which a fresh universe asks to have its cells
/// drawn.
pub const DEFAULT_SIZE: u8 = 5;

/// A universe of cells on a torus.
///
/// Two buffers of equal length are kept. `cells` holds the generation that
/// counts; `scratch` is where the next one is written, so that no cell is
/// judged by a neighbour that has already moved on. Its contents mean nothing
/// between two ticks.
pub struct Universe {
    width: u32,
    height: u32,
    size: u8,
    cells: Vec<Cell>,
    scratch: Vec<Cell>,
}

impl View for Universe {
    type V = Grid;

    closed spec fn view(&self) -> Grid {
        Grid { width: self.width as nat, height: self.height as nat, cells: self.cells@ }
    }
}

impl Universe {
    /// The scratch buffer has room for one generation.
    pub closed spec fn scratch_fits(&self) -> bool {
        self.scratch.len() == self.cells.len()
    }

    /// The invariant of the engine: the grid it holds is well formed and
    /// small enough to be addressed.
    pub open spec fn wf(&self) -> bool {
        &&& self@.wf()
        &&& self@.width <= u32::MAX
        &&& self@.height <= u32::MAX
        &&& self@.cells.len() <= MAX_CELLS
        &&& self.scratch_fits()
    }

    /// The edge, in pixels, at which the cells ask to be drawn.
    pub closed spec fn spec_size(&self) -> u8 {
        self.size
    }

    /// A universe of the default dimensions in which nothing lives.
    pub fn new() -> (universe: Universe)
        ensures
            universe.wf(),
            universe@ == Grid::dead(DEFAULT_WIDTH as nat, DEFAULT_HEIGHT as nat),
            universe.spec_size() == DEFAULT_SIZE,
    {
        let area: usize = (DEFAULT_WIDTH as usize) * (DEFAULT_HEIGHT as usize);
        let universe = Universe {
            width: DEFAULT_WIDTH,
            height: DEFAULT_HEIGHT,
            size: DEFAULT_SIZE,
            cells: vec![Cell::Dead; area],
            scratch: vec![Cell::Dead; area],
        };
        assert(universe@.cells =~= Grid::dead(DEFAULT_WIDTH as nat, DEFAULT_HEIGHT as nat).cells);
        universe
    }

    /// A universe of `width` columns and `height` rows in which nothing
    /// lives, or the reason for which there is none.
    pub fn with_dimensions(width: u32, height: u32) -> (made: Result<Universe, GridError>)
        ensures
            match made {
                Ok(universe) => {
                    &&& valid_dimensions(width, height)
                    &&& universe.wf()
                    &&& universe@ == Grid::dead(width as nat, height as nat)
                    &&& universe.spec_size() == DEFAULT_SIZE
                },
                Err(e) => GridError::of(width, height) == Some(e),
            },
    {
        match check_dimensions(width, height) {
            Ok(area) => {
                let universe = Universe {
                    width,
                    height,
                    size: DEFAULT_SIZE,
                    cells: vec![Cell::Dead; area],
                    scratch: vec![Cell::Dead; area],
                };
                assert(universe@.cells =~= Grid::dead(width as nat, height as nat).cells);
                Ok(universe)
            },
            Err(e) => Err(e),
        }
    }

    /// The number of columns.
    pub fn width(&self) -> (width: u32)
        ensures
            width == self@.width,
    {
        self.width
    }

    /// The number of rows.
    pub fn height(&self) -> (height: u32)
        ensures
            height == self@.height,
    {
        self.height
    }

    /// The edge, in pixels, at which the cells ask to be drawn.
    pub fn size(&self) -> (size: u8)
        ensures
            size == self.spec_size(),
    {
        self.size
    }

    /// Where the cell at `(row, col)` stands in the buffer.
    fn get_index(&self, row: u32, col: u32) -> (index: usize)
        requires
            self.wf(),
            row < self@.height,
            col < self@.width,
        ensures
            index == self@.index(row as int, col as int),
            index == row * self@.width + col,
            index < self@.cells.len(),
    {
        proof {
            self@.lemma_index_bounds(row as int, col as int);
            lemma_wrap_basics(row as int, self@.height);
            lemma_wrap_basics(col as int, self@.width);
        }
        (row as usize) * (self.width as usize) + (col as usize)
    }

    /// The cell at `(row, col)`. The coordinates wrap around.
    pub fn get_cell(&self, row: u32, col: u32) -> (cell: Cell)
        requires
            self.wf(),
        ensures
            cell == self@.at(row as int, col as int),
    {
        let r = row % self.height;
        let c = col % self.width;
        proof {
            self@.lemma_index_bounds(row as int, col as int);
        }
        let index = self.get_index(r, c);
        self.cells[index]
    }

    /// The cells of the whole universe, row after row.
    pub fn get_cells(&self) -> (cells: &[Cell])
        ensures
            cells@ == self@.cells,
    {
        self.cells.as_slice()
    }

    /// What the cell at `(row, col)` adds to a neighbour count.
    fn weight_at(&self, row: u32, col: u32) -> (weight: u8)
        requires
            self.wf(),
            row < self@.height,
            col < self@.width,
        ensures
            weight == self@.at(row as int, col as int).weight(),
    {
        let index = self.get_index(row, col);
        self.cells[index].count()
    }

    /// How many of the eight cells around `(row, col)` are alive. The
    /// coordinates wrap around, and so do those of the neighbours: the row
    /// above the first is the last, the column after the last is the first.
    pub fn live_neighbor_count(&self, row: u32, col: u32) -> (count: u8)
        requires
            self.wf(),
        ensures
            count == self@.live_neighbors(row as int, col as int),
            count <= 8,
    {
        proof {
            self@.lemma_live_neighbors(row as int, col as int);
            lemma_wrap_around(row as int, self@.height);
            lemma_wrap_around(col as int, self@.width);
        }
        let row = row % self.height;
        let col = col % self.width;
        let mut count: u8 = 0;

        let north = if row == 0 {
            self.height - 1
        } else {
            row - 1
        };

        let south = if row == self.height - 1 {
            0
        } else {
            row + 1
        };

        let west = if col == 0 {
            self.width - 1
        } else {
            col - 1
        };

        let east = if col == self.width - 1 {
            0
        } else {
            col + 1
        };

        count += self.weight_at(north, west);
        count += self.weight_at(north, col);
        count += self.weight_at(north, east);
        count += self.weight_at(row, west);
        count += self.weight_at(row, east);
        count += self.weight_at(south, west);
        count += self.weight_at(south, col);
        count += self.weight_at(south, east);
        count
    }

    /// Advances the universe by one generation. Every cell is judged by the
    /// neighbours it had before the call.
    pub fn tick(&mut self)
        requires
            old(self).wf(),
        ensures
            final(self).wf(),
            final(self)@ == old(self)@.step(),
            final(self).spec_size() == old(self).spec_size(),
    {
        let ghost before = self@;
        let ghost next = self@.step();
        let mut row: u32 = 0;
        while row < self.height
            invariant
                self.wf(),
                self@ == before,
                next == before.step(),
                self.spec_size() == old(self).spec_size(),
                row <= self.height,
                forall|i: int| 0 <= i < row * self.width ==> self.scratch@[i] == next.cells[i],
            decreases self.height - row,
        {
            let mut col: u32 = 0;
            while col < self.width
                invariant
                    self.wf(),
                    self@ == before,
                    next == before.step(),
                    self.spec_size() == old(self).spec_size(),
                    row < self.height,
                    col <= self.width,
                    forall|i: int|
                        0 <= i < row * self.width + col ==> self.scratch@[i] == next.cells[i],
                decreases self.width - col,
            {
                let idx = self.get_index(row, col);
                let cell = self.cells[idx];
                let live_neighbors = self.live_neighbor_count(row, col);
                let next_cell = cell.evolve(live_neighbors);
                proof {
                    before.lemma_index_bounds(row as int, col as int);
                    lemma_wrap_basics(row as int, before.height);
                    lemma_wrap_basics(col as int, before.width);
                }
                self.scratch.set(idx, next_cell);
                col += 1;
            }
            proof {
                assert((row + 1) * self.width == row * self.width + self.width)
                    by (nonlinear_arith);
            }
            row += 1;
        }
        proof {
            assert(self.scratch@ =~= next.cells);
        }
        std::mem::swap(&mut self.cells, &mut self.scratch);
    }

    /// Makes alive every cell that `cells` names by `(row, column)`. The
    /// coordinates wrap around; the other cells stay as they are.
    pub fn set_cells(&mut self, cells: &[(u32, u32)])
        requires
            old(self).wf(),
        ensures
            final(self).wf(),
            final(self)@ == old(self)@.with_alive(coordinates(cells@)),
            final(self).spec_size() == old(self).spec_size(),
    {
        let ghost before = self@;
        let ghost coords = coordinates(cells@);
        proof {
            if cells.len() > 0 {
                before.lemma_with_alive_step(coords, 0);
            } else {
                assert(coords.take(0) =~= coords);
                assert(before.with_alive(coords).cells =~= before.cells);
            }
        }
        let mut k: usize = 0;
        while k < cells.len()
            invariant
                self.wf(),
                before.wf(),
                coords == coordinates(cells@),
                self@ == before.with_alive(coords.take(k as int)),
                self.spec_size() == old(self).spec_size(),
                k <= cells.len(),
            decreases cells.len() - k,
        {
            let (row, col) = cells[k];
            proof {
                before.lemma_with_alive_step(coords, k as int);
                self@.lemma_index_bounds(row as int, col as int);
            }
            let idx = self.get_index(row % self.height, col % self.width);
            self.cells.set(idx, Cell::Alive);
            k += 1;
        }
        proof {
            assert(coords.take(cells.len() as int) =~= coords);
        }
    }

    /// Flips the cell at `(row, col)`. The coordinates wrap around.
    pub fn toggle_cell(&mut self, row: u32, col: u32)
        requires
            old(self).wf(),
        ensures
            final(self).wf(),
            final(self)@ == old(self)@.toggled(row as int, col as int),
            final(self).spec_size() == old(self).spec_size(),
    {
        proof {
            self@.lemma_index_bounds(row as int, col as int);
        }
        let idx = self.get_index(row % self.height, col % self.width);
        let mut cell = self.cells[idx];
        cell.toggle();
        self.cells.set(idx, cell);
    }

    /// Kills every cell of the rectangle of `v_size` rows and `h_size`
    /// columns whose first cell is `(row, col)`. The rectangle wraps around
    /// the edges; the cells outside it stay as they are.
    pub fn clear_cells(&mut self, row: u32, col: u32, h_size: u32, v_size: u32)
        requires
            old(self).wf(),
        ensures
            final(self).wf(),
            final(self)@ == old(self)@.cleared(
                row as int,
                col as int,
                h_size as int,
                v_size as int,
            ),
            final(self).spec_size() == old(self).spec_size(),
    {
        let ghost before = self@;
        let mut dr: u32 = 0;
        proof {
            assert forall|i: int| 0 <= i < before.cells.len() implies !swept(
                before,
                row as int,
                col as int,
                h_size as int,
                0,
                0,
                i,
            ) by {
                lemma_in_span_step(row as int, 0, before.height, before.row_of(i));
                lemma_in_span_step(col as int, 0, before.width, before.col_of(i));
            }
        }
        while dr < v_size
            invariant
                self.wf(),
                before.wf(),
                self@.width == before.width,
                self@.height == before.height,
                self.spec_size() == old(self).spec_size(),
                dr <= v_size,
                forall|i: int|
                    0 <= i < before.cells.len() ==> self@.cells[i] == (if swept(
                        before,
                        row as int,
                        col as int,
                        h_size as int,
                        dr as int,
                        0,
                        i,
                    ) {
                        Cell::Dead
                    } else {
                        before.cells[i]
                    }),
            decreases v_size - dr,
        {
            let r = wrapping_sum(row, dr, self.height);
            let mut dc: u32 = 0;
            while dc < h_size
                invariant
                    self.wf(),
                    before.wf(),
                    self@.width == before.width,
                    self@.height == before.height,
                    self.spec_size() == old(self).spec_size(),
                    dr < v_size,
                    dc <= h_size,
                    r == wrap(row + dr, before.height),
                    forall|i: int|
                        0 <= i < before.cells.len() ==> self@.cells[i] == (if swept(
                            before,
                            row as int,
                            col as int,
                            h_size as int,
                            dr as int,
                            dc as int,
                            i,
                        ) {
                            Cell::Dead
                        } else {
                            before.cells[i]
                        }),
                decreases h_size - dc,
            {
                let c = wrapping_sum(col, dc, self.width);
                let idx = self.get_index(r, c);
                self.cells.set(idx, Cell::Dead);
                proof {
                    assert forall|i: int| 0 <= i < before.cells.len() implies self@.cells[i] == (
                    if swept(
                        before,
                        row as int,
                        col as int,
                        h_size as int,
                        dr as int,
                        dc + 1,
                        i,
                    ) {
                        Cell::Dead
                    } else {
                        before.cells[i]
                    }) by {
                        before.lemma_position(i);
                        before.lemma_index_same(
                            before.row_of(i),
                            before.col_of(i),
                            r as int,
                            c as int,
                        );
                        lemma_wrap_basics(r as int, before.height);
                        lemma_wrap_basics(c as int, before.width);
                        lemma_wrap_basics(before.row_of(i), before.height);
                        lemma_wrap_basics(before.col_of(i), before.width);
                        lemma_in_span_step(col as int, dc as int, before.width, before.col_of(i));
                    }
                }
                dc += 1;
            }
            proof {
                assert forall|i: int| 0 <= i < before.cells.len() implies swept(
                    before,
                    row as int,
                    col as int,
                    h_size as int,
                    dr as int,
                    h_size as int,
                    i,
                ) == swept(before, row as int, col as int, h_size as int, dr + 1, 0, i) by {
                    lemma_in_span_step(row as int, dr as int, before.height, before.row_of(i));
                    lemma_in_span_step(col as int, 0, before.width, before.col_of(i));
                }
            }
            dr += 1;
        }
        proof {
            let after = before.cleared(row as int, col as int, h_size as int, v_size as int);
            assert forall|i: int| 0 <= i < before.cells.len() implies self@.cells[i]
                == after.cells[i] by {
                lemma_in_span_step(col as int, 0, before.width, before.col_of(i));
            }
            assert(self@.cells =~= after.cells);
        }
    }

    /// Kills every cell.
    pub fn destroy_all_life(&mut self)
        requires
            old(self).wf(),
        ensures
            final(self).wf(),
            final(self)@ == Grid::dead(old(self)@.width, old(self)@.height),
            final(self).spec_size() == old(self).spec_size(),
    {
        proof {
            self@.lemma_cleared_all(0, 0, self.width as int, self.height as int);
        }
        self.clear_cells(0, 0, self.width, self.height);
    }

    /// Gives the universe new dimensions and kills every cell. Nothing of the
    /// old contents is kept. Where the dimensions are turned down the
    /// universe stays as it is.
    pub fn resize(&mut self, width: u32, height: u32) -> (resized: Result<(), GridError>)
        requires
            old(self).wf(),
        ensures
            final(self).wf(),
            final(self).spec_size() == old(self).spec_size(),
            match resized {
                Ok(()) => {
                    &&& valid_dimensions(width, height)
                    &&& final(self)@ == Grid::dead(width as nat, height as nat)
                },
                Err(e) => GridError::of(width, height) == Some(e) && final(self)@ == old(self)@,
            },
    {
        match check_dimensions(width, height) {
            Ok(area) => {
                self.width = width;
                self.height = height;
                self.cells = vec![Cell::Dead; area];
                self.scratch = vec![Cell::Dead; area];
                proof {
                    assert(self@.cells =~= Grid::dead(width as nat, height as nat).cells);
                }
                Ok(())
            },
            Err(e) => Err(e),
        }
    }

    /// Gives the universe a new width and kills every cell.
    pub fn set_width(&mut self, width: u32) -> (resized: Result<(), GridError>)
        requires
            old(self).wf(),
        ensures
            final(self).wf(),
            final(self).spec_size() == old(self).spec_size(),
            match resized {
                Ok(()) => {
                    &&& width > 0
                    &&& width * old(self)@.height <= MAX_CELLS
                    &&& final(self)@ == Grid::dead(width as nat, old(self)@.height)
                },
                Err(GridError::ZeroArea) => width == 0 && final(self)@ == old(self)@,
                Err(GridError::TooLarge) => {
                    &&& width > 0
                    &&& width * old(self)@.height > MAX_CELLS
                    &&& final(self)@ == old(self)@
                },
            },
    {
        let height = self.height;
        self.resize(width, height)
    }

    /// Gives the universe a new height and kills every cell.
    pub fn set_height(&mut self, height: u32) -> (resized: Result<(), GridError>)
        requires
            old(self).wf(),
        ensures
            final(self).wf(),
            final(self).spec_size() == old(self).spec_size(),
            match resized {
                Ok(()) => {
                    &&& height > 0
                    &&& old(self)@.width * height <= MAX_CELLS
                    &&& final(self)@ == Grid::dead(old(self)@.width, height as nat)
                },
                Err(GridError::ZeroArea) => height == 0 && final(self)@ == old(self)@,
                Err(GridError::TooLarge) => {
                    &&& height > 0
                    &&& old(self)@.width * height > MAX_CELLS
                    &&& final(self)@ == old(self)@
                },
            },
    {
        let width = self.width;
        self.resize(width, height)
    }

    /// Sets the edge, in pixels, at which the cells ask to be drawn. Only the
    /// low eight bits of `size` are kept.
    pub fn set_size(&mut self, size: u32)
        ensures
            final(self).spec_size() == size % 256,
            final(self)@ == old(self)@,
            old(self).wf() ==> final(self).wf(),
    {
        self.size = (size % 256) as u8;
    }

    /// Replaces the contents of the universe by what `draws` says, one draw
    /// for each cell in the order of [`Universe::get_cells`]: a cell is alive
    /// where its draw is below one half. A draw is the bit pattern of a
    /// number from `[0, 1)`; cells for which there is no draw are dead.
    pub fn populate(&mut self, draws: &[u64])
        requires
            old(self).wf(),
        ensures
            final(self).wf(),
            final(self)@ == old(self)@.populated(draws@),
            final(self).spec_size() == old(self).spec_size(),
    {
        let ghost before = self@;
        let area = self.cells.len();
        let mut i: usize = 0;
        while i < area
            invariant
                self.wf(),
                self@.width == before.width,
                self@.height == before.height,
                area == self@.cells.len(),
                area == before.cells.len(),
                self.spec_size() == old(self).spec_size(),
                i <= area,
                forall|j: int| 0 <= j < i ==> self@.cells[j] == before.populated(draws@).cells[j],
            decreases area - i,
        {
            let cell = if i < draws.len() {
                Cell::from_draw(draws[i])
            } else {
                Cell::Dead
            };
            self.cells.set(i, cell);
            i += 1;
        }
        proof {
            assert(self@.cells =~= before.populated(draws@).cells);
        }
    }

    /// Replaces the contents of the universe by a random population: every
    /// cell is alive or dead as one draw from the host's random number
    /// generator decides, alive where the draw is below one half.
    ///
    /// The dimensions stay. Nothing is promised of which cells live: that is
    /// for the draws to say, in the way [`Universe::populate`] follows them.
    pub fn random_population(&mut self)
        requires
            old(self).wf(),
        ensures
            final(self).wf(),
            final(self)@.width == old(self)@.width,
            final(self)@.height == old(self)@.height,
            final(self).spec_size() == old(self).spec_size(),
    {
        let ghost before = self@;
        let area = self.cells.len();
        let mut i: usize = 0;
        while i < area
            invariant
                self.wf(),
                self@.width == before.width,
                self@.height == before.height,
                area == self@.cells.len(),
                self.spec_size() == old(self).spec_size(),
                i <= area,
            decreases area - i,
        {
            let bits = random_bits();
            self.cells.set(i, Cell::from_draw(bits));
            i += 1;
        }
    }

    /// The width, in pixels, of a drawing of the universe.
    pub fn canvas_width(&self) -> (pixels: u64)
        ensures
            pixels == canvas_extent(self.spec_size(), self@.width),
    {
        extent(self.size, self.width)
    }

    /// The height, in pixels, of a drawing of the universe.
    pub fn canvas_height(&self) -> (pixels: u64)
        ensures
            pixels == canvas_extent(self.spec_size(), self@.height),
    {
        extent(self.size, self.height)
    }
}

/// The pixels that a drawing of `cells` cells in a line takes, each cell a
/// square of `size` pixels: a grid line of one pixel before each cell, and
/// one after the last.
pub open spec fn canvas_extent(size: u8, cells: nat) -> nat {
    ((size + 1) * cells + 1) as nat
}

fn extent(size: u8, cells: u32) -> (pixels: u64)
    ensures
        pixels == canvas_extent(size, cells as nat),
{
    assert((size + 1) * cells <= 256 * 0xFFFF_FFFF) by (nonlinear_arith)
        requires
            size <= 255,
            cells <= 0xFFFF_FFFF,
    ;
    (size as u64 + 1) * (cells as u64) + 1
}

/// The coordinates of a list of cells as the model counts them.
pub open spec fn coordinates(cells: Seq<(u32, u32)>) -> Seq<(int, int)> {
    Seq::new(cells.len(), |k: int| (cells[k].0 as int, cells[k].1 as int))
}

/// Whether the cell stored at position `i` has been reached by a sweep over
/// the rectangle at `(top, left)` that has done `rows_done` whole rows of
/// `box_width` cells and `cols_done` cells of the row after them.
spec fn swept(
    grid: Grid,
    top: int,
    left: int,
    box_width: int,
    rows_done: int,
    cols_done: int,
    i: int,
) -> bool {
    let row = grid.row_of(i);
    let col = grid.col_of(i);
    ||| in_span(top, rows_done, grid.height, row) && in_span(left, box_width, grid.width, col)
    ||| wrap(top + rows_done, grid.height) == row && in_span(left, cols_done, grid.width, col)
}

} // verus!
