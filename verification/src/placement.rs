//! Placing a population on the grid: where its box goes, how the flips and
//! the inversion move its cells, and what the grid holds afterwards.

use vstd::prelude::*;
use crate::cell::Cell;
use crate::grid::Grid;
use crate::pattern::{catalog, offsets, Population, Shape};
use crate::ring::{lemma_wrap_add, lemma_wrap_basics, wrap, wrapping_difference, wrapping_sum};
use crate::universe::{coordinates, Universe};

verus! {

/// The transforms under which a population is placed. They do not depend on
/// one another; the inversion is applied first, then the flips.
#[derive(Clone, Copy, Debug, PartialEq, Eq, Structural)]
pub struct Transform {
    /// Mirror the columns.
    pub h_flip: bool,
    /// Mirror the rows.
    pub v_flip: bool,
    /// Swap rows and columns.
    pub invert: bool,
}

impl Shape {
    /// The number of rows of the box once the shape is placed.
    pub open spec fn placed_height(self, invert: bool) -> nat {
        if invert {
            self.width
        } else {
            self.height
        }
    }

    /// The number of columns of the box once the shape is placed.
    pub open spec fn placed_width(self, invert: bool) -> nat {
        if invert {
            self.height
        } else {
            self.width
        }
    }

    /// Where the cell at offset `cell` lands when the first cell of the box
    /// is `(top, left)`.
    ///
    /// A flipped coordinate is measured back from the far side of the box,
    /// that side itself being one step outside it: the flipped shape stands
    /// one step further than the box.
    pub open spec fn target(self, top: int, left: int, transform: Transform, cell: (nat, nat)) -> (
        int,
        int,
    ) {
        let cell_row = if transform.invert {
            cell.1
        } else {
            cell.0
        };
        let cell_col = if transform.invert {
            cell.0
        } else {
            cell.1
        };
        (
            if transform.v_flip {
                top + self.placed_height(transform.invert) - cell_row
            } else {
                top + cell_row
            },
            if transform.h_flip {
                left + self.placed_width(transform.invert) - cell_col
            } else {
                left + cell_col
            },
        )
    }

    /// Where the live cells of the shape land, in the order of the
    /// catalogue.
    pub open spec fn targets(self, top: int, left: int, transform: Transform) -> Seq<(int, int)> {
        Seq::new(self.cells.len(), |k: int| self.target(top, left, transform, self.cells[k]))
    }
}

impl Grid {
    /// The row of the first cell of the box when a shape is anchored at row
    /// `row`: the anchor, plus the height of the grid, less half the height
    /// of the box.
    pub open spec fn origin_row(self, row: int, shape: Shape, invert: bool) -> int {
        row + self.height - shape.placed_height(invert) / 2
    }

    /// The column of the first cell of the box when a shape is anchored at
    /// column `col`.
    pub open spec fn origin_col(self, col: int, shape: Shape, invert: bool) -> int {
        col + self.width - shape.placed_width(invert) / 2
    }

    /// The grid after `shape` has been placed at the anchor `(row, col)`:
    /// the box is cleared, then the cells of the shape are made alive where
    /// the transforms send them.
    pub open spec fn seeded(self, row: int, col: int, shape: Shape, transform: Transform) -> Grid {
        let top = self.origin_row(row, shape, transform.invert);
        let left = self.origin_col(col, shape, transform.invert);
        self.cleared(
            top,
            left,
            shape.placed_width(transform.invert) as int,
            shape.placed_height(transform.invert) as int,
        ).with_alive(shape.targets(top, left, transform))
    }
}

impl Grid {
    /// What a grid holds at `(row, col)` after a shape has been placed: a
    /// live cell where a cell of the shape landed, a dead one elsewhere in
    /// the box, and what it held before outside the box.
    pub proof fn lemma_seeded_at(
        self,
        anchor_row: int,
        anchor_col: int,
        shape: Shape,
        transform: Transform,
        row: int,
        col: int,
    )
        requires
            self.wf(),
        ensures
            self.seeded(anchor_row, anchor_col, shape, transform).wf(),
            self.seeded(anchor_row, anchor_col, shape, transform).width == self.width,
            self.seeded(anchor_row, anchor_col, shape, transform).height == self.height,
            self.seeded(anchor_row, anchor_col, shape, transform).at(row, col) == ({
                let top = self.origin_row(anchor_row, shape, transform.invert);
                let left = self.origin_col(anchor_col, shape, transform.invert);
                if self.lists(shape.targets(top, left, transform), self.index(row, col)) {
                    Cell::Alive
                } else if self.covers(
                    top,
                    left,
                    shape.placed_width(transform.invert) as int,
                    shape.placed_height(transform.invert) as int,
                    wrap(row, self.height),
                    wrap(col, self.width),
                ) {
                    Cell::Dead
                } else {
                    self.at(row, col)
                }
            }),
    {
        self.lemma_index_bounds(row, col);
    }

    /// Whether one of `coords` names the cell at `(row, col)`, said without
    /// positions in memory: one of the pairs wraps to the row and the column
    /// that `(row, col)` wraps to.
    pub proof fn lemma_lists_at(self, coords: Seq<(int, int)>, row: int, col: int)
        requires
            self.wf(),
        ensures
            self.lists(coords, self.index(row, col)) <==> exists|k: int|
                0 <= k < coords.len() && wrap((#[trigger] coords[k]).0, self.height) == wrap(
                    row,
                    self.height,
                ) && wrap(coords[k].1, self.width) == wrap(col, self.width),
    {
        let i = self.index(row, col);
        if self.lists(coords, i) {
            let k = choose|k: int|
                0 <= k < coords.len() && self.index(#[trigger] coords[k].0, coords[k].1) == i;
            self.lemma_index_same(coords[k].0, coords[k].1, row, col);
            assert(wrap(coords[k].0, self.height) == wrap(row, self.height));
        }
        if exists|k: int|
            0 <= k < coords.len() && wrap((#[trigger] coords[k]).0, self.height) == wrap(
                row,
                self.height,
            ) && wrap(coords[k].1, self.width) == wrap(col, self.width) {
            let k = choose|k: int|
                0 <= k < coords.len() && wrap((#[trigger] coords[k]).0, self.height) == wrap(
                    row,
                    self.height,
                ) && wrap(coords[k].1, self.width) == wrap(col, self.width);
            self.lemma_index_same(coords[k].0, coords[k].1, row, col);
            assert(self.index(coords[k].0, coords[k].1) == i);
        }
    }
}

impl Universe {
    /// Places `population` at the anchor `(row, col)` under `transform`.
    pub fn place(&mut self, row: u32, col: u32, population: &Population, transform: Transform)
        requires
            old(self).wf(),
            population@.wf(),
        ensures
            final(self).wf(),
            final(self)@ == old(self)@.seeded(row as int, col as int, population@, transform),
            final(self).spec_size() == old(self).spec_size(),
    {
        let ghost before = self@;
        let ghost shape = population@;
        let ghost top = before.origin_row(row as int, shape, transform.invert);
        let ghost left = before.origin_col(col as int, shape, transform.invert);
        let (height, width) = if transform.invert {
            (population.width(), population.height())
        } else {
            (population.height(), population.width())
        };
        let grid_height = self.height();
        let grid_width = self.width();
        let first_row = wrapping_difference(row, height / 2, grid_height);
        let first_col = wrapping_difference(col, width / 2, grid_width);
        proof {
            lemma_wrap_basics(row - height / 2, before.height);
            lemma_wrap_basics(col - width / 2, before.width);
            assert(first_row == wrap(top, before.height));
            assert(first_col == wrap(left, before.width));
        }
        let listed = population.cells();
        let mut cells: Vec<(u32, u32)> = Vec::new();
        let mut k: usize = 0;
        while k < listed.len()
            invariant
                before.wf(),
                shape.wf(),
                shape.cells == offsets(listed@),
                height == shape.placed_height(transform.invert),
                width == shape.placed_width(transform.invert),
                grid_height == before.height,
                grid_width == before.width,
                first_row == wrap(top, before.height),
                first_col == wrap(left, before.width),
                k <= listed.len(),
                cells.len() == k,
                forall|j: int|
                    0 <= j < k ==> before.index(
                        (#[trigger] coordinates(cells@)[j]).0,
                        coordinates(cells@)[j].1,
                    ) == before.index(
                        shape.targets(top, left, transform)[j].0,
                        shape.targets(top, left, transform)[j].1,
                    ),
            decreases listed.len() - k,
        {
            let (cell_y, cell_x) = listed[k];
            let (cell_row, cell_col) = if transform.invert {
                (cell_x, cell_y)
            } else {
                (cell_y, cell_x)
            };
            proof {
                assert(shape.cells[k as int] == (cell_y as nat, cell_x as nat));
                assert(cell_row < height && cell_col < width);
            }
            let target_row = if transform.v_flip {
                wrapping_sum(first_row, height - cell_row, grid_height)
            } else {
                wrapping_sum(first_row, cell_row, grid_height)
            };
            let target_col = if transform.h_flip {
                wrapping_sum(first_col, width - cell_col, grid_width)
            } else {
                wrapping_sum(first_col, cell_col, grid_width)
            };
            let ghost earlier = coordinates(cells@);
            cells.push((target_row, target_col));
            proof {
                let target = shape.target(top, left, transform, shape.cells[k as int]);
                lemma_wrap_add(top, target.0 - top, before.height);
                lemma_wrap_add(left, target.1 - left, before.width);
                lemma_wrap_basics(target_row as int, before.height);
                lemma_wrap_basics(target_col as int, before.width);
                before.lemma_index_same(
                    target_row as int,
                    target_col as int,
                    target.0,
                    target.1,
                );
                assert forall|j: int| 0 <= j < k + 1 implies before.index(
                    (#[trigger] coordinates(cells@)[j]).0,
                    coordinates(cells@)[j].1,
                ) == before.index(
                    shape.targets(top, left, transform)[j].0,
                    shape.targets(top, left, transform)[j].1,
                ) by {
                    if j < k {
                        assert(coordinates(cells@)[j] == earlier[j]);
                    }
                }
            }
            k += 1;
        }
        self.clear_cells(first_row, first_col, width, height);
        proof {
            before.lemma_cleared_wraps(top, left, width as int, height as int);
            let cleared = before.cleared(top, left, width as int, height as int);
            assert(self@ == cleared);
            assert forall|j: int| 0 <= j < coordinates(cells@).len() implies cleared.index(
                (#[trigger] coordinates(cells@)[j]).0,
                coordinates(cells@)[j].1,
            ) == cleared.index(
                shape.targets(top, left, transform)[j].0,
                shape.targets(top, left, transform)[j].1,
            ) by {
                assert(before.index(coordinates(cells@)[j].0, coordinates(cells@)[j].1)
                    == before.index(
                    shape.targets(top, left, transform)[j].0,
                    shape.targets(top, left, transform)[j].1,
                ));
            }
            cleared.lemma_with_alive_same(coordinates(cells@), shape.targets(top, left, transform));
        }
        self.set_cells(cells.as_slice());
    }

    /// Places the population that goes by `pop_name` at the anchor
    /// `(row, col)`. The box of the population, its rows and columns swapped
    /// if `invert` is set, is centred on the anchor and cleared; then the
    /// cells of the population are made alive, mirrored as `h_flip` and
    /// `v_flip` say. A name that the catalogue does not hold places a block.
    pub fn seed_population(
        &mut self,
        row: u32,
        col: u32,
        pop_name: String,
        h_flip: bool,
        v_flip: bool,
        invert: bool,
    )
        requires
            old(self).wf(),
        ensures
            final(self).wf(),
            final(self)@ == old(self)@.seeded(
                row as int,
                col as int,
                catalog(pop_name@),
                (Transform { h_flip, v_flip, invert }),
            ),
            final(self).spec_size() == old(self).spec_size(),
    {
        let population = Population::new(pop_name);
        self.place(row, col, &population, Transform { h_flip, v_flip, invert });
    }
}

} // verus!
