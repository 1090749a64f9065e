//! What holds of every universe: the neighbours of a corner, the fate of an
//! empty universe, of a block and of a blinker, and what a placement reads
//! back as.

use vstd::prelude::*;
use crate::cell::Cell;
use crate::grid::Grid;
use crate::pattern::{blinker, block, Shape};
use crate::placement::Transform;
use crate::ring::{
    in_span, lemma_wrap_around, lemma_wrap_basics, lemma_wrap_injective, ring_next, ring_prev, wrap,
};

verus! {

impl Grid {
    /// A grid that the next generation leaves as it is.
    pub open spec fn is_still_life(self) -> bool {
        self.step() == self
    }

    /// Whether the live cells are exactly the four of the square whose top
    /// left cell is `(row, col)`.
    pub open spec fn is_block_at(self, row: int, col: int) -> bool {
        forall|r: int, c: int|
            0 <= r < self.height && 0 <= c < self.width ==> ((#[trigger] self.at(r, c)
                == Cell::Alive) <==> (r == row || r == ring_next(row, self.height)) && (c == col
                || c == ring_next(col, self.width)))
    }

    /// Whether the live cells are exactly three in a row, the middle one at
    /// `(row, col)`.
    pub open spec fn is_row_of_three_at(self, row: int, col: int) -> bool {
        forall|r: int, c: int|
            0 <= r < self.height && 0 <= c < self.width ==> ((#[trigger] self.at(r, c)
                == Cell::Alive) <==> r == row && (c == ring_prev(col, self.width) || c == col || c
                == ring_next(col, self.width)))
    }

    /// Whether the live cells are exactly three in a column, the middle one
    /// at `(row, col)`.
    pub open spec fn is_column_of_three_at(self, row: int, col: int) -> bool {
        forall|r: int, c: int|
            0 <= r < self.height && 0 <= c < self.width ==> ((#[trigger] self.at(r, c)
                == Cell::Alive) <==> c == col && (r == ring_prev(row, self.height) || r == row || r
                == ring_next(row, self.height)))
    }

    /// The next generation, cell by cell.
    pub proof fn lemma_step_at(self, row: int, col: int)
        requires
            self.wf(),
            0 <= row < self.height,
            0 <= col < self.width,
        ensures
            self.step().wf(),
            self.step().width == self.width,
            self.step().height == self.height,
            self.step().at(row, col) == self.at(row, col).next_state(
                self.live_neighbors(row, col),
            ),
    {
        self.lemma_index_bounds(row, col);
        lemma_wrap_basics(row, self.height);
        lemma_wrap_basics(col, self.width);
    }
}

/// How far a flip moves what is placed: one step along the flipped axis.
pub open spec fn flip_shift(flipped: bool) -> int {
    if flipped {
        1
    } else {
        0
    }
}

/// On a torus, the neighbours of the cell in the first row and the first
/// column are found in the last row and the last column. On a square of side
/// `n` they are `(n-1, n-1)`, `(n-1, 0)`, `(n-1, 1)`, `(0, n-1)`, `(0, 1)`,
/// `(1, n-1)`, `(1, 0)` and `(1, 1)`.
pub proof fn lemma_corner_neighbors(grid: Grid)
    requires
        grid.wf(),
    ensures
        grid.live_neighbors(0, 0) == grid.at(grid.height - 1, grid.width - 1).weight() + grid.at(
            grid.height - 1,
            0,
        ).weight() + grid.at(grid.height - 1, 1).weight() + grid.at(0, grid.width - 1).weight()
            + grid.at(0, 1).weight() + grid.at(1, grid.width - 1).weight() + grid.at(1, 0).weight()
            + grid.at(1, 1).weight(),
{
    let h = grid.height;
    let w = grid.width;
    lemma_wrap_basics(-1, h);
    lemma_wrap_basics(-1, w);
    grid.lemma_index_same(-1, -1, h - 1, w - 1);
    grid.lemma_index_same(-1, 0, h - 1, 0);
    grid.lemma_index_same(-1, 1, h - 1, 1);
    grid.lemma_index_same(0, -1, 0, w - 1);
    grid.lemma_index_same(1, -1, 1, w - 1);
}

/// A universe in which nothing lives stays that way, however many
/// generations pass.
pub proof fn lemma_dead_stays_dead(width: nat, height: nat, generations: nat)
    requires
        width > 0,
        height > 0,
    ensures
        Grid::dead(width, height).steps(generations) == Grid::dead(width, height),
    decreases generations,
{
    let dead = Grid::dead(width, height);
    if generations > 0 {
        assert forall|r: int, c: int| dead.at(r, c) == Cell::Dead by {
            dead.lemma_index_bounds(r, c);
        }
        assert forall|i: int| 0 <= i < dead.cells.len() implies dead.step().cells[i]
            == dead.cells[i] by {
            let r = dead.row_of(i);
            let c = dead.col_of(i);
            assert(dead.live_neighbors(r, c) == 0);
        }
        assert(dead.step().cells =~= dead.cells);
        lemma_dead_stays_dead(width, height, (generations - 1) as nat);
    }
}

/// The neighbour count of a cell in range, over the cells that the ring's
/// predecessor and successor name.
proof fn lemma_count(grid: Grid, r: int, c: int)
    requires
        grid.wf(),
        0 <= r < grid.height,
        0 <= c < grid.width,
    ensures
        ({
            let north = ring_prev(r, grid.height);
            let south = ring_next(r, grid.height);
            let west = ring_prev(c, grid.width);
            let east = ring_next(c, grid.width);
            &&& 0 <= north < grid.height
            &&& 0 <= south < grid.height
            &&& 0 <= west < grid.width
            &&& 0 <= east < grid.width
            &&& grid.step().at(r, c) == grid.at(r, c).next_state(grid.live_neighbors(r, c))
            &&& grid.live_neighbors(r, c) == grid.at(north, west).weight() + grid.at(
                north,
                c,
            ).weight() + grid.at(north, east).weight() + grid.at(r, west).weight() + grid.at(
                r,
                east,
            ).weight() + grid.at(south, west).weight() + grid.at(south, c).weight() + grid.at(
                south,
                east,
            ).weight()
        }),
{
    grid.lemma_step_at(r, c);
    grid.lemma_live_neighbors(r, c);
    lemma_wrap_basics(r, grid.height);
    lemma_wrap_basics(c, grid.width);
}

/// A square of four cells, alone on a torus of at least three rows and three
/// columns, stays as it is: every cell of it has three live neighbours, and
/// no dead cell has exactly three.
proof fn lemma_block_cell(grid: Grid, row: int, col: int, r: int, c: int)
    requires
        grid.wf(),
        grid.width >= 3,
        grid.height >= 3,
        0 <= row < grid.height,
        0 <= col < grid.width,
        grid.is_block_at(row, col),
        0 <= r < grid.height,
        0 <= c < grid.width,
    ensures
        grid.step().at(r, c) == grid.at(r, c),
{
    lemma_count(grid, r, c);
    let north = ring_prev(r, grid.height);
    let south = ring_next(r, grid.height);
    let west = ring_prev(c, grid.width);
    let east = ring_next(c, grid.width);
    let rows = |x: int| x == row || x == ring_next(row, grid.height);
    let cols = |x: int| x == col || x == ring_next(col, grid.width);
    assert(grid.at(north, west) == Cell::Alive <==> rows(north) && cols(west));
    assert(grid.at(north, c) == Cell::Alive <==> rows(north) && cols(c));
    assert(grid.at(north, east) == Cell::Alive <==> rows(north) && cols(east));
    assert(grid.at(r, west) == Cell::Alive <==> rows(r) && cols(west));
    assert(grid.at(r, c) == Cell::Alive <==> rows(r) && cols(c));
    assert(grid.at(r, east) == Cell::Alive <==> rows(r) && cols(east));
    assert(grid.at(south, west) == Cell::Alive <==> rows(south) && cols(west));
    assert(grid.at(south, c) == Cell::Alive <==> rows(south) && cols(c));
    assert(grid.at(south, east) == Cell::Alive <==> rows(south) && cols(east));
}

/// A square of four cells, alone on a torus of at least three rows and three
/// columns, is a still life.
pub proof fn lemma_block_is_still(grid: Grid, row: int, col: int)
    requires
        grid.wf(),
        grid.width >= 3,
        grid.height >= 3,
        0 <= row < grid.height,
        0 <= col < grid.width,
        grid.is_block_at(row, col),
    ensures
        grid.is_still_life(),
{
    let next = grid.step();
    assert forall|r: int, c: int| 0 <= r < grid.height && 0 <= c < grid.width implies next.at(r, c)
        == grid.at(r, c) by {
        lemma_block_cell(grid, row, col, r, c);
    }
    grid.lemma_step_at(0, 0);
    next.lemma_equal_by_cells(grid);
}

/// One cell of the generation after three cells in a row.
proof fn lemma_row_turns_cell(grid: Grid, row: int, col: int, r: int, c: int)
    requires
        grid.wf(),
        grid.width >= 4,
        grid.height >= 3,
        0 <= row < grid.height,
        0 <= col < grid.width,
        grid.is_row_of_three_at(row, col),
        0 <= r < grid.height,
        0 <= c < grid.width,
    ensures
        (grid.step().at(r, c) == Cell::Alive) <==> c == col && (r == ring_prev(row, grid.height)
            || r == row || r == ring_next(row, grid.height)),
{
    lemma_count(grid, r, c);
    let north = ring_prev(r, grid.height);
    let south = ring_next(r, grid.height);
    let west = ring_prev(c, grid.width);
    let east = ring_next(c, grid.width);
    let rows = |x: int| x == row;
    let cols = |x: int|
        x == ring_prev(col, grid.width) || x == col || x == ring_next(col, grid.width);
    assert(grid.at(north, west) == Cell::Alive <==> rows(north) && cols(west));
    assert(grid.at(north, c) == Cell::Alive <==> rows(north) && cols(c));
    assert(grid.at(north, east) == Cell::Alive <==> rows(north) && cols(east));
    assert(grid.at(r, west) == Cell::Alive <==> rows(r) && cols(west));
    assert(grid.at(r, c) == Cell::Alive <==> rows(r) && cols(c));
    assert(grid.at(r, east) == Cell::Alive <==> rows(r) && cols(east));
    assert(grid.at(south, west) == Cell::Alive <==> rows(south) && cols(west));
    assert(grid.at(south, c) == Cell::Alive <==> rows(south) && cols(c));
    assert(grid.at(south, east) == Cell::Alive <==> rows(south) && cols(east));
}

/// Three cells in a row, alone on a torus of at least three rows and four
/// columns, become three cells in a column around the same middle.
pub proof fn lemma_row_turns(grid: Grid, row: int, col: int)
    requires
        grid.wf(),
        grid.width >= 4,
        grid.height >= 3,
        0 <= row < grid.height,
        0 <= col < grid.width,
        grid.is_row_of_three_at(row, col),
    ensures
        grid.step().wf(),
        grid.step().width == grid.width,
        grid.step().height == grid.height,
        grid.step().is_column_of_three_at(row, col),
{
    let next = grid.step();
    grid.lemma_step_at(0, 0);
    assert forall|r: int, c: int| 0 <= r < next.height && 0 <= c < next.width implies ((
    #[trigger] next.at(r, c) == Cell::Alive) <==> c == col && (r == ring_prev(row, next.height) || r
        == row || r == ring_next(row, next.height))) by {
        lemma_row_turns_cell(grid, row, col, r, c);
    }
}

/// One cell of the generation after three cells in a column.
proof fn lemma_column_turns_cell(grid: Grid, row: int, col: int, r: int, c: int)
    requires
        grid.wf(),
        grid.width >= 3,
        grid.height >= 4,
        0 <= row < grid.height,
        0 <= col < grid.width,
        grid.is_column_of_three_at(row, col),
        0 <= r < grid.height,
        0 <= c < grid.width,
    ensures
        (grid.step().at(r, c) == Cell::Alive) <==> r == row && (c == ring_prev(col, grid.width)
            || c == col || c == ring_next(col, grid.width)),
{
    lemma_count(grid, r, c);
    let north = ring_prev(r, grid.height);
    let south = ring_next(r, grid.height);
    let west = ring_prev(c, grid.width);
    let east = ring_next(c, grid.width);
    let rows = |x: int|
        x == ring_prev(row, grid.height) || x == row || x == ring_next(row, grid.height);
    let cols = |x: int| x == col;
    assert(grid.at(north, west) == Cell::Alive <==> rows(north) && cols(west));
    assert(grid.at(north, c) == Cell::Alive <==> rows(north) && cols(c));
    assert(grid.at(north, east) == Cell::Alive <==> rows(north) && cols(east));
    assert(grid.at(r, west) == Cell::Alive <==> rows(r) && cols(west));
    assert(grid.at(r, c) == Cell::Alive <==> rows(r) && cols(c));
    assert(grid.at(r, east) == Cell::Alive <==> rows(r) && cols(east));
    assert(grid.at(south, west) == Cell::Alive <==> rows(south) && cols(west));
    assert(grid.at(south, c) == Cell::Alive <==> rows(south) && cols(c));
    assert(grid.at(south, east) == Cell::Alive <==> rows(south) && cols(east));
}

/// Three cells in a column, alone on a torus of at least four rows and three
/// columns, become three cells in a row around the same middle.
pub proof fn lemma_column_turns(grid: Grid, row: int, col: int)
    requires
        grid.wf(),
        grid.width >= 3,
        grid.height >= 4,
        0 <= row < grid.height,
        0 <= col < grid.width,
        grid.is_column_of_three_at(row, col),
    ensures
        grid.step().wf(),
        grid.step().width == grid.width,
        grid.step().height == grid.height,
        grid.step().is_row_of_three_at(row, col),
{
    let next = grid.step();
    grid.lemma_step_at(0, 0);
    assert forall|r: int, c: int| 0 <= r < next.height && 0 <= c < next.width implies ((
    #[trigger] next.at(r, c) == Cell::Alive) <==> r == row && (c == ring_prev(col, next.width) || c
        == col || c == ring_next(col, next.width))) by {
        lemma_column_turns_cell(grid, row, col, r, c);
    }
}

/// A block placed on a universe in which nothing lives gives a square of
/// four cells and nothing else, whatever the anchor and the transforms. A
/// flip moves the square one step along the flipped axis.
pub proof fn lemma_seeded_block(
    width: nat,
    height: nat,
    anchor_row: int,
    anchor_col: int,
    transform: Transform,
)
    requires
        width > 0,
        height > 0,
    ensures
        ({
            let dead = Grid::dead(width, height);
            let placed = dead.seeded(anchor_row, anchor_col, block(), transform);
            let top = dead.origin_row(anchor_row, block(), transform.invert) + flip_shift(
                transform.v_flip,
            );
            let left = dead.origin_col(anchor_col, block(), transform.invert) + flip_shift(
                transform.h_flip,
            );
            &&& placed.wf()
            &&& placed.width == width
            &&& placed.height == height
            &&& placed.is_block_at(wrap(top, height), wrap(left, width))
        }),
{
    let dead = Grid::dead(width, height);
    let shape = block();
    let placed = dead.seeded(anchor_row, anchor_col, shape, transform);
    let first_row = dead.origin_row(anchor_row, shape, transform.invert);
    let first_col = dead.origin_col(anchor_col, shape, transform.invert);
    let top = first_row + flip_shift(transform.v_flip);
    let left = first_col + flip_shift(transform.h_flip);
    let targets = shape.targets(first_row, first_col, transform);
    dead.lemma_seeded_at(anchor_row, anchor_col, shape, transform, 0, 0);
    lemma_wrap_around(top, height);
    lemma_wrap_around(left, width);
    assert(targets.len() == 4);
    assert(targets[0] == shape.target(first_row, first_col, transform, (0, 0)));
    assert(targets[1] == shape.target(first_row, first_col, transform, (0, 1)));
    assert(targets[2] == shape.target(first_row, first_col, transform, (1, 0)));
    assert(targets[3] == shape.target(first_row, first_col, transform, (1, 1)));
    assert forall|r: int, c: int| 0 <= r < height && 0 <= c < width implies ((#[trigger] placed.at(
        r,
        c,
    ) == Cell::Alive) <==> (r == wrap(top, height) || r == ring_next(wrap(top, height), height))
        && (c == wrap(left, width) || c == ring_next(wrap(left, width), width))) by {
        dead.lemma_seeded_at(anchor_row, anchor_col, shape, transform, r, c);
        dead.lemma_lists_at(targets, r, c);
        dead.lemma_index_bounds(r, c);
        lemma_wrap_basics(r, height);
        lemma_wrap_basics(c, width);
    }
}

/// A block placed on a universe of at least three rows and three columns in
/// which nothing lives is a still life: one generation later the universe
/// holds the same cells.
pub proof fn lemma_seeded_block_is_still(
    width: nat,
    height: nat,
    anchor_row: int,
    anchor_col: int,
    transform: Transform,
)
    requires
        width >= 3,
        height >= 3,
    ensures
        Grid::dead(width, height).seeded(
            anchor_row,
            anchor_col,
            block(),
            transform,
        ).is_still_life(),
{
    let dead = Grid::dead(width, height);
    let placed = dead.seeded(anchor_row, anchor_col, block(), transform);
    let top = dead.origin_row(anchor_row, block(), transform.invert) + flip_shift(transform.v_flip);
    let left = dead.origin_col(anchor_col, block(), transform.invert) + flip_shift(
        transform.h_flip,
    );
    lemma_seeded_block(width, height, anchor_row, anchor_col, transform);
    lemma_wrap_basics(top, height);
    lemma_wrap_basics(left, width);
    lemma_block_is_still(placed, wrap(top, height), wrap(left, width));
}

/// A blinker placed on a universe in which nothing lives gives three cells
/// in a line and nothing else: in a row, or in a column where rows and
/// columns are swapped. A flip moves the line one step along the flipped
/// axis.
pub proof fn lemma_seeded_blinker(
    width: nat,
    height: nat,
    anchor_row: int,
    anchor_col: int,
    transform: Transform,
)
    requires
        width > 0,
        height > 0,
    ensures
        ({
            let dead = Grid::dead(width, height);
            let placed = dead.seeded(anchor_row, anchor_col, blinker(), transform);
            let top = dead.origin_row(anchor_row, blinker(), transform.invert) + flip_shift(
                transform.v_flip,
            );
            let left = dead.origin_col(anchor_col, blinker(), transform.invert) + flip_shift(
                transform.h_flip,
            );
            &&& placed.wf()
            &&& placed.width == width
            &&& placed.height == height
            &&& !transform.invert ==> placed.is_row_of_three_at(
                wrap(top, height),
                wrap(left + 1, width),
            )
            &&& transform.invert ==> placed.is_column_of_three_at(
                wrap(top + 1, height),
                wrap(left, width),
            )
        }),
{
    let dead = Grid::dead(width, height);
    let shape = blinker();
    let placed = dead.seeded(anchor_row, anchor_col, shape, transform);
    let first_row = dead.origin_row(anchor_row, shape, transform.invert);
    let first_col = dead.origin_col(anchor_col, shape, transform.invert);
    let top = first_row + flip_shift(transform.v_flip);
    let left = first_col + flip_shift(transform.h_flip);
    let targets = shape.targets(first_row, first_col, transform);
    dead.lemma_seeded_at(anchor_row, anchor_col, shape, transform, 0, 0);
    lemma_wrap_around(top, height);
    lemma_wrap_around(left, width);
    lemma_wrap_around(top + 1, height);
    lemma_wrap_around(left + 1, width);
    assert(targets.len() == 3);
    assert(targets[0] == shape.target(first_row, first_col, transform, (0, 0)));
    assert(targets[1] == shape.target(first_row, first_col, transform, (0, 1)));
    assert(targets[2] == shape.target(first_row, first_col, transform, (0, 2)));
    if transform.invert {
        assert forall|r: int, c: int| 0 <= r < height && 0 <= c < width implies ((
        #[trigger] placed.at(r, c) == Cell::Alive) <==> c == wrap(left, width) && (r == ring_prev(
            wrap(top + 1, height),
            height,
        ) || r == wrap(top + 1, height) || r == ring_next(wrap(top + 1, height), height))) by {
            dead.lemma_seeded_at(anchor_row, anchor_col, shape, transform, r, c);
            dead.lemma_lists_at(targets, r, c);
            dead.lemma_index_bounds(r, c);
            lemma_wrap_basics(r, height);
            lemma_wrap_basics(c, width);
        }
    } else {
        assert forall|r: int, c: int| 0 <= r < height && 0 <= c < width implies ((
        #[trigger] placed.at(r, c) == Cell::Alive) <==> r == wrap(top, height) && (c == ring_prev(
            wrap(left + 1, width),
            width,
        ) || c == wrap(left + 1, width) || c == ring_next(wrap(left + 1, width), width))) by {
            dead.lemma_seeded_at(anchor_row, anchor_col, shape, transform, r, c);
            dead.lemma_lists_at(targets, r, c);
            dead.lemma_index_bounds(r, c);
            lemma_wrap_basics(r, height);
            lemma_wrap_basics(c, width);
        }
    }
}

/// A blinker placed on a universe of at least four rows and four columns in
/// which nothing lives has period two: after two generations the universe
/// holds the cells it held after the placement.
pub proof fn lemma_seeded_blinker_returns(
    width: nat,
    height: nat,
    anchor_row: int,
    anchor_col: int,
    transform: Transform,
)
    requires
        width >= 4,
        height >= 4,
    ensures
        Grid::dead(width, height).seeded(anchor_row, anchor_col, blinker(), transform).steps(2)
            == Grid::dead(width, height).seeded(anchor_row, anchor_col, blinker(), transform),
{
    let dead = Grid::dead(width, height);
    let placed = dead.seeded(anchor_row, anchor_col, blinker(), transform);
    let top = dead.origin_row(anchor_row, blinker(), transform.invert) + flip_shift(
        transform.v_flip,
    );
    let left = dead.origin_col(anchor_col, blinker(), transform.invert) + flip_shift(
        transform.h_flip,
    );
    lemma_seeded_blinker(width, height, anchor_row, anchor_col, transform);
    let once = placed.step();
    let twice = once.step();
    assert(placed.steps(2) == twice) by {
        reveal_with_fuel(Grid::steps, 3);
    }
    if transform.invert {
        let row = wrap(top + 1, height);
        let col = wrap(left, width);
        lemma_wrap_basics(top + 1, height);
        lemma_wrap_basics(left, width);
        lemma_column_turns(placed, row, col);
        lemma_row_turns(once, row, col);
        assert forall|r: int, c: int| 0 <= r < height && 0 <= c < width implies twice.at(r, c)
            == placed.at(r, c) by {
            assert(twice.at(r, c) == Cell::Alive <==> placed.at(r, c) == Cell::Alive);
        }
    } else {
        let row = wrap(top, height);
        let col = wrap(left + 1, width);
        lemma_wrap_basics(top, height);
        lemma_wrap_basics(left + 1, width);
        lemma_row_turns(placed, row, col);
        lemma_column_turns(once, row, col);
        assert forall|r: int, c: int| 0 <= r < height && 0 <= c < width implies twice.at(r, c)
            == placed.at(r, c) by {
            assert(twice.at(r, c) == Cell::Alive <==> placed.at(r, c) == Cell::Alive);
        }
    }
    twice.lemma_equal_by_cells(placed);
}

/// The placement with no flip and no inversion.
pub open spec fn upright() -> Transform {
    Transform { h_flip: false, v_flip: false, invert: false }
}

/// Reading back a placement without flips or inversion gives the shape: in
/// a box that fits the grid, the cell at offset `(i, j)` from the first cell
/// of the box is alive exactly where the shape has a live cell at `(i, j)`.
/// The first cell of the box is at the anchor, plus the dimensions of the
/// grid, less half the dimensions of the box.
pub proof fn lemma_seeded_reads_back(
    grid: Grid,
    anchor_row: int,
    anchor_col: int,
    shape: Shape,
    i: int,
    j: int,
)
    requires
        grid.wf(),
        shape.wf(),
        shape.height <= grid.height,
        shape.width <= grid.width,
        0 <= i < shape.height,
        0 <= j < shape.width,
    ensures
        grid.seeded(anchor_row, anchor_col, shape, upright()).at(
            anchor_row + grid.height - shape.height / 2 + i,
            anchor_col + grid.width - shape.width / 2 + j,
        ) == (if shape.has(i, j) {
            Cell::Alive
        } else {
            Cell::Dead
        }),
{
    let top = grid.origin_row(anchor_row, shape, false);
    let left = grid.origin_col(anchor_col, shape, false);
    let targets = shape.targets(top, left, upright());
    grid.lemma_seeded_at(anchor_row, anchor_col, shape, upright(), top + i, left + j);
    grid.lemma_lists_at(targets, top + i, left + j);
    if shape.has(i, j) {
        let k = choose|k: int|
            0 <= k < shape.cells.len() && (#[trigger] shape.cells[k]).0 == i && shape.cells[k].1
                == j;
        assert(targets[k] == (top + i, left + j));
        assert(wrap(targets[k].0, grid.height) == wrap(top + i, grid.height));
    }
    if grid.lists(targets, grid.index(top + i, left + j)) {
        let k = choose|k: int|
            0 <= k < targets.len() && wrap((#[trigger] targets[k]).0, grid.height) == wrap(
                top + i,
                grid.height,
            ) && wrap(targets[k].1, grid.width) == wrap(left + j, grid.width);
        assert(targets[k] == (top + shape.cells[k].0, left + shape.cells[k].1));
        lemma_wrap_injective(top, shape.cells[k].0 as int, i, grid.height);
        lemma_wrap_injective(left, shape.cells[k].1 as int, j, grid.width);
        assert(shape.cells[k].0 == i && shape.cells[k].1 == j);
    }
    assert(in_span(top, shape.height as int, grid.height, wrap(top + i, grid.height)));
    assert(in_span(left, shape.width as int, grid.width, wrap(left + j, grid.width)));
}

} // verus!
