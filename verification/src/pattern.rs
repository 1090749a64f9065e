//! The catalogue of named populations: still lifes, oscillators and
//! spaceships that can be placed on the grid.

use vstd::prelude::*;

verus! {

/// The outline of a population: the cells that live, as `(row, column)`
/// offsets from the top left corner of the box that holds them.
#[verifier::ext_equal]
pub struct Shape {
    pub height: nat,
    pub width: nat,
    pub cells: Seq<(nat, nat)>,
}

impl Shape {
    /// Every live cell lies inside the box, and none is listed twice.
    pub open spec fn wf(self) -> bool {
        &&& forall|k: int|
            0 <= k < self.cells.len() ==> (#[trigger] self.cells[k]).0 < self.height
                && self.cells[k].1 < self.width
        &&& forall|j: int, k: int|
            0 <= j < k < self.cells.len() ==> #[trigger] self.cells[j] != #[trigger] self.cells[k]
    }

    /// Whether the cell at `(row, col)` of the box lives.
    pub open spec fn has(self, row: int, col: int) -> bool {
        exists|k: int|
            0 <= k < self.cells.len() && (#[trigger] self.cells[k]).0 == row && self.cells[k].1
                == col
    }
}

/// The block, a still life: a square of four cells.
pub open spec fn block() -> Shape {
    Shape {
        height: 2,
        width: 2,
        cells: seq![
            (0, 0), (0, 1),
            (1, 0), (1, 1),
        ],
    }
}

/// The blinker, oscillator of period two: three cells in a row.
pub open spec fn blinker() -> Shape {
    Shape {
        height: 1,
        width: 3,
        cells: seq![
            (0, 0), (0, 1), (0, 2),
        ],
    }
}

/// The toad, oscillator of period two: two rows of three, one step apart.
pub open spec fn toad() -> Shape {
    Shape {
        height: 2,
        width: 4,
        cells: seq![
            (0, 1), (0, 2), (0, 3),
            (1, 0), (1, 1), (1, 2),
        ],
    }
}

/// The beacon, oscillator of period two: two blocks that touch at a corner,
/// their touching cells left out.
pub open spec fn beacon() -> Shape {
    Shape {
        height: 4,
        width: 4,
        cells: seq![
            (0, 0), (0, 1),
            (1, 0),
            (2, 3),
            (3, 2), (3, 3),
        ],
    }
}

/// The pulsar, oscillator of period three.
pub open spec fn pulsar() -> Shape {
    Shape {
        height: 13,
        width: 13,
        cells: seq![
            (0, 2), (0, 3), (0, 4), (0, 8), (0, 9), (0, 10),
            (2, 0), (2, 5), (2, 7), (2, 12),
            (3, 0), (3, 5), (3, 7), (3, 12),
            (4, 0), (4, 5), (4, 7), (4, 12),
            (5, 2), (5, 3), (5, 4), (5, 8), (5, 9), (5, 10),
            (7, 2), (7, 3), (7, 4), (7, 8), (7, 9), (7, 10),
            (8, 0), (8, 5), (8, 7), (8, 12),
            (9, 0), (9, 5), (9, 7), (9, 12),
            (10, 0), (10, 5), (10, 7), (10, 12),
            (12, 2), (12, 3), (12, 4), (12, 8), (12, 9), (12, 10),
        ],
    }
}

/// The I-column, a tall oscillator three cells wide.
pub open spec fn i_column() -> Shape {
    Shape {
        height: 12,
        width: 3,
        cells: seq![
            (0, 0), (0, 1), (0, 2),
            (1, 1),
            (2, 1),
            (3, 0), (3, 1), (3, 2),
            (5, 0), (5, 1), (5, 2),
            (6, 0), (6, 1), (6, 2),
            (8, 0), (8, 1), (8, 2),
            (9, 1),
            (10, 1),
            (11, 0), (11, 1), (11, 2),
        ],
    }
}

/// The glider, smallest spaceship: it moves one cell diagonally every four
/// generations.
pub open spec fn glider() -> Shape {
    Shape {
        height: 3,
        width: 3,
        cells: seq![
            (0, 1),
            (1, 2),
            (2, 0), (2, 1), (2, 2),
        ],
    }
}

/// The lightweight spaceship.
pub open spec fn lwss() -> Shape {
    Shape {
        height: 4,
        width: 5,
        cells: seq![
            (0, 1), (0, 2), (0, 3), (0, 4),
            (1, 0), (1, 4),
            (2, 4),
            (3, 0), (3, 3),
        ],
    }
}

/// The middleweight spaceship.
pub open spec fn mwss() -> Shape {
    Shape {
        height: 5,
        width: 6,
        cells: seq![
            (0, 1), (0, 2), (0, 3), (0, 4), (0, 5),
            (1, 0), (1, 5),
            (2, 5),
            (3, 0), (3, 4),
            (4, 2),
        ],
    }
}

/// The heavyweight spaceship.
pub open spec fn hwss() -> Shape {
    Shape {
        height: 5,
        width: 7,
        cells: seq![
            (0, 1), (0, 2), (0, 3), (0, 4), (0, 5), (0, 6),
            (1, 0), (1, 6),
            (2, 6),
            (3, 0), (3, 5),
            (4, 2), (4, 3),
        ],
    }
}

/// The shape that goes by `name`. A name that the catalogue does not hold
/// stands for the block.
pub open spec fn catalog(name: Seq<char>) -> Shape {
    if name == "block"@ {
        block()
    } else if name == "blinker"@ {
        blinker()
    } else if name == "toad"@ {
        toad()
    } else if name == "beacon"@ {
        beacon()
    } else if name == "pulsar"@ {
        pulsar()
    } else if name == "i-column"@ {
        i_column()
    } else if name == "glider"@ {
        glider()
    } else if name == "lwss"@ {
        lwss()
    } else if name == "mwss"@ {
        mwss()
    } else if name == "hwss"@ {
        hwss()
    } else {
        block()
    }
}

/// The ten names of the catalogue are different names: each stands for its
/// own shape.
pub proof fn lemma_catalog_names()
    ensures
        catalog("block"@) == block(),
        catalog("blinker"@) == blinker(),
        catalog("toad"@) == toad(),
        catalog("beacon"@) == beacon(),
        catalog("pulsar"@) == pulsar(),
        catalog("i-column"@) == i_column(),
        catalog("glider"@) == glider(),
        catalog("lwss"@) == lwss(),
        catalog("mwss"@) == mwss(),
        catalog("hwss"@) == hwss(),
{
    reveal_strlit("block");
    reveal_strlit("blinker");
    reveal_strlit("toad");
    reveal_strlit("beacon");
    reveal_strlit("pulsar");
    reveal_strlit("i-column");
    reveal_strlit("glider");
    reveal_strlit("lwss");
    reveal_strlit("mwss");
    reveal_strlit("hwss");
    assert("block"@.len() == 5 && "block"@[0] == 'b');
    assert("blinker"@.len() == 7 && "blinker"@[0] == 'b');
    assert("toad"@.len() == 4 && "toad"@[0] == 't');
    assert("beacon"@.len() == 6 && "beacon"@[0] == 'b');
    assert("pulsar"@.len() == 6 && "pulsar"@[0] == 'p');
    assert("i-column"@.len() == 8 && "i-column"@[0] == 'i');
    assert("glider"@.len() == 6 && "glider"@[0] == 'g');
    assert("lwss"@.len() == 4 && "lwss"@[0] == 'l');
    assert("mwss"@.len() == 4 && "mwss"@[0] == 'm');
    assert("hwss"@.len() == 4 && "hwss"@[0] == 'h');
}

/// The offsets of a population as the model counts them.
pub open spec fn offsets(cells: Seq<(u32, u32)>) -> Seq<(nat, nat)> {
    Seq::new(cells.len(), |k: int| (cells[k].0 as nat, cells[k].1 as nat))
}

/// A population taken from the catalogue.
pub struct Population {
    height: u32,
    width: u32,
    cells: Vec<(u32, u32)>,
}

impl View for Population {
    type V = Shape;

    closed spec fn view(&self) -> Shape {
        Shape { height: self.height as nat, width: self.width as nat, cells: offsets(self.cells@) }
    }
}

impl Population {
    /// Looks `name` up in the catalogue. The names are `block`, `blinker`,
    /// `toad`, `beacon`, `pulsar`, `i-column`, `glider`, `lwss`, `mwss` and
    /// `hwss`; any other name gives the block.
    pub fn new(name: String) -> (population: Population)
        ensures
            population@ == catalog(name@),
            population@.wf(),
    {
        if name == String::from_str("block") {
            let cells: Vec<(u32, u32)> = vec![
                (0, 0), (0, 1),
                (1, 0), (1, 1),
            ];
            proof {
                assert(offsets(cells@) =~= block().cells);
            }
            Population { height: 2, width: 2, cells }
        } else if name == String::from_str("blinker") {
            let cells: Vec<(u32, u32)> = vec![
                (0, 0), (0, 1), (0, 2),
            ];
            proof {
                assert(offsets(cells@) =~= blinker().cells);
            }
            Population { height: 1, width: 3, cells }
        } else if name == String::from_str("toad") {
            let cells: Vec<(u32, u32)> = vec![
                (0, 1), (0, 2), (0, 3),
                (1, 0), (1, 1), (1, 2),
            ];
            proof {
                assert(offsets(cells@) =~= toad().cells);
            }
            Population { height: 2, width: 4, cells }
        } else if name == String::from_str("beacon") {
            let cells: Vec<(u32, u32)> = vec![
                (0, 0), (0, 1),
                (1, 0),
                (2, 3),
                (3, 2), (3, 3),
            ];
            proof {
                assert(offsets(cells@) =~= beacon().cells);
            }
            Population { height: 4, width: 4, cells }
        } else if name == String::from_str("pulsar") {
            let cells: Vec<(u32, u32)> = vec![
                (0, 2), (0, 3), (0, 4), (0, 8), (0, 9), (0, 10),
                (2, 0), (2, 5), (2, 7), (2, 12),
                (3, 0), (3, 5), (3, 7), (3, 12),
                (4, 0), (4, 5), (4, 7), (4, 12),
                (5, 2), (5, 3), (5, 4), (5, 8), (5, 9), (5, 10),
                (7, 2), (7, 3), (7, 4), (7, 8), (7, 9), (7, 10),
                (8, 0), (8, 5), (8, 7), (8, 12),
                (9, 0), (9, 5), (9, 7), (9, 12),
                (10, 0), (10, 5), (10, 7), (10, 12),
                (12, 2), (12, 3), (12, 4), (12, 8), (12, 9), (12, 10),
            ];
            proof {
                assert(offsets(cells@) =~= pulsar().cells);
            }
            Population { height: 13, width: 13, cells }
        } else if name == String::from_str("i-column") {
            let cells: Vec<(u32, u32)> = vec![
                (0, 0), (0, 1), (0, 2),
                (1, 1),
                (2, 1),
                (3, 0), (3, 1), (3, 2),
                (5, 0), (5, 1), (5, 2),
                (6, 0), (6, 1), (6, 2),
                (8, 0), (8, 1), (8, 2),
                (9, 1),
                (10, 1),
                (11, 0), (11, 1), (11, 2),
            ];
            proof {
                assert(offsets(cells@) =~= i_column().cells);
            }
            Population { height: 12, width: 3, cells }
        } else if name == String::from_str("glider") {
            let cells: Vec<(u32, u32)> = vec![
                (0, 1),
                (1, 2),
                (2, 0), (2, 1), (2, 2),
            ];
            proof {
                assert(offsets(cells@) =~= glider().cells);
            }
            Population { height: 3, width: 3, cells }
        } else if name == String::from_str("lwss") {
            let cells: Vec<(u32, u32)> = vec![
                (0, 1), (0, 2), (0, 3), (0, 4),
                (1, 0), (1, 4),
                (2, 4),
                (3, 0), (3, 3),
            ];
            proof {
                assert(offsets(cells@) =~= lwss().cells);
            }
            Population { height: 4, width: 5, cells }
        } else if name == String::from_str("mwss") {
            let cells: Vec<(u32, u32)> = vec![
                (0, 1), (0, 2), (0, 3), (0, 4), (0, 5),
                (1, 0), (1, 5),
                (2, 5),
                (3, 0), (3, 4),
                (4, 2),
            ];
            proof {
                assert(offsets(cells@) =~= mwss().cells);
            }
            Population { height: 5, width: 6, cells }
        } else if name == String::from_str("hwss") {
            let cells: Vec<(u32, u32)> = vec![
                (0, 1), (0, 2), (0, 3), (0, 4), (0, 5), (0, 6),
                (1, 0), (1, 6),
                (2, 6),
                (3, 0), (3, 5),
                (4, 2), (4, 3),
            ];
            proof {
                assert(offsets(cells@) =~= hwss().cells);
            }
            Population { height: 5, width: 7, cells }
        } else {
            let cells: Vec<(u32, u32)> = vec![
                (0, 0), (0, 1),
                (1, 0), (1, 1),
            ];
            proof {
                assert(offsets(cells@) =~= block().cells);
            }
            Population { height: 2, width: 2, cells }
        }
    }

    /// The number of rows of the box that holds the population.
    pub fn height(&self) -> (height: u32)
        ensures
            height == self@.height,
    {
        self.height
    }

    /// The number of columns of the box that holds the population.
    pub fn width(&self) -> (width: u32)
        ensures
            width == self@.width,
    {
        self.width
    }

    /// The live cells, as `(row, column)` offsets into the box.
    pub fn cells(&self) -> (cells: &Vec<(u32, u32)>)
        ensures
            offsets(cells@) == self@.cells,
    {
        &self.cells
    }
}

} // verus!
