//! Why a universe of given dimensions cannot be had.

use vstd::prelude::*;

verus! {

/// The most cells a universe can hold: what one buffer can hold where
/// addresses have 32 bits, one cell to the byte.
pub const MAX_CELLS: u64 = 0x7FFF_FFFF;

/// Whether a universe of `width` columns and `height` rows can be had.
pub open spec fn valid_dimensions(width: u32, height: u32) -> bool {
    width > 0 && height > 0 && width * height <= MAX_CELLS
}

/// The reasons for which dimensions are turned down.
#[derive(Clone, Copy, Debug, PartialEq, Eq, Structural)]
pub enum GridError {
    /// The width or the height is zero: there would be no cell to wrap
    /// around to.
    ZeroArea,
    /// Width times height exceeds [`MAX_CELLS`].
    TooLarge,
}

impl GridError {
    /// What the error says when `width` and `height` were asked for: the
    /// first reason that holds, or `None` where the dimensions are valid.
    pub open spec fn of(width: u32, height: u32) -> Option<GridError> {
        if width == 0 || height == 0 {
            Some(GridError::ZeroArea)
        } else if width * height > MAX_CELLS {
            Some(GridError::TooLarge)
        } else {
            None
        }
    }

    /// A sentence for the reader of a log.
    pub fn message(&self) -> (text: String)
        ensures
            text@ == match *self {
                GridError::ZeroArea => "the universe needs at least one row and one column"@,
                GridError::TooLarge => "the universe cannot hold that many cells"@,
            },
    {
        match self {
            GridError::ZeroArea => String::from_str(
                "the universe needs at least one row and one column",
            ),
            GridError::TooLarge => String::from_str("the universe cannot hold that many cells"),
        }
    }
}

/// Checks dimensions; on success gives the number of cells they ask for.
pub fn check_dimensions(width: u32, height: u32) -> (checked: Result<usize, GridError>)
    ensures
        match checked {
            Ok(area) => valid_dimensions(width, height) && area == width * height,
            Err(e) => GridError::of(width, height) == Some(e),
        },
{
    if width == 0 || height == 0 {
        return Err(GridError::ZeroArea);
    }
    assert(width * height <= 0xFFFF_FFFF * 0xFFFF_FFFF) by (nonlinear_arith)
        requires
            width <= 0xFFFF_FFFF,
            height <= 0xFFFF_FFFF,
    ;
    let area: u64 = (width as u64) * (height as u64);
    if area > MAX_CELLS {
        Err(GridError::TooLarge)
    } else {
        Ok(area as usize)
    }
}

} // verus!
