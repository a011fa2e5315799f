//! The shape catalog: for each of the seven piece kinds and each of the four
//! rotation states, a 4x4 occupancy bitmap, plus a fixed per-kind spawn
//! offset. The catalog is a pure, total lookup; every bitmap has exactly
//! four occupied cells.

use vstd::prelude::*;

use crate::geom::FigureKind;
use crate::geom::Pos;
use crate::geom::Rotation;

verus! {

/// Whether cell (`x`, `y`) of the 4x4 bitmap of `kind` at `rot` is occupied.
/// `x` is the column and `y` the row of the bitmap; cells outside the 4x4
/// square are never occupied.
pub open spec fn occupied(kind: FigureKind, rot: Rotation, x: int, y: int) -> bool {
    0 <= x < 4 && 0 <= y < 4 && match kind {
        FigureKind::Bar => match rot {
            Rotation::Upright => x == 1,
            Rotation::Left => y == 2,
            Rotation::Right => y == 1,
            Rotation::Upside => x == 2,
        },
        FigureKind::PZ => match rot {
            Rotation::Upright => (y == 0 && (x == 0 || x == 1)) || (y == 1 && (x == 1 || x == 2)),
            Rotation::Left => (y == 0 && x == 1) || (y == 1 && (x == 0 || x == 1)) || (y == 2 && x == 0),
            Rotation::Right => (y == 0 && x == 2) || (y == 1 && (x == 1 || x == 2)) || (y == 2 && x == 1),
            Rotation::Upside => (y == 1 && (x == 0 || x == 1)) || (y == 2 && (x == 1 || x == 2)),
        },
        FigureKind::NZ => match rot {
            Rotation::Upright => (y == 0 && (x == 1 || x == 2)) || (y == 1 && (x == 0 || x == 1)),
            Rotation::Left => (y == 0 && x == 0) || (y == 1 && (x == 0 || x == 1)) || (y == 2 && x == 1),
            Rotation::Right => (y == 0 && x == 1) || (y == 1 && (x == 1 || x == 2)) || (y == 2 && x == 2),
            Rotation::Upside => (y == 1 && (x == 1 || x == 2)) || (y == 2 && (x == 0 || x == 1)),
        },
        FigureKind::PL => match rot {
            Rotation::Upright => (x == 1 && y <= 2) || (y == 2 && x == 2),
            Rotation::Left => (y == 0 && x == 2) || (y == 1 && x <= 2),
            Rotation::Right => (y == 1 && x <= 2) || (y == 2 && x == 0),
            Rotation::Upside => (y == 0 && (x == 0 || x == 1)) || (x == 1 && (y == 1 || y == 2)),
        },
        FigureKind::NL => match rot {
            Rotation::Upright => (x == 1 && y <= 1) || (y == 2 && (x == 0 || x == 1)),
            Rotation::Left => (y == 1 && x <= 2) || (y == 2 && x == 2),
            Rotation::Right => (y == 0 && x == 0) || (y == 1 && x <= 2),
            Rotation::Upside => (y == 0 && (x == 1 || x == 2)) || (x == 1 && (y == 1 || y == 2)),
        },
        FigureKind::Square => x <= 1 && y <= 1,
        FigureKind::T => match rot {
            Rotation::Upright => (y == 1 && x <= 2) || (y == 2 && x == 1),
            Rotation::Left => (x == 1 && y <= 2) || (y == 1 && x == 2),
            Rotation::Right => (x == 1 && y <= 2) || (y == 1 && x == 0),
            Rotation::Upside => (y == 0 && x == 1) || (y == 1 && x <= 2),
        },
    }
}

/// Whether column `x` of the bitmap holds any occupied cell.
pub open spec fn col_occupied(kind: FigureKind, rot: Rotation, x: int) -> bool {
    occupied(kind, rot, x, 0) || occupied(kind, rot, x, 1) || occupied(kind, rot, x, 2)
        || occupied(kind, rot, x, 3)
}

/// Whether row `y` of the bitmap holds any occupied cell.
pub open spec fn row_occupied(kind: FigureKind, rot: Rotation, y: int) -> bool {
    occupied(kind, rot, 0, y) || occupied(kind, rot, 1, y) || occupied(kind, rot, 2, y)
        || occupied(kind, rot, 3, y)
}

/// The leftmost occupied column of the bitmap.
pub open spec fn leftmost_col(kind: FigureKind, rot: Rotation) -> int {
    if col_occupied(kind, rot, 0) {
        0
    } else if col_occupied(kind, rot, 1) {
        1
    } else if col_occupied(kind, rot, 2) {
        2
    } else {
        3
    }
}

/// The rightmost occupied column of the bitmap.
pub open spec fn rightmost_col(kind: FigureKind, rot: Rotation) -> int {
    if col_occupied(kind, rot, 3) {
        3
    } else if col_occupied(kind, rot, 2) {
        2
    } else if col_occupied(kind, rot, 1) {
        1
    } else {
        0
    }
}

/// The topmost occupied row of the bitmap.
pub open spec fn top_row(kind: FigureKind, rot: Rotation) -> int {
    if row_occupied(kind, rot, 0) {
        0
    } else if row_occupied(kind, rot, 1) {
        1
    } else if row_occupied(kind, rot, 2) {
        2
    } else {
        3
    }
}

/// 1 for an occupied bitmap cell, 0 otherwise.
pub open spec fn cell_ind(kind: FigureKind, rot: Rotation, x: int, y: int) -> int {
    if occupied(kind, rot, x, y) {
        1
    } else {
        0
    }
}

/// How many of the 16 bitmap cells are occupied.
pub open spec fn shape_cell_count(kind: FigureKind, rot: Rotation) -> int {
    cell_ind(kind, rot, 0, 0) + cell_ind(kind, rot, 1, 0) + cell_ind(kind, rot, 2, 0) + cell_ind(
        kind,
        rot,
        3,
        0,
    ) + cell_ind(kind, rot, 0, 1) + cell_ind(kind, rot, 1, 1) + cell_ind(kind, rot, 2, 1)
        + cell_ind(kind, rot, 3, 1) + cell_ind(kind, rot, 0, 2) + cell_ind(kind, rot, 1, 2)
        + cell_ind(kind, rot, 2, 2) + cell_ind(kind, rot, 3, 2) + cell_ind(kind, rot, 0, 3)
        + cell_ind(kind, rot, 1, 3) + cell_ind(kind, rot, 2, 3) + cell_ind(kind, rot, 3, 3)
}

/// The fixed spawn offset of each kind. Kinds whose bitmap starts below its
/// top row spawn with a negative `y`, so their first rows are initially above
/// the visible board.
pub open spec fn spec_spawn_pos(kind: FigureKind) -> Pos {
    match kind {
        FigureKind::Bar => Pos { x: 4 as isize, y: -2 as isize },
        FigureKind::PZ => Pos { x: 4 as isize, y: 0 as isize },
        FigureKind::NZ => Pos { x: 4 as isize, y: 0 as isize },
        FigureKind::PL => Pos { x: 4 as isize, y: -1 as isize },
        FigureKind::NL => Pos { x: 4 as isize, y: -1 as isize },
        FigureKind::Square => Pos { x: 4 as isize, y: 0 as isize },
        FigureKind::T => Pos { x: 4 as isize, y: -1 as isize },
    }
}

impl FigureKind {
    /// Reads one cell of the 4x4 occupancy bitmap of this kind at `rot`.
    pub fn occupied_at(self, rot: Rotation, x: usize, y: usize) -> (r: bool)
        requires
            x < 4,
            y < 4,
        ensures
            r == occupied(self, rot, x as int, y as int),
    {
        match self {
            FigureKind::Bar => match rot {
                Rotation::Upright => x == 1,
                Rotation::Left => y == 2,
                Rotation::Right => y == 1,
                Rotation::Upside => x == 2,
            },
            FigureKind::PZ => match rot {
                Rotation::Upright => (y == 0 && (x == 0 || x == 1)) || (y == 1 && (x == 1 || x
                    == 2)),
                Rotation::Left => (y == 0 && x == 1) || (y == 1 && (x == 0 || x == 1)) || (y == 2
                    && x == 0),
                Rotation::Right => (y == 0 && x == 2) || (y == 1 && (x == 1 || x == 2)) || (y == 2
                    && x == 1),
                Rotation::Upside => (y == 1 && (x == 0 || x == 1)) || (y == 2 && (x == 1 || x
                    == 2)),
            },
            FigureKind::NZ => match rot {
                Rotation::Upright => (y == 0 && (x == 1 || x == 2)) || (y == 1 && (x == 0 || x
                    == 1)),
                Rotation::Left => (y == 0 && x == 0) || (y == 1 && (x == 0 || x == 1)) || (y == 2
                    && x == 1),
                Rotation::Right => (y == 0 && x == 1) || (y == 1 && (x == 1 || x == 2)) || (y == 2
                    && x == 2),
                Rotation::Upside => (y == 1 && (x == 1 || x == 2)) || (y == 2 && (x == 0 || x
                    == 1)),
            },
            FigureKind::PL => match rot {
                Rotation::Upright => (x == 1 && y <= 2) || (y == 2 && x == 2),
                Rotation::Left => (y == 0 && x == 2) || (y == 1 && x <= 2),
                Rotation::Right => (y == 1 && x <= 2) || (y == 2 && x == 0),
                Rotation::Upside => (y == 0 && (x == 0 || x == 1)) || (x == 1 && (y == 1 || y
                    == 2)),
            },
            FigureKind::NL => match rot {
                Rotation::Upright => (x == 1 && y <= 1) || (y == 2 && (x == 0 || x == 1)),
                Rotation::Left => (y == 1 && x <= 2) || (y == 2 && x == 2),
                Rotation::Right => (y == 0 && x == 0) || (y == 1 && x <= 2),
                Rotation::Upside => (y == 0 && (x == 1 || x == 2)) || (x == 1 && (y == 1 || y
                    == 2)),
            },
            FigureKind::Square => x <= 1 && y <= 1,
            FigureKind::T => match rot {
                Rotation::Upright => (y == 1 && x <= 2) || (y == 2 && x == 1),
                Rotation::Left => (x == 1 && y <= 2) || (y == 1 && x == 2),
                Rotation::Right => (x == 1 && y <= 2) || (y == 1 && x == 0),
                Rotation::Upside => (y == 0 && x == 1) || (y == 1 && x <= 2),
            },
        }
    }

    /// The fixed spawn offset of this kind.
    pub fn get_pos(self) -> (r: Pos)
        ensures
            r == spec_spawn_pos(self),
    {
        match self {
            FigureKind::Bar => Pos { x: 4, y: -2 },
            FigureKind::PZ => Pos { x: 4, y: 0 },
            FigureKind::NZ => Pos { x: 4, y: 0 },
            FigureKind::PL => Pos { x: 4, y: -1 },
            FigureKind::NL => Pos { x: 4, y: -1 },
            FigureKind::Square => Pos { x: 4, y: 0 },
            FigureKind::T => Pos { x: 4, y: -1 },
        }
    }
}


/// Whether column `x` of the bitmap holds any occupied cell.
pub fn col_any(kind: FigureKind, rot: Rotation, x: usize) -> (r: bool)
    requires
        x < 4,
    ensures
        r == col_occupied(kind, rot, x as int),
{
    kind.occupied_at(rot, x, 0) || kind.occupied_at(rot, x, 1) || kind.occupied_at(rot, x, 2)
        || kind.occupied_at(rot, x, 3)
}

/// Whether row `y` of the bitmap holds any occupied cell.
pub fn row_any(kind: FigureKind, rot: Rotation, y: usize) -> (r: bool)
    requires
        y < 4,
    ensures
        r == row_occupied(kind, rot, y as int),
{
    kind.occupied_at(rot, 0, y) || kind.occupied_at(rot, 1, y) || kind.occupied_at(rot, 2, y)
        || kind.occupied_at(rot, 3, y)
}

/// The leftmost occupied column of the bitmap.
pub fn first_occupied_col(kind: FigureKind, rot: Rotation) -> (r: usize)
    ensures
        r as int == leftmost_col(kind, rot),
{
    if col_any(kind, rot, 0) {
        0
    } else if col_any(kind, rot, 1) {
        1
    } else if col_any(kind, rot, 2) {
        2
    } else {
        3
    }
}

/// The topmost occupied row of the bitmap.
pub fn first_occupied_row(kind: FigureKind, rot: Rotation) -> (r: usize)
    ensures
        r as int == top_row(kind, rot),
{
    if row_any(kind, rot, 0) {
        0
    } else if row_any(kind, rot, 1) {
        1
    } else if row_any(kind, rot, 2) {
        2
    } else {
        3
    }
}

/// Every bitmap holds at least one occupied cell, its leftmost and rightmost
/// occupied columns and its topmost occupied row are where the bound
/// functions say, and every occupied column lies between the extremes.
pub proof fn lemma_shape_cells(kind: FigureKind, rot: Rotation)
    ensures
        exists|x: int, y: int| occupied(kind, rot, x, y),
        col_occupied(kind, rot, leftmost_col(kind, rot)),
        col_occupied(kind, rot, rightmost_col(kind, rot)),
        row_occupied(kind, rot, top_row(kind, rot)),
        0 <= leftmost_col(kind, rot) <= rightmost_col(kind, rot) <= 3,
        0 <= top_row(kind, rot) <= 3,
        forall|x: int| col_occupied(kind, rot, x) ==> leftmost_col(kind, rot) <= x <= rightmost_col(
            kind,
            rot,
        ),
{
    match kind {
        FigureKind::Bar => {
            assert(occupied(kind, Rotation::Upright, 1, 0));
            assert(occupied(kind, Rotation::Left, 0, 2));
            assert(occupied(kind, Rotation::Right, 0, 1));
            assert(occupied(kind, Rotation::Upside, 2, 0));
        },
        FigureKind::PZ => {
            assert(occupied(kind, Rotation::Upright, 0, 0));
            assert(occupied(kind, Rotation::Left, 1, 0));
            assert(occupied(kind, Rotation::Right, 2, 0));
            assert(occupied(kind, Rotation::Upside, 0, 1));
        },
        FigureKind::NZ => {
            assert(occupied(kind, Rotation::Upright, 1, 0));
            assert(occupied(kind, Rotation::Left, 0, 0));
            assert(occupied(kind, Rotation::Right, 1, 0));
            assert(occupied(kind, Rotation::Upside, 1, 1));
        },
        FigureKind::PL => {
            assert(occupied(kind, Rotation::Upright, 1, 0));
            assert(occupied(kind, Rotation::Left, 2, 0));
            assert(occupied(kind, Rotation::Right, 0, 1));
            assert(occupied(kind, Rotation::Upside, 0, 0));
        },
        FigureKind::NL => {
            assert(occupied(kind, Rotation::Upright, 1, 0));
            assert(occupied(kind, Rotation::Left, 0, 1));
            assert(occupied(kind, Rotation::Right, 0, 0));
            assert(occupied(kind, Rotation::Upside, 1, 0));
        },
        FigureKind::Square => {
            assert(occupied(kind, rot, 0, 0));
        },
        FigureKind::T => {
            assert(occupied(kind, Rotation::Upright, 0, 1));
            assert(occupied(kind, Rotation::Left, 1, 0));
            assert(occupied(kind, Rotation::Right, 1, 0));
            assert(occupied(kind, Rotation::Upside, 1, 0));
        },
    }
}

/// Every (kind, rotation) bitmap has exactly four occupied cells.
pub proof fn lemma_shape_has_four_cells(kind: FigureKind, rot: Rotation)
    ensures
        shape_cell_count(kind, rot) == 4,
{
    match kind {
        FigureKind::Bar => assert(shape_cell_count(kind, rot) == 4),
        FigureKind::PZ => assert(shape_cell_count(kind, rot) == 4),
        FigureKind::NZ => assert(shape_cell_count(kind, rot) == 4),
        FigureKind::PL => assert(shape_cell_count(kind, rot) == 4),
        FigureKind::NL => assert(shape_cell_count(kind, rot) == 4),
        FigureKind::Square => assert(shape_cell_count(kind, rot) == 4),
        FigureKind::T => assert(shape_cell_count(kind, rot) == 4),
    }
}

/// Spawning keeps the piece horizontally on the board: at spawn, every
/// occupied cell (so in particular at least one) has an absolute column
/// within the board's width.
pub proof fn lemma_spawn_visible(kind: FigureKind)
    ensures
        exists|x: int, y: int|
            occupied(kind, Rotation::Upright, x, y) && 0 <= spec_spawn_pos(kind).x + x < (
            crate::FIELD_WIDTH as int),
{
    lemma_shape_cells(kind, Rotation::Upright);
    let (x, y) = choose|x: int, y: int| occupied(kind, Rotation::Upright, x, y);
    assert(occupied(kind, Rotation::Upright, x, y) && 0 <= spec_spawn_pos(kind).x + x < (
    crate::FIELD_WIDTH as int));
}

} // verus!
