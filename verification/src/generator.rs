//! The piece and color generator. The entropy itself comes from the `rand`
//! crate through one trusted wrapper; everything that interprets the drawn
//! number is verified. Nothing is promised of the distribution beyond the
//! range of the result: every call is independent, repeats are possible.

use vstd::prelude::*;

use crate::geom::Color;
use crate::geom::FigureKind;

verus! {

/// Relies on rand::Rng::gen_range over `lo..hi` on the thread-local
/// generator: the result lies in the half-open range, and the call panics
/// only on an empty range, which the precondition rules out.
#[verifier::external_body]
fn random_in(lo: u8, hi: u8) -> (r: u8)
    requires
        lo < hi,
    ensures
        lo <= r < hi,
{
    rand::Rng::gen_range(&mut rand::thread_rng(), lo..hi)
}

/// The piece kind denoted by a draw index.
pub fn kind_from_index(i: u8) -> (r: FigureKind)
    requires
        i < 7,
    ensures
        r == spec_kind_from_index(i as int),
{
    match i {
        0 => FigureKind::Bar,
        1 => FigureKind::PZ,
        2 => FigureKind::NZ,
        3 => FigureKind::PL,
        4 => FigureKind::NL,
        5 => FigureKind::Square,
        _ => FigureKind::T,
    }
}

/// The kind each of the seven draw indices stands for.
pub open spec fn spec_kind_from_index(i: int) -> FigureKind {
    if i == 0 {
        FigureKind::Bar
    } else if i == 1 {
        FigureKind::PZ
    } else if i == 2 {
        FigureKind::NZ
    } else if i == 3 {
        FigureKind::PL
    } else if i == 4 {
        FigureKind::NL
    } else if i == 5 {
        FigureKind::Square
    } else {
        FigureKind::T
    }
}

/// The piece color denoted by a draw index: one of the six opaque colors,
/// never the empty sentinel and never the shade reserved for the ghost.
pub fn color_from_index(i: u8) -> (r: Color)
    requires
        1 <= i < 7,
    ensures
        r == spec_color_from_index(i as int),
        r.is_piece_color(),
{
    match i {
        1 => Color::Red,
        2 => Color::Green,
        3 => Color::Blue,
        4 => Color::Cyan,
        5 => Color::Magenta,
        _ => Color::Yellow,
    }
}

/// The color each of the six draw indices stands for.
pub open spec fn spec_color_from_index(i: int) -> Color {
    if i == 1 {
        Color::Red
    } else if i == 2 {
        Color::Green
    } else if i == 3 {
        Color::Blue
    } else if i == 4 {
        Color::Cyan
    } else if i == 5 {
        Color::Magenta
    } else {
        Color::Yellow
    }
}

/// Draws a piece kind; meant to be uniform over the seven kinds.
pub fn next_kind() -> FigureKind {
    let i = random_in(0, 7);
    kind_from_index(i)
}

/// Draws a piece color; meant to be uniform over the six opaque, non-ghost
/// colors.
pub fn next_color() -> (r: Color)
    ensures
        r.is_piece_color(),
{
    let i = random_in(1, 7);
    color_from_index(i)
}

} // verus!
