//! Rules engine of a falling-block puzzle game: a fixed 10x20 board, seven
//! tetromino kinds with four rotation states each, collision detection with
//! wall-kick recovery, gravity stepping, hard drop, multi-row line clearing
//! with an exponential score curve, and a pure renderer that composes the
//! board, a next-piece preview and the score into one glyph buffer.

use vstd::prelude::*;

pub mod field;
pub mod geom;
pub mod generator;
pub mod render;
pub mod shapes;

verus! {

pub use crate::field::Field;
pub use crate::geom::Color;
pub use crate::geom::CollideVariant;
pub use crate::geom::Figure;
pub use crate::geom::FigureKind;
pub use crate::geom::Glyph;
pub use crate::geom::InputField;
pub use crate::geom::Pos;
pub use crate::geom::Rotation;

/// Number of columns of the board.
pub const FIELD_WIDTH: usize = 10;

/// Number of rows of the board.
pub const FIELD_HEIGHT: usize = 20;

} // verus!
