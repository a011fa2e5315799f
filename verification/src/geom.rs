//! Basic value types: board positions, rotation states, colors, piece kinds,
//! player inputs, collision verdicts and render glyphs.

use vstd::prelude::*;

verus! {

/// A board position in cell units. `y` grows downward; it may be negative
/// while a piece is still partially above the visible board.
#[derive(Copy, Clone, PartialEq, Eq, Structural, Debug)]
pub struct Pos {
    pub x: isize,
    pub y: isize,
}

impl Pos {
    /// The position one row further down.
    pub fn advance(&self) -> (r: Pos)
        requires
            self.y < isize::MAX,
        ensures
            r.x == self.x && r.y == self.y + 1,
    {
        Pos { x: self.x, y: self.y + 1 }
    }
}

/// One of the four orientations of a piece. Rotation always advances one
/// step forward along the cycle Upright -> Right -> Upside -> Left -> Upright.
#[derive(Copy, Clone, PartialEq, Eq, Structural, Debug)]
pub enum Rotation {
    Upright,
    Left,
    Right,
    Upside,
}

impl Rotation {
    /// The next rotation state in the fixed forward cycle.
    pub fn rotate(&self) -> (r: Rotation)
        ensures
            r == self.spec_rotate(),
    {
        match self {
            Rotation::Upright => Rotation::Right,
            Rotation::Left => Rotation::Upright,
            Rotation::Right => Rotation::Upside,
            Rotation::Upside => Rotation::Left,
        }
    }

    /// The forward rotation cycle.
    pub open spec fn spec_rotate(self) -> Rotation {
        match self {
            Rotation::Upright => Rotation::Right,
            Rotation::Left => Rotation::Upright,
            Rotation::Right => Rotation::Upside,
            Rotation::Upside => Rotation::Left,
        }
    }
}

/// A cell color. `Transparent` marks an empty board cell; `Gray` is reserved
/// for the ghost-piece outline and is never assigned to a locked cell.
#[derive(Copy, Clone, PartialEq, Eq, Structural, Debug)]
pub enum Color {
    Transparent,
    Red,
    Green,
    Blue,
    Cyan,
    Magenta,
    Yellow,
    Gray,
}

impl Color {
    /// Whether this color may be carried by a piece: opaque, and not the
    /// shade reserved for the ghost outline.
    pub open spec fn is_piece_color(self) -> bool {
        match self {
            Color::Transparent => false,
            Color::Gray => false,
            _ => true,
        }
    }

    /// The red, green, blue and alpha channels a presentation layer shows
    /// this color as.
    pub fn rgba(self) -> (r: (u8, u8, u8, u8))
        ensures
            r == self.spec_rgba(),
    {
        match self {
            Color::Transparent => (0, 0, 0, 255),
            Color::Red => (255, 0, 0, 255),
            Color::Green => (0, 255, 0, 255),
            Color::Blue => (0, 0, 255, 255),
            Color::Cyan => (0, 255, 255, 255),
            Color::Magenta => (255, 0, 255, 255),
            Color::Yellow => (255, 255, 0, 255),
            Color::Gray => (85, 85, 85, 255),
        }
    }

    /// The channel values of each color: fully opaque, one third intensity
    /// for the ghost shade.
    pub open spec fn spec_rgba(self) -> (u8, u8, u8, u8) {
        match self {
            Color::Transparent => (0, 0, 0, 255),
            Color::Red => (255, 0, 0, 255),
            Color::Green => (0, 255, 0, 255),
            Color::Blue => (0, 0, 255, 255),
            Color::Cyan => (0, 255, 255, 255),
            Color::Magenta => (255, 0, 255, 255),
            Color::Yellow => (255, 255, 0, 255),
            Color::Gray => (85, 85, 85, 255),
        }
    }
}

/// One of the seven tetromino shapes.
#[derive(Copy, Clone, PartialEq, Eq, Structural, Debug)]
pub enum FigureKind {
    Bar,
    PZ,
    NZ,
    PL,
    NL,
    Square,
    T,
}

/// A piece: geometry from the kind, cosmetic color chosen per spawn.
#[derive(Copy, Clone, PartialEq, Eq, Structural, Debug)]
pub struct Figure {
    pub kind: FigureKind,
    pub color: Color,
}

/// A player action on the active piece.
#[derive(Copy, Clone, PartialEq, Eq, Structural, Debug)]
pub enum InputField {
    Left,
    Right,
    Rotate,
}

/// The verdict of a collision probe: the first violation found, with all
/// horizontal checks evaluated before any vertical one.
#[derive(Copy, Clone, PartialEq, Eq, Structural, Debug)]
pub enum CollideVariant {
    NoCollision,
    Left,
    Right,
    BottomOrPieces,
}

/// One rendered cell: either a board color or a two-digit score group.
#[derive(Copy, Clone, PartialEq, Eq, Structural, Debug)]
pub enum Glyph {
    Color(Color),
    Number(u8),
}

} // verus!
