//! The Field state machine: the 10x20 board grid, the active and queued
//! pieces and the score, with collision probing, wall-kick recovery,
//! gravity stepping, hard drop, locking and multi-row line clearing.

use vstd::prelude::*;

use crate::geom::Color;
use crate::geom::CollideVariant;
use crate::geom::Figure;
use crate::geom::FigureKind;
use crate::geom::InputField;
use crate::geom::Pos;
use crate::geom::Rotation;
use crate::shapes::col_occupied;
use crate::shapes::leftmost_col;
use crate::shapes::lemma_shape_cells;
use crate::shapes::occupied;
use crate::shapes::rightmost_col;
use crate::shapes::spec_spawn_pos;
use vstd::arithmetic::power2::lemma2_to64;
use vstd::arithmetic::power2::lemma_pow2_strictly_increases;
use vstd::arithmetic::power2::lemma_pow2_unfold;
use vstd::arithmetic::power2::pow2;

verus! {

/// The piece at rotation `rot` and horizontal offset `px` reaches past the
/// left wall.
pub open spec fn hits_left(kind: FigureKind, rot: Rotation, px: int) -> bool {
    exists|x: int, y: int| occupied(kind, rot, x, y) && px + x < 0
}

/// The piece at rotation `rot` and horizontal offset `px` reaches past the
/// right wall.
pub open spec fn hits_right(kind: FigureKind, rot: Rotation, px: int) -> bool {
    exists|x: int, y: int| occupied(kind, rot, x, y) && px + x >= crate::FIELD_WIDTH as int
}

/// The piece at (`px`, `py`) reaches at or past the bottom row, or lands on
/// a board cell that is already occupied. Cells above the board (negative
/// absolute row) never count.
pub open spec fn hits_bottom_or_pieces(
    g: Seq<Seq<Color>>,
    kind: FigureKind,
    rot: Rotation,
    px: int,
    py: int,
) -> bool {
    exists|x: int, y: int|
        occupied(kind, rot, x, y) && (py + y >= crate::FIELD_HEIGHT as int || (0 <= px + x
            < crate::FIELD_WIDTH as int && 0 <= py + y < crate::FIELD_HEIGHT as int && g[py + y][px
            + x] != Color::Transparent))
}

/// The placement is legal: every occupied cell of the piece lies within the
/// walls, above the bottom, and every such cell that is on the visible board
/// is over an empty grid cell.
pub open spec fn fits(
    g: Seq<Seq<Color>>,
    kind: FigureKind,
    rot: Rotation,
    px: int,
    py: int,
) -> bool {
    forall|x: int, y: int|
        occupied(kind, rot, x, y) ==> 0 <= px + x < crate::FIELD_WIDTH as int && py + y
            < crate::FIELD_HEIGHT as int && (0 <= py + y ==> g[py + y][px + x]
            == Color::Transparent)
}

/// A placement is legal exactly when none of the three violations holds.
pub proof fn lemma_fits_characterization(
    g: Seq<Seq<Color>>,
    kind: FigureKind,
    rot: Rotation,
    px: int,
    py: int,
)
    ensures
        fits(g, kind, rot, px, py) <==> (!hits_left(kind, rot, px) && !hits_right(kind, rot, px)
            && !hits_bottom_or_pieces(g, kind, rot, px, py)),
{
    if !hits_left(kind, rot, px) && !hits_right(kind, rot, px) && !hits_bottom_or_pieces(
        g,
        kind,
        rot,
        px,
        py,
    ) {
        assert forall|x: int, y: int| occupied(kind, rot, x, y) implies 0 <= px + x
            < crate::FIELD_WIDTH as int && py + y < crate::FIELD_HEIGHT as int && (0 <= py + y
            ==> g[py + y][px + x] == Color::Transparent) by {
            assert(!(occupied(kind, rot, x, y) && px + x < 0));
            assert(!(occupied(kind, rot, x, y) && px + x >= crate::FIELD_WIDTH as int));
            assert(!(occupied(kind, rot, x, y) && (py + y >= crate::FIELD_HEIGHT as int || (0 <= px
                + x < crate::FIELD_WIDTH as int && 0 <= py + y < crate::FIELD_HEIGHT as int && g[py
                + y][px + x] != Color::Transparent))));
        }
    }
}

/// The horizontal violations in terms of the bitmap's extreme occupied
/// columns: the piece pokes past a wall exactly when its nearest occupied
/// column does.
pub proof fn lemma_hits_horizontal_iff(kind: FigureKind, rot: Rotation, px: int)
    ensures
        hits_left(kind, rot, px) <==> px + leftmost_col(kind, rot) < 0,
        hits_right(kind, rot, px) <==> px + rightmost_col(kind, rot) >= crate::FIELD_WIDTH as int,
{
    lemma_shape_cells(kind, rot);
    let lm = leftmost_col(kind, rot);
    let rm = rightmost_col(kind, rot);
    if hits_left(kind, rot, px) {
        let (x, y) = choose|x: int, y: int| occupied(kind, rot, x, y) && px + x < 0;
        assert(col_occupied(kind, rot, x));
        assert(px + lm < 0);
    }
    if px + lm < 0 {
        assert(col_occupied(kind, rot, lm));
        assert(exists|x: int, y: int| occupied(kind, rot, x, y) && px + x < 0) by {
            if occupied(kind, rot, lm, 0) {
                assert(occupied(kind, rot, lm, 0) && px + lm < 0);
            } else if occupied(kind, rot, lm, 1) {
                assert(occupied(kind, rot, lm, 1) && px + lm < 0);
            } else if occupied(kind, rot, lm, 2) {
                assert(occupied(kind, rot, lm, 2) && px + lm < 0);
            } else {
                assert(occupied(kind, rot, lm, 3) && px + lm < 0);
            }
        }
    }
    if hits_right(kind, rot, px) {
        let (x, y) = choose|x: int, y: int|
            occupied(kind, rot, x, y) && px + x >= crate::FIELD_WIDTH as int;
        assert(col_occupied(kind, rot, x));
        assert(px + rm >= crate::FIELD_WIDTH as int);
    }
    if px + rm >= crate::FIELD_WIDTH as int {
        assert(col_occupied(kind, rot, rm));
        assert(exists|x: int, y: int|
            occupied(kind, rot, x, y) && px + x >= crate::FIELD_WIDTH as int) by {
            if occupied(kind, rot, rm, 0) {
                assert(occupied(kind, rot, rm, 0) && px + rm >= crate::FIELD_WIDTH as int);
            } else if occupied(kind, rot, rm, 1) {
                assert(occupied(kind, rot, rm, 1) && px + rm >= crate::FIELD_WIDTH as int);
            } else if occupied(kind, rot, rm, 2) {
                assert(occupied(kind, rot, rm, 2) && px + rm >= crate::FIELD_WIDTH as int);
            } else {
                assert(occupied(kind, rot, rm, 3) && px + rm >= crate::FIELD_WIDTH as int);
            }
        }
    }
}


/// Where the wall-kick walk ends horizontally: the offset clamped into the
/// band where the piece clears both walls.
pub open spec fn kick_target_x(kind: FigureKind, rot: Rotation, px: int) -> int {
    if px + leftmost_col(kind, rot) < 0 {
        -leftmost_col(kind, rot)
    } else if px + rightmost_col(kind, rot) >= crate::FIELD_WIDTH as int {
        crate::FIELD_WIDTH as int - 1 - rightmost_col(kind, rot)
    } else {
        px
    }
}

/// The wall-kick target clears both walls, is the probe itself when the
/// probe already clears them, and moving the probe one step toward the
/// target does not change the target.
pub proof fn lemma_kick_target(kind: FigureKind, rot: Rotation, px: int)
    ensures
        !hits_left(kind, rot, kick_target_x(kind, rot, px)),
        !hits_right(kind, rot, kick_target_x(kind, rot, px)),
        !hits_left(kind, rot, px) && !hits_right(kind, rot, px) ==> kick_target_x(kind, rot, px)
            == px,
        hits_left(kind, rot, px) ==> px < kick_target_x(kind, rot, px) && kick_target_x(
            kind,
            rot,
            px + 1,
        ) == kick_target_x(kind, rot, px),
        hits_right(kind, rot, px) ==> px > kick_target_x(kind, rot, px) && kick_target_x(
            kind,
            rot,
            px - 1,
        ) == kick_target_x(kind, rot, px),
        -3 <= kick_target_x(kind, rot, px) <= crate::FIELD_WIDTH as int - 1,
{
    lemma_shape_cells(kind, rot);
    lemma_hits_horizontal_iff(kind, rot, px);
    lemma_hits_horizontal_iff(kind, rot, kick_target_x(kind, rot, px));
    lemma_hits_horizontal_iff(kind, rot, px + 1);
    lemma_hits_horizontal_iff(kind, rot, px - 1);
}


/// How a one-column translation input changes the state: the shifted
/// position is committed when it is legal, and the input is silently
/// ignored otherwise. Rotation never changes.
pub open spec fn moved_horizontal(pre: Field, post: Field, dx: int) -> bool {
    let kind = pre.figure().kind;
    let rot = pre.rotation();
    let nx = pre.pos().x + dx;
    &&& post.rotation() == pre.rotation()
    &&& post.pos().y == pre.pos().y
    &&& if fits(pre.grid(), kind, rot, nx, pre.pos().y as int) {
        post.pos().x as int == nx
    } else {
        post.pos().x == pre.pos().x
    }
}

/// How a rotate input changes the state: the rotation advances one step and
/// the piece lands at the wall-kick target if that placement is legal
/// against bottom and locked cells; otherwise the rotation is rejected and
/// nothing changes.
pub open spec fn rotated(pre: Field, post: Field) -> bool {
    let kind = pre.figure().kind;
    let nr = pre.rotation().spec_rotate();
    let tx = kick_target_x(kind, nr, pre.pos().x as int);
    if !hits_bottom_or_pieces(pre.grid(), kind, nr, tx, pre.pos().y as int) {
        post.rotation() == nr && post.pos().x as int == tx && post.pos().y == pre.pos().y
    } else {
        post.rotation() == pre.rotation() && post.pos() == pre.pos()
    }
}


/// The row offset at which the piece comes to rest when dropped from
/// (`px`, `py`): the last offset from which one more downward step would
/// hit the bottom or a locked cell.
pub open spec fn spec_shadow_y(
    g: Seq<Seq<Color>>,
    kind: FigureKind,
    rot: Rotation,
    px: int,
    py: int,
) -> int
    decreases crate::FIELD_HEIGHT as int - py,
{
    if hits_bottom_or_pieces(g, kind, rot, px, py + 1) {
        py
    } else {
        proof {
            lemma_shape_cells(kind, rot);
            let (cx, cy) = choose|cx: int, cy: int| occupied(kind, rot, cx, cy);
            assert(!(occupied(kind, rot, cx, cy) && (py + 1 + cy >= crate::FIELD_HEIGHT as int || (
            0 <= px + cx < crate::FIELD_WIDTH as int && 0 <= py + 1 + cy
                < crate::FIELD_HEIGHT as int && g[py + 1 + cy][px + cx] != Color::Transparent))));
            assert(py + 1 + cy < crate::FIELD_HEIGHT as int);
        }
        spec_shadow_y(g, kind, rot, px, py + 1)
    }
}

/// While one more downward step stays legal, stepping down does not change
/// where the piece will come to rest: dropping equals stepping until the
/// piece would lock.
pub proof fn lemma_shadow_step(
    g: Seq<Seq<Color>>,
    kind: FigureKind,
    rot: Rotation,
    px: int,
    py: int,
)
    requires
        !hits_bottom_or_pieces(g, kind, rot, px, py + 1),
    ensures
        spec_shadow_y(g, kind, rot, px, py) == spec_shadow_y(g, kind, rot, px, py + 1),
{
}

/// Once one more downward step would hit the bottom or a locked cell, the
/// piece rests where it stands.
pub proof fn lemma_shadow_rest(
    g: Seq<Seq<Color>>,
    kind: FigureKind,
    rot: Rotation,
    px: int,
    py: int,
)
    requires
        hits_bottom_or_pieces(g, kind, rot, px, py + 1),
    ensures
        spec_shadow_y(g, kind, rot, px, py) == py,
{
}


/// A row with no empty cell.
pub open spec fn spec_row_full(row: Seq<Color>) -> bool {
    forall|x: int| 0 <= x < crate::FIELD_WIDTH as int ==> #[trigger] row[x] != Color::Transparent
}

/// The rows of `g` that are not full, in order.
pub open spec fn surviving_rows(g: Seq<Seq<Color>>) -> Seq<Seq<Color>> {
    g.filter(|r: Seq<Color>| !spec_row_full(r))
}

/// How many rows of `g` are full.
pub open spec fn cleared_count(g: Seq<Seq<Color>>) -> int {
    g.len() - surviving_rows(g).len()
}

/// A fully transparent row.
pub open spec fn empty_row_spec() -> Seq<Color> {
    Seq::new(crate::FIELD_WIDTH as nat, |x: int| Color::Transparent)
}

/// A fully transparent board.
pub open spec fn empty_grid() -> Seq<Seq<Color>> {
    Seq::new(crate::FIELD_HEIGHT as nat, |y: int| empty_row_spec())
}

/// The board after line clearing: the surviving rows keep their order and
/// sink to the bottom, and as many fresh empty rows enter at the top as
/// rows were cleared.
pub open spec fn cleared_grid(g: Seq<Seq<Color>>) -> Seq<Seq<Color>> {
    Seq::new(cleared_count(g) as nat, |i: int| empty_row_spec()) + surviving_rows(g)
}

/// Row `m` is the topmost full row of `g`.
pub open spec fn is_first_full_row(g: Seq<Seq<Color>>, m: int) -> bool {
    &&& 0 <= m < g.len()
    &&& spec_row_full(g[m])
    &&& forall|i: int| 0 <= i < m ==> !spec_row_full(#[trigger] g[i])
}

/// Appending a row keeps the surviving rows, extended by the new row when
/// that row is not full.
pub proof fn lemma_surviving_push(g: Seq<Seq<Color>>, r: Seq<Color>)
    ensures
        surviving_rows(g.push(r)) == if spec_row_full(r) {
            surviving_rows(g)
        } else {
            surviving_rows(g).push(r)
        },
{
    reveal(Seq::filter);
    assert((g.push(r)).drop_last() =~= g);
    assert((g.push(r)).last() == r);
}

/// Board cell (`x`, `y`) lies under an occupied cell of the piece placed at
/// (`px`, `py`).
pub open spec fn covers(
    kind: FigureKind,
    rot: Rotation,
    px: int,
    py: int,
    x: int,
    y: int,
) -> bool {
    occupied(kind, rot, x - px, y - py)
}

/// The board after the piece at (`px`, `py`) is merged in: every visible
/// board cell under an occupied piece cell takes `color`; cells of the piece
/// that fall outside the board are silently discarded.
pub open spec fn merged_grid(
    g: Seq<Seq<Color>>,
    kind: FigureKind,
    rot: Rotation,
    px: int,
    py: int,
    color: Color,
) -> Seq<Seq<Color>> {
    Seq::new(
        g.len(),
        |y: int|
            Seq::new(
                g[y].len(),
                |x: int|
                    if covers(kind, rot, px, py, x, y) {
                        color
                    } else {
                        g[y][x]
                    },
            ),
    )
}


/// The score after a clear of `k` rows whose topmost cleared row is `m`,
/// as an integer: the award is k * 2^(height - 1 - m), and the running
/// total saturates at the counter's capacity instead of wrapping.
pub open spec fn spec_score_after(score: u32, k: int, m: int) -> int {
    let total = score + k * pow2((crate::FIELD_HEIGHT as int - 1 - m) as nat);
    if total <= u32::MAX {
        total
    } else {
        u32::MAX as int
    }
}

/// The locking transition with the piece's row offset at `py`: the piece is
/// merged into the grid at its column offset and `py`, full rows are
/// cleared with the score award, rotation resets, the queued piece becomes
/// active at its kind's spawn offset, and a fresh piece is queued.
pub open spec fn lock_step_at(pre: Field, py: int, post: Field) -> bool {
    let kind = pre.figure().kind;
    let rot = pre.rotation();
    let merged = merged_grid(pre.grid(), kind, rot, pre.pos().x as int, py, pre.figure().color);
    let k = cleared_count(merged);
    &&& post.grid() == cleared_grid(merged)
    &&& (k == 0 ==> post.spec_score() == pre.spec_score())
    &&& (k > 0 ==> exists|m: int|
        #[trigger] is_first_full_row(merged, m) && post.spec_score() == spec_score_after(
            pre.spec_score(),
            k,
            m,
        ))
    &&& post.rotation() == Rotation::Upright
    &&& post.figure() == pre.next()
    &&& post.pos() == spec_spawn_pos(pre.next().kind)
    &&& post.next().color.is_piece_color()
}

/// A well-formed grid: 20 rows of 10 cells, and no locked cell carries the
/// shade reserved for the ghost outline.
pub open spec fn grid_wf(g: Seq<Seq<Color>>) -> bool {
    &&& g.len() == crate::FIELD_HEIGHT as int
    &&& forall|y: int|
        0 <= y < crate::FIELD_HEIGHT as int ==> (#[trigger] g[y]).len() == crate::FIELD_WIDTH as int
    &&& forall|y: int, x: int|
        0 <= y < crate::FIELD_HEIGHT as int && 0 <= x < crate::FIELD_WIDTH as int ==> #[trigger] g[y][x]
            != Color::Gray
}

/// The game state: board grid, active piece (kind, color, position,
/// rotation), queued piece and score.
pub struct Field {
    pieces: Vec<Vec<Color>>,
    current_figure: Figure,
    current_figure_pos: Pos,
    current_figure_rotation: Rotation,
    next_figure: Figure,
    score: u32,
}

impl Field {
    /// The board as a sequence of rows, each a sequence of cell colors; row
    /// 0 is the top.
    pub closed spec fn grid(self) -> Seq<Seq<Color>> {
        self.pieces@.map_values(|row: Vec<Color>| row@)
    }

    /// The active piece.
    pub closed spec fn figure(self) -> Figure {
        self.current_figure
    }

    /// The active piece's position.
    pub closed spec fn pos(self) -> Pos {
        self.current_figure_pos
    }

    /// The active piece's rotation state.
    pub closed spec fn rotation(self) -> Rotation {
        self.current_figure_rotation
    }

    /// The queued piece.
    pub closed spec fn next(self) -> Figure {
        self.next_figure
    }

    /// The score so far.
    pub closed spec fn spec_score(self) -> u32 {
        self.score
    }

    /// Well-formedness: the grid has its fixed dimensions, both figures
    /// carry piece colors, the active piece never pokes past a wall, and its
    /// row offset stays within the band every reachable state lies in.
    pub open spec fn wf(self) -> bool {
        &&& grid_wf(self.grid())
        &&& self.figure().color.is_piece_color()
        &&& self.next().color.is_piece_color()
        &&& !hits_left(self.figure().kind, self.rotation(), self.pos().x as int)
        &&& !hits_right(self.figure().kind, self.rotation(), self.pos().x as int)
        &&& -2 <= self.pos().y <= 19
    }

    /// Probes the active piece's bitmap at rotation `rot` and position
    /// `pos` against walls, bottom and locked cells. All horizontal checks
    /// are evaluated before any vertical one, and the first violation wins;
    /// `NoCollision` means the placement is legal.
    pub fn does_collide(&self, rot: Rotation, pos: Pos) -> (r: CollideVariant)
        requires
            self.wf(),
            pos.x <= isize::MAX - 3,
            pos.y <= isize::MAX - 3,
        ensures
            (r is Left) <==> hits_left(self.figure().kind, rot, pos.x as int),
            (r is Right) <==> hits_right(self.figure().kind, rot, pos.x as int),
            (r is BottomOrPieces) <==> (!hits_left(self.figure().kind, rot, pos.x as int)
                && !hits_right(self.figure().kind, rot, pos.x as int) && hits_bottom_or_pieces(
                self.grid(),
                self.figure().kind,
                rot,
                pos.x as int,
                pos.y as int,
            )),
            (r is NoCollision) <==> fits(
                self.grid(),
                self.figure().kind,
                rot,
                pos.x as int,
                pos.y as int,
            ),
    {
        let kind = self.current_figure.kind;
        proof {
            lemma_fits_characterization(self.grid(), kind, rot, pos.x as int, pos.y as int);
        }
        let mut y: usize = 0;
        while y < 4
            invariant
                y <= 4,
                kind == self.figure().kind,
                forall|cx: int, cy: int|
                    occupied(kind, rot, cx, cy) && cy < y ==> 0 <= pos.x + cx
                        < crate::FIELD_WIDTH as int,
                pos.x <= isize::MAX - 3,
            decreases 4 - y,
        {
            let mut x: usize = 0;
            while x < 4
                invariant
                    y < 4,
                    x <= 4,
                    kind == self.figure().kind,
                    forall|cx: int, cy: int|
                        occupied(kind, rot, cx, cy) && cy < y ==> 0 <= pos.x + cx
                            < crate::FIELD_WIDTH as int,
                    forall|cx: int|
                        occupied(kind, rot, cx, y as int) && cx < x ==> 0 <= pos.x + cx
                            < crate::FIELD_WIDTH as int,
                    pos.x <= isize::MAX - 3,
                decreases 4 - x,
            {
                if kind.occupied_at(rot, x, y) {
                    let real_x = pos.x + x as isize;
                    if real_x < 0 {
                        proof {
                            assert(occupied(kind, rot, x as int, y as int) && pos.x + x < 0);
                            assert forall|cx: int, cy: int|
                                occupied(kind, rot, cx, cy) implies !(pos.x + cx
                                >= crate::FIELD_WIDTH as int) by {}
                        }
                        return CollideVariant::Left;
                    }
                    if real_x >= 10 {
                        proof {
                            assert(occupied(kind, rot, x as int, y as int) && pos.x + x
                                >= crate::FIELD_WIDTH as int);
                            assert forall|cx: int, cy: int|
                                occupied(kind, rot, cx, cy) implies !(pos.x + cx < 0) by {}
                        }
                        return CollideVariant::Right;
                    }
                }
                x += 1;
            }
            y += 1;
        }
        assert(!hits_left(kind, rot, pos.x as int));
        assert(!hits_right(kind, rot, pos.x as int));
        let mut y: usize = 0;
        while y < 4
            invariant
                y <= 4,
                self.wf(),
                kind == self.figure().kind,
                !hits_left(kind, rot, pos.x as int),
                !hits_right(kind, rot, pos.x as int),
                forall|cx: int, cy: int|
                    occupied(kind, rot, cx, cy) ==> 0 <= pos.x + cx < crate::FIELD_WIDTH as int,
                forall|cx: int, cy: int|
                    occupied(kind, rot, cx, cy) && cy < y ==> pos.y + cy
                        < crate::FIELD_HEIGHT as int && (0 <= pos.y + cy ==> self.grid()[pos.y
                        + cy][pos.x + cx] == Color::Transparent),
                pos.x <= isize::MAX - 3,
                pos.y <= isize::MAX - 3,
            decreases 4 - y,
        {
            let mut x: usize = 0;
            while x < 4
                invariant
                    y < 4,
                    x <= 4,
                    self.wf(),
                    kind == self.figure().kind,
                    !hits_left(kind, rot, pos.x as int),
                    !hits_right(kind, rot, pos.x as int),
                    forall|cx: int, cy: int|
                        occupied(kind, rot, cx, cy) ==> 0 <= pos.x + cx < crate::FIELD_WIDTH as int,
                    forall|cx: int, cy: int|
                        occupied(kind, rot, cx, cy) && cy < y ==> pos.y + cy
                            < crate::FIELD_HEIGHT as int && (0 <= pos.y + cy ==> self.grid()[pos.y
                            + cy][pos.x + cx] == Color::Transparent),
                    forall|cx: int|
                        occupied(kind, rot, cx, y as int) && cx < x ==> pos.y + y
                            < crate::FIELD_HEIGHT as int && (0 <= pos.y + y ==> self.grid()[pos.y
                            + y][pos.x + cx] == Color::Transparent),
                    pos.x <= isize::MAX - 3,
                    pos.y <= isize::MAX - 3,
                decreases 4 - x,
            {
                if kind.occupied_at(rot, x, y) {
                    let real_y = pos.y + y as isize;
                    if real_y >= 20 {
                        proof {
                            assert(occupied(kind, rot, x as int, y as int) && pos.y + y
                                >= crate::FIELD_HEIGHT as int);
                        }
                        return CollideVariant::BottomOrPieces;
                    }
                    if real_y >= 0 {
                        let real_x = pos.x + x as isize;
                        if self.pieces[real_y as usize][real_x as usize] != Color::Transparent {
                            proof {
                                assert(occupied(kind, rot, x as int, y as int) && 0 <= pos.x + x
                                    < crate::FIELD_WIDTH as int && 0 <= pos.y + y
                                    < crate::FIELD_HEIGHT as int && self.grid()[pos.y + y][pos.x
                                    + x] != Color::Transparent);
                            }
                            return CollideVariant::BottomOrPieces;
                        }
                    }
                }
                x += 1;
            }
            y += 1;
        }
        assert(fits(self.grid(), kind, rot, pos.x as int, pos.y as int));
        CollideVariant::NoCollision
    }

    /// The wall-kick search: starting from `pos` under rotation `rot`,
    /// shifts one column away from whichever wall the piece pokes past
    /// until both walls are cleared; commits that position if it is legal
    /// against bottom and locked cells, and rejects otherwise. A probe that
    /// already clears both walls is checked in place.
    pub fn try_rotation_replace(&self, rot: Rotation, pos: Pos) -> (r: Option<Pos>)
        requires
            self.wf(),
            pos.x <= isize::MAX - 3,
            -4 <= pos.y <= 20,
        ensures
            ({
                let kind = self.figure().kind;
                let tx = kick_target_x(kind, rot, pos.x as int);
                if hits_bottom_or_pieces(self.grid(), kind, rot, tx, pos.y as int) {
                    r is None
                } else {
                    r matches Some(p) && p.x as int == tx && p.y == pos.y
                }
            }),
            r matches Some(p) ==> fits(self.grid(), self.figure().kind, rot, p.x as int, p.y as int)
                && p.y == pos.y && -3 <= p.x <= crate::FIELD_WIDTH as isize - 1,
    {
        let kind = self.current_figure.kind;
        let ghost tx = kick_target_x(kind, rot, pos.x as int);
        proof {
            lemma_kick_target(kind, rot, pos.x as int);
        }
        let mut p = pos;
        loop
            invariant
                self.wf(),
                kind == self.figure().kind,
                p.y == pos.y,
                -4 <= pos.y <= 20,
                kick_target_x(kind, rot, p.x as int) == tx,
                tx == kick_target_x(kind, rot, pos.x as int),
                -3 <= tx <= crate::FIELD_WIDTH as int - 1,
                p.x <= isize::MAX - 3,
            decreases (if p.x as int <= tx {
                tx - p.x as int
            } else {
                p.x as int - tx
            }),
        {
            proof {
                lemma_kick_target(kind, rot, p.x as int);
            }
            match self.does_collide(rot, p) {
                CollideVariant::NoCollision => {
                    proof {
                        lemma_fits_characterization(
                            self.grid(),
                            kind,
                            rot,
                            p.x as int,
                            p.y as int,
                        );
                    }
                    return Some(p);
                },
                CollideVariant::Left => {
                    p = Pos { x: p.x + 1, y: p.y };
                },
                CollideVariant::Right => {
                    p = Pos { x: p.x - 1, y: p.y };
                },
                CollideVariant::BottomOrPieces => {
                    return None;
                },
            }
        }
    }

    /// Where the active piece would come to rest if dropped: a pure read
    /// that never mutates the state. The result shares the current column
    /// offset and is the last row offset from which one more downward step
    /// would hit the bottom or a locked cell.
    pub fn get_current_figure_shadow(&self) -> (r: Pos)
        requires
            self.wf(),
        ensures
            r.x == self.pos().x,
            r.y as int == spec_shadow_y(
                self.grid(),
                self.figure().kind,
                self.rotation(),
                self.pos().x as int,
                self.pos().y as int,
            ),
            self.pos().y <= r.y <= 19,
    {
        let kind = self.current_figure.kind;
        let rot = self.current_figure_rotation;
        let mut p = self.current_figure_pos;
        loop
            invariant
                self.wf(),
                kind == self.figure().kind,
                rot == self.rotation(),
                p.x == self.pos().x,
                self.pos().y <= p.y <= 19,
                spec_shadow_y(self.grid(), kind, rot, p.x as int, p.y as int) == spec_shadow_y(
                    self.grid(),
                    kind,
                    rot,
                    self.pos().x as int,
                    self.pos().y as int,
                ),
            decreases crate::FIELD_HEIGHT as int - p.y,
        {
            proof {
                lemma_shape_cells(kind, rot);
                lemma_hits_horizontal_iff(kind, rot, p.x as int);
            }
            let np = p.advance();
            match self.does_collide(rot, np) {
                CollideVariant::BottomOrPieces => {
                    proof {
                        lemma_shadow_rest(self.grid(), kind, rot, p.x as int, p.y as int);
                    }
                    return p;
                },
                _ => {
                    proof {
                        lemma_fits_characterization(
                            self.grid(),
                            kind,
                            rot,
                            np.x as int,
                            np.y as int,
                        );
                        lemma_shadow_step(self.grid(), kind, rot, p.x as int, p.y as int);
                        lemma_shape_cells(kind, rot);
                        let (cx, cy) = choose|cx: int, cy: int| occupied(kind, rot, cx, cy);
                        assert(!(occupied(kind, rot, cx, cy) && (np.y + cy
                            >= crate::FIELD_HEIGHT as int || (0 <= np.x + cx
                            < crate::FIELD_WIDTH as int && 0 <= np.y + cy
                            < crate::FIELD_HEIGHT as int && self.grid()[np.y + cy][np.x + cx]
                            != Color::Transparent))));
                        assert(np.y + cy < crate::FIELD_HEIGHT as int);
                    }
                    p = np;
                },
            }
        }
    }

    /// Whether board row `y` is full.
    fn row_full(&self, y: usize) -> (r: bool)
        requires
            self.wf(),
            y < crate::FIELD_HEIGHT,
        ensures
            r == spec_row_full(self.grid()[y as int]),
    {
        let mut x: usize = 0;
        while x < 10
            invariant
                self.wf(),
                y < crate::FIELD_HEIGHT,
                x <= 10,
                forall|i: int| 0 <= i < x ==> self.grid()[y as int][i] != Color::Transparent,
            decreases 10 - x,
        {
            if self.pieces[y][x] == Color::Transparent {
                return false;
            }
            x += 1;
        }
        true
    }

    /// Merges the active piece's occupied cells into the grid at its
    /// current position, writing the piece's color; cells above the board
    /// are silently discarded.
    fn place_current_figure(&mut self)
        requires
            old(self).wf(),
        ensures
            final(self).wf(),
            final(self).grid() == merged_grid(
                old(self).grid(),
                old(self).figure().kind,
                old(self).rotation(),
                old(self).pos().x as int,
                old(self).pos().y as int,
                old(self).figure().color,
            ),
            final(self).figure() == old(self).figure(),
            final(self).pos() == old(self).pos(),
            final(self).rotation() == old(self).rotation(),
            final(self).next() == old(self).next(),
            final(self).spec_score() == old(self).spec_score(),
    {
        let kind = self.current_figure.kind;
        let rot = self.current_figure_rotation;
        let pos = self.current_figure_pos;
        let color = self.current_figure.color;
        proof {
            lemma_shape_cells(kind, rot);
            lemma_hits_horizontal_iff(kind, rot, pos.x as int);
        }
        let ghost g0 = self.grid();
        let ghost pre = *self;
        let mut by: usize = 0;
        while by < 20
            invariant
                by <= 20,
                pre.wf(),
                kind == pre.figure().kind,
                rot == pre.rotation(),
                pos == pre.pos(),
                color == pre.figure().color,
                color.is_piece_color(),
                g0 == pre.grid(),
                -3 <= pos.x <= 9,
                -2 <= pos.y <= 19,
                self.pieces@.len() == 20,
                self.current_figure == pre.figure(),
                self.current_figure_pos == pre.pos(),
                self.current_figure_rotation == pre.rotation(),
                self.next_figure == pre.next(),
                self.score == pre.spec_score(),
                forall|yy: int|
                    0 <= yy < by ==> self.grid()[yy] == merged_grid(
                        g0,
                        kind,
                        rot,
                        pos.x as int,
                        pos.y as int,
                        color,
                    )[yy],
                forall|yy: int| by <= yy < 20 ==> self.grid()[yy] == g0[yy],
            decreases 20 - by,
        {
            let mut row: Vec<Color> = Vec::new();
            let mut bx: usize = 0;
            while bx < 10
                invariant
                    by < 20,
                    bx <= 10,
                    pre.wf(),
                    kind == pre.figure().kind,
                    color == pre.figure().color,
                    g0 == pre.grid(),
                    -3 <= pos.x <= 9,
                    -2 <= pos.y <= 19,
                    self.pieces@.len() == 20,
                    self.grid()[by as int] == g0[by as int],
                    row@.len() == bx,
                    forall|xx: int|
                        0 <= xx < bx ==> row@[xx] == (if covers(
                            kind,
                            rot,
                            pos.x as int,
                            pos.y as int,
                            xx,
                            by as int,
                        ) {
                            color
                        } else {
                            g0[by as int][xx]
                        }),
                decreases 10 - bx,
            {
                let dx = bx as isize - pos.x;
                let dy = by as isize - pos.y;
                let covered = if 0 <= dx && dx < 4 && 0 <= dy && dy < 4 {
                    kind.occupied_at(rot, dx as usize, dy as usize)
                } else {
                    false
                };
                let c = if covered {
                    color
                } else {
                    self.pieces[by][bx]
                };
                row.push(c);
                bx += 1;
            }
            let ghost prev = self.pieces@;
            self.pieces.set(by, row);
            proof {
                let m = merged_grid(g0, kind, rot, pos.x as int, pos.y as int, color);
                assert(self.pieces@ == prev.update(by as int, row));
                assert forall|yy: int| 0 <= yy < 20 && yy != by implies self.grid()[yy]
                    == prev.map_values(|r: Vec<Color>| r@)[yy] by {}
                assert(self.grid()[by as int] == row@);
                assert(self.grid()[by as int] =~= m[by as int]);
                assert forall|yy: int| 0 <= yy < by + 1 implies self.grid()[yy] == m[yy] by {}
            }
            by += 1;
        }
        proof {
            assert(self.grid() =~~= merged_grid(
                g0,
                kind,
                rot,
                pos.x as int,
                pos.y as int,
                color,
            ));
        }
    }

    /// Clears every full row: surviving rows keep their order and sink, and
    /// as many fresh empty rows enter at the top as rows were cleared.
    /// Returns how many rows were cleared and, when any was, the index of
    /// the topmost cleared row; with no clear the reported index is the
    /// board height. After the call no full row remains.
    fn check_lines(&mut self) -> (r: (u32, usize))
        requires
            old(self).wf(),
        ensures
            final(self).wf(),
            final(self).grid() == cleared_grid(old(self).grid()),
            r.0 as int == cleared_count(old(self).grid()),
            0 <= r.0 <= 20,
            r.0 > 0 ==> is_first_full_row(old(self).grid(), r.1 as int),
            r.0 == 0 ==> r.1 == 20 && (forall|i: int|
                0 <= i < 20 ==> !spec_row_full(#[trigger] old(self).grid()[i])),
            forall|i: int| 0 <= i < 20 ==> !spec_row_full(#[trigger] final(self).grid()[i]),
            final(self).figure() == old(self).figure(),
            final(self).pos() == old(self).pos(),
            final(self).rotation() == old(self).rotation(),
            final(self).next() == old(self).next(),
            final(self).spec_score() == old(self).spec_score(),
    {
        let ghost g0 = self.grid();
        let ghost keep = |r: Seq<Color>| !spec_row_full(r);
        let mut kept: Vec<Vec<Color>> = Vec::new();
        let mut count: u32 = 0;
        let mut min_row: usize = 20;
        let mut y: usize = 0;
        proof {
            assert(g0.subrange(0, 0) =~= Seq::<Seq<Color>>::empty());
            reveal(Seq::filter);
            assert(surviving_rows(g0.subrange(0, 0)) =~= Seq::<Seq<Color>>::empty());
        }
        while y < 20
            invariant
                y <= 20,
                self.wf(),
                g0 == self.grid(),
                kept@.map_values(|r: Vec<Color>| r@) == surviving_rows(g0.subrange(0, y as int)),
                count as int == y - surviving_rows(g0.subrange(0, y as int)).len(),
                count <= y,
                count == 0 ==> min_row == 20 && (forall|i: int|
                    0 <= i < y ==> !spec_row_full(#[trigger] g0[i])),
                count > 0 ==> 0 <= min_row < y && is_first_full_row(g0, min_row as int),
                forall|i: int|
                    0 <= i < kept@.len() ==> (#[trigger] kept@[i])@.len()
                        == crate::FIELD_WIDTH as int,
                forall|i: int, x: int|
                    0 <= i < kept@.len() && 0 <= x < crate::FIELD_WIDTH as int ==> (
                    #[trigger] kept@[i]@[x]) != Color::Gray,
                forall|i: int|
                    0 <= i < kept@.len() ==> !spec_row_full((#[trigger] kept@[i])@),
            decreases 20 - y,
        {
            let full = self.row_full(y);
            if full {
                if count == 0 {
                    min_row = y;
                }
                count += 1;
            } else {
                let mut row2: Vec<Color> = Vec::new();
                let mut x: usize = 0;
                while x < 10
                    invariant
                        y < 20,
                        x <= 10,
                        self.wf(),
                        g0 == self.grid(),
                        row2@.len() == x,
                        forall|i: int| 0 <= i < x ==> row2@[i] == g0[y as int][i],
                    decreases 10 - x,
                {
                    proof {
                        assert(self.grid()[y as int] == self.pieces@[y as int]@);
                        assert(self.grid()[y as int].len() == 10);
                    }
                    let c = self.pieces[y][x];
                    row2.push(c);
                    x += 1;
                }
                proof {
                    assert(row2@ =~= g0[y as int]);
                }
                kept.push(row2);
            }
            proof {
                assert(g0.subrange(0, y as int + 1) =~= g0.subrange(0, y as int).push(
                    g0[y as int],
                ));
                lemma_surviving_push(g0.subrange(0, y as int), g0[y as int]);
                if !full {
                    assert(kept@.map_values(|r: Vec<Color>| r@) =~= surviving_rows(
                        g0.subrange(0, y as int + 1),
                    ));
                }
            }
            y += 1;
        }
        proof {
            assert(g0.subrange(0, 20) =~= g0);
        }
        let mut newg: Vec<Vec<Color>> = Vec::new();
        let n = count as usize;
        let mut i: usize = 0;
        while i < n
            invariant
                i <= n,
                newg@.len() == i,
                forall|j: int| 0 <= j < i ==> (#[trigger] newg@[j])@ == empty_row_spec(),
            decreases n - i,
        {
            let mut row: Vec<Color> = Vec::new();
            let mut x: usize = 0;
            while x < 10
                invariant
                    x <= 10,
                    row@.len() == x,
                    forall|k: int| 0 <= k < x ==> row@[k] == Color::Transparent,
                decreases 10 - x,
            {
                row.push(Color::Transparent);
                x += 1;
            }
            proof {
                assert(row@ =~= empty_row_spec());
            }
            newg.push(row);
            i += 1;
        }
        newg.append(&mut kept);
        self.pieces = newg;
        proof {
            assert(self.grid() =~~= cleared_grid(g0));
            assert forall|i: int| 0 <= i < 20 implies !spec_row_full(
                #[trigger] self.grid()[i],
            ) by {
                if i < cleared_count(g0) {
                    assert(self.grid()[i] == empty_row_spec());
                    assert(self.grid()[i][0] == Color::Transparent);
                }
            }
        }
        (count, min_row)
    }

    /// 2 to the power `e`.
    fn pow2_u32(e: u32) -> (r: u32)
        requires
            e <= 19,
        ensures
            r as nat == pow2(e as nat),
            r <= 0x80000,
    {
        proof {
            lemma2_to64();
        }
        let mut r: u32 = 1;
        let mut i: u32 = 0;
        while i < e
            invariant
                i <= e <= 19,
                r as nat == pow2(i as nat),
            decreases e - i,
        {
            proof {
                lemma_pow2_unfold((i + 1) as nat);
                if i + 1 < 19 {
                    lemma_pow2_strictly_increases((i + 1) as nat, 19);
                }
                lemma2_to64();
            }
            r = r * 2;
            i = i + 1;
        }
        proof {
            if e < 19 {
                lemma_pow2_strictly_increases(e as nat, 19);
            }
            lemma2_to64();
        }
        r
    }

    /// Locks the active piece where it stands: merges it into the grid,
    /// clears full rows and awards the score, then promotes the queued
    /// piece to active at its spawn offset and draws a fresh queued piece.
    fn next_figure(&mut self)
        requires
            old(self).wf(),
        ensures
            final(self).wf(),
            lock_step_at(*old(self), old(self).pos().y as int, *final(self)),
    {
        let ghost pre = *old(self);
        self.place_current_figure();
        let ghost merged = self.grid();
        let (n, mr) = self.check_lines();
        if n > 0 {
            let p = Self::pow2_u32(19 - mr as u32);
            proof {
                let nn = n as int;
                let pp = p as int;
                assert(nn * pp <= 20 * 0x80000) by (nonlinear_arith)
                    requires
                        0 <= nn <= 20,
                        0 <= pp <= 0x80000,
                ;
            }
            let add: u64 = (n as u64) * (p as u64);
            let total: u64 = self.score as u64 + add;
            proof {
                assert(is_first_full_row(merged, mr as int));
                assert(pow2((crate::FIELD_HEIGHT as int - 1 - mr) as nat) == p as nat);
                lemma2_to64();
                lemma_pow2_strictly_increases((crate::FIELD_HEIGHT as int - 1 - mr) as nat, 20);
                assert(add == n as int * p as nat);
            }
            if total > 0xffff_ffff {
                self.score = u32::MAX;
            } else {
                self.score = total as u32;
            }
            proof {
                assert(self.spec_score() == spec_score_after(
                    pre.spec_score(),
                    cleared_count(merged),
                    mr as int,
                ));
            }
        }
        self.current_figure_rotation = Rotation::Upright;
        self.current_figure = self.next_figure;
        self.current_figure_pos = self.current_figure.kind.get_pos();
        self.next_figure = Figure {
            kind: crate::generator::next_kind(),
            color: crate::generator::next_color(),
        };
        proof {
            let k2 = self.current_figure.kind;
            lemma_shape_cells(k2, Rotation::Upright);
            lemma_hits_horizontal_iff(k2, Rotation::Upright, 4);
            assert(spec_spawn_pos(k2).x == 4);
            assert(-2 <= spec_spawn_pos(k2).y <= 0);
        }
    }

    /// One gravity tick: the piece advances one row if the advanced
    /// placement is legal; otherwise it locks where it stands, with line
    /// clearing, scoring and the spawn of the queued piece.
    pub fn make_step(&mut self)
        requires
            old(self).wf(),
        ensures
            final(self).wf(),
            ({
                let pre = *old(self);
                if hits_bottom_or_pieces(
                    pre.grid(),
                    pre.figure().kind,
                    pre.rotation(),
                    pre.pos().x as int,
                    pre.pos().y as int + 1,
                ) {
                    lock_step_at(pre, pre.pos().y as int, *final(self))
                } else {
                    &&& final(self).grid() == pre.grid()
                    &&& final(self).figure() == pre.figure()
                    &&& final(self).next() == pre.next()
                    &&& final(self).spec_score() == pre.spec_score()
                    &&& final(self).rotation() == pre.rotation()
                    &&& final(self).pos().x == pre.pos().x
                    &&& final(self).pos().y == pre.pos().y + 1
                }
            }),
    {
        let kind = self.current_figure.kind;
        let rot = self.current_figure_rotation;
        proof {
            lemma_shape_cells(kind, rot);
            lemma_hits_horizontal_iff(kind, rot, self.current_figure_pos.x as int);
        }
        let np = self.current_figure_pos.advance();
        proof {
            lemma_fits_characterization(self.grid(), kind, rot, np.x as int, np.y as int);
        }
        match self.does_collide(rot, np) {
            CollideVariant::NoCollision => {
                proof {
                    lemma_shape_cells(kind, rot);
                    let (cx, cy) = choose|cx: int, cy: int| occupied(kind, rot, cx, cy);
                    assert(np.y + cy < crate::FIELD_HEIGHT as int);
                }
                self.current_figure_pos = np;
            },
            _ => {
                self.next_figure();
            },
        }
    }

    /// Hard drop: locks the active piece at the position where it would
    /// come to rest, with the same clearing, scoring and respawn as a lock
    /// triggered by gravity.
    pub fn drop_figure(&mut self)
        requires
            old(self).wf(),
        ensures
            final(self).wf(),
            lock_step_at(
                *old(self),
                spec_shadow_y(
                    old(self).grid(),
                    old(self).figure().kind,
                    old(self).rotation(),
                    old(self).pos().x as int,
                    old(self).pos().y as int,
                ),
                *final(self),
            ),
    {
        let sp = self.get_current_figure_shadow();
        self.current_figure_pos = sp;
        self.next_figure();
    }

    /// A fresh game with the given active and queued pieces: an empty
    /// board, the active piece at its kind's spawn offset with upright
    /// rotation, and a zero score.
    pub fn new_with(
        kind: FigureKind,
        color: Color,
        queued_kind: FigureKind,
        queued_color: Color,
    ) -> (r: Field)
        requires
            color.is_piece_color(),
            queued_color.is_piece_color(),
        ensures
            r.wf(),
            r.grid() == empty_grid(),
            r.figure() == (Figure { kind, color }),
            r.pos() == spec_spawn_pos(kind),
            r.rotation() == Rotation::Upright,
            r.next() == (Figure { kind: queued_kind, color: queued_color }),
            r.spec_score() == 0,
    {
        let mut pieces: Vec<Vec<Color>> = Vec::new();
        let mut y: usize = 0;
        while y < 20
            invariant
                y <= 20,
                pieces@.len() == y,
                forall|j: int| 0 <= j < y ==> (#[trigger] pieces@[j])@ == empty_row_spec(),
            decreases 20 - y,
        {
            let mut row: Vec<Color> = Vec::new();
            let mut x: usize = 0;
            while x < 10
                invariant
                    x <= 10,
                    row@.len() == x,
                    forall|k: int| 0 <= k < x ==> row@[k] == Color::Transparent,
                decreases 10 - x,
            {
                row.push(Color::Transparent);
                x += 1;
            }
            proof {
                assert(row@ =~= empty_row_spec());
            }
            pieces.push(row);
            y += 1;
        }
        let r = Field {
            pieces,
            current_figure: Figure { kind, color },
            current_figure_pos: kind.get_pos(),
            current_figure_rotation: Rotation::Upright,
            next_figure: Figure { kind: queued_kind, color: queued_color },
            score: 0,
        };
        proof {
            assert(r.grid() =~~= empty_grid());
            lemma_shape_cells(kind, Rotation::Upright);
            lemma_hits_horizontal_iff(kind, Rotation::Upright, 4);
            assert(spec_spawn_pos(kind).x == 4);
            assert(-2 <= spec_spawn_pos(kind).y <= 0);
        }
        r
    }

    /// A fresh game: an empty board, a random active piece at its spawn
    /// offset with upright rotation, a random queued piece and a zero
    /// score.
    pub fn new() -> (r: Field)
        ensures
            r.wf(),
            r.grid() == empty_grid(),
            r.pos() == spec_spawn_pos(r.figure().kind),
            r.rotation() == Rotation::Upright,
            r.spec_score() == 0,
    {
        let kind = crate::generator::next_kind();
        let color = crate::generator::next_color();
        let queued_kind = crate::generator::next_kind();
        let queued_color = crate::generator::next_color();
        Self::new_with(kind, color, queued_kind, queued_color)
    }

    /// Replaces the queued piece, for deterministic play; nothing else
    /// changes.
    pub fn set_next_figure(&mut self, kind: FigureKind, color: Color)
        requires
            old(self).wf(),
            color.is_piece_color(),
        ensures
            final(self).wf(),
            final(self).next() == (Figure { kind, color }),
            final(self).grid() == old(self).grid(),
            final(self).figure() == old(self).figure(),
            final(self).pos() == old(self).pos(),
            final(self).rotation() == old(self).rotation(),
            final(self).spec_score() == old(self).spec_score(),
    {
        self.next_figure = Figure { kind, color };
    }

    /// The score so far.
    pub fn score(&self) -> (r: u32)
        ensures
            r == self.spec_score(),
    {
        self.score
    }

    /// The color of board cell (`x`, `y`).
    pub fn cell(&self, x: usize, y: usize) -> (c: Color)
        requires
            self.wf(),
            x < crate::FIELD_WIDTH,
            y < crate::FIELD_HEIGHT,
        ensures
            c == self.grid()[y as int][x as int],
    {
        self.pieces[y][x]
    }

    /// The active piece.
    pub fn active_figure(&self) -> (r: Figure)
        ensures
            r == self.figure(),
    {
        self.current_figure
    }

    /// The queued piece.
    pub fn queued_figure(&self) -> (r: Figure)
        ensures
            r == self.next(),
    {
        self.next_figure
    }

    /// The active piece's position.
    pub fn current_pos(&self) -> (r: Pos)
        ensures
            r == self.pos(),
    {
        self.current_figure_pos
    }

    /// The active piece's rotation state.
    pub fn current_rotation(&self) -> (r: Rotation)
        ensures
            r == self.rotation(),
    {
        self.current_figure_rotation
    }

    /// Applies one player input. A translation is committed only when the
    /// shifted placement is legal; a rotation advances one step and may be
    /// kicked off a wall, or is rejected outright. The grid, the figures and
    /// the score never change.
    pub fn process_input(&mut self, input: InputField)
        requires
            old(self).wf(),
        ensures
            final(self).wf(),
            final(self).grid() == old(self).grid(),
            final(self).figure() == old(self).figure(),
            final(self).next() == old(self).next(),
            final(self).spec_score() == old(self).spec_score(),
            match input {
                InputField::Left => moved_horizontal(*old(self), *final(self), -1),
                InputField::Right => moved_horizontal(*old(self), *final(self), 1),
                InputField::Rotate => rotated(*old(self), *final(self)),
            },
    {
        let kind = self.current_figure.kind;
        let rot = self.current_figure_rotation;
        let old_pos = self.current_figure_pos;
        proof {
            lemma_shape_cells(kind, rot);
            lemma_hits_horizontal_iff(kind, rot, old_pos.x as int);
        }
        match input {
            InputField::Left => {
                let cand = Pos { x: old_pos.x - 1, y: old_pos.y };
                proof {
                    lemma_hits_horizontal_iff(kind, rot, cand.x as int);
                    lemma_kick_target(kind, rot, cand.x as int);
                    lemma_fits_characterization(
                        self.grid(),
                        kind,
                        rot,
                        cand.x as int,
                        cand.y as int,
                    );
                }
                if let Some(np) = self.try_rotation_replace(rot, cand) {
                    proof {
                        lemma_fits_characterization(
                            self.grid(),
                            kind,
                            rot,
                            np.x as int,
                            np.y as int,
                        );
                    }
                    self.current_figure_pos = np;
                }
            },
            InputField::Right => {
                let cand = Pos { x: old_pos.x + 1, y: old_pos.y };
                proof {
                    lemma_hits_horizontal_iff(kind, rot, cand.x as int);
                    lemma_kick_target(kind, rot, cand.x as int);
                    lemma_fits_characterization(
                        self.grid(),
                        kind,
                        rot,
                        cand.x as int,
                        cand.y as int,
                    );
                }
                if let Some(np) = self.try_rotation_replace(rot, cand) {
                    proof {
                        lemma_fits_characterization(
                            self.grid(),
                            kind,
                            rot,
                            np.x as int,
                            np.y as int,
                        );
                    }
                    self.current_figure_pos = np;
                }
            },
            InputField::Rotate => {
                let nr = rot.rotate();
                proof {
                    lemma_hits_horizontal_iff(kind, nr, old_pos.x as int);
                    lemma_kick_target(kind, nr, old_pos.x as int);
                }
                if let Some(np) = self.try_rotation_replace(nr, old_pos) {
                    proof {
                        lemma_fits_characterization(
                            self.grid(),
                            kind,
                            nr,
                            np.x as int,
                            np.y as int,
                        );
                    }
                    self.current_figure_rotation = nr;
                    self.current_figure_pos = np;
                }
            },
        }
    }
}


/// The rows of a grid whose first `m` rows are all non-full survive
/// clearing in place: they form the first `m` surviving rows; and clearing
/// never grows the grid.
pub proof fn lemma_filter_prefix(g: Seq<Seq<Color>>, m: int)
    requires
        0 <= m <= g.len(),
        forall|i: int| 0 <= i < m ==> !spec_row_full(#[trigger] g[i]),
    ensures
        m <= surviving_rows(g).len() <= g.len(),
        forall|i: int| 0 <= i < m ==> surviving_rows(g)[i] == g[i],
    decreases g.len(),
{
    reveal(Seq::filter);
    if g.len() > 0 {
        let sub = surviving_rows(g.drop_last());
        if m == g.len() {
            lemma_filter_prefix(g.drop_last(), m - 1);
            assert(sub.len() == m - 1);
            assert(surviving_rows(g) == sub.push(g.last()));
            assert forall|i: int| 0 <= i < m implies surviving_rows(g)[i] == g[i] by {
                if i < m - 1 {
                    assert(surviving_rows(g)[i] == sub[i]);
                    assert(sub[i] == g.drop_last()[i]);
                } else {
                    assert(surviving_rows(g)[i] == g.last());
                }
            }
        } else {
            lemma_filter_prefix(g.drop_last(), m);
            assert forall|i: int| 0 <= i < m implies surviving_rows(g)[i] == g[i] by {
                assert(sub[i] == g.drop_last()[i]);
                if !spec_row_full(g.last()) {
                    assert(surviving_rows(g) == sub.push(g.last()));
                    assert(surviving_rows(g)[i] == sub[i]);
                } else {
                    assert(surviving_rows(g) == sub);
                }
            }
        }
    }
}

/// A grid with a full row loses at least that row to clearing.
pub proof fn lemma_surviving_drops_full(g: Seq<Seq<Color>>, j: int)
    requires
        0 <= j < g.len(),
        spec_row_full(g[j]),
    ensures
        surviving_rows(g).len() < g.len(),
    decreases g.len(),
{
    reveal(Seq::filter);
    if j == g.len() - 1 {
        lemma_filter_prefix(g.drop_last(), 0);
        assert(surviving_rows(g) == surviving_rows(g.drop_last()));
    } else {
        lemma_surviving_drops_full(g.drop_last(), j);
    }
}


/// No surviving row is full.
pub proof fn lemma_surviving_not_full(g: Seq<Seq<Color>>)
    ensures
        forall|i: int|
            0 <= i < surviving_rows(g).len() ==> !spec_row_full(#[trigger] surviving_rows(g)[i]),
    decreases g.len(),
{
    reveal(Seq::filter);
    if g.len() > 0 {
        lemma_surviving_not_full(g.drop_last());
        let sub = surviving_rows(g.drop_last());
        if !spec_row_full(g.last()) {
            assert(surviving_rows(g) == sub.push(g.last()));
            assert forall|i: int| 0 <= i < surviving_rows(g).len() implies !spec_row_full(
                #[trigger] surviving_rows(g)[i],
            ) by {
                if i < sub.len() {
                    assert(surviving_rows(g)[i] == sub[i]);
                }
            }
        } else {
            assert(surviving_rows(g) == sub);
        }
    }
}

/// Clearing is complete in one locking event: however the full rows of the
/// merged grid were laid out, and whatever rows compaction moved, no full
/// row is left after the clear.
pub proof fn lemma_clearing_is_complete(g: Seq<Seq<Color>>)
    ensures
        forall|i: int|
            0 <= i < cleared_grid(g).len() ==> !spec_row_full(#[trigger] cleared_grid(g)[i]),
{
    lemma_surviving_not_full(g);
    lemma_filter_prefix(g, 0);
    assert forall|i: int| 0 <= i < cleared_grid(g).len() implies !spec_row_full(
        #[trigger] cleared_grid(g)[i],
    ) by {
        if i < cleared_count(g) {
            assert(cleared_grid(g)[i] == empty_row_spec());
            assert(cleared_grid(g)[i][0] == Color::Transparent);
        } else {
            assert(cleared_grid(g)[i] == surviving_rows(g)[i - cleared_count(g)]);
        }
    }
}

/// Wall-kick law: when rotating would poke the piece past the left wall,
/// the nearest wall-clearing position is committed together with the new
/// rotation if that placement is legal, and it lies within the bitmap's
/// width of shifts; when no shifted position within that range is legal,
/// the rotation is rejected and the piece stays where it was.
pub proof fn lemma_wall_kick(pre: Field, post: Field)
    requires
        pre.wf(),
        rotated(pre, post),
        hits_left(pre.figure().kind, pre.rotation().spec_rotate(), pre.pos().x as int),
    ensures
        ({
            let kind = pre.figure().kind;
            let nr = pre.rotation().spec_rotate();
            let tx = kick_target_x(kind, nr, pre.pos().x as int);
            &&& pre.pos().x < tx <= pre.pos().x + 4
            &&& (!hits_bottom_or_pieces(pre.grid(), kind, nr, tx, pre.pos().y as int)
                ==> post.rotation() == nr && post.pos().x as int == tx && post.pos().y
                == pre.pos().y && fits(pre.grid(), kind, nr, tx, pre.pos().y as int))
            &&& ((forall|sx: int|
                pre.pos().x < sx <= pre.pos().x + 4 ==> !fits(
                    pre.grid(),
                    kind,
                    nr,
                    sx,
                    pre.pos().y as int,
                )) ==> post.rotation() == pre.rotation() && post.pos() == pre.pos())
        }),
{
    let kind = pre.figure().kind;
    let nr = pre.rotation().spec_rotate();
    let tx = kick_target_x(kind, nr, pre.pos().x as int);
    lemma_shape_cells(kind, nr);
    lemma_shape_cells(kind, pre.rotation());
    lemma_hits_horizontal_iff(kind, pre.rotation(), pre.pos().x as int);
    lemma_hits_horizontal_iff(kind, nr, pre.pos().x as int);
    lemma_kick_target(kind, nr, pre.pos().x as int);
    lemma_fits_characterization(pre.grid(), kind, nr, tx, pre.pos().y as int);
    if !fits(pre.grid(), kind, nr, tx, pre.pos().y as int) {
        assert(hits_bottom_or_pieces(pre.grid(), kind, nr, tx, pre.pos().y as int));
    }
}

/// Line-clear law: locking that leaves `k` full rows in the merged grid
/// with topmost full row `m` awards exactly k * 2^(height-1-m) while the
/// score counter has room; after clearing, the `k` top rows are empty and
/// every row that was above `m` reappears `k` rows lower.
pub proof fn lemma_line_clear(pre: Field, py: int, post: Field, m: int)
    requires
        grid_wf(pre.grid()),
        lock_step_at(pre, py, post),
        is_first_full_row(
            merged_grid(
                pre.grid(),
                pre.figure().kind,
                pre.rotation(),
                pre.pos().x as int,
                py,
                pre.figure().color,
            ),
            m,
        ),
        pre.spec_score() + cleared_count(
            merged_grid(
                pre.grid(),
                pre.figure().kind,
                pre.rotation(),
                pre.pos().x as int,
                py,
                pre.figure().color,
            ),
        ) * pow2((crate::FIELD_HEIGHT as int - 1 - m) as nat) <= u32::MAX,
    ensures
        ({
            let merged = merged_grid(
                pre.grid(),
                pre.figure().kind,
                pre.rotation(),
                pre.pos().x as int,
                py,
                pre.figure().color,
            );
            let k = cleared_count(merged);
            &&& k > 0
            &&& post.spec_score() == pre.spec_score() + k * pow2(
                (crate::FIELD_HEIGHT as int - 1 - m) as nat,
            )
            &&& forall|i: int| 0 <= i < k ==> post.grid()[i] == empty_row_spec()
            &&& forall|i: int| 0 <= i < m ==> post.grid()[k + i] == merged[i]
        }),
{
    let merged = merged_grid(
        pre.grid(),
        pre.figure().kind,
        pre.rotation(),
        pre.pos().x as int,
        py,
        pre.figure().color,
    );
    let k = cleared_count(merged);
    lemma_filter_prefix(merged, m);
    lemma_surviving_drops_full(merged, m);
    assert(k > 0);
    let m0 = choose|m0: int|
        #[trigger] is_first_full_row(merged, m0) && post.spec_score() == spec_score_after(
            pre.spec_score(),
            k,
            m0,
        );
    assert(m0 == m);
}

/// Dropping equals stepping: a gravity step that does not lock keeps the
/// resting offset of the active piece, and locks from the stepped state
/// write exactly what locks from the unstepped state write; with
/// `lemma_shadow_rest`, locking after repeated stepping therefore leaves
/// the same cells as the hard drop's lock at the shadow position.
pub proof fn lemma_step_preserves_shadow(pre: Field, post: Field)
    requires
        !hits_bottom_or_pieces(
            pre.grid(),
            pre.figure().kind,
            pre.rotation(),
            pre.pos().x as int,
            pre.pos().y as int + 1,
        ),
        post.grid() == pre.grid(),
        post.figure() == pre.figure(),
        post.next() == pre.next(),
        post.spec_score() == pre.spec_score(),
        post.rotation() == pre.rotation(),
        post.pos().x == pre.pos().x,
        post.pos().y == pre.pos().y + 1,
    ensures
        spec_shadow_y(
            post.grid(),
            post.figure().kind,
            post.rotation(),
            post.pos().x as int,
            post.pos().y as int,
        ) == spec_shadow_y(
            pre.grid(),
            pre.figure().kind,
            pre.rotation(),
            pre.pos().x as int,
            pre.pos().y as int,
        ),
        forall|py: int, t: Field| #[trigger]
            lock_step_at(post, py, t) == lock_step_at(pre, py, t),
{
    lemma_shadow_step(
        pre.grid(),
        pre.figure().kind,
        pre.rotation(),
        pre.pos().x as int,
        pre.pos().y as int,
    );
}


} // verus!
