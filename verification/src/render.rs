//! The renderer: a pure read of the game state producing a fixed-length
//! glyph buffer of three horizontally adjacent regions — a 4-column
//! next-piece preview, the 10-column board with the active piece and its
//! ghost overlaid, and a 4-column score strip.

use vstd::prelude::*;

use crate::field::covers;
use crate::field::spec_shadow_y;
use crate::field::Field;
use crate::geom::Color;
use crate::geom::Glyph;
use crate::geom::Rotation;
use crate::shapes::first_occupied_col;
use crate::shapes::first_occupied_row;
use crate::shapes::leftmost_col;
use crate::shapes::lemma_shape_cells;
use crate::shapes::occupied;
use crate::shapes::top_row;

verus! {

/// Number of columns of the glyph buffer: preview, board and score regions
/// side by side.
pub const DRAW_WIDTH: usize = 18;

/// One cell of the preview region: the queued piece's upright bitmap,
/// cropped so its topmost occupied row and leftmost occupied column sit at
/// the region's top-left corner.
pub open spec fn spec_preview_glyph(f: Field, x: int, y: int) -> Glyph {
    let kind = f.next().kind;
    let dx = leftmost_col(kind, Rotation::Upright);
    let dy = top_row(kind, Rotation::Upright);
    if x + dx < 4 && y + dy < 4 && occupied(kind, Rotation::Upright, x + dx, y + dy) {
        Glyph::Color(f.next().color)
    } else {
        Glyph::Color(Color::Transparent)
    }
}

/// One cell of the board region: the locked color, overlaid by the ghost
/// outline where only the piece's resting footprint covers the cell and the
/// piece is not already resting, and by the active piece's color wherever
/// its own footprint covers the cell.
pub open spec fn spec_board_glyph(f: Field, bx: int, by: int) -> Glyph {
    let kind = f.figure().kind;
    let rot = f.rotation();
    let cp = f.pos();
    let sy = spec_shadow_y(f.grid(), kind, rot, cp.x as int, cp.y as int);
    if covers(kind, rot, cp.x as int, cp.y as int, bx, by) {
        Glyph::Color(f.figure().color)
    } else if sy != cp.y as int && covers(kind, rot, cp.x as int, sy, bx, by) {
        Glyph::Color(Color::Gray)
    } else {
        Glyph::Color(f.grid()[by][bx])
    }
}

/// The divisors of the four two-digit score groups.
pub open spec fn pow100(i: int) -> int {
    if i == 0 {
        1
    } else if i == 1 {
        100
    } else if i == 2 {
        10000
    } else {
        1000000
    }
}

/// One cell of the score region: row 0 carries the score as four two-digit
/// groups, most significant in the leftmost column; every other cell is
/// blank.
pub open spec fn spec_score_glyph(score: u32, x: int, y: int) -> Glyph {
    if y == 0 {
        Glyph::Number((((score as int) / pow100(3 - x)) % 100) as u8)
    } else {
        Glyph::Color(Color::Transparent)
    }
}

/// The glyph at flat buffer index `i`.
pub open spec fn spec_glyph_at(f: Field, i: int) -> Glyph {
    let x = i % (DRAW_WIDTH as int);
    let y = i / (DRAW_WIDTH as int);
    if x < 4 {
        spec_preview_glyph(f, x, y)
    } else if x < 14 {
        spec_board_glyph(f, x - 4, y)
    } else {
        spec_score_glyph(f.spec_score(), x - 14, y)
    }
}

/// The whole glyph buffer as a function of the state alone.
pub open spec fn spec_draw(f: Field) -> Seq<Glyph> {
    Seq::new((crate::FIELD_HEIGHT * (crate::FIELD_WIDTH + 8)) as nat, |i: int| spec_glyph_at(f, i))
}

/// Rendering is a pure function of the state: two renders with no
/// intervening mutation produce identical output.
pub proof fn lemma_render_deterministic(f: Field, a: Seq<Glyph>, b: Seq<Glyph>)
    requires
        a == spec_draw(f),
        b == spec_draw(f),
    ensures
        a == b,
{
}

impl Field {
    /// Renders the state into the flat glyph buffer, row-major, height rows
    /// of preview, board and score columns. A pure read: the state is not
    /// mutated, and the output is a function of the state alone.
    pub fn draw_array(&self) -> (r: Vec<Glyph>)
        requires
            self.wf(),
        ensures
            r@ == spec_draw(*self),
            r@.len() == crate::FIELD_HEIGHT * (crate::FIELD_WIDTH + 8),
    {
        let kind = self.active_figure().kind;
        let fig_color = self.active_figure().color;
        let rot = self.current_rotation();
        let cp = self.current_pos();
        let sp = self.get_current_figure_shadow();
        let nk = self.queued_figure().kind;
        let nc = self.queued_figure().color;
        let dx = first_occupied_col(nk, Rotation::Upright);
        let dy = first_occupied_row(nk, Rotation::Upright);
        let mut r: Vec<Glyph> = Vec::new();
        let mut i: usize = 0;
        while i < 360
            invariant
                i <= 360,
                self.wf(),
                kind == self.figure().kind,
                fig_color == self.figure().color,
                rot == self.rotation(),
                cp == self.pos(),
                sp.x == self.pos().x,
                sp.y as int == spec_shadow_y(
                    self.grid(),
                    kind,
                    rot,
                    cp.x as int,
                    cp.y as int,
                ),
                self.pos().y <= sp.y <= 19,
                nk == self.next().kind,
                nc == self.next().color,
                dx as int == leftmost_col(nk, Rotation::Upright),
                dy as int == top_row(nk, Rotation::Upright),
                r@.len() == i,
                forall|j: int| 0 <= j < i ==> r@[j] == spec_glyph_at(*self, j),
            decreases 360 - i,
        {
            proof {
                lemma_shape_cells(kind, rot);
                crate::field::lemma_hits_horizontal_iff(kind, rot, cp.x as int);
            }
            let x = i % 18;
            let y = i / 18;
            let g: Glyph = if x < 4 {
                let px = x + dx;
                let py = y + dy;
                if px < 4 && py < 4 && nk.occupied_at(Rotation::Upright, px, py) {
                    Glyph::Color(nc)
                } else {
                    Glyph::Color(Color::Transparent)
                }
            } else if x < 14 {
                let bx = x - 4;
                let by = y;
                let cur_dx = bx as isize - cp.x;
                let cur_dy = by as isize - cp.y;
                let cov_cur = 0 <= cur_dx && cur_dx < 4 && 0 <= cur_dy && cur_dy < 4
                    && kind.occupied_at(rot, cur_dx as usize, cur_dy as usize);
                let sh_dy = by as isize - sp.y;
                let cov_sh = 0 <= cur_dx && cur_dx < 4 && 0 <= sh_dy && sh_dy < 4
                    && kind.occupied_at(rot, cur_dx as usize, sh_dy as usize);
                let c = if cov_cur {
                    fig_color
                } else if sp.y != cp.y && cov_sh {
                    Color::Gray
                } else {
                    self.cell(bx, by)
                };
                Glyph::Color(c)
            } else {
                let sx = x - 14;
                if y == 0 {
                    let e = 3 - sx;
                    let div: u32 = if e == 0 {
                        1
                    } else if e == 1 {
                        100
                    } else if e == 2 {
                        10000
                    } else {
                        1000000
                    };
                    let score = self.score();
                    Glyph::Number(((score / div) % 100) as u8)
                } else {
                    Glyph::Color(Color::Transparent)
                }
            };
            r.push(g);
            proof {
                assert(r@[i as int] == spec_glyph_at(*self, i as int));
            }
            i += 1;
        }
        proof {
            assert(r@ =~= spec_draw(*self));
        }
        r
    }
}

} // verus!
