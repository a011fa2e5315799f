use tetris::Color;
use tetris::Field;
use tetris::FigureKind;
use tetris::Glyph;
use tetris::InputField;

fn glyph_at(buffer: &[Glyph], x: usize, y: usize) -> Glyph {
    buffer[y * 18 + x]
}

#[test]
fn render_is_idempotent() {
    let mut f = Field::new_with(FigureKind::NL, Color::Magenta, FigureKind::T, Color::Blue);
    f.process_input(InputField::Rotate);
    f.make_step();
    let a = f.draw_array();
    let b = f.draw_array();
    assert_eq!(a, b);
}

#[test]
fn render_buffer_has_fixed_length() {
    let f = Field::new_with(FigureKind::Bar, Color::Red, FigureKind::Bar, Color::Green);
    assert_eq!(f.draw_array().len(), 20 * 18);
}

#[test]
fn preview_crops_queued_piece_to_top_left() {
    // The square occupies the top-left quadrant of its bitmap already.
    let f = Field::new_with(FigureKind::Bar, Color::Red, FigureKind::Square, Color::Yellow);
    let buf = f.draw_array();
    for y in 0..4 {
        for x in 0..4 {
            let expect = if x < 2 && y < 2 {
                Glyph::Color(Color::Yellow)
            } else {
                Glyph::Color(Color::Transparent)
            };
            assert_eq!(glyph_at(&buf, x, y), expect);
        }
    }
    // The vertical bar occupies only column 1 of its bitmap; the crop pulls
    // it against the preview's left edge.
    let f2 = Field::new_with(FigureKind::Square, Color::Red, FigureKind::Bar, Color::Green);
    let buf2 = f2.draw_array();
    for y in 0..4 {
        assert_eq!(glyph_at(&buf2, 0, y), Glyph::Color(Color::Green));
        assert_eq!(glyph_at(&buf2, 1, y), Glyph::Color(Color::Transparent));
    }
}

#[test]
fn board_region_overlays_piece_and_ghost() {
    let f = Field::new_with(FigureKind::Bar, Color::Red, FigureKind::Square, Color::Yellow);
    let buf = f.draw_array();
    // The vertical bar sits in board column 5 (buffer column 9), rows -2..=1,
    // so only rows 0 and 1 are visible.
    assert_eq!(glyph_at(&buf, 9, 0), Glyph::Color(Color::Red));
    assert_eq!(glyph_at(&buf, 9, 1), Glyph::Color(Color::Red));
    // Its ghost rests on the floor, rows 16..=19 of the same column.
    for y in 16..20 {
        assert_eq!(glyph_at(&buf, 9, y), Glyph::Color(Color::Gray));
    }
    // In between, the board shows its empty cells.
    for y in 2..16 {
        assert_eq!(glyph_at(&buf, 9, y), Glyph::Color(Color::Transparent));
    }
    assert_eq!(glyph_at(&buf, 8, 0), Glyph::Color(Color::Transparent));
}

#[test]
fn piece_resting_on_floor_shows_no_ghost() {
    let mut f = Field::new_with(FigureKind::Bar, Color::Red, FigureKind::Square, Color::Yellow);
    for _ in 0..18 {
        f.make_step();
    }
    // The piece now rests where its ghost would be: the live color wins.
    let buf = f.draw_array();
    for y in 16..20 {
        assert_eq!(glyph_at(&buf, 9, y), Glyph::Color(Color::Red));
    }
}

#[test]
fn score_region_shows_two_digit_groups() {
    let f = Field::new_with(FigureKind::Bar, Color::Red, FigureKind::Square, Color::Yellow);
    let buf = f.draw_array();
    for x in 14..18 {
        assert_eq!(glyph_at(&buf, x, 0), Glyph::Number(0));
        for y in 1..20 {
            assert_eq!(glyph_at(&buf, x, y), Glyph::Color(Color::Transparent));
        }
    }
}

#[test]
fn score_region_shows_the_award_after_a_clear() {
    let mut f = Field::new_with(FigureKind::Bar, Color::Red, FigureKind::Bar, Color::Green);
    // Fill the bottom row with two horizontal bars and two vertical bars.
    for (lefts, rights, horizontal) in
        [(4, 0, true), (0, 0, true), (0, 3, false), (0, 4, false)]
    {
        if horizontal {
            f.process_input(InputField::Rotate);
            f.process_input(InputField::Rotate);
            f.process_input(InputField::Rotate);
        }
        for _ in 0..lefts {
            f.process_input(InputField::Left);
        }
        for _ in 0..rights {
            f.process_input(InputField::Right);
        }
        f.set_next_figure(FigureKind::Bar, Color::Green);
        f.drop_figure();
    }
    assert_eq!(f.score(), 1);
    let buf = f.draw_array();
    assert_eq!(glyph_at(&buf, 14, 0), Glyph::Number(0));
    assert_eq!(glyph_at(&buf, 15, 0), Glyph::Number(0));
    assert_eq!(glyph_at(&buf, 16, 0), Glyph::Number(0));
    assert_eq!(glyph_at(&buf, 17, 0), Glyph::Number(1));
}

#[test]
fn generated_pieces_always_carry_opaque_colors() {
    for _ in 0..50 {
        let f = Field::new();
        for fig in [f.active_figure(), f.queued_figure()] {
            assert_ne!(fig.color, Color::Transparent);
            assert_ne!(fig.color, Color::Gray);
        }
    }
}

#[test]
fn generated_kinds_vary() {
    let mut distinct = std::collections::HashSet::new();
    for _ in 0..60 {
        distinct.insert(format!("{:?}", Field::new().active_figure().kind));
    }
    assert!(distinct.len() >= 2);
}

#[test]
fn colors_map_to_opaque_channels() {
    assert_eq!(Color::Red.rgba(), (255, 0, 0, 255));
    assert_eq!(Color::Transparent.rgba(), (0, 0, 0, 255));
    assert_eq!(Color::Gray.rgba(), (85, 85, 85, 255));
}
