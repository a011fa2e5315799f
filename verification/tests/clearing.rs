use tetris::Color;
use tetris::Field;
use tetris::FigureKind;
use tetris::InputField;

/// Rotates the active bar three times so it lies horizontal along the
/// bitmap's row 2, then shifts it `lefts` columns left or `rights` columns
/// right, and drops it.
fn drop_horizontal_bar(f: &mut Field, lefts: usize, rights: usize) {
    f.process_input(InputField::Rotate);
    f.process_input(InputField::Rotate);
    f.process_input(InputField::Rotate);
    for _ in 0..lefts {
        f.process_input(InputField::Left);
    }
    for _ in 0..rights {
        f.process_input(InputField::Right);
    }
    f.drop_figure();
}

/// Shifts the active vertical bar and drops it.
fn drop_vertical_bar(f: &mut Field, lefts: usize, rights: usize) {
    for _ in 0..lefts {
        f.process_input(InputField::Left);
    }
    for _ in 0..rights {
        f.process_input(InputField::Right);
    }
    f.drop_figure();
}

#[test]
fn bar_drop_leaves_board_otherwise_empty() {
    let mut f = Field::new_with(FigureKind::Bar, Color::Red, FigureKind::Bar, Color::Green);
    f.drop_figure();
    for y in 0..20 {
        for x in 0..10 {
            if x == 5 && y >= 16 {
                assert_eq!(f.cell(x, y), Color::Red);
            } else {
                assert_eq!(f.cell(x, y), Color::Transparent);
            }
        }
    }
    assert_eq!(f.score(), 0);
}

#[test]
fn single_bottom_row_clear_scores_one() {
    let mut f = Field::new_with(FigureKind::Bar, Color::Red, FigureKind::Bar, Color::Green);
    // Two horizontal bars fill columns 0..=7 of the bottom row.
    drop_horizontal_bar(&mut f, 4, 0);
    f.set_next_figure(FigureKind::Bar, Color::Blue);
    drop_horizontal_bar(&mut f, 0, 0);
    f.set_next_figure(FigureKind::Bar, Color::Cyan);
    // A vertical bar fills column 8, rows 16..=19.
    drop_vertical_bar(&mut f, 0, 3);
    // The bottom row is now full except its last cell.
    for x in 0..9 {
        assert_ne!(f.cell(x, 19), Color::Transparent);
    }
    assert_eq!(f.cell(9, 19), Color::Transparent);
    assert_eq!(f.score(), 0);
    // The piece that fills the last cell clears exactly the bottom row and
    // scores 1 * 2^0 = 1.
    f.set_next_figure(FigureKind::Bar, Color::Magenta);
    drop_vertical_bar(&mut f, 0, 4);
    assert_eq!(f.score(), 1);
    // Everything above the cleared row sank one row: the remainders of the
    // two vertical bars now sit in rows 17..=19.
    for y in 0..20 {
        for x in 0..10 {
            let expect = if y >= 17 && x == 8 {
                Color::Blue
            } else if y >= 17 && x == 9 {
                Color::Cyan
            } else {
                Color::Transparent
            };
            assert_eq!(f.cell(x, y), expect);
        }
    }
}

#[test]
fn two_simultaneous_rows_clear_and_score_four() {
    let mut f = Field::new_with(FigureKind::Bar, Color::Red, FigureKind::Bar, Color::Green);
    // Fill columns 0..=7 of the two bottom rows with horizontal bars.
    drop_horizontal_bar(&mut f, 4, 0);
    f.set_next_figure(FigureKind::Bar, Color::Blue);
    drop_horizontal_bar(&mut f, 0, 0);
    f.set_next_figure(FigureKind::Bar, Color::Cyan);
    drop_horizontal_bar(&mut f, 4, 0);
    f.set_next_figure(FigureKind::Bar, Color::Magenta);
    drop_horizontal_bar(&mut f, 0, 0);
    f.set_next_figure(FigureKind::Bar, Color::Yellow);
    // Vertical bars in columns 8 and 9 complete both rows at once.
    drop_vertical_bar(&mut f, 0, 3);
    assert_eq!(f.score(), 0);
    f.set_next_figure(FigureKind::Bar, Color::Red);
    drop_vertical_bar(&mut f, 0, 4);
    // Both full rows cleared in one locking event, topmost at index 18:
    // 2 * 2^(19 - 18) = 4.
    assert_eq!(f.score(), 4);
    // The leftover halves of the vertical bars sank two rows.
    for y in 0..20 {
        for x in 0..10 {
            let expect = if y >= 18 && x == 8 {
                Color::Magenta
            } else if y >= 18 && x == 9 {
                Color::Yellow
            } else {
                Color::Transparent
            };
            assert_eq!(f.cell(x, y), expect);
        }
    }
}

#[test]
fn drop_equals_repeated_stepping() {
    let mut f1 = Field::new_with(FigureKind::PZ, Color::Red, FigureKind::Bar, Color::Green);
    let mut f2 = Field::new_with(FigureKind::PZ, Color::Red, FigureKind::Bar, Color::Green);
    for f in [&mut f1, &mut f2] {
        f.process_input(InputField::Rotate);
        f.process_input(InputField::Left);
        f.process_input(InputField::Left);
    }
    let shadow = f1.get_current_figure_shadow();
    let steps = shadow.y - f1.current_pos().y;
    f1.drop_figure();
    for _ in 0..steps {
        f2.make_step();
    }
    // One more gravity tick locks the piece of the second game.
    f2.make_step();
    for y in 0..20 {
        for x in 0..10 {
            assert_eq!(f1.cell(x, y), f2.cell(x, y));
        }
    }
    assert_eq!(f1.score(), f2.score());
    assert_eq!(f1.active_figure(), f2.active_figure());
}

#[test]
fn shadow_is_a_pure_read() {
    let mut f = Field::new_with(FigureKind::T, Color::Cyan, FigureKind::Bar, Color::Green);
    f.process_input(InputField::Rotate);
    let before = f.draw_array();
    let s1 = f.get_current_figure_shadow();
    let s2 = f.get_current_figure_shadow();
    assert_eq!(s1, s2);
    let after = f.draw_array();
    assert_eq!(before, after);
}

#[test]
fn early_lock_discards_cells_above_the_board() {
    let mut f = Field::new_with(FigureKind::Bar, Color::Red, FigureKind::Bar, Color::Green);
    // Five vertical bars fill column 5 from the floor to the top.
    f.drop_figure();
    f.set_next_figure(FigureKind::Bar, Color::Blue);
    f.drop_figure();
    f.set_next_figure(FigureKind::Bar, Color::Cyan);
    f.drop_figure();
    f.set_next_figure(FigureKind::Bar, Color::Magenta);
    f.drop_figure();
    f.set_next_figure(FigureKind::Bar, Color::Yellow);
    f.drop_figure();
    // The sixth bar cannot enter the board: it locks at its spawn offset,
    // its two rows above the board are silently discarded, and its visible
    // rows overwrite the top of the stack.
    f.set_next_figure(FigureKind::Bar, Color::Red);
    f.drop_figure();
    assert_eq!(f.cell(5, 0), Color::Yellow);
    assert_eq!(f.cell(5, 1), Color::Yellow);
    assert_eq!(f.cell(5, 2), Color::Magenta);
    assert_eq!(f.cell(5, 3), Color::Magenta);
    assert_eq!(f.cell(5, 4), Color::Cyan);
    assert_eq!(f.cell(5, 19), Color::Red);
    assert_eq!(f.cell(4, 0), Color::Transparent);
    assert_eq!(f.score(), 0);
}
