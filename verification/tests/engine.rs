use tetris::Color;
use tetris::CollideVariant;
use tetris::Field;
use tetris::FigureKind;
use tetris::InputField;
use tetris::Pos;
use tetris::Rotation;

fn bar_field() -> Field {
    Field::new_with(FigureKind::Bar, Color::Red, FigureKind::Bar, Color::Green)
}

#[test]
fn collision_verdicts_on_empty_board() {
    let f = bar_field();
    // The vertical bar occupies relative column 1.
    assert_eq!(f.does_collide(Rotation::Upright, Pos { x: 4, y: -2 }), CollideVariant::NoCollision);
    assert_eq!(f.does_collide(Rotation::Upright, Pos { x: -2, y: 0 }), CollideVariant::Left);
    assert_eq!(f.does_collide(Rotation::Upright, Pos { x: 9, y: 0 }), CollideVariant::Right);
    assert_eq!(
        f.does_collide(Rotation::Upright, Pos { x: 4, y: 17 }),
        CollideVariant::BottomOrPieces
    );
}

#[test]
fn horizontal_checks_win_over_vertical_ones() {
    let f = bar_field();
    // Past the left wall and past the bottom at once: the wall wins.
    assert_eq!(f.does_collide(Rotation::Upright, Pos { x: -2, y: 17 }), CollideVariant::Left);
}

#[test]
fn collision_with_locked_cells() {
    let mut f = bar_field();
    f.drop_figure();
    // The dropped vertical bar locked into column 5, rows 16..=19.
    assert_eq!(
        f.does_collide(Rotation::Upright, Pos { x: 4, y: 16 }),
        CollideVariant::BottomOrPieces
    );
    assert_eq!(f.does_collide(Rotation::Upright, Pos { x: 5, y: 16 }), CollideVariant::NoCollision);
}

#[test]
fn translation_moves_on_empty_board() {
    let mut f = bar_field();
    f.process_input(InputField::Left);
    assert_eq!(f.current_pos().x, 3);
    f.process_input(InputField::Right);
    f.process_input(InputField::Right);
    assert_eq!(f.current_pos().x, 5);
    assert_eq!(f.current_rotation(), Rotation::Upright);
}

#[test]
fn translation_at_wall_is_ignored() {
    let mut f = bar_field();
    // The vertical bar's occupied column reaches the left wall at x == -1.
    for _ in 0..7 {
        f.process_input(InputField::Left);
    }
    assert_eq!(f.current_pos().x, -1);
    let before = f.current_pos();
    f.process_input(InputField::Left);
    assert_eq!(f.current_pos(), before);
}

#[test]
fn wall_kick_at_left_wall() {
    let mut f = bar_field();
    for _ in 0..5 {
        f.process_input(InputField::Left);
    }
    assert_eq!(f.current_pos().x, -1);
    // Rotating to the horizontal bar would poke past the left wall; the
    // kick commits the nearest wall-clearing position.
    f.process_input(InputField::Rotate);
    assert_eq!(f.current_rotation(), Rotation::Right);
    assert_eq!(f.current_pos().x, 0);
}

#[test]
fn wall_kick_at_right_wall() {
    let mut f = bar_field();
    for _ in 0..4 {
        f.process_input(InputField::Right);
    }
    assert_eq!(f.current_pos().x, 8);
    f.process_input(InputField::Rotate);
    assert_eq!(f.current_rotation(), Rotation::Right);
    assert_eq!(f.current_pos().x, 6);
}

#[test]
fn rotation_rejected_when_blocked_by_pieces() {
    let mut f = bar_field();
    // Lock a vertical bar into column 4.
    f.process_input(InputField::Left);
    f.drop_figure();
    // Lock a vertical bar into column 6.
    f.set_next_figure(FigureKind::Bar, Color::Blue);
    f.process_input(InputField::Right);
    f.drop_figure();
    // Step the third bar down column 5 until it rests between the stacks.
    for _ in 0..18 {
        f.make_step();
    }
    assert_eq!(f.current_pos(), Pos { x: 4, y: 16 });
    // The horizontal form would overlap the locked stacks: rejected.
    f.process_input(InputField::Rotate);
    assert_eq!(f.current_rotation(), Rotation::Upright);
    assert_eq!(f.current_pos(), Pos { x: 4, y: 16 });
    // So is either translation.
    f.process_input(InputField::Left);
    assert_eq!(f.current_pos().x, 4);
    f.process_input(InputField::Right);
    assert_eq!(f.current_pos().x, 4);
}

#[test]
fn gravity_advances_one_row_per_step() {
    let mut f = bar_field();
    assert_eq!(f.current_pos(), Pos { x: 4, y: -2 });
    f.make_step();
    assert_eq!(f.current_pos(), Pos { x: 4, y: -1 });
    f.make_step();
    assert_eq!(f.current_pos(), Pos { x: 4, y: 0 });
}

#[test]
fn locking_promotes_the_queued_piece() {
    let mut f = Field::new_with(FigureKind::Bar, Color::Red, FigureKind::Square, Color::Yellow);
    f.drop_figure();
    let fig = f.active_figure();
    assert_eq!(fig.kind, FigureKind::Square);
    assert_eq!(fig.color, Color::Yellow);
    assert_eq!(f.current_rotation(), Rotation::Upright);
    assert_eq!(f.current_pos(), FigureKind::Square.get_pos());
}
