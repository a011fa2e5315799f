use tetris::Field;
use tetris::FigureKind;
use tetris::Rotation;
use tetris::FIELD_WIDTH;

fn kinds() -> Vec<FigureKind> {
    vec![
        FigureKind::Bar,
        FigureKind::PZ,
        FigureKind::NZ,
        FigureKind::PL,
        FigureKind::NL,
        FigureKind::Square,
        FigureKind::T,
    ]
}

fn rotations() -> Vec<Rotation> {
    vec![Rotation::Upright, Rotation::Right, Rotation::Upside, Rotation::Left]
}

#[test]
fn every_bitmap_has_exactly_four_cells() {
    for &kind in kinds().iter() {
        for &rot in rotations().iter() {
            let mut count = 0;
            for y in 0..4 {
                for x in 0..4 {
                    if kind.occupied_at(rot, x, y) {
                        count += 1;
                    }
                }
            }
            assert_eq!(count, 4);
        }
    }
}

#[test]
fn spawn_keeps_piece_horizontally_on_board() {
    for &kind in kinds().iter() {
        let pos = kind.get_pos();
        let mut any_on_board = false;
        for y in 0..4 {
            for x in 0..4 {
                if kind.occupied_at(Rotation::Upright, x, y) {
                    let bx = pos.x + x as isize;
                    if bx >= 0 && (bx as usize) < FIELD_WIDTH {
                        any_on_board = true;
                    }
                }
            }
        }
        assert!(any_on_board);
    }
}

#[test]
fn rotation_cycle_is_fixed_and_forward() {
    assert_eq!(Rotation::Upright.rotate(), Rotation::Right);
    assert_eq!(Rotation::Right.rotate(), Rotation::Upside);
    assert_eq!(Rotation::Upside.rotate(), Rotation::Left);
    assert_eq!(Rotation::Left.rotate(), Rotation::Upright);
}

#[test]
fn fresh_board_is_fully_transparent() {
    let f = Field::new_with(
        FigureKind::Bar,
        tetris::Color::Red,
        FigureKind::Square,
        tetris::Color::Green,
    );
    for y in 0..20 {
        for x in 0..10 {
            assert_eq!(f.cell(x, y), tetris::Color::Transparent);
        }
    }
    assert_eq!(f.score(), 0);
}
