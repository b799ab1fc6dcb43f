use engine::piece::{color_from_id, piece_from_id, Color, Piece};
use engine::position::{
    get_piece_at, is_square_occupied, is_square_occupied_by_color, massacre, set_castling_rights,
    set_piece_at, CastlingSide, Position,
};

#[test]
fn test_piece_bitboards() {
    for color_index in 0..2 {
        for piece_index in 0..6 {
            for board_index in 0..64 {
                let mut position = Position::new();
                set_piece_at(&mut position, board_index, piece_from_id(piece_index), &color_from_id(color_index));

                let piece = get_piece_at(&position, board_index);
                assert!(
                    piece.0 == piece_from_id(piece_index) && piece.1 == color_from_id(color_index),
                    "Piece at board index {} was supposed to be a {:?} {:?} but was instead a {:?} {:?}.",
                    board_index,
                    color_from_id(color_index),
                    piece_from_id(piece_index),
                    piece.1,
                    piece.0
                );
            }
        }
    }
}

#[test]
fn test_occupation_bitboard() {
    for i in 0..64 {
        let mut position = Position::new();
        set_piece_at(&mut position, i, Piece::Knight, &Color::White);

        assert!(is_square_occupied(&position, i), "Board index {} should be considered occupied, but it isn't.", i);
        assert!(
            !is_square_occupied_by_color(&position, i, &Color::Black),
            "Board index {} should be occupied by a white piece, but the check indicates it isn't.",
            i
        );
    }
}

#[test]
fn placement_on_fresh_board_is_found_alone() {
    let pieces = [Piece::Pawn, Piece::Knight, Piece::Bishop, Piece::Rook, Piece::Queen, Piece::King];
    for color in [Color::White, Color::Black] {
        for piece in pieces {
            for square in 0..64 {
                let mut position = Position::new();
                set_piece_at(&mut position, square, piece, &color);
                assert_eq!(get_piece_at(&position, square), (piece, color));
                assert!(is_square_occupied(&position, square));
                for other in 0..64 {
                    if other != square {
                        assert!(!is_square_occupied(&position, other));
                        assert_eq!(get_piece_at(&position, other), (Piece::Empty, Color::NoColor));
                    }
                }
            }
        }
    }
}

#[test]
fn placements_on_distinct_squares_keep_one_occupant_each() {
    let mut position = Position::new();
    set_piece_at(&mut position, 0, Piece::Rook, &Color::White);
    set_piece_at(&mut position, 1, Piece::Knight, &Color::White);
    set_piece_at(&mut position, 62, Piece::Knight, &Color::Black);
    set_piece_at(&mut position, 63, Piece::Rook, &Color::Black);
    assert_eq!(get_piece_at(&position, 0), (Piece::Rook, Color::White));
    assert_eq!(get_piece_at(&position, 1), (Piece::Knight, Color::White));
    assert_eq!(get_piece_at(&position, 62), (Piece::Knight, Color::Black));
    assert_eq!(get_piece_at(&position, 63), (Piece::Rook, Color::Black));
    let occupied: Vec<i32> = (0..64).filter(|&i| is_square_occupied(&position, i)).collect();
    assert_eq!(occupied, vec![0, 1, 62, 63]);
}

#[test]
fn placing_on_an_occupied_square_replaces_the_occupant() {
    let mut position = Position::new();
    set_piece_at(&mut position, 27, Piece::Queen, &Color::White);
    set_piece_at(&mut position, 27, Piece::Pawn, &Color::Black);
    assert_eq!(get_piece_at(&position, 27), (Piece::Pawn, Color::Black));
    assert!(is_square_occupied_by_color(&position, 27, &Color::Black));
    assert!(!is_square_occupied_by_color(&position, 27, &Color::White));
}

#[test]
fn placing_nothing_changes_nothing() {
    let mut position = Position::new();
    set_piece_at(&mut position, 5, Piece::Empty, &Color::White);
    set_piece_at(&mut position, 6, Piece::Rook, &Color::NoColor);
    assert!(!is_square_occupied(&position, 5));
    assert!(!is_square_occupied(&position, 6));
}

#[test]
fn massacre_clears_every_square() {
    let mut position = Position::new();
    set_piece_at(&mut position, 4, Piece::King, &Color::White);
    set_piece_at(&mut position, 60, Piece::King, &Color::Black);
    massacre(&mut position);
    for i in 0..64 {
        assert!(!is_square_occupied(&position, i));
        assert_eq!(get_piece_at(&position, i), (Piece::Empty, Color::NoColor));
    }
}

#[test]
fn castling_rights_change_one_flag() {
    let mut position = Position::new();
    assert_eq!(position.castling_rights, [false; 4]);
    set_castling_rights(&mut position, Color::Black, CastlingSide::Long, true);
    assert_eq!(position.castling_rights, [false, false, false, true]);
    set_castling_rights(&mut position, Color::White, CastlingSide::Short, true);
    assert_eq!(position.castling_rights, [true, false, false, true]);
    set_castling_rights(&mut position, Color::Black, CastlingSide::Long, false);
    assert_eq!(position.castling_rights, [true, false, false, false]);
}

#[test]
fn new_position_defaults() {
    let position = Position::new();
    assert_eq!(position.side_to_move, Color::White);
    assert_eq!(position.en_passant_index, None);
    assert_eq!(position.half_move_clock, 0);
    assert_eq!(position.full_move_clock, 1);
}

#[test]
fn slots_map_to_pieces_and_colors() {
    assert_eq!(piece_from_id(0), Piece::Pawn);
    assert_eq!(piece_from_id(5), Piece::King);
    assert_eq!(piece_from_id(6), Piece::Pawn);
    assert_eq!(piece_from_id(9), Piece::Rook);
    assert_eq!(piece_from_id(11), Piece::King);
    assert_eq!(piece_from_id(-1), Piece::Empty);
    assert_eq!(piece_from_id(12), Piece::Empty);
    assert_eq!(color_from_id(5), Color::White);
    assert_eq!(color_from_id(6), Color::Black);
    for slot in 0..12 {
        let index = engine::piece::slot_index(piece_from_id(slot), color_from_id(slot));
        assert_eq!(index as i32, slot);
    }
}
