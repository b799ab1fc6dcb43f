use engine::display::{
    ascii, board_index_to_coordinate_name, coordinate_name_to_board_index, get_piece_ascii,
    piece_from_notation,
};
use engine::fen::{position_from_fen, FenError};
use engine::moves::get_unchecked_moves;
use engine::piece::{Color, Piece};
use engine::position::{get_piece_at, set_piece_at, Position};

#[test]
fn coordinates_round_trip() {
    for index in 0..64 {
        let name = board_index_to_coordinate_name(index);
        assert_eq!(coordinate_name_to_board_index(name), Some(index));
    }
    assert_eq!(board_index_to_coordinate_name(0), "a1");
    assert_eq!(board_index_to_coordinate_name(63), "h8");
    assert_eq!(board_index_to_coordinate_name(12), "e2");
    assert_eq!(coordinate_name_to_board_index("a1".to_string()), Some(0));
    assert_eq!(coordinate_name_to_board_index("h8".to_string()), Some(63));
    assert_eq!(coordinate_name_to_board_index("e3".to_string()), Some(20));
}

#[test]
fn malformed_coordinates_name_no_square() {
    for bad in ["", "a", "a10", "i1", "a9", "a0", "-", "A1", "1a", "é1"] {
        assert_eq!(coordinate_name_to_board_index(bad.to_string()), None, "{}", bad);
    }
}

#[test]
fn piece_letters() {
    assert_eq!(get_piece_ascii(Piece::King, Color::White), 'K');
    assert_eq!(get_piece_ascii(Piece::Knight, Color::Black), 'n');
    assert_eq!(get_piece_ascii(Piece::Empty, Color::NoColor), '.');
    assert_eq!(get_piece_ascii(Piece::Empty, Color::White), '.');
    assert_eq!(piece_from_notation('Q'), (Piece::Queen, Color::White));
    assert_eq!(piece_from_notation('p'), (Piece::Pawn, Color::Black));
    assert_eq!(piece_from_notation('x'), (Piece::Empty, Color::NoColor));
}

#[test]
fn board_drawing() {
    let mut position = Position::new();
    set_piece_at(&mut position, 4, Piece::King, &Color::White);
    set_piece_at(&mut position, 60, Piece::King, &Color::Black);
    let border = "  +------------------------+\n";
    let mut expected = String::from(border);
    expected.push_str("8 | .  .  .  .  k  .  .  . |\n");
    for rank in (2..8).rev() {
        expected.push_str(&format!("{} | .  .  .  .  .  .  .  . |\n", rank));
    }
    expected.push_str("1 | .  .  .  .  K  .  .  . |\n");
    expected.push_str(border);
    expected.push_str("    a  b  c  d  e  f  g  h");
    assert_eq!(ascii(&position), expected);
}

#[test]
fn reads_the_starting_position() {
    let position =
        position_from_fen("rnbqkbnr/pppppppp/8/8/8/8/PPPPPPPP/RNBQKBNR w KQkq - 0 1").unwrap();
    assert_eq!(get_piece_at(&position, 0), (Piece::Rook, Color::White));
    assert_eq!(get_piece_at(&position, 4), (Piece::King, Color::White));
    assert_eq!(get_piece_at(&position, 12), (Piece::Pawn, Color::White));
    assert_eq!(get_piece_at(&position, 59), (Piece::Queen, Color::Black));
    assert_eq!(get_piece_at(&position, 27), (Piece::Empty, Color::NoColor));
    assert_eq!(position.side_to_move, Color::White);
    assert_eq!(position.castling_rights, [true, true, true, true]);
    assert_eq!(position.en_passant_index, None);
    assert_eq!(position.half_move_clock, 0);
    assert_eq!(position.full_move_clock, 1);
    assert_eq!(get_unchecked_moves(&position).len(), 20);
}

#[test]
fn reads_side_castling_en_passant_and_clocks() {
    let position = position_from_fen("8/8/8/8/4N3/8/8/8 b Kq e3 12 40").unwrap();
    assert_eq!(get_piece_at(&position, 28), (Piece::Knight, Color::White));
    assert_eq!(position.side_to_move, Color::Black);
    assert_eq!(position.castling_rights, [true, false, false, true]);
    assert_eq!(position.en_passant_index, Some(20));
    assert_eq!(position.half_move_clock, 12);
    assert_eq!(position.full_move_clock, 40);
    assert!(get_unchecked_moves(&position).is_empty());
}

#[test]
fn refuses_malformed_fen() {
    assert_eq!(position_from_fen("8/8/8/8/8/8/8/8 w - - 0").err(), Some(FenError::FieldCount));
    assert_eq!(position_from_fen("").err(), Some(FenError::FieldCount));
    assert_eq!(position_from_fen("8/8/8/8/8/8/8 w - - 0 1").err(), Some(FenError::PiecePlacement));
    assert_eq!(position_from_fen("9/8/8/8/8/8/8/8 w - - 0 1").err(), Some(FenError::PiecePlacement));
    assert_eq!(position_from_fen("8/8/8/8/8/8/8/7x w - - 0 1").err(), Some(FenError::PiecePlacement));
    assert_eq!(position_from_fen("8/8/8/8/8/8/8/8 x - - 0 1").err(), Some(FenError::SideToMove));
    assert_eq!(position_from_fen("8/8/8/8/8/8/8/8 w - - a 1").err(), Some(FenError::HalfMoveClock));
    assert_eq!(position_from_fen("8/8/8/8/8/8/8/8 w - - 0 99999999999").err(), Some(FenError::FullMoveClock));
}

#[test]
fn clocks_take_signs_and_bounds() {
    let position = position_from_fen("8/8/8/8/8/8/8/8 w - - -3 +7").unwrap();
    assert_eq!(position.half_move_clock, -3);
    assert_eq!(position.full_move_clock, 7);
    let position = position_from_fen("8/8/8/8/8/8/8/8 w - - 2147483647 -2147483648").unwrap();
    assert_eq!(position.half_move_clock, i32::MAX);
    assert_eq!(position.full_move_clock, i32::MIN);
    assert_eq!(
        position_from_fen("8/8/8/8/8/8/8/8 w - - 2147483648 1").err(),
        Some(FenError::HalfMoveClock)
    );
    assert_eq!(position_from_fen("8/8/8/8/8/8/8/8 w - - - 1").err(), Some(FenError::HalfMoveClock));
}
