use engine::display::{ascii, list_moves};
use engine::moves::{
    add_pawn_move, get_bishop_unchecked_moves, get_king_unchecked_moves, get_knight_unchecked_moves,
    get_pawn_unchecked_moves, get_queen_unchecked_moves, get_rook_unchecked_moves, get_unchecked_moves,
    create_promotion_options, Move, PromotionOption,
};
use engine::piece::{self, Color, Piece};
use engine::position::{self, Position};

fn quiet(from: i32, to: i32) -> Move {
    Move { from, to, promotion: PromotionOption::NoPromotion }
}

fn destinations(moves: &[Move]) -> Vec<i32> {
    let mut to: Vec<i32> = moves.iter().map(|m| m.to).collect();
    to.sort();
    to
}

#[test]
fn test_pawn_move_generation() {
    for color_index in 0..2 {
        let color = piece::color_from_id(color_index);
        let opponent_color = if color == Color::White { Color::Black } else { Color::White };
        let direction = if color == Color::White { 1 } else { -1 };
        let pawn_home_rank = if color == Color::White { 1 } else { 6 };
        let promotion_rank = if color == Color::White { 7 } else { 0 };
        let mut position = Position::new();

        for board_index in 0..64 {
            let rank = board_index / 8;
            let file = board_index % 8;
            if rank == promotion_rank {
                continue;
            }

            let mut generated_moves: Vec<Move>;
            let mut expected_moves: Vec<Move> = Vec::new();

            for test_index in 0..3 {
                position::set_piece_at(&mut position, board_index, Piece::Pawn, &color);

                match test_index {
                    0 => {
                        if rank == pawn_home_rank {
                            expected_moves.push(quiet(board_index, board_index + 8 * direction));
                            expected_moves.push(quiet(board_index, board_index + 16 * direction));
                        } else {
                            add_pawn_move(&mut expected_moves, board_index, board_index + 8 * direction, &color);
                        }
                    }
                    1 => {
                        position::set_piece_at(&mut position, board_index + 8 * direction, Piece::Rook, &opponent_color);
                    }
                    2 => {
                        if rank == pawn_home_rank {
                            expected_moves.push(quiet(board_index, board_index + 8 * direction));
                            expected_moves.push(quiet(board_index, board_index + 16 * direction));
                        } else {
                            add_pawn_move(&mut expected_moves, board_index, board_index + 8 * direction, &color);
                        }

                        let do_left = file != 0;
                        let do_right = file != 7;

                        if do_left {
                            position::set_piece_at(&mut position, board_index + 7 * direction, Piece::Pawn, &opponent_color);
                            add_pawn_move(&mut expected_moves, board_index, board_index + 7 * direction, &color);
                        } else if do_right {
                            position::set_piece_at(&mut position, board_index + 9 * direction, Piece::Pawn, &opponent_color);
                            add_pawn_move(&mut expected_moves, board_index, board_index + 9 * direction, &color);
                        }
                    }
                    _ => {
                        panic!("Test misconfigured. There is no scenario {}.", test_index);
                    }
                }

                generated_moves = get_pawn_unchecked_moves(&position, board_index, &color);

                generated_moves.sort();
                expected_moves.sort();

                assert!(
                    generated_moves == expected_moves,
                    "Generated moves for the following position do not match expectation.\n{}\nExpected: {}\nGot: {}",
                    ascii(&position),
                    list_moves(&expected_moves),
                    list_moves(&generated_moves)
                );

                expected_moves.clear();
                generated_moves.clear();

                position::massacre(&mut position);
            }
        }
    }
}

#[test]
fn knight_in_the_center_has_eight_moves() {
    let mut position = Position::new();
    position::set_piece_at(&mut position, 27, Piece::Knight, &Color::White);
    let moves = get_knight_unchecked_moves(&position, 27, &Color::White);
    assert_eq!(moves.len(), 8);
    assert_eq!(destinations(&moves), vec![10, 12, 17, 21, 33, 37, 42, 44]);
    assert_eq!(get_unchecked_moves(&position).len(), 8);
}

#[test]
fn knight_does_not_take_its_own_side() {
    let mut position = Position::new();
    position::set_piece_at(&mut position, 27, Piece::Knight, &Color::White);
    position::set_piece_at(&mut position, 10, Piece::Pawn, &Color::White);
    position::set_piece_at(&mut position, 44, Piece::Pawn, &Color::Black);
    let moves = get_knight_unchecked_moves(&position, 27, &Color::White);
    assert_eq!(destinations(&moves), vec![12, 17, 21, 33, 37, 42, 44]);
}

#[test]
fn pawn_on_home_rank_pushes_once_or_twice() {
    let mut position = Position::new();
    position::set_piece_at(&mut position, 12, Piece::Pawn, &Color::White);
    let moves = get_pawn_unchecked_moves(&position, 12, &Color::White);
    assert_eq!(moves, vec![quiet(12, 20), quiet(12, 28)]);

    let mut position = Position::new();
    position::set_piece_at(&mut position, 20, Piece::Pawn, &Color::White);
    let moves = get_pawn_unchecked_moves(&position, 20, &Color::White);
    assert_eq!(moves, vec![quiet(20, 28)]);
}

#[test]
fn black_pawn_pushes_down_the_board() {
    let mut position = Position::new();
    position::set_piece_at(&mut position, 52, Piece::Pawn, &Color::Black);
    let moves = get_pawn_unchecked_moves(&position, 52, &Color::Black);
    assert_eq!(moves, vec![quiet(52, 44), quiet(52, 36)]);
}

#[test]
fn double_push_needs_both_squares_empty() {
    let mut position = Position::new();
    position::set_piece_at(&mut position, 12, Piece::Pawn, &Color::White);
    position::set_piece_at(&mut position, 28, Piece::Knight, &Color::Black);
    let moves = get_pawn_unchecked_moves(&position, 12, &Color::White);
    assert_eq!(moves, vec![quiet(12, 20)]);
}

#[test]
fn pawn_reaching_the_last_rank_promotes_four_ways() {
    let mut position = Position::new();
    position::set_piece_at(&mut position, 52, Piece::Pawn, &Color::White);
    let moves = get_pawn_unchecked_moves(&position, 52, &Color::White);
    assert_eq!(moves.len(), 4);
    let kinds: Vec<PromotionOption> = moves.iter().map(|m| m.promotion).collect();
    assert_eq!(
        kinds,
        vec![PromotionOption::Knight, PromotionOption::Bishop, PromotionOption::Rook, PromotionOption::Queen]
    );
    assert!(moves.iter().all(|m| m.from == 52 && m.to == 60));
    assert_eq!(create_promotion_options(52, 60), moves);
}

#[test]
fn black_pawn_capture_does_not_wrap_to_the_a_file() {
    let mut position = Position::new();
    position::set_piece_at(&mut position, 15, Piece::Pawn, &Color::Black);
    position::set_piece_at(&mut position, 8, Piece::Rook, &Color::White);
    position::set_piece_at(&mut position, 6, Piece::Rook, &Color::White);
    let moves = get_pawn_unchecked_moves(&position, 15, &Color::Black);
    let mut expected = Vec::new();
    add_pawn_move(&mut expected, 15, 7, &Color::Black);
    add_pawn_move(&mut expected, 15, 6, &Color::Black);
    assert_eq!(moves, expected);
    assert_eq!(moves.len(), 8);
}

#[test]
fn pawn_on_the_last_rank_has_no_move_off_the_board() {
    let mut position = Position::new();
    position::set_piece_at(&mut position, 63, Piece::Pawn, &Color::White);
    assert!(get_pawn_unchecked_moves(&position, 63, &Color::White).is_empty());
}

#[test]
fn rook_stops_at_a_capture() {
    let mut position = Position::new();
    position::set_piece_at(&mut position, 0, Piece::Rook, &Color::White);
    position::set_piece_at(&mut position, 24, Piece::Pawn, &Color::Black);
    let moves = get_rook_unchecked_moves(&position, 0, &Color::White);
    let vertical: Vec<i32> = destinations(&moves).into_iter().filter(|t| t % 8 == 0).collect();
    assert_eq!(vertical, vec![8, 16, 24]);
    assert_eq!(destinations(&moves), vec![1, 2, 3, 4, 5, 6, 7, 8, 16, 24]);
}

#[test]
fn rook_stops_before_its_own_piece() {
    let mut position = Position::new();
    position::set_piece_at(&mut position, 0, Piece::Rook, &Color::White);
    position::set_piece_at(&mut position, 24, Piece::Pawn, &Color::White);
    let moves = get_rook_unchecked_moves(&position, 0, &Color::White);
    let vertical: Vec<i32> = destinations(&moves).into_iter().filter(|t| t % 8 == 0).collect();
    assert_eq!(vertical, vec![8, 16]);
}

#[test]
fn knight_on_the_h_file_never_lands_on_the_a_file() {
    let mut position = Position::new();
    position::set_piece_at(&mut position, 31, Piece::Knight, &Color::White);
    let moves = get_knight_unchecked_moves(&position, 31, &Color::White);
    assert!(moves.iter().all(|m| m.to % 8 != 0));
    assert_eq!(destinations(&moves), vec![14, 21, 37, 46]);
}

#[test]
fn bishop_on_a1_stays_on_its_diagonal() {
    let mut position = Position::new();
    position::set_piece_at(&mut position, 0, Piece::Bishop, &Color::White);
    let moves = get_bishop_unchecked_moves(&position, 0, &Color::White);
    assert_eq!(destinations(&moves), vec![9, 18, 27, 36, 45, 54, 63]);
}

#[test]
fn rook_on_h1_does_not_wrap_to_the_next_rank() {
    let mut position = Position::new();
    position::set_piece_at(&mut position, 7, Piece::Rook, &Color::White);
    let moves = get_rook_unchecked_moves(&position, 7, &Color::White);
    assert_eq!(destinations(&moves), vec![0, 1, 2, 3, 4, 5, 6, 15, 23, 31, 39, 47, 55, 63]);
}

#[test]
fn queen_and_king_directions() {
    let mut position = Position::new();
    position::set_piece_at(&mut position, 27, Piece::Queen, &Color::White);
    assert_eq!(get_queen_unchecked_moves(&position, 27, &Color::White).len(), 27);
    let mut position = Position::new();
    position::set_piece_at(&mut position, 0, Piece::King, &Color::Black);
    let moves = get_king_unchecked_moves(&position, 0, &Color::Black);
    assert_eq!(destinations(&moves), vec![1, 8, 9]);
}

#[test]
fn generator_moves_only_the_side_to_move() {
    let mut position = Position::new();
    position::set_piece_at(&mut position, 0, Piece::King, &Color::White);
    position::set_piece_at(&mut position, 63, Piece::King, &Color::Black);
    let moves = get_unchecked_moves(&position);
    assert!(moves.iter().all(|m| m.from == 0));
    assert_eq!(moves.len(), 3);
    position.side_to_move = Color::Black;
    let moves = get_unchecked_moves(&position);
    assert!(moves.iter().all(|m| m.from == 63));
    assert_eq!(destinations(&moves), vec![54, 55, 62]);
}

#[test]
fn move_text_and_list() {
    let push = quiet(12, 28);
    assert_eq!(push.to_string(), "e2e4");
    let promotion = Move { from: 52, to: 60, promotion: PromotionOption::Queen };
    assert_eq!(promotion.to_string(), "e7e8q");
    let under = Move { from: 52, to: 61, promotion: PromotionOption::Knight };
    assert_eq!(under.to_string(), "e7f8n");
    assert_eq!(list_moves(&vec![quiet(12, 20), quiet(12, 28)]), "e2e3, e2e4");
    assert_eq!(list_moves(&vec![]), "");
}
