//! Piece and color identities and their twelve bitboard slots.
use vstd::prelude::*;

verus! {

/// A piece type; `Empty` stands for "no piece" and has no slot.
#[derive(PartialEq, Eq, Structural, Debug, Clone, Copy)]
pub enum Piece {
    Empty,
    Pawn,
    Knight,
    Bishop,
    Rook,
    Queen,
    King,
}

/// A side; `NoColor` stands for "no color" (an empty square).
#[derive(PartialEq, Eq, Structural, Debug, Clone, Copy)]
pub enum Color {
    NoColor,
    White,
    Black,
}

/// The linear index of a piece type: Pawn 0 up to King 5, and -1 for `Empty`.
pub open spec fn piece_index(p: Piece) -> int {
    match p {
        Piece::Empty => -1,
        Piece::Pawn => 0,
        Piece::Knight => 1,
        Piece::Bishop => 2,
        Piece::Rook => 3,
        Piece::Queen => 4,
        Piece::King => 5,
    }
}

/// The bitboard slot of a real piece of a real color: Black slots follow the six White ones.
pub open spec fn slot_of(p: Piece, c: Color) -> int {
    piece_index(p) + if c == Color::Black { 6int } else { 0int }
}

/// The piece type held in a slot (slots 6..12 hold the Black pieces); `Empty` off the table.
pub open spec fn piece_of_slot(id: int) -> Piece {
    let k = if id >= 6 { id - 6 } else { id };
    if k == 0 {
        Piece::Pawn
    } else if k == 1 {
        Piece::Knight
    } else if k == 2 {
        Piece::Bishop
    } else if k == 3 {
        Piece::Rook
    } else if k == 4 {
        Piece::Queen
    } else if k == 5 {
        Piece::King
    } else {
        Piece::Empty
    }
}

/// The color of a slot: from slot 6 on, Black.
pub open spec fn color_of_slot(id: int) -> Color {
    if id >= 6 {
        Color::Black
    } else {
        Color::White
    }
}

/// The color that moves against `c`.
pub open spec fn opponent(c: Color) -> Color {
    match c {
        Color::White => Color::Black,
        Color::Black => Color::White,
        Color::NoColor => Color::NoColor,
    }
}

/// The piece type held in bitboard slot `id`.
pub fn piece_from_id(id: i32) -> (r: Piece)
    ensures
        r == piece_of_slot(id as int),
{
    let mut id_ca = id;
    if id >= 6 {
        id_ca -= 6;
    }
    match id_ca {
        0 => Piece::Pawn,
        1 => Piece::Knight,
        2 => Piece::Bishop,
        3 => Piece::Rook,
        4 => Piece::Queen,
        5 => Piece::King,
        _ => Piece::Empty,
    }
}

/// The color of bitboard slot `id`.
pub fn color_from_id(id: i32) -> (r: Color)
    ensures
        r == color_of_slot(id as int),
{
    if id >= 6 {
        Color::Black
    } else {
        Color::White
    }
}

/// The bitboard slot of a piece of a color.
pub fn slot_index(piece: Piece, color: Color) -> (r: usize)
    requires
        piece != Piece::Empty,
        color != Color::NoColor,
    ensures
        r as int == slot_of(piece, color),
        r < 12,
{
    let base: usize = match piece {
        Piece::Pawn => 0,
        Piece::Knight => 1,
        Piece::Bishop => 2,
        Piece::Rook => 3,
        Piece::Queen => 4,
        _ => 5,
    };
    if color == Color::Black {
        base + 6
    } else {
        base
    }
}

/// Slots and (piece, color) pairs correspond one to one: every slot maps to a pair whose slot
/// is that slot again, and every real pair maps to a slot that gives the pair back.
pub proof fn lemma_slot_round_trip()
    ensures
        forall|s: int|
            0 <= s < 12 ==> #[trigger] slot_of(piece_of_slot(s), color_of_slot(s)) == s
                && piece_of_slot(s) != Piece::Empty,
        forall|p: Piece, c: Color|
            p != Piece::Empty && c != Color::NoColor ==> {
                let s = #[trigger] slot_of(p, c);
                &&& 0 <= s < 12
                &&& piece_of_slot(s) == p
                &&& color_of_slot(s) == c
            },
{
}

} // verus!
