//! The bitboard position: twelve occupancy masks, their union, and the game-state flags.
use vstd::prelude::*;
use crate::piece::{
    Piece,
    Color,
    slot_index,
    slot_of,
    piece_of_slot,
    color_of_slot,
    lemma_slot_round_trip,
};

verus! {

/// Whether square `i` is set in the 64-bit mask `b`.
pub open spec fn square_bit(b: u64, i: int) -> bool {
    b & (1u64 << (i as u64)) != 0u64
}

proof fn lemma_bit_set(b: u64, i: u64, j: u64)
    requires
        i < 64,
        j < 64,
    ensures
        ((b | (1u64 << i)) & (1u64 << j) != 0u64) == (i == j || b & (1u64 << j) != 0u64),
{
    assert(((b | (1u64 << i)) & (1u64 << j) != 0u64) == (i == j || b & (1u64 << j) != 0u64))
        by (bit_vector)
        requires
            i < 64,
            j < 64,
    ;
}

proof fn lemma_bit_clear(b: u64, i: u64, j: u64)
    requires
        i < 64,
        j < 64,
    ensures
        ((b & !(1u64 << i)) & (1u64 << j) != 0u64) == (i != j && b & (1u64 << j) != 0u64),
{
    assert(((b & !(1u64 << i)) & (1u64 << j) != 0u64) == (i != j && b & (1u64 << j) != 0u64))
        by (bit_vector)
        requires
            i < 64,
            j < 64,
    ;
}

proof fn lemma_bit_zero(j: u64)
    requires
        j < 64,
    ensures
        0u64 & (1u64 << j) == 0u64,
{
    assert(0u64 & (1u64 << j) == 0u64) by (bit_vector);
}

/// Which castling move a right refers to.
#[derive(PartialEq, Eq, Structural, Debug, Clone, Copy)]
pub enum CastlingSide {
    Short,
    Long,
}

/// The index of a castling right: White short, White long, Black short, Black long.
pub open spec fn castling_slot(color: Color, side: CastlingSide) -> int {
    (if side == CastlingSide::Short { 0int } else { 1int }) + (if color == Color::White {
        0int
    } else {
        2int
    })
}

/// A chess position. Bit `i` of `bitboards[s]` says that the piece of slot `s` stands on
/// square `i`; `occupation_bitboard` is the union of the twelve masks.
pub struct Position {
    pub bitboards: [u64; 12],
    pub occupation_bitboard: u64,
    pub castling_rights: [bool; 4],
    pub en_passant_index: Option<i32>,
    pub side_to_move: Color,
    pub half_move_clock: i32,
    pub full_move_clock: i32,
}

/// The first slot, from `from` on, whose mask holds square `i`; 12 if none does.
pub open spec fn first_slot(bitboards: [u64; 12], i: int, from: int) -> int
    decreases 12 - from,
{
    if from >= 12 {
        12
    } else if square_bit(bitboards[from], i) {
        from
    } else {
        first_slot(bitboards, i, from + 1)
    }
}

impl Position {
    /// Slot `s` has a piece on square `i`.
    pub open spec fn has(&self, s: int, i: int) -> bool {
        square_bit(self.bitboards[s], i)
    }

    /// The aggregate mask marks square `i`.
    pub open spec fn occupied(&self, i: int) -> bool {
        square_bit(self.occupation_bitboard, i)
    }

    /// The aggregate mask is the union of the slots, no square is held by two slots, and the
    /// en-passant target is a square.
    pub open spec fn wf(&self) -> bool {
        &&& forall|i: int|
            0 <= i < 64 ==> (#[trigger] self.occupied(i) <==> exists|s: int|
                0 <= s < 12 && #[trigger] self.has(s, i))
        &&& forall|s1: int, s2: int, i: int|
            0 <= s1 < 12 && 0 <= s2 < 12 && 0 <= i < 64 && #[trigger] self.has(s1, i)
                && #[trigger] self.has(s2, i) ==> s1 == s2
        &&& self.en_passant_index matches Some(e) ==> 0 <= e < 64
    }

    /// What stands on square `i`: the piece and color of the first slot holding it, or
    /// `(Empty, NoColor)`.
    pub open spec fn piece_at(&self, i: int) -> (Piece, Color) {
        let s = first_slot(self.bitboards, i, 0);
        if s < 12 {
            (piece_of_slot(s), color_of_slot(s))
        } else {
            (Piece::Empty, Color::NoColor)
        }
    }

    /// Everything but the pieces is the same in both positions.
    pub open spec fn same_state(&self, other: &Position) -> bool {
        &&& self.castling_rights == other.castling_rights
        &&& self.en_passant_index == other.en_passant_index
        &&& self.side_to_move == other.side_to_move
        &&& self.half_move_clock == other.half_move_clock
        &&& self.full_move_clock == other.full_move_clock
    }

    /// `self` is `old` after putting `piece` of `color` on square `index` (nothing changes
    /// for `Empty` or `NoColor`): that square is held by that piece's slot alone, the aggregate
    /// mask gains it, and the rest stays.
    pub open spec fn placed_from(&self, old: &Position, index: int, piece: Piece, color: Color) -> bool {
        if piece == Piece::Empty || color == Color::NoColor {
            *self == *old
        } else {
            &&& forall|s: int, j: int|
                0 <= s < 12 && 0 <= j < 64 ==> #[trigger] self.has(s, j) == if j == index {
                    s == slot_of(piece, color)
                } else {
                    old.has(s, j)
                }
            &&& forall|j: int|
                0 <= j < 64 ==> #[trigger] self.occupied(j) == (j == index || old.occupied(j))
            &&& self.same_state(old)
        }
    }

    /// No piece on any square.
    pub open spec fn is_bare(&self) -> bool {
        &&& forall|s: int| 0 <= s < 12 ==> self.bitboards[s] == 0u64
        &&& self.occupation_bitboard == 0u64
    }

    /// An empty board, White to move, no castling rights, no en-passant target, clocks 0 and 1.
    pub fn new() -> (r: Self)
        ensures
            r.wf(),
            r.is_bare(),
            forall|i: int| 0 <= i < 64 ==> #[trigger] r.piece_at(i) == (Piece::Empty, Color::NoColor),
            forall|k: int| 0 <= k < 4 ==> !r.castling_rights[k],
            r.en_passant_index == None::<i32>,
            r.side_to_move == Color::White,
            r.half_move_clock == 0,
            r.full_move_clock == 1,
    {
        let r = Position {
            bitboards: [0u64; 12],
            occupation_bitboard: 0,
            castling_rights: [false; 4],
            en_passant_index: None,
            side_to_move: Color::White,
            half_move_clock: 0,
            full_move_clock: 1,
        };
        proof {
            lemma_bare_board(&r);
        }
        r
    }
}

proof fn lemma_first_slot_is(p: &Position, i: int, from: int, s: int)
    requires
        0 <= from <= s < 12,
        p.has(s, i),
        forall|k: int| from <= k < s ==> !#[trigger] p.has(k, i),
    ensures
        first_slot(p.bitboards, i, from) == s,
    decreases s - from,
{
    if from < s {
        assert(!p.has(from, i));
        lemma_first_slot_is(p, i, from + 1, s);
    } else {
        assert(p.has(s, i));
    }
}

proof fn lemma_first_slot_none(p: &Position, i: int, from: int)
    requires
        0 <= from <= 12,
        forall|k: int| from <= k < 12 ==> !#[trigger] p.has(k, i),
    ensures
        first_slot(p.bitboards, i, from) == 12,
    decreases 12 - from,
{
    if from < 12 {
        assert(!p.has(from, i));
        lemma_first_slot_none(p, i, from + 1);
    }
}

/// In a well-formed position, what stands on a square is what its one holding slot says.
pub proof fn lemma_piece_at(p: &Position, i: int)
    requires
        p.wf(),
        0 <= i < 64,
    ensures
        forall|s: int|
            0 <= s < 12 && #[trigger] p.has(s, i) ==> p.piece_at(i) == (
            piece_of_slot(s),
            color_of_slot(s),
            ),
        !p.occupied(i) <==> p.piece_at(i) == (Piece::Empty, Color::NoColor),
        p.occupied(i) ==> p.piece_at(i).0 != Piece::Empty && p.piece_at(i).1 != Color::NoColor
            && p.has(slot_of(p.piece_at(i).0, p.piece_at(i).1), i),
{
    lemma_slot_round_trip();
    assert forall|s: int| 0 <= s < 12 && #[trigger] p.has(s, i) implies p.piece_at(i) == (
        piece_of_slot(s),
        color_of_slot(s),
    ) by {
        assert forall|k: int| 0 <= k < s implies !#[trigger] p.has(k, i) by {
            if p.has(k, i) {
                assert(p.has(s, i));
            }
        }
        lemma_first_slot_is(p, i, 0, s);
    }
    if !p.occupied(i) {
        assert forall|k: int| 0 <= k < 12 implies !#[trigger] p.has(k, i) by {
            if p.has(k, i) {
                assert(p.occupied(i));
            }
        }
        lemma_first_slot_none(p, i, 0);
    } else {
        let s = choose|s: int| 0 <= s < 12 && #[trigger] p.has(s, i);
        assert(p.piece_at(i) == (piece_of_slot(s), color_of_slot(s)));
        assert(slot_of(piece_of_slot(s), color_of_slot(s)) == s);
    }
}

/// A placement keeps a position well formed.
pub proof fn lemma_placement_keeps_wf(
    before: &Position,
    after: &Position,
    index: int,
    piece: Piece,
    color: Color,
)
    requires
        before.wf(),
        0 <= index < 64,
        after.placed_from(before, index, piece, color),
    ensures
        after.wf(),
{
    if piece != Piece::Empty && color != Color::NoColor {
        lemma_slot_round_trip();
        let slot = slot_of(piece, color);
        assert forall|i: int| 0 <= i < 64 implies (#[trigger] after.occupied(i) <==> exists|
            s: int,
        | 0 <= s < 12 && #[trigger] after.has(s, i)) by {
            if i == index {
                assert(after.has(slot, i));
            } else if before.occupied(i) {
                let s = choose|s: int| 0 <= s < 12 && #[trigger] before.has(s, i);
                assert(after.has(s, i));
            } else {
                assert forall|s: int| 0 <= s < 12 implies !#[trigger] after.has(s, i) by {
                    if after.has(s, i) {
                        assert(before.has(s, i));
                    }
                }
            }
        }
    }
}

/// No square of a well-formed position is held by two (piece, color) slots, and a sequence of
/// placements (each one clearing its square first) keeps every position along it well formed.
pub proof fn lemma_placements_keep_single_occupancy(
    states: Seq<Position>,
    placements: Seq<(int, Piece, Color)>,
)
    requires
        states.len() == placements.len() + 1,
        states[0].wf(),
        forall|k: int| 0 <= k < placements.len() ==> 0 <= #[trigger] placements[k].0 < 64,
        forall|k: int|
            0 <= k < placements.len() ==> #[trigger] states[k + 1].placed_from(
                &states[k],
                placements[k].0,
                placements[k].1,
                placements[k].2,
            ),
    ensures
        forall|k: int| 0 <= k < states.len() ==> #[trigger] states[k].wf(),
        forall|k: int, i: int, s1: int, s2: int|
            0 <= k < states.len() && 0 <= i < 64 && 0 <= s1 < 12 && 0 <= s2 < 12
                && #[trigger] states[k].has(s1, i) && #[trigger] states[k].has(s2, i) ==> s1 == s2,
    decreases placements.len(),
{
    if placements.len() > 0 {
        let n = placements.len() - 1;
        lemma_placements_keep_single_occupancy(states.drop_last(), placements.drop_last());
        assert(states.drop_last()[n].wf());
        assert(states[n + 1].placed_from(&states[n], placements[n].0, placements[n].1, placements[n].2));
        lemma_placement_keeps_wf(&states[n], &states[n + 1], placements[n].0, placements[n].1, placements[n].2);
        assert forall|k: int| 0 <= k < states.len() implies #[trigger] states[k].wf() by {
            if k < states.len() - 1 {
                assert(states.drop_last()[k].wf());
            }
        }
    }
    assert forall|k: int, i: int, s1: int, s2: int|
        0 <= k < states.len() && 0 <= i < 64 && 0 <= s1 < 12 && 0 <= s2 < 12
            && #[trigger] states[k].has(s1, i) && #[trigger] states[k].has(s2, i) implies s1 == s2 by {
        assert(states[k].wf());
    }
}

/// Putting a piece of a color on one square of an empty board: querying that square gives
/// exactly that piece and color, it is occupied, and every other square stays empty.
pub proof fn lemma_place_on_empty_board(
    before: &Position,
    after: &Position,
    square: int,
    piece: Piece,
    color: Color,
)
    requires
        before.wf(),
        before.is_bare(),
        0 <= square < 64,
        piece != Piece::Empty,
        color != Color::NoColor,
        after.placed_from(before, square, piece, color),
    ensures
        after.piece_at(square) == (piece, color),
        after.occupied(square),
        forall|j: int| 0 <= j < 64 && j != square ==> !#[trigger] after.occupied(j),
{
    lemma_bare_board(before);
    lemma_placement_keeps_wf(before, after, square, piece, color);
    lemma_slot_round_trip();
    lemma_piece_at(after, square);
    assert(after.has(slot_of(piece, color), square));
}

/// Two positions with the same masks hold the same pieces; the second is well formed when the
/// first is and its en-passant target is a square.
pub proof fn lemma_same_pieces(a: &Position, b: &Position)
    requires
        a.wf(),
        a.bitboards == b.bitboards,
        a.occupation_bitboard == b.occupation_bitboard,
        b.en_passant_index matches Some(e) ==> 0 <= e < 64,
    ensures
        b.wf(),
        forall|i: int| 0 <= i < 64 ==> #[trigger] b.piece_at(i) == a.piece_at(i),
{
    assert forall|i: int| 0 <= i < 64 implies (#[trigger] b.occupied(i) <==> exists|s: int|
        0 <= s < 12 && #[trigger] b.has(s, i)) by {
        if a.occupied(i) {
            let s = choose|s: int| 0 <= s < 12 && #[trigger] a.has(s, i);
            assert(b.has(s, i));
        } else {
            assert forall|s: int| 0 <= s < 12 implies !#[trigger] b.has(s, i) by {
                if b.has(s, i) {
                    assert(a.has(s, i));
                }
            }
        }
    }
    assert forall|s1: int, s2: int, i: int|
        0 <= s1 < 12 && 0 <= s2 < 12 && 0 <= i < 64 && #[trigger] b.has(s1, i)
            && #[trigger] b.has(s2, i) implies s1 == s2 by {
        assert(a.has(s1, i) && a.has(s2, i));
    }
}

proof fn lemma_bare_board(p: &Position)
    requires
        p.is_bare(),
    ensures
        forall|s: int, i: int| 0 <= s < 12 && 0 <= i < 64 ==> !#[trigger] p.has(s, i),
        forall|i: int| 0 <= i < 64 ==> !#[trigger] p.occupied(i),
        forall|i: int| 0 <= i < 64 ==> #[trigger] p.piece_at(i) == (Piece::Empty, Color::NoColor),
        (p.en_passant_index matches Some(e) ==> 0 <= e < 64) ==> p.wf(),
{
    assert forall|i: int| 0 <= i < 64 implies !#[trigger] p.occupied(i) by {
        lemma_bit_zero(i as u64);
    }
    assert forall|s: int, i: int| 0 <= s < 12 && 0 <= i < 64 implies !#[trigger] p.has(s, i) by {
        lemma_bit_zero(i as u64);
    }
    assert forall|i: int| 0 <= i < 64 implies #[trigger] p.piece_at(i) == (
        Piece::Empty,
        Color::NoColor,
    ) by {
        lemma_first_slot_none(p, i, 0);
    }
}

/// Whether square `index` is occupied: one test of the aggregate mask.
pub fn is_square_occupied(position: &Position, index: i32) -> (r: bool)
    requires
        0 <= index < 64,
    ensures
        r == position.occupied(index as int),
        position.wf() ==> r == (position.piece_at(index as int).0 != Piece::Empty),
{
    proof {
        if position.wf() {
            lemma_piece_at(position, index as int);
        }
    }
    position.occupation_bitboard & (1u64 << (index as u64)) != 0
}

/// Whether the piece on square `index` has color `color` (`NoColor` asks for an empty square).
pub fn is_square_occupied_by_color(position: &Position, index: i32, color: &Color) -> (r: bool)
    requires
        position.wf(),
        0 <= index < 64,
    ensures
        r == (position.piece_at(index as int).1 == *color),
{
    get_piece_at(position, index).1 == *color
}

/// Grants or withdraws one of the four castling rights.
pub fn set_castling_rights(
    position: &mut Position,
    color: Color,
    side: CastlingSide,
    is_available: bool,
)
    requires
        color != Color::NoColor,
    ensures
        final(position).castling_rights@ == old(position).castling_rights@.update(
            castling_slot(color, side),
            is_available,
        ),
        final(position).bitboards == old(position).bitboards,
        final(position).occupation_bitboard == old(position).occupation_bitboard,
        final(position).en_passant_index == old(position).en_passant_index,
        final(position).side_to_move == old(position).side_to_move,
        final(position).half_move_clock == old(position).half_move_clock,
        final(position).full_move_clock == old(position).full_move_clock,
{
    let castling_index: usize = (if side == CastlingSide::Short {
        0
    } else {
        1
    }) + (if color == Color::White {
        0
    } else {
        2
    });
    position.castling_rights[castling_index] = is_available;
}

/// The piece and color on square `index`, or `(Empty, NoColor)` when it is empty.
pub fn get_piece_at(position: &Position, index: i32) -> (r: (Piece, Color))
    requires
        position.wf(),
        0 <= index < 64,
    ensures
        r == position.piece_at(index as int),
{
    proof {
        lemma_piece_at(position, index as int);
    }
    if !is_square_occupied(position, index) {
        return (Piece::Empty, Color::NoColor);
    }
    let mask: u64 = 1u64 << (index as u64);
    let mut k: usize = 0;
    while k < 12
        invariant
            0 <= k <= 12,
            forall|j: int| 0 <= j < k ==> !#[trigger] position.has(j, index as int),
            position.wf(),
            0 <= index < 64,
            position.occupied(index as int),
            mask == 1u64 << (index as u64),
        decreases 12 - k,
    {
        if position.bitboards[k] & mask != 0 {
            let piece_id = k as i32;
            proof {
                assert(position.has(k as int, index as int));
                lemma_piece_at(position, index as int);
            }
            return (crate::piece::piece_from_id(piece_id), crate::piece::color_from_id(piece_id));
        }
        k += 1;
    }
    proof {
        let s = choose|s: int| 0 <= s < 12 && #[trigger] position.has(s, index as int);
        assert(!position.has(s, index as int));
    }
    (Piece::Empty, Color::NoColor)
}

/// Puts a piece of a color on square `index`, first clearing whatever stood there, so that no
/// square is ever held twice. Placing `Empty` or `NoColor` changes nothing.
pub fn set_piece_at(position: &mut Position, index: i32, piece: Piece, color: &Color)
    requires
        old(position).wf(),
        0 <= index < 64,
    ensures
        final(position).wf(),
        final(position).placed_from(old(position), index as int, piece, *color),
        piece != Piece::Empty && *color != Color::NoColor ==> {
            &&& final(position).piece_at(index as int) == (piece, *color)
            &&& forall|j: int|
                0 <= j < 64 && j != index ==> #[trigger] final(position).piece_at(j)
                    == old(position).piece_at(j)
        },
{
    if piece == Piece::Empty || *color == Color::NoColor {
        return;
    }
    let ghost pre = *position;
    let slot = slot_index(piece, *color);
    let mask: u64 = 1u64 << (index as u64);
    let mut k: usize = 0;
    while k < 12
        invariant
            0 <= k <= 12,
            mask == 1u64 << (index as u64),
            0 <= index < 64,
            position.same_state(&pre),
            position.occupation_bitboard == pre.occupation_bitboard,
            forall|s: int, j: int|
                0 <= s < 12 && 0 <= j < 64 ==> #[trigger] position.has(s, j) == if s < k {
                    j != index && pre.has(s, j)
                } else {
                    pre.has(s, j)
                },
        decreases 12 - k,
    {
        let ghost before = *position;
        position.bitboards[k] = position.bitboards[k] & !mask;
        proof {
            assert forall|s: int, j: int| 0 <= s < 12 && 0 <= j < 64 implies #[trigger] position.has(
                s,
                j,
            ) == if s < k + 1 {
                j != index && pre.has(s, j)
            } else {
                pre.has(s, j)
            } by {
                if s == k {
                    lemma_bit_clear(before.bitboards[s], index as u64, j as u64);
                    assert(position.bitboards[s] == before.bitboards[s] & !mask);
                    assert(before.has(s, j) == pre.has(s, j));
                } else {
                    assert(position.has(s, j) == before.has(s, j));
                }
            }
        }
        k += 1;
    }
    let ghost cleared = *position;
    position.bitboards[slot] = position.bitboards[slot] | mask;
    position.occupation_bitboard = position.occupation_bitboard | mask;
    proof {
        assert forall|s: int, j: int| 0 <= s < 12 && 0 <= j < 64 implies #[trigger] position.has(
            s,
            j,
        ) == if j == index {
            s == slot_of(piece, *color)
        } else {
            pre.has(s, j)
        } by {
            assert(cleared.has(s, j) == (j != index && pre.has(s, j)));
            if s == slot {
                lemma_bit_set(cleared.bitboards[s], index as u64, j as u64);
                assert(position.bitboards[s] == cleared.bitboards[s] | mask);
            } else {
                assert(position.has(s, j) == cleared.has(s, j));
            }
        }
        assert forall|j: int| 0 <= j < 64 implies #[trigger] position.occupied(j) == (j == index
            || pre.occupied(j)) by {
            lemma_bit_set(pre.occupation_bitboard, index as u64, j as u64);
        }
        lemma_placement_keeps_wf(&pre, position, index as int, piece, *color);
        assert(position.wf());
        lemma_piece_at(position, index as int);
        assert(position.has(slot as int, index as int));
        lemma_slot_round_trip();
        assert forall|j: int| 0 <= j < 64 && j != index implies #[trigger] position.piece_at(j)
            == pre.piece_at(j) by {
            lemma_piece_at(position, j);
            lemma_piece_at(&pre, j);
            if pre.occupied(j) {
                let s = choose|s: int| 0 <= s < 12 && #[trigger] pre.has(s, j);
                assert(position.has(s, j));
            } else {
                assert(!position.occupied(j));
            }
        }
    }
}

/// Removes every piece from the board; the game-state flags stay.
pub fn massacre(position: &mut Position)
    ensures
        old(position).wf() ==> final(position).wf(),
        final(position).is_bare(),
        forall|i: int| 0 <= i < 64 ==> #[trigger] final(position).piece_at(i) == (
            Piece::Empty,
            Color::NoColor,
        ),
        final(position).same_state(old(position)),
{
    position.occupation_bitboard = 0;
    position.bitboards = [0u64; 12];
    proof {
        lemma_bare_board(position);
    }
}

} // verus!
