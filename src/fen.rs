//! Reading a position from Forsyth-Edwards Notation.
use vstd::prelude::*;
use crate::piece::{Piece, Color};
use crate::position::{Position, CastlingSide, set_piece_at, set_castling_rights};
use crate::display::{notation_piece, piece_from_notation, parse_coordinate, coordinate_name_to_board_index, string_from_chars};

verus! {

/// Why a FEN text was refused.
#[derive(PartialEq, Eq, Structural, Debug, Clone, Copy)]
pub enum FenError {
    /// Not exactly six whitespace-separated fields.
    FieldCount,
    /// The piece placement is not eight ranks of at most eight squares of digits and piece letters.
    PiecePlacement,
    /// The side to move is neither "w" nor "b".
    SideToMove,
    /// The half-move clock is not a decimal integer that fits in 32 bits.
    HalfMoveClock,
    /// The full-move number is not a decimal integer that fits in 32 bits.
    FullMoveClock,
}

pub open spec fn is_space(c: char) -> bool {
    c == ' ' || c == '\t' || c == '\n' || c == '\r' || c == '\x0B' || c == '\x0C'
}

/// Splitting the first characters of a text: the fields closed so far and the field being read.
pub open spec fn split_state(s: Seq<char>, sep: spec_fn(char) -> bool, keep_empty: bool) -> (Seq<Seq<char>>, Seq<char>)
    decreases s.len(),
{
    if s.len() == 0 {
        (seq![], seq![])
    } else {
        let (closed, current) = split_state(s.drop_last(), sep, keep_empty);
        let c = s.last();
        if sep(c) {
            if current.len() > 0 || keep_empty {
                (closed.push(current), seq![])
            } else {
                (closed, seq![])
            }
        } else {
            (closed, current.push(c))
        }
    }
}

/// The pieces of a text between separators; with `keep_empty`, empty pieces count too (and
/// the last piece always does).
pub open spec fn split(s: Seq<char>, sep: spec_fn(char) -> bool, keep_empty: bool) -> Seq<Seq<char>> {
    let (closed, current) = split_state(s, sep, keep_empty);
    if current.len() > 0 || keep_empty {
        closed.push(current)
    } else {
        closed
    }
}

/// The whitespace-separated fields of a text.
pub open spec fn fields(s: Seq<char>) -> Seq<Seq<char>> {
    split(s, |c: char| is_space(c), false)
}

/// The ranks of a piece-placement field, separated by '/'.
pub open spec fn placement_ranks(s: Seq<char>) -> Seq<Seq<char>> {
    split(s, |c: char| c == '/', true)
}

fn split_chars(text: &Vec<char>, slash: bool) -> (r: Vec<Vec<char>>)
    ensures
        r@.len() == (if slash { placement_ranks(text@) } else { fields(text@) }).len(),
        forall|k: int| 0 <= k < r@.len() ==> #[trigger] r@[k]@ == (if slash { placement_ranks(text@) } else { fields(text@) })[k],
{
    let ghost sep = if slash { |c: char| c == '/' } else { |c: char| is_space(c) };
    let ghost keep = slash;
    let mut closed: Vec<Vec<char>> = Vec::new();
    let mut current: Vec<char> = Vec::new();
    let mut k: usize = 0;
    while k < text.len()
        invariant
            0 <= k <= text@.len(),
            sep == (if slash { |c: char| c == '/' } else { |c: char| is_space(c) }),
            keep == slash,
            closed@.len() == split_state(text@.subrange(0, k as int), sep, keep).0.len(),
            forall|j: int| 0 <= j < closed@.len() ==> #[trigger] closed@[j]@ == split_state(text@.subrange(0, k as int), sep, keep).0[j],
            current@ == split_state(text@.subrange(0, k as int), sep, keep).1,
        decreases text@.len() - k,
    {
        let c = text[k];
        let ghost before = split_state(text@.subrange(0, k as int), sep, keep);
        assert(text@.subrange(0, k + 1).drop_last() =~= text@.subrange(0, k as int));
        let is_sep = if slash { c == '/' } else { c == ' ' || c == '\t' || c == '\n' || c == '\r' || c == '\x0B' || c == '\x0C' };
        if is_sep {
            if current.len() > 0 || slash {
                closed.push(current);
                current = Vec::new();
            }
        } else {
            current.push(c);
        }
        assert(current@ =~= split_state(text@.subrange(0, k + 1), sep, keep).1);
        k += 1;
    }
    assert(text@.subrange(0, k as int) =~= text@);
    if current.len() > 0 || slash {
        closed.push(current);
    }
    closed
}

pub open spec fn is_digit(c: char) -> bool {
    48 <= c as u32 <= 57
}

pub open spec fn digit_value(c: char) -> int {
    c as u32 - 48
}

/// The value of a string of decimal digits, most significant first.
pub open spec fn digits_value(s: Seq<char>) -> int
    decreases s.len(),
{
    if s.len() == 0 {
        0
    } else {
        digits_value(s.drop_last()) * 10 + digit_value(s.last())
    }
}

pub open spec fn all_digits(s: Seq<char>) -> bool {
    forall|k: int| 0 <= k < s.len() ==> is_digit(#[trigger] s[k])
}

/// A decimal integer: an optional '+' or '-', then one or more digits, of a value that fits
/// in 32 bits.
pub open spec fn parse_int(s: Seq<char>) -> Option<i32> {
    let signed = s.len() > 0 && (s[0] == '-' || s[0] == '+');
    let ds = if signed { s.subrange(1, s.len() as int) } else { s };
    let v = if s.len() > 0 && s[0] == '-' { -digits_value(ds) } else { digits_value(ds) };
    if ds.len() > 0 && all_digits(ds) && i32::MIN <= v <= i32::MAX {
        Some(v as i32)
    } else {
        None
    }
}

proof fn lemma_digits_value_grows(s: Seq<char>, j: int)
    requires
        all_digits(s),
        0 <= j <= s.len(),
    ensures
        0 <= digits_value(s.subrange(0, j)) <= digits_value(s),
    decreases s.len(),
{
    if s.len() > 0 {
        let d = s.drop_last();
        assert(all_digits(d));
        let m = if j < s.len() { j } else { s.len() - 1 };
        lemma_digits_value_grows(d, m);
        assert(d.subrange(0, d.len() as int) =~= d);
        lemma_digits_value_grows(d, d.len() as int);
        assert(is_digit(s[s.len() - 1]));
        if j < s.len() {
            assert(d.subrange(0, j) =~= s.subrange(0, j));
        } else {
            assert(s.subrange(0, j) =~= s);
        }
    }
}

fn parse_i32(text: &Vec<char>) -> (r: Option<i32>)
    ensures
        r == parse_int(text@),
{
    let n = text.len();
    let negative = n > 0 && text[0] == '-';
    let start: usize = if n > 0 && (text[0] == '-' || text[0] == '+') {
        1
    } else {
        0
    };
    let ghost ds = text@.subrange(start as int, n as int);
    assert(ds =~= (if n > 0 && (text@[0] == '-' || text@[0] == '+') { text@.subrange(1, n as int) } else { text@ }));
    if start >= n {
        return None;
    }
    let mut value: i64 = 0;
    let mut k: usize = start;
    while k < n
        invariant
            start <= k <= n,
            n == text@.len(),
            ds == text@.subrange(start as int, n as int),
            ds == (if n > 0 && (text@[0] == '-' || text@[0] == '+') { text@.subrange(1, n as int) } else { text@ }),
            negative == (n > 0 && text@[0] == '-'),
            value as int == digits_value(ds.subrange(0, k - start)),
            0 <= value <= 2147483648,
            all_digits(ds.subrange(0, k - start)),
        decreases n - k,
    {
        let c = text[k];
        let code = c as u32;
        if code < 48 || code > 57 {
            assert(ds[k - start] == c);
            assert(!is_digit(ds[k - start]));
            return None;
        }
        let ghost pre = ds.subrange(0, k - start);
        assert(ds.subrange(0, k - start + 1).drop_last() =~= pre);
        value = value * 10 + (code - 48) as i64;
        assert(all_digits(ds.subrange(0, k - start + 1)));
        if value > 2147483648 {
            proof {
                if all_digits(ds) {
                    lemma_digits_value_grows(ds, k - start + 1);
                }
            }
            return None;
        }
        k += 1;
    }
    assert(ds.subrange(0, k - start) =~= ds);
    if negative {
        Some((-value) as i32)
    } else if value > 2147483647 {
        None
    } else {
        Some(value as i32)
    }
}

/// The squares that one rank of a placement field describes, file 'a' first: a digit stands for
/// that many empty squares, a piece letter for one square holding that piece.
pub open spec fn expand_rank(row: Seq<char>) -> Seq<(Piece, Color)>
    decreases row.len(),
{
    if row.len() == 0 {
        seq![]
    } else {
        let c = row.last();
        expand_rank(row.drop_last()) + if is_digit(c) {
            Seq::new(digit_value(c) as nat, |k: int| (Piece::Empty, Color::NoColor))
        } else {
            seq![notation_piece(c)]
        }
    }
}

/// A rank is digits and piece letters that describe at most eight squares.
pub open spec fn valid_rank(row: Seq<char>) -> bool {
    &&& forall|k: int| 0 <= k < row.len() ==> is_digit(#[trigger] row[k]) || notation_piece(row[k]).0 != Piece::Empty
    &&& expand_rank(row).len() <= 8
}

/// A placement field is eight valid ranks.
pub open spec fn valid_placement(field: Seq<char>) -> bool {
    &&& placement_ranks(field).len() == 8
    &&& forall|r: int| 0 <= r < 8 ==> valid_rank(#[trigger] placement_ranks(field)[r])
}

/// What a cell list says of file `f`: the cell, or empty past its end.
pub open spec fn cell(cells: Seq<(Piece, Color)>, f: int) -> (Piece, Color) {
    if f < cells.len() {
        cells[f]
    } else {
        (Piece::Empty, Color::NoColor)
    }
}

/// What a placement field puts on square `i`: its ranks run from rank 8 down to rank 1.
pub open spec fn placement_square(field: Seq<char>, i: int) -> (Piece, Color) {
    cell(expand_rank(placement_ranks(field)[7 - i / 8]), i % 8)
}

/// What the board holds after the ranks before row `k` and the first characters `prefix` of
/// row `k` have been read.
pub open spec fn partial_square(
    ranks: Seq<Seq<char>>,
    k: int,
    prefix: Seq<char>,
    i: int,
) -> (Piece, Color) {
    let row = 7 - i / 8;
    if row < k {
        cell(expand_rank(ranks[row]), i % 8)
    } else if row == k {
        cell(expand_rank(prefix), i % 8)
    } else {
        (Piece::Empty, Color::NoColor)
    }
}

proof fn lemma_expand_rank_grows(row: Seq<char>, j: int)
    requires
        0 <= j <= row.len(),
    ensures
        expand_rank(row.subrange(0, j)).len() <= expand_rank(row).len(),
    decreases row.len(),
{
    if j < row.len() {
        lemma_expand_rank_grows(row.drop_last(), j);
        assert(row.drop_last().subrange(0, j) =~= row.subrange(0, j));
    } else {
        assert(row.subrange(0, j) =~= row);
    }
}

/// Reads rank row `k` (row 0 is rank 8) onto the board, or reports that it is not a valid rank.
fn place_rank(position: &mut Position, ranks: Ghost<Seq<Seq<char>>>, k: usize, row: &Vec<char>) -> (ok: bool)
    requires
        old(position).wf(),
        k < 8,
        k < ranks@.len(),
        ranks@[k as int] == row@,
        forall|i: int| 0 <= i < 64 ==> #[trigger] old(position).piece_at(i) == partial_square(ranks@, k as int, seq![], i),
    ensures
        final(position).wf(),
        final(position).same_state(old(position)),
        ok == valid_rank(row@),
        ok ==> forall|i: int| 0 <= i < 64 ==> #[trigger] final(position).piece_at(i) == partial_square(ranks@, k as int + 1, seq![], i),
{
    let mut file: i32 = 0;
    let mut j: usize = 0;
    while j < row.len()
        invariant
            0 <= j <= row@.len(),
            k < 8,
            k < ranks@.len(),
            ranks@[k as int] == row@,
            position.wf(),
            position.same_state(old(position)),
            file as int == expand_rank(row@.subrange(0, j as int)).len(),
            0 <= file <= 8,
            forall|t: int| 0 <= t < j ==> is_digit(#[trigger] row@[t]) || notation_piece(row@[t]).0 != Piece::Empty,
            forall|i: int| 0 <= i < 64 ==> #[trigger] position.piece_at(i) == partial_square(ranks@, k as int, row@.subrange(0, j as int), i),
        decreases row@.len() - j,
    {
        let c = row[j];
        let ghost pre = row@.subrange(0, j as int);
        let ghost next = row@.subrange(0, j + 1);
        assert(next.drop_last() =~= pre);
        let code = c as u32;
        if 48 <= code && code <= 57 {
            let d = (code - 48) as i32;
            if file + d > 8 {
                proof {
                    lemma_expand_rank_grows(row@, j + 1);
                }
                return false;
            }
            file = file + d;
            assert forall|i: int| 0 <= i < 64 implies #[trigger] position.piece_at(i) == partial_square(ranks@, k as int, next, i) by {
                let f = i % 8;
                if 7 - i / 8 == k && f < expand_rank(next).len() && f >= expand_rank(pre).len() {
                    assert(expand_rank(next)[f] == (Piece::Empty, Color::NoColor));
                } else if 7 - i / 8 == k && f < expand_rank(pre).len() {
                    assert(expand_rank(next)[f] == expand_rank(pre)[f]);
                }
            }
        } else {
            let (piece, color) = piece_from_notation(c);
            if piece == Piece::Empty {
                return false;
            }
            if file >= 8 {
                proof {
                    lemma_expand_rank_grows(row@, j + 1);
                }
                return false;
            }
            let ghost before = *position;
            let index = (7 - k as i32) * 8 + file;
            set_piece_at(position, index, piece, &color);
            file = file + 1;
            assert forall|i: int| 0 <= i < 64 implies #[trigger] position.piece_at(i) == partial_square(ranks@, k as int, next, i) by {
                let f = i % 8;
                if i == index {
                    assert(expand_rank(next)[f] == notation_piece(c));
                } else {
                    assert(position.piece_at(i) == before.piece_at(i));
                    if 7 - i / 8 == k && f < expand_rank(pre).len() {
                        assert(expand_rank(next)[f] == expand_rank(pre)[f]);
                    }
                }
            }
        }
        j += 1;
    }
    assert(row@.subrange(0, j as int) =~= row@);
    assert forall|i: int| 0 <= i < 64 implies #[trigger] position.piece_at(i) == partial_square(ranks@, k as int + 1, seq![], i) by {
        assert(partial_square(ranks@, k as int, row@, i) == partial_square(ranks@, k as int + 1, seq![], i));
    }
    true
}

/// The side that a side-to-move field names: "w" or "b".
pub open spec fn side_of(field: Seq<char>) -> Option<Color> {
    if field == seq!['w'] {
        Some(Color::White)
    } else if field == seq!['b'] {
        Some(Color::Black)
    } else {
        None
    }
}

/// The castling rights that a castling field grants, in the order White short, White long,
/// Black short, Black long ("-" grants none).
pub open spec fn castling_flags(field: Seq<char>) -> Seq<bool> {
    seq![field.contains('K'), field.contains('Q'), field.contains('k'), field.contains('q')]
}

/// The first thing wrong with a FEN text, if anything is.
pub open spec fn fen_error(s: Seq<char>) -> Option<FenError> {
    let f = fields(s);
    if f.len() != 6 {
        Some(FenError::FieldCount)
    } else if !valid_placement(f[0]) {
        Some(FenError::PiecePlacement)
    } else if side_of(f[1]) is None {
        Some(FenError::SideToMove)
    } else if parse_int(f[4]) is None {
        Some(FenError::HalfMoveClock)
    } else if parse_int(f[5]) is None {
        Some(FenError::FullMoveClock)
    } else {
        None
    }
}

/// The position that a valid FEN text describes, field by field.
pub open spec fn describes(p: Position, s: Seq<char>) -> bool {
    let f = fields(s);
    &&& p.wf()
    &&& forall|i: int| 0 <= i < 64 ==> #[trigger] p.piece_at(i) == placement_square(f[0], i)
    &&& side_of(f[1]) == Some(p.side_to_move)
    &&& p.castling_rights@ == castling_flags(f[2])
    &&& p.en_passant_index == parse_coordinate(f[3])
    &&& parse_int(f[4]) == Some(p.half_move_clock)
    &&& parse_int(f[5]) == Some(p.full_move_clock)
}

fn contains_char(v: &Vec<char>, c: char) -> (r: bool)
    ensures
        r == v@.contains(c),
{
    let mut k: usize = 0;
    while k < v.len()
        invariant
            0 <= k <= v@.len(),
            forall|j: int| 0 <= j < k ==> v@[j] != c,
        decreases v@.len() - k,
    {
        if v[k] == c {
            return true;
        }
        k += 1;
    }
    false
}

/// Reads a position from a FEN text: piece placement (rank 8 first, digits for runs of empty
/// squares), side to move, castling rights, en-passant target, half-move clock and full-move
/// number. A malformed text gives the first error found and no position.
pub fn position_from_fen(fen: &str) -> (r: Result<Position, FenError>)
    ensures
        r is Ok <==> fen_error(fen@) is None,
        r matches Ok(p) ==> describes(p, fen@),
        r matches Err(e) ==> fen_error(fen@) == Some(e),
{
    let n = fen.unicode_len();
    let mut text: Vec<char> = Vec::new();
    let mut k: usize = 0;
    while k < n
        invariant
            0 <= k <= n,
            n == fen@.len(),
            text@ == fen@.subrange(0, k as int),
        decreases n - k,
    {
        text.push(fen.get_char(k));
        assert(text@ =~= fen@.subrange(0, k + 1));
        k += 1;
    }
    assert(text@ =~= fen@);
    let parts = split_chars(&text, false);
    if parts.len() != 6 {
        return Err(FenError::FieldCount);
    }
    let ghost f = fields(fen@);
    assert(forall|j: int| 0 <= j < 6 ==> #[trigger] parts@[j]@ == f[j]);
    let mut position = Position::new();
    let ranks = split_chars(&parts[0], true);
    let ghost rows = placement_ranks(f[0]);
    assert(ranks@.len() == rows.len());
    if ranks.len() != 8 {
        return Err(FenError::PiecePlacement);
    }
    let mut rank_index: usize = 0;
    while rank_index < 8
        invariant
            0 <= rank_index <= 8,
            f == fields(fen@),
            f.len() == 6,
            parts@.len() == 6,
            forall|j: int| 0 <= j < 6 ==> #[trigger] parts@[j]@ == f[j],
            rows == placement_ranks(f[0]),
            rows.len() == 8,
            ranks@.len() == 8,
            forall|j: int| 0 <= j < 8 ==> #[trigger] ranks@[j]@ == rows[j],
            forall|j: int| 0 <= j < rank_index ==> valid_rank(#[trigger] rows[j]),
            position.wf(),
            forall|j: int| 0 <= j < 4 ==> !position.castling_rights[j],
            position.en_passant_index == None::<i32>,
            forall|i: int| 0 <= i < 64 ==> #[trigger] position.piece_at(i) == partial_square(rows, rank_index as int, seq![], i),
        decreases 8 - rank_index,
    {
        if !place_rank(&mut position, Ghost(rows), rank_index, &ranks[rank_index]) {
            return Err(FenError::PiecePlacement);
        }
        rank_index += 1;
    }
    assert forall|i: int| 0 <= i < 64 implies #[trigger] position.piece_at(i) == placement_square(f[0], i) by {
        assert(partial_square(rows, 8, seq![], i) == placement_square(f[0], i));
    }
    let ghost placed = position;
    let side = &parts[1];
    if side.len() == 1 && side[0] == 'w' {
        assert(side@ =~= seq!['w']);
        position.side_to_move = Color::White;
    } else if side.len() == 1 && side[0] == 'b' {
        assert(side@ =~= seq!['b']);
        position.side_to_move = Color::Black;
    } else {
        assert(side@ != seq!['w']);
        assert(side@ != seq!['b']);
        return Err(FenError::SideToMove);
    }
    let half_move_clock = match parse_i32(&parts[4]) {
        Some(v) => v,
        None => {
            return Err(FenError::HalfMoveClock);
        },
    };
    let full_move_clock = match parse_i32(&parts[5]) {
        Some(v) => v,
        None => {
            return Err(FenError::FullMoveClock);
        },
    };
    let castling = &parts[2];
    if contains_char(castling, 'K') {
        set_castling_rights(&mut position, Color::White, CastlingSide::Short, true);
    }
    if contains_char(castling, 'Q') {
        set_castling_rights(&mut position, Color::White, CastlingSide::Long, true);
    }
    if contains_char(castling, 'k') {
        set_castling_rights(&mut position, Color::Black, CastlingSide::Short, true);
    }
    if contains_char(castling, 'q') {
        set_castling_rights(&mut position, Color::Black, CastlingSide::Long, true);
    }
    assert(position.castling_rights@ =~= castling_flags(f[2]));
    let en_passant = coordinate_name_to_board_index(string_from_chars(&parts[3]));
    position.en_passant_index = en_passant;
    position.half_move_clock = half_move_clock;
    position.full_move_clock = full_move_clock;
    proof {
        crate::position::lemma_same_pieces(&placed, &position);
    }
    assert(forall|i: int| 0 <= i < 64 ==> #[trigger] position.piece_at(i) == placement_square(f[0], i));
    Ok(position)
}

} // verus!
