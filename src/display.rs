//! Text forms: square coordinates, piece letters and the board drawing.
use vstd::prelude::*;
use crate::piece::{Piece, Color};
use crate::position::{Position, get_piece_at};
use crate::moves::{Move, PromotionOption, move_on_board};

verus! {

/// The letter of file `f` (0 for 'a').
pub open spec fn file_letter(f: int) -> char {
    ((f + 97) as u8) as char
}

/// The digit of rank `r` (0 for '1').
pub open spec fn rank_digit(r: int) -> char {
    ((r + 49) as u8) as char
}

/// The coordinate name of square `i`: file letter, then rank digit ("a1" for 0, "h8" for 63).
pub open spec fn coordinate(i: int) -> Seq<char> {
    seq![file_letter(i % 8), rank_digit(i / 8)]
}

/// The square that a coordinate name denotes: two characters, a file letter from 'a' to 'h'
/// and a rank digit from '1' to '8'; anything else denotes none.
pub open spec fn parse_coordinate(s: Seq<char>) -> Option<i32> {
    if s.len() == 2 && 97 <= s[0] as u32 <= 104 && 49 <= s[1] as u32 <= 56 {
        Some(((s[1] as u32 - 49) * 8 + (s[0] as u32 - 97)) as i32)
    } else {
        None
    }
}

/// Every square's coordinate name reads back as that square.
pub proof fn lemma_coordinate_round_trip()
    ensures
        forall|i: int| 0 <= i < 64 ==> #[trigger] parse_coordinate(coordinate(i)) == Some(i as i32),
{
    assert forall|i: int| 0 <= i < 64 implies #[trigger] parse_coordinate(coordinate(i)) == Some(
        i as i32,
    ) by {
        let s = coordinate(i);
        assert(s[0] as u32 == i % 8 + 97);
        assert(s[1] as u32 == i / 8 + 49);
    }
}

/// Relies on `FromIterator<char>` for `String`: the characters in their order.
#[verifier::external_body]
pub(crate) fn string_from_chars(chars: &Vec<char>) -> (r: String)
    ensures
        r@ == chars@,
{
    chars.iter().collect()
}

/// Appends the coordinate name of square `index`.
pub(crate) fn push_coordinate(out: &mut Vec<char>, index: i32)
    requires
        0 <= index < 64,
    ensures
        final(out)@ == old(out)@ + coordinate(index as int),
{
    out.push(((index % 8) as u8 + 97u8) as char);
    out.push(((index / 8) as u8 + 49u8) as char);
    assert(out@ =~= old(out)@ + coordinate(index as int));
}

/// The coordinate name of square `index`.
pub fn board_index_to_coordinate_name(index: i32) -> (r: String)
    requires
        0 <= index < 64,
    ensures
        r@ == coordinate(index as int),
{
    let mut chars: Vec<char> = Vec::new();
    push_coordinate(&mut chars, index);
    assert(chars@ =~= coordinate(index as int));
    string_from_chars(&chars)
}

/// The square that a coordinate name denotes, or `None` for a malformed name.
pub fn coordinate_name_to_board_index(coordinate: String) -> (r: Option<i32>)
    ensures
        r == parse_coordinate(coordinate@),
        r matches Some(v) ==> 0 <= v < 64,
{
    let text = coordinate.as_str();
    if text.unicode_len() != 2 {
        return None;
    }
    let file = text.get_char(0);
    let rank = text.get_char(1);
    if !('a' <= file && file <= 'h') || !('1' <= rank && rank <= '8') {
        return None;
    }
    let file_index = file as u32 - 97;
    let rank_index = rank as u32 - 49;
    Some((rank_index * 8 + file_index) as i32)
}

/// The letter drawn for a piece: upper case for White, lower case otherwise, '.' for `Empty`.
pub open spec fn piece_letter(piece: Piece, color: Color) -> char {
    let white = color == Color::White;
    match piece {
        Piece::Empty => '.',
        Piece::Pawn => if white { 'P' } else { 'p' },
        Piece::Knight => if white { 'N' } else { 'n' },
        Piece::Bishop => if white { 'B' } else { 'b' },
        Piece::Rook => if white { 'R' } else { 'r' },
        Piece::Queen => if white { 'Q' } else { 'q' },
        Piece::King => if white { 'K' } else { 'k' },
    }
}

/// The letter drawn for a piece of a color.
pub fn get_piece_ascii(piece: Piece, color: Color) -> (r: char)
    ensures
        r == piece_letter(piece, color),
{
    let white = color == Color::White;
    match piece {
        Piece::Empty => '.',
        Piece::Pawn => if white { 'P' } else { 'p' },
        Piece::Knight => if white { 'N' } else { 'n' },
        Piece::Bishop => if white { 'B' } else { 'b' },
        Piece::Rook => if white { 'R' } else { 'r' },
        Piece::Queen => if white { 'Q' } else { 'q' },
        Piece::King => if white { 'K' } else { 'k' },
    }
}

/// The piece and color that a placement letter names (p n b r q k, upper case for White);
/// `(Empty, NoColor)` for any other character.
pub open spec fn notation_piece(c: char) -> (Piece, Color) {
    if c == 'P' {
        (Piece::Pawn, Color::White)
    } else if c == 'N' {
        (Piece::Knight, Color::White)
    } else if c == 'B' {
        (Piece::Bishop, Color::White)
    } else if c == 'R' {
        (Piece::Rook, Color::White)
    } else if c == 'Q' {
        (Piece::Queen, Color::White)
    } else if c == 'K' {
        (Piece::King, Color::White)
    } else if c == 'p' {
        (Piece::Pawn, Color::Black)
    } else if c == 'n' {
        (Piece::Knight, Color::Black)
    } else if c == 'b' {
        (Piece::Bishop, Color::Black)
    } else if c == 'r' {
        (Piece::Rook, Color::Black)
    } else if c == 'q' {
        (Piece::Queen, Color::Black)
    } else if c == 'k' {
        (Piece::King, Color::Black)
    } else {
        (Piece::Empty, Color::NoColor)
    }
}

/// The piece and color that a placement letter names.
pub fn piece_from_notation(piece: char) -> (r: (Piece, Color))
    ensures
        r == notation_piece(piece),
{
    let white = 'A' <= piece && piece <= 'Z';
    let kind = match piece {
        'p' | 'P' => Piece::Pawn,
        'n' | 'N' => Piece::Knight,
        'b' | 'B' => Piece::Bishop,
        'r' | 'R' => Piece::Rook,
        'q' | 'Q' => Piece::Queen,
        'k' | 'K' => Piece::King,
        _ => Piece::Empty,
    };
    if kind == Piece::Empty {
        (Piece::Empty, Color::NoColor)
    } else if white {
        (kind, Color::White)
    } else {
        (kind, Color::Black)
    }
}

/// The frame line above and below the board.
pub open spec fn border() -> Seq<char> {
    seq![' ', ' ', '+'] + Seq::new(24, |k: int| '-') + seq!['+', '\n']
}

/// The file letters under the board, each beneath the middle of its column.
pub open spec fn file_legend() -> Seq<char> {
    Seq::new(
        26,
        |k: int|
            if k >= 4 && (k - 4) % 3 == 0 {
                file_letter((k - 4) / 3)
            } else {
                ' '
            },
    )
}

/// The first `n` cells of rank `rank`, each a letter between two spaces.
pub open spec fn rank_cells(p: Position, rank: int, n: int) -> Seq<char>
    decreases n,
{
    if n <= 0 {
        seq![]
    } else {
        let (pc, c) = p.piece_at(rank * 8 + n - 1);
        rank_cells(p, rank, n - 1) + seq![' ', piece_letter(pc, c), ' ']
    }
}

/// One line of the drawing: rank digit, frame, the eight cells, frame.
pub open spec fn rank_line(p: Position, rank: int) -> Seq<char> {
    seq![rank_digit(rank), ' ', '|'] + rank_cells(p, rank, 8) + seq!['|', '\n']
}

/// The lines of the top `n` ranks, rank 8 first.
pub open spec fn rank_lines(p: Position, n: int) -> Seq<char>
    decreases n,
{
    if n <= 0 {
        seq![]
    } else {
        rank_lines(p, n - 1) + rank_line(p, 8 - n)
    }
}

/// The drawing of a position: frame, ranks 8 down to 1, frame, file letters.
pub open spec fn board_drawing(p: Position) -> Seq<char> {
    border() + rank_lines(p, 8) + border() + file_legend()
}

fn push_border(out: &mut Vec<char>)
    ensures
        final(out)@ == old(out)@ + border(),
{
    out.push(' ');
    out.push(' ');
    out.push('+');
    let mut k: usize = 0;
    while k < 24
        invariant
            0 <= k <= 24,
            out@ == old(out)@ + seq![' ', ' ', '+'] + Seq::new(k as nat, |j: int| '-'),
        decreases 24 - k,
    {
        out.push('-');
        assert(out@ =~= old(out)@ + seq![' ', ' ', '+'] + Seq::new((k + 1) as nat, |j: int| '-'));
        k += 1;
    }
    out.push('+');
    out.push('\n');
    assert(out@ =~= old(out)@ + border());
}

/// A drawing of the board, one line per rank from 8 down to 1, upper-case letters for White,
/// lower-case for Black and '.' for an empty square.
pub fn ascii(position: &Position) -> (r: String)
    requires
        position.wf(),
    ensures
        r@ == board_drawing(*position),
{
    let mut out: Vec<char> = Vec::new();
    push_border(&mut out);
    let mut n: i32 = 0;
    while n < 8
        invariant
            0 <= n <= 8,
            position.wf(),
            out@ == border() + rank_lines(*position, n as int),
        decreases 8 - n,
    {
        let rank = 7 - n;
        let ghost line_start = out@;
        out.push(((rank as u8) + 49u8) as char);
        out.push(' ');
        out.push('|');
        let mut file: i32 = 0;
        while file < 8
            invariant
                0 <= file <= 8,
                0 <= rank < 8,
                position.wf(),
                out@ == line_start + seq![rank_digit(rank as int), ' ', '|'] + rank_cells(
                    *position,
                    rank as int,
                    file as int,
                ),
            decreases 8 - file,
        {
            let piece_and_color = get_piece_at(position, rank * 8 + file);
            out.push(' ');
            out.push(get_piece_ascii(piece_and_color.0, piece_and_color.1));
            out.push(' ');
            assert(out@ =~= line_start + seq![rank_digit(rank as int), ' ', '|'] + rank_cells(
                *position,
                rank as int,
                file + 1,
            ));
            file += 1;
        }
        out.push('|');
        out.push('\n');
        assert(out@ =~= border() + rank_lines(*position, n + 1));
        n += 1;
    }
    let ghost framed = out@;
    push_border(&mut out);
    let ghost legend_start = out@;
    let mut k: usize = 0;
    while k < 26
        invariant
            0 <= k <= 26,
            out@ == legend_start + file_legend().subrange(0, k as int),
        decreases 26 - k,
    {
        if k >= 4 && (k - 4) % 3 == 0 {
            out.push((((k - 4) / 3) as u8 + 97u8) as char);
        } else {
            out.push(' ');
        }
        assert(out@ =~= legend_start + file_legend().subrange(0, k + 1));
        k += 1;
    }
    assert(out@ =~= board_drawing(*position));
    string_from_chars(&out)
}

/// The letter that ends the text of a promoting move; nothing for no promotion.
pub open spec fn promotion_suffix(p: PromotionOption) -> Seq<char> {
    match p {
        PromotionOption::NoPromotion => seq![],
        PromotionOption::Knight => seq!['n'],
        PromotionOption::Bishop => seq!['b'],
        PromotionOption::Rook => seq!['r'],
        PromotionOption::Queen => seq!['q'],
    }
}

/// The text of a move: origin and destination names, then the promotion letter if any.
pub open spec fn move_text(m: Move) -> Seq<char> {
    coordinate(m.from as int) + coordinate(m.to as int) + promotion_suffix(m.promotion)
}

fn push_move_text(out: &mut Vec<char>, m: &Move)
    requires
        move_on_board(*m),
    ensures
        final(out)@ == old(out)@ + move_text(*m),
{
    push_coordinate(out, m.from);
    push_coordinate(out, m.to);
    match m.promotion {
        PromotionOption::NoPromotion => {},
        PromotionOption::Knight => out.push('n'),
        PromotionOption::Bishop => out.push('b'),
        PromotionOption::Rook => out.push('r'),
        PromotionOption::Queen => out.push('q'),
    }
    assert(out@ =~= old(out)@ + move_text(*m));
}

impl Move {
    /// The text of the move, such as "e2e4" or "e7e8q".
    pub fn to_string(&self) -> (r: String)
        requires
            move_on_board(*self),
        ensures
            r@ == move_text(*self),
    {
        let mut out: Vec<char> = Vec::new();
        push_move_text(&mut out, self);
        assert(out@ =~= move_text(*self));
        string_from_chars(&out)
    }
}

/// The texts of the moves, separated by ", ".
pub open spec fn moves_text(s: Seq<Move>) -> Seq<char>
    decreases s.len(),
{
    if s.len() == 0 {
        seq![]
    } else if s.len() == 1 {
        move_text(s[0])
    } else {
        moves_text(s.drop_last()) + seq![',', ' '] + move_text(s.last())
    }
}

/// The texts of the moves, separated by ", ".
pub fn list_moves(moves: &Vec<Move>) -> (r: String)
    requires
        forall|k: int| 0 <= k < moves@.len() ==> move_on_board(#[trigger] moves@[k]),
    ensures
        r@ == moves_text(moves@),
{
    let mut out: Vec<char> = Vec::new();
    let mut k: usize = 0;
    while k < moves.len()
        invariant
            0 <= k <= moves@.len(),
            forall|j: int| 0 <= j < moves@.len() ==> move_on_board(#[trigger] moves@[j]),
            out@ == moves_text(moves@.subrange(0, k as int)),
        decreases moves@.len() - k,
    {
        if k > 0 {
            out.push(',');
            out.push(' ');
        }
        push_move_text(&mut out, &moves[k]);
        assert(moves@.subrange(0, k + 1).drop_last() =~= moves@.subrange(0, k as int));
        assert(out@ =~= moves_text(moves@.subrange(0, k + 1)));
        k += 1;
    }
    assert(moves@.subrange(0, k as int) =~= moves@);
    string_from_chars(&out)
}

} // verus!
