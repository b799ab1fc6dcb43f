//! Moves and the pseudo-legal move generator.
use vstd::prelude::*;
use crate::piece::{Piece, Color, opponent};
use crate::position::{Position, get_piece_at, is_square_occupied, is_square_occupied_by_color};

verus! {

/// The piece a pawn turns into on the last rank, if any.
#[derive(Debug, PartialEq, Eq, Structural, PartialOrd, Ord, Clone, Copy)]
pub enum PromotionOption {
    NoPromotion,
    Knight,
    Bishop,
    Rook,
    Queen,
}

/// A move from one square to another, with the promotion it makes.
#[derive(Debug, PartialEq, Eq, Structural, PartialOrd, Ord, Clone, Copy)]
pub struct Move {
    pub from: i32,
    pub to: i32,
    pub promotion: PromotionOption,
}

/// A move with the given promotion.
pub open spec fn mv(from: int, to: int, promotion: PromotionOption) -> Move {
    Move { from: from as i32, to: to as i32, promotion }
}

/// Both squares of the move are on the board.
pub open spec fn move_on_board(m: Move) -> bool {
    0 <= m.from < 64 && 0 <= m.to < 64
}

/// Every move of the sequence stays on the board.
pub open spec fn all_on_board(s: Seq<Move>) -> bool {
    forall|j: int| 0 <= j < s.len() ==> move_on_board(#[trigger] s[j])
}

proof fn lemma_concat_on_board(a: Seq<Move>, b: Seq<Move>)
    requires
        all_on_board(a),
        all_on_board(b),
    ensures
        all_on_board(a + b),
{
    assert forall|j: int| 0 <= j < (a + b).len() implies move_on_board(#[trigger] (a + b)[j]) by {
        if j >= a.len() {
            assert((a + b)[j] == b[j - a.len()]);
        }
    }
}

/// A move that promotes nothing.
pub open spec fn quiet(from: int, to: int) -> Move {
    mv(from, to, PromotionOption::NoPromotion)
}

pub open spec fn abs(x: int) -> int {
    if x < 0 {
        -x
    } else {
        x
    }
}

pub open spec fn on_board(i: int) -> bool {
    0 <= i < 64
}

/// +1 (toward higher ranks) for White, -1 for Black.
pub open spec fn forward(c: Color) -> int {
    if c == Color::White {
        1
    } else {
        -1
    }
}

pub open spec fn home_rank(c: Color) -> int {
    if c == Color::White {
        1
    } else {
        6
    }
}

pub open spec fn promotion_rank(c: Color) -> int {
    if c == Color::White {
        7
    } else {
        0
    }
}

/// The four promotions of a pawn move, knight first.
pub open spec fn promotions(from: int, to: int) -> Seq<Move> {
    seq![
        mv(from, to, PromotionOption::Knight),
        mv(from, to, PromotionOption::Bishop),
        mv(from, to, PromotionOption::Rook),
        mv(from, to, PromotionOption::Queen),
    ]
}

/// A pawn move: the four promotions on the last rank, else one plain move.
pub open spec fn pawn_step(from: int, to: int, c: Color) -> Seq<Move> {
    if to / 8 == promotion_rank(c) {
        promotions(from, to)
    } else {
        seq![quiet(from, to)]
    }
}

/// The diagonal capture `k` (7 or 9) squares forward, when an opposing piece stands there
/// one rank ahead.
pub open spec fn pawn_capture(p: Position, index: int, c: Color, k: int) -> Seq<Move> {
    let t = index + k * forward(c);
    if on_board(t) && p.piece_at(t).1 == opponent(c) && t / 8 == index / 8 + forward(c) {
        pawn_step(index, t, c)
    } else {
        seq![]
    }
}

/// The pushes of a pawn: one square onto an empty square, and from the home rank a second
/// one when that square is empty too.
pub open spec fn pawn_pushes(p: Position, index: int, c: Color) -> Seq<Move> {
    let ahead = index + 8 * forward(c);
    let twice = index + 16 * forward(c);
    if on_board(ahead) && !p.occupied(ahead) {
        pawn_step(index, ahead, c) + if index / 8 == home_rank(c) && !p.occupied(twice) {
            seq![quiet(index, twice)]
        } else {
            seq![]
        }
    } else {
        seq![]
    }
}

/// Every pseudo-legal move of a pawn of color `c` on `index`: pushes, then captures.
pub open spec fn pawn_moves(p: Position, index: int, c: Color) -> Seq<Move> {
    pawn_pushes(p, index, c) + pawn_capture(p, index, c, 7) + pawn_capture(p, index, c, 9)
}

/// The four promotions from `from` to `to`.
pub fn create_promotion_options(from: i32, to: i32) -> (r: Vec<Move>)
    ensures
        r@ == promotions(from as int, to as int),
{
    let mut promotion_options: Vec<Move> = Vec::new();
    promotion_options.push(Move { from, to, promotion: PromotionOption::Knight });
    promotion_options.push(Move { from, to, promotion: PromotionOption::Bishop });
    promotion_options.push(Move { from, to, promotion: PromotionOption::Rook });
    promotion_options.push(Move { from, to, promotion: PromotionOption::Queen });
    assert(promotion_options@ =~= promotions(from as int, to as int));
    promotion_options
}

/// Appends a pawn move, expanded into its four promotions when it reaches the last rank.
pub fn add_pawn_move(moves: &mut Vec<Move>, from: i32, to: i32, color: &Color)
    requires
        0 <= to < 64,
    ensures
        final(moves)@ == old(moves)@ + pawn_step(from as int, to as int, *color),
{
    let promotion_rank: i32 = if *color == Color::White {
        7
    } else {
        0
    };
    if to / 8 == promotion_rank {
        let mut options = create_promotion_options(from, to);
        moves.append(&mut options);
    } else {
        moves.push(Move { from, to, promotion: PromotionOption::NoPromotion });
        assert(moves@ =~= old(moves)@ + seq![quiet(from as int, to as int)]);
    }
}

/// Every pseudo-legal move of a pawn of `color` on `index`.
pub fn get_pawn_unchecked_moves(position: &Position, index: i32, color: &Color) -> (r: Vec<Move>)
    requires
        position.wf(),
        0 <= index < 64,
        *color != Color::NoColor,
    ensures
        r@ == pawn_moves(*position, index as int, *color),
{
    let mut moves: Vec<Move> = Vec::new();
    let rank = index / 8;
    let pawn_home_rank: i32 = if *color == Color::White {
        1
    } else {
        6
    };
    let direction: i32 = if *color == Color::White {
        1
    } else {
        -1
    };
    let opponent_color = if *color == Color::White {
        Color::Black
    } else {
        Color::White
    };
    let ahead = index + 8 * direction;
    if 0 <= ahead && ahead < 64 && !is_square_occupied(position, ahead) {
        add_pawn_move(&mut moves, index, ahead, color);
        if rank == pawn_home_rank && !is_square_occupied(position, index + 16 * direction) {
            moves.push(Move { from: index, to: index + 16 * direction, promotion: PromotionOption::NoPromotion });
        }
    }
    assert(moves@ =~= pawn_pushes(*position, index as int, *color));
    let ghost pushes = moves@;
    let left = index + 7 * direction;
    if 0 <= left && left < 64 && is_square_occupied_by_color(position, left, &opponent_color) {
        if left / 8 == rank + direction {
            add_pawn_move(&mut moves, index, left, color);
        }
    }
    assert(moves@ =~= pushes + pawn_capture(*position, index as int, *color, 7));
    let ghost with_left = moves@;
    let right = index + 9 * direction;
    if 0 <= right && right < 64 && is_square_occupied_by_color(position, right, &opponent_color) {
        if right / 8 == rank + direction {
            add_pawn_move(&mut moves, index, right, color);
        }
    }
    assert(moves@ =~= with_left + pawn_capture(*position, index as int, *color, 9));
    moves
}

/// The eight knight jumps as index offsets.
pub open spec fn knight_offset(k: int) -> int {
    if k == 0 {
        -17
    } else if k == 1 {
        -15
    } else if k == 2 {
        -10
    } else if k == 3 {
        -6
    } else if k == 4 {
        6
    } else if k == 5 {
        10
    } else if k == 6 {
        15
    } else {
        17
    }
}

fn knight_offset_at(k: usize) -> (r: i32)
    requires
        k < 8,
    ensures
        r as int == knight_offset(k as int),
{
    match k {
        0 => -17,
        1 => -15,
        2 => -10,
        3 => -6,
        4 => 6,
        5 => 10,
        6 => 15,
        _ => 17,
    }
}

/// A knight of color `c` on `index` may land on `t`: on the board, two ranks and one file
/// away or one rank and two files, and not held by its own side.
pub open spec fn knight_target(p: Position, index: int, c: Color, t: int) -> bool {
    let rank_diff = abs(index / 8 - t / 8);
    let file_diff = abs(index % 8 - t % 8);
    &&& on_board(t)
    &&& (rank_diff == 2 && file_diff == 1) || (rank_diff == 1 && file_diff == 2)
    &&& p.piece_at(t).1 != c
}

/// The knight moves through the first `n` offsets, in offset order.
pub open spec fn knight_moves_upto(p: Position, index: int, c: Color, n: int) -> Seq<Move>
    decreases n,
{
    if n <= 0 {
        seq![]
    } else {
        let t = index + knight_offset(n - 1);
        knight_moves_upto(p, index, c, n - 1) + if knight_target(p, index, c, t) {
            seq![quiet(index, t)]
        } else {
            seq![]
        }
    }
}

/// Every pseudo-legal move of a knight of color `c` on `index`.
pub open spec fn knight_moves(p: Position, index: int, c: Color) -> Seq<Move> {
    knight_moves_upto(p, index, c, 8)
}

/// Every pseudo-legal move of a knight of `color` on `index`.
pub fn get_knight_unchecked_moves(position: &Position, index: i32, color: &Color) -> (r: Vec<Move>)
    requires
        position.wf(),
        0 <= index < 64,
        *color != Color::NoColor,
    ensures
        r@ == knight_moves(*position, index as int, *color),
{
    let mut moves: Vec<Move> = Vec::new();
    let mut k: usize = 0;
    while k < 8
        invariant
            0 <= k <= 8,
            0 <= index < 64,
            position.wf(),
            *color != Color::NoColor,
            moves@ == knight_moves_upto(*position, index as int, *color, k as int),
        decreases 8 - k,
    {
        let next_index = index + knight_offset_at(k);
        let ghost before = moves@;
        if 0 <= next_index && next_index < 64 {
            let rank_diff = if index / 8 >= next_index / 8 {
                index / 8 - next_index / 8
            } else {
                next_index / 8 - index / 8
            };
            let file_diff = if index % 8 >= next_index % 8 {
                index % 8 - next_index % 8
            } else {
                next_index % 8 - index % 8
            };
            if ((rank_diff == 2 && file_diff == 1) || (file_diff == 2 && rank_diff == 1))
                && !(is_square_occupied(position, next_index) && is_square_occupied_by_color(
                position,
                next_index,
                color,
            )) {
                moves.push(Move { from: index, to: next_index, promotion: PromotionOption::NoPromotion });
            }
        }
        proof {
            crate::position::lemma_piece_at(position, if 0 <= next_index < 64 { next_index as int } else { 0 });
        }
        assert(moves@ =~= knight_moves_upto(*position, index as int, *color, k + 1));
        k += 1;
    }
    moves
}

/// The diagonal directions: both rank and file change with each step.
pub open spec fn is_diagonal(d: int) -> bool {
    d == 7 || d == -7 || d == 9 || d == -9
}

/// Going from `prev` to `next` is one step of direction `d` that stays on the board: a
/// diagonal step changes rank and file by exactly one each, any other step exactly one of them.
pub open spec fn unit_step(prev: int, next: int, d: int) -> bool {
    let rank_diff = abs(next / 8 - prev / 8);
    let file_diff = abs(next % 8 - prev % 8);
    &&& on_board(next)
    &&& if is_diagonal(d) {
        rank_diff == 1 && file_diff == 1
    } else {
        (rank_diff == 1 && file_diff == 0) || (rank_diff == 0 && file_diff == 1)
    }
}

/// The moves of a piece of color `c` standing on `from`, walking direction `d` onward from
/// `prev` for at most `steps` more steps: empty squares are taken and passed, a square of the
/// other side is taken and ends the ray, a square of its own side ends it untaken.
pub open spec fn ray(p: Position, from: int, c: Color, d: int, prev: int, steps: nat) -> Seq<Move>
    decreases steps,
{
    if steps == 0 {
        seq![]
    } else {
        let next = prev + d;
        if !unit_step(prev, next, d) {
            seq![]
        } else if p.occupied(next) {
            if p.piece_at(next).1 == c {
                seq![]
            } else {
                seq![quiet(from, next)]
            }
        } else {
            seq![quiet(from, next)] + ray(p, from, c, d, next, (steps - 1) as nat)
        }
    }
}

/// The rays of all directions in `dirs`, in that order.
pub open spec fn slide(p: Position, from: int, c: Color, dirs: Seq<i32>, steps: nat) -> Seq<Move>
    decreases dirs.len(),
{
    if dirs.len() == 0 {
        seq![]
    } else {
        slide(p, from, c, dirs.drop_last(), steps) + ray(p, from, c, dirs.last() as int, from, steps)
    }
}

/// Walks each direction from `index` in turn, at most one step each when `move_only_once`,
/// else as far as the board allows (no ray on the board is longer than seven steps).
fn generate_unchecked_sliding_moves(
    position: &Position,
    index: i32,
    color: &Color,
    directions: &[i32],
    move_only_once: bool,
) -> (r: Vec<Move>)
    requires
        position.wf(),
        0 <= index < 64,
        forall|k: int| 0 <= k < directions@.len() ==> -9 <= #[trigger] directions@[k] <= 9,
    ensures
        r@ == slide(
            *position,
            index as int,
            *color,
            directions@,
            if move_only_once { 1nat } else { 7nat },
        ),
{
    let mut moves: Vec<Move> = Vec::new();
    let max_steps: usize = if move_only_once {
        1
    } else {
        7
    };
    let ghost steps: nat = max_steps as nat;
    let mut k: usize = 0;
    while k < directions.len()
        invariant
            0 <= k <= directions@.len(),
            0 <= index < 64,
            position.wf(),
            steps == max_steps,
            max_steps <= 7,
            forall|j: int| 0 <= j < directions@.len() ==> -9 <= #[trigger] directions@[j] <= 9,
            moves@ == slide(*position, index as int, *color, directions@.subrange(0, k as int), steps),
        decreases directions@.len() - k,
    {
        let direction = directions[k];
        let diagonal = direction == 7 || direction == -7 || direction == 9 || direction == -9;
        let ghost base = moves@;
        let ghost goal = base + ray(*position, index as int, *color, direction as int, index as int, steps);
        let mut prev: i32 = index;
        let mut left: usize = max_steps;
        while left > 0
            invariant
                0 <= prev < 64,
                left <= max_steps <= 7,
                -9 <= direction <= 9,
                diagonal == is_diagonal(direction as int),
                position.wf(),
                moves@ + ray(*position, index as int, *color, direction as int, prev as int, left as nat) == goal,
            decreases left,
        {
            let next_index = prev + direction;
            if next_index < 0 || next_index >= 64 {
                left = 0;
            } else {
                let rank_diff = if prev / 8 >= next_index / 8 {
                    prev / 8 - next_index / 8
                } else {
                    next_index / 8 - prev / 8
                };
                let file_diff = if prev % 8 >= next_index % 8 {
                    prev % 8 - next_index % 8
                } else {
                    next_index % 8 - prev % 8
                };
                let step_ok = if diagonal {
                    rank_diff == 1 && file_diff == 1
                } else {
                    (rank_diff == 1 && file_diff == 0) || (rank_diff == 0 && file_diff == 1)
                };
                if !step_ok {
                    left = 0;
                } else if is_square_occupied(position, next_index) {
                    if !is_square_occupied_by_color(position, next_index, color) {
                        moves.push(Move { from: index, to: next_index, promotion: PromotionOption::NoPromotion });
                    }
                    left = 0;
                } else {
                    moves.push(Move { from: index, to: next_index, promotion: PromotionOption::NoPromotion });
                    prev = next_index;
                    left = left - 1;
                }
            }
            assert(moves@ + ray(*position, index as int, *color, direction as int, prev as int, left as nat) =~= goal);
        }
        assert(directions@.subrange(0, k + 1).drop_last() =~= directions@.subrange(0, k as int));
        k += 1;
    }
    assert(directions@.subrange(0, k as int) =~= directions@);
    moves
}

/// Bishop directions: the four diagonals.
pub open spec fn bishop_directions() -> Seq<i32> {
    seq![-9i32, -7i32, 7i32, 9i32]
}

/// Rook directions: down, left, right, up.
pub open spec fn rook_directions() -> Seq<i32> {
    seq![-8i32, -1i32, 1i32, 8i32]
}

/// Queen (and king) directions: all eight.
pub open spec fn queen_directions() -> Seq<i32> {
    seq![-9i32, -8i32, -7i32, -1i32, 1i32, 7i32, 8i32, 9i32]
}

/// Every pseudo-legal move of a bishop of `color` on `index`.
pub fn get_bishop_unchecked_moves(position: &Position, index: i32, color: &Color) -> (r: Vec<Move>)
    requires
        position.wf(),
        0 <= index < 64,
    ensures
        r@ == slide(*position, index as int, *color, bishop_directions(), 7),
{
    let directions: [i32; 4] = [-9, -7, 7, 9];
    assert(directions@ =~= bishop_directions());
    generate_unchecked_sliding_moves(position, index, color, directions.as_slice(), false)
}

/// Every pseudo-legal move of a rook of `color` on `index`.
pub fn get_rook_unchecked_moves(position: &Position, index: i32, color: &Color) -> (r: Vec<Move>)
    requires
        position.wf(),
        0 <= index < 64,
    ensures
        r@ == slide(*position, index as int, *color, rook_directions(), 7),
{
    let directions: [i32; 4] = [-8, -1, 1, 8];
    assert(directions@ =~= rook_directions());
    generate_unchecked_sliding_moves(position, index, color, directions.as_slice(), false)
}

/// Every pseudo-legal move of a queen of `color` on `index`.
pub fn get_queen_unchecked_moves(position: &Position, index: i32, color: &Color) -> (r: Vec<Move>)
    requires
        position.wf(),
        0 <= index < 64,
    ensures
        r@ == slide(*position, index as int, *color, queen_directions(), 7),
{
    let directions: [i32; 8] = [-9, -8, -7, -1, 1, 7, 8, 9];
    assert(directions@ =~= queen_directions());
    generate_unchecked_sliding_moves(position, index, color, directions.as_slice(), false)
}

/// Every pseudo-legal move of a king of `color` on `index`: one step in each queen direction.
pub fn get_king_unchecked_moves(position: &Position, index: i32, color: &Color) -> (r: Vec<Move>)
    requires
        position.wf(),
        0 <= index < 64,
    ensures
        r@ == slide(*position, index as int, *color, queen_directions(), 1),
{
    let directions: [i32; 8] = [-9, -8, -7, -1, 1, 7, 8, 9];
    assert(directions@ =~= queen_directions());
    generate_unchecked_sliding_moves(position, index, color, directions.as_slice(), true)
}

/// The moves of piece `pc` of color `c` standing on `index`.
pub open spec fn piece_moves(p: Position, index: int, pc: Piece, c: Color) -> Seq<Move> {
    match pc {
        Piece::Pawn => pawn_moves(p, index, c),
        Piece::Knight => knight_moves(p, index, c),
        Piece::Bishop => slide(p, index, c, bishop_directions(), 7),
        Piece::Rook => slide(p, index, c, rook_directions(), 7),
        Piece::Queen => slide(p, index, c, queen_directions(), 7),
        Piece::King => slide(p, index, c, queen_directions(), 1),
        Piece::Empty => seq![],
    }
}

/// The moves of the side to move from squares `0..n`, square by square.
pub open spec fn moves_upto(p: Position, n: int) -> Seq<Move>
    decreases n,
{
    if n <= 0 {
        seq![]
    } else {
        let (pc, c) = p.piece_at(n - 1);
        moves_upto(p, n - 1) + if c == p.side_to_move {
            piece_moves(p, n - 1, pc, c)
        } else {
            seq![]
        }
    }
}

/// Every pseudo-legal move of the side to move, squares in increasing order.
pub open spec fn all_moves(p: Position) -> Seq<Move> {
    moves_upto(p, 64)
}

/// Every pseudo-legal move of the side to move: for each square from 0 to 63 that holds one of
/// its pieces, the moves of that piece.
pub fn get_unchecked_moves(position: &Position) -> (r: Vec<Move>)
    requires
        position.wf(),
    ensures
        r@ == all_moves(*position),
        all_on_board(r@),
{
    let mut moves: Vec<Move> = Vec::new();
    let mut index: i32 = 0;
    while index < 64
        invariant
            0 <= index <= 64,
            position.wf(),
            moves@ == moves_upto(*position, index as int),
        decreases 64 - index,
    {
        let piece = get_piece_at(position, index);
        proof {
            crate::position::lemma_piece_at(position, index as int);
        }
        if piece.1 == position.side_to_move {
            let mut found = match piece.0 {
                Piece::Pawn => get_pawn_unchecked_moves(position, index, &piece.1),
                Piece::Knight => get_knight_unchecked_moves(position, index, &piece.1),
                Piece::Bishop => get_bishop_unchecked_moves(position, index, &piece.1),
                Piece::Rook => get_rook_unchecked_moves(position, index, &piece.1),
                Piece::Queen => get_queen_unchecked_moves(position, index, &piece.1),
                Piece::King => get_king_unchecked_moves(position, index, &piece.1),
                Piece::Empty => Vec::new(),
            };
            moves.append(&mut found);
        }
        assert(moves@ =~= moves_upto(*position, index + 1));
        index += 1;
    }
    proof {
        lemma_moves_on_board(*position, 64);
    }
    moves
}

/// Every knight move from `index` is a plain move to a square that a knight's jump reaches.
pub proof fn lemma_knight_moves_are_jumps(p: Position, index: int, c: Color, n: int)
    ensures
        forall|j: int|
            0 <= j < knight_moves_upto(p, index, c, n).len() ==> {
                let m = #[trigger] knight_moves_upto(p, index, c, n)[j];
                &&& m == quiet(index, m.to as int)
                &&& knight_target(p, index, c, m.to as int)
            },
    decreases n,
{
    if n > 0 {
        lemma_knight_moves_are_jumps(p, index, c, n - 1);
        let prev = knight_moves_upto(p, index, c, n - 1);
        let all = knight_moves_upto(p, index, c, n);
        assert forall|j: int| 0 <= j < all.len() implies {
            let m = #[trigger] all[j];
            &&& m == quiet(index, m.to as int)
            &&& knight_target(p, index, c, m.to as int)
        } by {
            if j < prev.len() {
                assert(all[j] == prev[j]);
            }
        }
    }
}

/// A knight on the h file never lands on the a file, and one on the a file never on the h
/// file: the jumps do not wrap around the board's edge.
pub proof fn lemma_knight_does_not_wrap(p: Position, index: int, c: Color)
    requires
        0 <= index < 64,
    ensures
        index % 8 == 7 ==> forall|j: int|
            0 <= j < knight_moves(p, index, c).len() ==> #[trigger] knight_moves(p, index, c)[j].to
                % 8 != 0,
        index % 8 == 0 ==> forall|j: int|
            0 <= j < knight_moves(p, index, c).len() ==> #[trigger] knight_moves(p, index, c)[j].to
                % 8 != 7,
{
    lemma_knight_moves_are_jumps(p, index, c, 8);
}

proof fn lemma_ray_on_long_diagonal(p: Position, from: int, c: Color, prev: int, steps: nat)
    requires
        0 <= prev < 64,
        prev / 8 == prev % 8,
    ensures
        forall|j: int|
            0 <= j < ray(p, from, c, 9, prev, steps).len() ==> {
                let t = (#[trigger] ray(p, from, c, 9, prev, steps)[j]).to as int;
                0 <= t < 64 && t / 8 == t % 8
            },
    decreases steps,
{
    if steps > 0 {
        let next = prev + 9;
        if unit_step(prev, next, 9) {
            assert(next / 8 == next % 8);
            lemma_ray_on_long_diagonal(p, from, c, next, (steps - 1) as nat);
            let r = ray(p, from, c, 9, prev, steps);
            let rest = ray(p, from, c, 9, next, (steps - 1) as nat);
            if !p.occupied(next) {
                assert forall|j: int| 0 <= j < r.len() implies {
                    let t = (#[trigger] r[j]).to as int;
                    0 <= t < 64 && t / 8 == t % 8
                } by {
                    if j > 0 {
                        assert(r[j] == rest[j - 1]);
                    }
                }
            }
        }
    }
}

/// A bishop on a1 only ever reaches squares of the a1-h8 diagonal: no ray jumps across the
/// board's edge to another file.
pub proof fn lemma_bishop_on_a1_stays_on_diagonal(p: Position, c: Color)
    ensures
        forall|j: int|
            0 <= j < slide(p, 0, c, bishop_directions(), 7).len() ==> {
                let t = (#[trigger] slide(p, 0, c, bishop_directions(), 7)[j]).to as int;
                0 <= t < 64 && t / 8 == t % 8
            },
{
    let dirs = bishop_directions();
    assert(dirs.drop_last() =~= seq![-9i32, -7i32, 7i32]);
    assert(dirs.drop_last().drop_last() =~= seq![-9i32, -7i32]);
    assert(dirs.drop_last().drop_last().drop_last() =~= seq![-9i32]);
    assert(dirs.drop_last().drop_last().drop_last().drop_last() =~= Seq::<i32>::empty());
    assert(ray(p, 0, c, -9, 0, 7) == Seq::<Move>::empty());
    assert(ray(p, 0, c, -7, 0, 7) == Seq::<Move>::empty());
    assert(!unit_step(0, 7, 7));
    assert(ray(p, 0, c, 7, 0, 7) == Seq::<Move>::empty());
    reveal_with_fuel(slide, 5);
    assert(slide(p, 0, c, dirs, 7) =~= ray(p, 0, c, 9, 0, 7));
    lemma_ray_on_long_diagonal(p, 0, c, 0, 7);
}

proof fn lemma_pawn_moves_on_board(p: Position, index: int, c: Color)
    requires
        on_board(index),
    ensures
        all_on_board(pawn_moves(p, index, c)),
{
    let dir = forward(c);
    let ahead = index + 8 * dir;
    let twice = index + 16 * dir;
    if on_board(ahead) && !p.occupied(ahead) {
        lemma_concat_on_board(
            pawn_step(index, ahead, c),
            if index / 8 == home_rank(c) && !p.occupied(twice) {
                seq![quiet(index, twice)]
            } else {
                seq![]
            },
        );
    }
    lemma_concat_on_board(pawn_pushes(p, index, c), pawn_capture(p, index, c, 7));
    lemma_concat_on_board(
        pawn_pushes(p, index, c) + pawn_capture(p, index, c, 7),
        pawn_capture(p, index, c, 9),
    );
}

proof fn lemma_ray_on_board(p: Position, from: int, c: Color, d: int, prev: int, steps: nat)
    requires
        on_board(from),
    ensures
        all_on_board(ray(p, from, c, d, prev, steps)),
    decreases steps,
{
    if steps > 0 {
        let next = prev + d;
        if unit_step(prev, next, d) && !p.occupied(next) {
            lemma_ray_on_board(p, from, c, d, next, (steps - 1) as nat);
            lemma_concat_on_board(seq![quiet(from, next)], ray(p, from, c, d, next, (steps - 1) as nat));
        }
    }
}

proof fn lemma_slide_on_board(p: Position, from: int, c: Color, dirs: Seq<i32>, steps: nat)
    requires
        on_board(from),
    ensures
        all_on_board(slide(p, from, c, dirs, steps)),
    decreases dirs.len(),
{
    if dirs.len() > 0 {
        lemma_slide_on_board(p, from, c, dirs.drop_last(), steps);
        lemma_ray_on_board(p, from, c, dirs.last() as int, from, steps);
        lemma_concat_on_board(
            slide(p, from, c, dirs.drop_last(), steps),
            ray(p, from, c, dirs.last() as int, from, steps),
        );
    }
}

proof fn lemma_moves_on_board(p: Position, n: int)
    requires
        n <= 64,
    ensures
        all_on_board(moves_upto(p, n)),
    decreases n,
{
    if n > 0 {
        lemma_moves_on_board(p, n - 1);
        let (pc, c) = p.piece_at(n - 1);
        lemma_pawn_moves_on_board(p, n - 1, c);
        lemma_knight_moves_are_jumps(p, n - 1, c, 8);
        lemma_slide_on_board(p, n - 1, c, bishop_directions(), 7);
        lemma_slide_on_board(p, n - 1, c, rook_directions(), 7);
        lemma_slide_on_board(p, n - 1, c, queen_directions(), 7);
        lemma_slide_on_board(p, n - 1, c, queen_directions(), 1);
        let own = if c == p.side_to_move {
            piece_moves(p, n - 1, pc, c)
        } else {
            seq![]
        };
        lemma_concat_on_board(moves_upto(p, n - 1), own);
    }
}

} // verus!
