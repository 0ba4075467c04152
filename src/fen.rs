use vstd::prelude::*;

use crate::board::CastleRights;
use crate::piece::{Piece, Player};
use crate::pos::{parse_square, square_from_bytes, Square};

verus! {

/// A number field larger than this counts as malformed.
pub const NUMBER_LIMIT: u64 = 1000000000;

/// The piece a placement letter stands for (`Empty` for any other byte).
pub open spec fn fen_piece(c: u8) -> Piece {
    if c == 107 {
        Piece::King(Player::Black)
    } else if c == 75 {
        Piece::King(Player::White)
    } else if c == 113 {
        Piece::Queen(Player::Black)
    } else if c == 81 {
        Piece::Queen(Player::White)
    } else if c == 114 {
        Piece::Rook(Player::Black)
    } else if c == 82 {
        Piece::Rook(Player::White)
    } else if c == 98 {
        Piece::Bishop(Player::Black)
    } else if c == 66 {
        Piece::Bishop(Player::White)
    } else if c == 110 {
        Piece::Knight(Player::Black)
    } else if c == 78 {
        Piece::Knight(Player::White)
    } else if c == 112 {
        Piece::Pawn(Player::Black)
    } else if c == 80 {
        Piece::Pawn(Player::White)
    } else {
        Piece::Empty
    }
}

pub open spec fn empty_grid() -> Seq<Piece> {
    Seq::new(64, |n: int| Piece::Empty)
}

/// Reads the placement field from byte `i`, with the cursor on 0-based
/// `rank` and `file` (a file of 8 is past the rank's end): a digit skips
/// squares, a letter puts a piece, and past a rank's end the cursor goes to
/// the start of the rank below; a space ends the field. Returns the grid and
/// the index after the field.
pub open spec fn place(s: Seq<u8>, i: int, rank: int, file: int, g: Seq<Piece>) -> (Seq<Piece>, int)
    decreases s.len() - i,
{
    if i < 0 || i >= s.len() {
        (g, i)
    } else {
        let c = s[i];
        if c == 32 {
            (g, i + 1)
        } else if 49 <= c <= 56 || fen_piece(c) != Piece::Empty {
            let g2 = if fen_piece(c) != Piece::Empty && file <= 7 {
                g.update(rank * 8 + file, fen_piece(c))
            } else {
                g
            };
            let step = if fen_piece(c) != Piece::Empty {
                1
            } else {
                c - 48
            };
            let f = if file + step > 8 {
                8
            } else {
                file + step
            };
            if f > 7 && rank > 0 {
                place(s, i + 1, rank - 1, 0, g2)
            } else {
                place(s, i + 1, rank, f, g2)
            }
        } else {
            place(s, i + 1, rank, file, g)
        }
    }
}

/// Reads the side-to-move field: the last byte before the next space
/// decides, `b` for Black and anything else for White.
pub open spec fn read_active(s: Seq<u8>, i: int, cur: Player) -> (Player, int)
    decreases s.len() - i,
{
    if i < 0 || i >= s.len() {
        (cur, i)
    } else if s[i] == 32 {
        (cur, i + 1)
    } else {
        read_active(s, i + 1, if s[i] == 98 { Player::Black } else { Player::White })
    }
}

/// Reads the castling field up to the next space: `K`, `Q`, `k`, `q` grant
/// White's and Black's kingside and queenside rights.
pub open spec fn read_castling(s: Seq<u8>, i: int, w: CastleRights, b: CastleRights) -> (
    CastleRights,
    CastleRights,
    int,
)
    decreases s.len() - i,
{
    if i < 0 || i >= s.len() {
        (w, b, i)
    } else if s[i] == 32 {
        (w, b, i + 1)
    } else {
        let c = s[i];
        read_castling(
            s,
            i + 1,
            CastleRights {
                kingside: w.kingside || c == 75,
                queenside: w.queenside || c == 81,
            },
            CastleRights {
                kingside: b.kingside || c == 107,
                queenside: b.queenside || c == 113,
            },
        )
    }
}

/// The index after the next space (or the end).
pub open spec fn skip_field(s: Seq<u8>, i: int) -> int
    decreases s.len() - i,
{
    if i < 0 || i >= s.len() {
        i
    } else if s[i] == 32 {
        i + 1
    } else {
        skip_field(s, i + 1)
    }
}

/// The end of the run of digits that starts at `i`.
pub open spec fn digit_run(s: Seq<u8>, i: int) -> int
    decreases s.len() - i,
{
    if i < 0 || i >= s.len() || !(48 <= s[i] <= 57) {
        i
    } else {
        digit_run(s, i + 1)
    }
}

/// The decimal value of the digits `s[i..j]`, or `NUMBER_LIMIT + 1` if it is larger.
pub open spec fn run_value(s: Seq<u8>, i: int, j: int) -> int
    decreases j - i,
{
    if j <= i {
        0
    } else {
        let v = run_value(s, i, j - 1) * 10 + (s[j - 1] - 48);
        if v > NUMBER_LIMIT {
            NUMBER_LIMIT + 1
        } else {
            v
        }
    }
}

/// The number whose digits start at `i` (zero when there are none or it is
/// too large), and the index after the byte that ended them.
pub open spec fn read_number(s: Seq<u8>, i: int) -> (int, int) {
    let j = digit_run(s, i);
    let v = run_value(s, i, j);
    (if j == i || v > NUMBER_LIMIT { 0 } else { v }, if j < s.len() { j + 1 } else { j })
}

/// The two-square pawn push that an en passant target square implies, when
/// the field names a square on the rank a pawn of the side that just moved
/// passes over.
pub open spec fn implied_push(field: Seq<u8>, active: Player) -> Option<crate::pos::Move> {
    match parse_square(field) {
        Ok(sq) => if sq.rank == (if active == Player::White {
            6int
        } else {
            3int
        }) {
            Some(
                crate::pos::Move {
                    piece: Piece::Pawn(active.opponent()),
                    move_type: crate::pos::MoveType::Move,
                    old_pos: Square { rank: (sq.rank + active.forward()) as i8, file: sq.file },
                    new_pos: Square { rank: (sq.rank - active.forward()) as i8, file: sq.file },
                },
            )
        } else {
            None
        },
        Err(_) => None,
    }
}


/// What a FEN text says of a board: the placement, side to move, castling
/// rights, the pawn push an en passant square implies, and the ply counters
/// (the ply count is twice the full-move number, plus one with Black to
/// move; the last pawn ply lies the half-move clock before it, or is the
/// current ply after a push).
pub open spec fn fen_describes(
    s: Seq<u8>,
    grid: Seq<Piece>,
    active: Player,
    white_rights: CastleRights,
    black_rights: CastleRights,
    last_move: Option<crate::pos::Move>,
    move_count: int,
    last_pawn_move: int,
) -> bool {
    let none = CastleRights { kingside: false, queenside: false };
    let (g, i1) = place(s, 0, 7, 0, empty_grid());
    let (a, i2) = read_active(s, i1, Player::White);
    let (w, b, i3) = read_castling(s, i2, none, none);
    let push = implied_push(s.subrange(i3, s.len() as int), a);
    let (half, i5) = read_number(s, skip_field(s, i3));
    let (full, _) = read_number(s, i5);
    let mc = 2 * full + if a == Player::Black {
        1int
    } else {
        0int
    };
    &&& grid == g
    &&& active == a
    &&& white_rights == w
    &&& black_rights == b
    &&& last_move == push
    &&& move_count == mc
    &&& last_pawn_move == if push is Some {
        mc
    } else if half <= mc {
        mc - half
    } else {
        0
    }
}

fn fen_piece_of(c: u8) -> (r: Piece)
    ensures
        r == fen_piece(c),
{
    if c == 107 {
        Piece::King(Player::Black)
    } else if c == 75 {
        Piece::King(Player::White)
    } else if c == 113 {
        Piece::Queen(Player::Black)
    } else if c == 81 {
        Piece::Queen(Player::White)
    } else if c == 114 {
        Piece::Rook(Player::Black)
    } else if c == 82 {
        Piece::Rook(Player::White)
    } else if c == 98 {
        Piece::Bishop(Player::Black)
    } else if c == 66 {
        Piece::Bishop(Player::White)
    } else if c == 110 {
        Piece::Knight(Player::Black)
    } else if c == 78 {
        Piece::Knight(Player::White)
    } else if c == 112 {
        Piece::Pawn(Player::Black)
    } else if c == 80 {
        Piece::Pawn(Player::White)
    } else {
        Piece::Empty
    }
}

pub(crate) fn read_placement(s: &[u8]) -> (r: (Vec<Piece>, usize))
    ensures
        r.0@ == place(s@, 0, 7, 0, empty_grid()).0,
        r.1 as int == place(s@, 0, 7, 0, empty_grid()).1,
        r.1 <= s@.len(),
        r.0@.len() == 64,
{
    let mut g: Vec<Piece> = Vec::new();
    let mut n: usize = 0;
    while n < 64
        invariant
            0 <= n <= 64,
            g@.len() == n,
            forall|m: int| 0 <= m < n ==> g@[m] == Piece::Empty,
        decreases 64 - n,
    {
        g.push(Piece::Empty);
        n = n + 1;
    }
    assert(g@ =~= empty_grid());
    let mut i: usize = 0;
    let mut rank: usize = 7;
    let mut file: usize = 0;
    while i < s.len()
        invariant
            g@.len() == 64,
            rank <= 7,
            file <= 8,
            i <= s@.len(),
            place(s@, i as int, rank as int, file as int, g@) == place(s@, 0, 7, 0, empty_grid()),
        decreases s@.len() - i,
    {
        let c = s[i];
        if c == 32 {
            return (g, i + 1);
        }
        let pc = fen_piece_of(c);
        if (49 <= c && c <= 56) || pc != Piece::Empty {
            if pc != Piece::Empty && file <= 7 {
                g.set(rank * 8 + file, pc);
            }
            let step: usize = if pc != Piece::Empty {
                1
            } else {
                (c - 48) as usize
            };
            let f: usize = if file + step > 8 {
                8
            } else {
                file + step
            };
            if f > 7 && rank > 0 {
                rank = rank - 1;
                file = 0;
            } else {
                file = f;
            }
        }
        i = i + 1;
    }
    (g, i)
}

pub(crate) fn read_active_field(s: &[u8], start: usize) -> (r: (Player, usize))
    requires
        start <= s@.len(),
    ensures
        (r.0, r.1 as int) == read_active(s@, start as int, Player::White),
        r.1 <= s@.len(),
{
    let mut i = start;
    let mut cur = Player::White;
    while i < s.len()
        invariant
            start <= i <= s@.len(),
            read_active(s@, i as int, cur) == read_active(s@, start as int, Player::White),
        decreases s@.len() - i,
    {
        if s[i] == 32 {
            return (cur, i + 1);
        }
        cur = if s[i] == 98 {
            Player::Black
        } else {
            Player::White
        };
        i = i + 1;
    }
    (cur, i)
}

pub(crate) fn read_castling_field(s: &[u8], start: usize) -> (r: (CastleRights, CastleRights, usize))
    requires
        start <= s@.len(),
    ensures
        (r.0, r.1, r.2 as int) == read_castling(
            s@,
            start as int,
            CastleRights { kingside: false, queenside: false },
            CastleRights { kingside: false, queenside: false },
        ),
        r.2 <= s@.len(),
{
    let mut i = start;
    let mut w = CastleRights { kingside: false, queenside: false };
    let mut b = CastleRights { kingside: false, queenside: false };
    while i < s.len()
        invariant
            start <= i <= s@.len(),
            read_castling(s@, i as int, w, b) == read_castling(
                s@,
                start as int,
                CastleRights { kingside: false, queenside: false },
                CastleRights { kingside: false, queenside: false },
            ),
        decreases s@.len() - i,
    {
        let c = s[i];
        if c == 32 {
            return (w, b, i + 1);
        }
        w = CastleRights { kingside: w.kingside || c == 75, queenside: w.queenside || c == 81 };
        b = CastleRights { kingside: b.kingside || c == 107, queenside: b.queenside || c == 113 };
        i = i + 1;
    }
    (w, b, i)
}

pub(crate) fn skip_to_next_field(s: &[u8], start: usize) -> (r: usize)
    requires
        start <= s@.len(),
    ensures
        r as int == skip_field(s@, start as int),
        r <= s@.len(),
{
    let mut i = start;
    while i < s.len()
        invariant
            start <= i <= s@.len(),
            skip_field(s@, i as int) == skip_field(s@, start as int),
        decreases s@.len() - i,
    {
        if s[i] == 32 {
            return i + 1;
        }
        i = i + 1;
    }
    i
}

pub(crate) fn read_number_field(s: &[u8], start: usize) -> (r: (u32, usize))
    requires
        start <= s@.len(),
    ensures
        (r.0 as int, r.1 as int) == read_number(s@, start as int),
        r.0 <= NUMBER_LIMIT,
        r.1 <= s@.len(),
{
    let mut i = start;
    let mut v: u64 = 0;
    while i < s.len() && 48 <= s[i] && s[i] <= 57
        invariant
            start <= i <= s@.len(),
            digit_run(s@, i as int) == digit_run(s@, start as int),
            v as int == run_value(s@, start as int, i as int),
            v <= NUMBER_LIMIT + 1,
        decreases s@.len() - i,
    {
        let d = (s[i] - 48) as u64;
        let next = v * 10 + d;
        v = if next > NUMBER_LIMIT {
            NUMBER_LIMIT + 1
        } else {
            next
        };
        i = i + 1;
    }
    let value: u32 = if i == start || v > NUMBER_LIMIT {
        0
    } else {
        v as u32
    };
    let after = if i < s.len() {
        i + 1
    } else {
        i
    };
    (value, after)
}

pub(crate) fn implied_push_at(s: &[u8], start: usize, active: Player) -> (r: Option<crate::pos::Move>)
    requires
        start <= s@.len(),
    ensures
        r == implied_push(s@.subrange(start as int, s@.len() as int), active),
{
    let sq = match square_from_bytes(s, start) {
        Ok(q) => q,
        Err(_) => {
            return None;
        },
    };
    let target: i8 = match active {
        Player::White => 6,
        Player::Black => 3,
    };
    if sq.rank != target {
        return None;
    }
    let d = active.sign();
    Some(
        crate::pos::Move {
            piece: Piece::Pawn(active.invert()),
            move_type: crate::pos::MoveType::Move,
            old_pos: Square { rank: sq.rank + d, file: sq.file },
            new_pos: Square { rank: sq.rank - d, file: sq.file },
        },
    )
}

} // verus!
