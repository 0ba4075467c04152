use vstd::prelude::*;

use crate::piece::Piece;
use vstd::string::StringSliceAdditionalSpecFns;

verus! {

/// A square (or, as a difference of squares, a direction) given by rank and
/// file; squares on the board have both in 1..=8.
#[derive(Clone, Copy, PartialEq, Eq, Structural, Debug)]
pub struct Square {
    pub rank: i8,
    pub file: i8,
}

pub open spec fn is_ascii_letter(b: u8) -> bool {
    (65 <= b <= 90) || (97 <= b <= 122)
}

pub open spec fn is_ascii_digit(b: u8) -> bool {
    48 <= b <= 57
}

pub open spec fn ascii_lower(b: u8) -> int {
    if 65 <= b <= 90 {
        b + 32
    } else {
        b as int
    }
}

/// What a square name (file letter a..h in either case, then a rank digit
/// 1..8) denotes; other text is rejected with a reason.
pub open spec fn parse_square(s: Seq<u8>) -> Result<Square, Seq<char>> {
    if s.len() < 2 {
        Err("input too short"@)
    } else if !is_ascii_letter(s[0]) || !is_ascii_digit(s[1]) {
        Err("invalid character"@)
    } else if ascii_lower(s[0]) > 104 {
        Err("Invalid character"@)
    } else if s[1] < 49 || s[1] > 56 {
        Err("rank out of range"@)
    } else {
        Ok(Square { rank: (s[1] - 48) as i8, file: (ascii_lower(s[0]) - 96) as i8 })
    }
}

pub open spec fn signum(x: int) -> int {
    if x > 0 {
        1
    } else if x < 0 {
        -1
    } else {
        0
    }
}

pub open spec fn abs(x: int) -> int {
    if x < 0 {
        -x
    } else {
        x
    }
}

impl Square {
    pub open spec fn is_on_board(self) -> bool {
        1 <= self.rank <= 8 && 1 <= self.file <= 8
    }

    /// Position of the square in a rank-major table of the 64 squares.
    pub open spec fn index(self) -> int {
        (self.rank - 1) * 8 + (self.file - 1)
    }

    pub open spec fn plus(self, d: Square) -> (int, int) {
        (self.rank + d.rank, self.file + d.file)
    }

    pub open spec fn fits_i8(rank: int, file: int) -> bool {
        -128 <= rank <= 127 && -128 <= file <= 127
    }

    pub fn new(r: usize, f: usize) -> (s: Square)
        requires
            r <= 127,
            f <= 127,
        ensures
            s.rank == r,
            s.file == f,
    {
        Square { rank: r as i8, file: f as i8 }
    }

    pub fn from_string(pos: &str) -> (r: Result<Square, String>)
        ensures
            match (r, parse_square(pos.spec_bytes())) {
                (Ok(s), Ok(t)) => s == t,
                (Err(e), Err(m)) => e@ == m,
                _ => false,
            },
    {
        let b = pos.as_bytes();
        assert(b@.subrange(0, b@.len() as int) =~= b@);
        square_from_bytes(b, 0)
    }

    pub fn get_rank(&self) -> (r: usize)
        ensures
            self.rank >= 0 ==> r == self.rank,
    {
        self.rank as usize
    }

    pub fn get_file(&self) -> (r: usize)
        ensures
            self.file >= 0 ==> r == self.file,
    {
        self.file as usize
    }

    pub fn add(self, rhs: Square) -> (r: Square)
        requires
            Square::fits_i8(self.rank + rhs.rank, self.file + rhs.file),
        ensures
            r.rank == self.rank + rhs.rank,
            r.file == self.file + rhs.file,
    {
        Square { rank: self.rank + rhs.rank, file: self.file + rhs.file }
    }

    pub fn sub(self, rhs: Square) -> (r: Square)
        requires
            Square::fits_i8(self.rank - rhs.rank, self.file - rhs.file),
        ensures
            r.rank == self.rank - rhs.rank,
            r.file == self.file - rhs.file,
    {
        Square { rank: self.rank - rhs.rank, file: self.file - rhs.file }
    }
}

/// Reads the square named by the bytes from `start` on.
pub fn square_from_bytes(s: &[u8], start: usize) -> (r: Result<Square, String>)
    requires
        start <= s@.len(),
    ensures
        match (r, parse_square(s@.subrange(start as int, s@.len() as int))) {
            (Ok(q), Ok(t)) => q == t,
            (Err(e), Err(m)) => e@ == m,
            _ => false,
        },
{
    let ghost field = s@.subrange(start as int, s@.len() as int);
    if s.len() - start < 2 {
        proof {
            reveal_strlit("input too short");
        }
        return Err("input too short".to_owned());
    }
    let f: u8 = s[start];
    let rk: u8 = s[start + 1];
    assert(field[0] == f && field[1] == rk);
    let letter = (65 <= f && f <= 90) || (97 <= f && f <= 122);
    let digit = 48 <= rk && rk <= 57;
    if !letter || !digit {
        proof {
            reveal_strlit("invalid character");
        }
        return Err("invalid character".to_owned());
    }
    let lf: u8 = if 65 <= f && f <= 90 {
        f + 32
    } else {
        f
    };
    if lf > 104 {
        proof {
            reveal_strlit("Invalid character");
        }
        return Err("Invalid character".to_owned());
    }
    if rk < 49 || rk > 56 {
        proof {
            reveal_strlit("rank out of range");
        }
        return Err("rank out of range".to_owned());
    }
    Ok(Square { rank: (rk - 48) as i8, file: (lf - 96) as i8 })
}

pub fn on_board(p: &Square) -> (r: bool)
    ensures
        r == p.is_on_board(),
{
    p.rank <= 8 && p.rank >= 1 && p.file <= 8 && p.file >= 1
}

/// The component-wise sign of a difference.
pub fn move_diff_sign(dy: i8, dx: i8) -> (r: Square)
    ensures
        r.rank == signum(dy as int),
        r.file == signum(dx as int),
{
    let rank: i8 = if dy > 0 {
        1
    } else if dy < 0 {
        -1
    } else {
        0
    };
    let file: i8 = if dx > 0 {
        1
    } else if dx < 0 {
        -1
    } else {
        0
    };
    Square { rank, file }
}

/// The unit step that leads from `old_pos` towards `new_pos`.
pub fn get_move_dir(old_pos: Square, new_pos: Square) -> (r: Square)
    requires
        Square::fits_i8(new_pos.rank - old_pos.rank, new_pos.file - old_pos.file),
    ensures
        r.rank == signum(new_pos.rank - old_pos.rank),
        r.file == signum(new_pos.file - old_pos.file),
{
    move_diff_sign(new_pos.rank - old_pos.rank, new_pos.file - old_pos.file)
}

/// How a move is classified.
#[derive(Clone, Copy, PartialEq, Eq, Structural, Debug)]
pub enum MoveType {
    Capture(Piece),
    Castle(Square),
    EnPassant,
    Move,
    Promotion(Piece),
}

/// A fully classified move: the piece moved, from where, to where, and how.
#[derive(Clone, Copy, PartialEq, Eq, Structural, Debug)]
pub struct Move {
    pub piece: Piece,
    pub move_type: MoveType,
    pub old_pos: Square,
    pub new_pos: Square,
}

/// A move as requested: origin, destination and an optional promotion choice.
#[derive(Clone, Copy, PartialEq, Eq, Structural, Debug)]
pub struct MoveCandidate {
    pub old_pos: Square,
    pub new_pos: Square,
    pub promote_to: Option<Piece>,
}

} // verus!
