use vstd::prelude::*;

verus! {

/// One of the two sides.
#[derive(Clone, Copy, PartialEq, Eq, Structural, Debug)]
pub enum Player {
    Black,
    White,
}

/// The content of a square: empty, or one of six kinds owned by a side.
#[derive(Clone, Copy, PartialEq, Eq, Structural, Debug)]
pub enum Piece {
    Empty,
    Pawn(Player),
    Knight(Player),
    Bishop(Player),
    Rook(Player),
    Queen(Player),
    King(Player),
}

impl Player {
    /// The other side.
    pub open spec fn opponent(self) -> Player {
        match self {
            Player::White => Player::Black,
            Player::Black => Player::White,
        }
    }

    /// The rank direction in which this side's pawns advance.
    pub open spec fn forward(self) -> int {
        match self {
            Player::White => 1,
            Player::Black => -1,
        }
    }

    pub fn invert(&self) -> (r: Player)
        ensures
            r == self.opponent(),
    {
        match self {
            Player::White => Player::Black,
            Player::Black => Player::White,
        }
    }

    pub fn sign(&self) -> (r: i8)
        ensures
            r as int == self.forward(),
    {
        match self {
            Player::White => 1,
            Player::Black => -1,
        }
    }
}

impl Piece {
    /// The side owning the piece; `None` for an empty square.
    pub open spec fn owner_of(self) -> Option<Player> {
        match self {
            Piece::Empty => None,
            Piece::Pawn(p) => Some(p),
            Piece::Knight(p) => Some(p),
            Piece::Bishop(p) => Some(p),
            Piece::Rook(p) => Some(p),
            Piece::Queen(p) => Some(p),
            Piece::King(p) => Some(p),
        }
    }

    /// The glyph a board renderer shows for the piece.
    pub open spec fn glyph(self) -> char {
        match self {
            Piece::Empty => ' ',
            Piece::Pawn(Player::Black) => '♙',
            Piece::Pawn(Player::White) => '♟',
            Piece::Knight(Player::Black) => '♘',
            Piece::Knight(Player::White) => '♞',
            Piece::Bishop(Player::Black) => '♗',
            Piece::Bishop(Player::White) => '♝',
            Piece::Rook(Player::Black) => '♖',
            Piece::Rook(Player::White) => '♜',
            Piece::Queen(Player::Black) => '♕',
            Piece::Queen(Player::White) => '♛',
            Piece::King(Player::Black) => '♔',
            Piece::King(Player::White) => '♚',
        }
    }

    pub open spec fn is_king(self) -> bool {
        self is King
    }

    pub open spec fn is_pawn(self) -> bool {
        self is Pawn
    }

    pub fn to_char(&self) -> (r: char)
        ensures
            r == self.glyph(),
    {
        match self {
            Piece::Pawn(p) => match p {
                Player::Black => '♙',
                Player::White => '♟',
            },
            Piece::Knight(p) => match p {
                Player::Black => '♘',
                Player::White => '♞',
            },
            Piece::Bishop(p) => match p {
                Player::Black => '♗',
                Player::White => '♝',
            },
            Piece::Rook(p) => match p {
                Player::Black => '♖',
                Player::White => '♜',
            },
            Piece::Queen(p) => match p {
                Player::Black => '♕',
                Player::White => '♛',
            },
            Piece::King(p) => match p {
                Player::Black => '♔',
                Player::White => '♚',
            },
            Piece::Empty => ' ',
        }
    }

    pub fn owner(&self) -> (r: Option<Player>)
        ensures
            r == self.owner_of(),
    {
        match self {
            Piece::Empty => None,
            Piece::Pawn(p) => Some(*p),
            Piece::Knight(p) => Some(*p),
            Piece::Bishop(p) => Some(*p),
            Piece::Rook(p) => Some(*p),
            Piece::Queen(p) => Some(*p),
            Piece::King(p) => Some(*p),
        }
    }
}

} // verus!
