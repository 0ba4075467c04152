use vstd::prelude::*;

use crate::piece::{Piece, Player};
use crate::pos::{ascii_lower, parse_square, square_from_bytes, MoveCandidate};
use vstd::string::StringSliceAdditionalSpecFns;

verus! {

/// The length of the UTF-8 encoded white-space character (Unicode property
/// White_Space) that `s` starts with; zero if it starts with none.
pub open spec fn white_space_len(s: Seq<u8>) -> int {
    if s.len() >= 1 && ((9 <= s[0] <= 13) || s[0] == 32) {
        1
    } else if s.len() >= 2 && s[0] == 0xC2 && (s[1] == 0x85 || s[1] == 0xA0) {
        2
    } else if s.len() >= 3 && s[0] == 0xE1 && s[1] == 0x9A && s[2] == 0x80 {
        3
    } else if s.len() >= 3 && s[0] == 0xE2 && s[1] == 0x80 && ((0x80 <= s[2] <= 0x8A) || s[2]
        == 0xA8 || s[2] == 0xA9 || s[2] == 0xAF) {
        3
    } else if s.len() >= 3 && s[0] == 0xE2 && s[1] == 0x81 && s[2] == 0x9F {
        3
    } else if s.len() >= 3 && s[0] == 0xE3 && s[1] == 0x80 && s[2] == 0x80 {
        3
    } else {
        0
    }
}

/// The text with all white space removed and ASCII letters in lower case.
pub open spec fn compact(s: Seq<u8>) -> Seq<u8>
    decreases s.len(),
{
    if s.len() == 0 {
        Seq::empty()
    } else if white_space_len(s) > 0 {
        compact(s.subrange(white_space_len(s), s.len() as int))
    } else {
        seq![ascii_lower(s[0]) as u8] + compact(s.drop_first())
    }
}

/// The promotion piece a letter requests.
pub open spec fn promotion_letter(c: u8, player: Player) -> Option<Piece> {
    if c == 113 {
        Some(Piece::Queen(player))
    } else if c == 114 {
        Some(Piece::Rook(player))
    } else if c == 98 {
        Some(Piece::Bishop(player))
    } else if c == 110 {
        Some(Piece::Knight(player))
    } else {
        None
    }
}

/// A move typed as origin square, destination square and an optional
/// promotion letter, for `player`.
pub open spec fn parse_input(t: Seq<u8>, player: Player) -> Result<MoveCandidate, Seq<char>> {
    if t.len() < 4 {
        Err("Invalid Input!"@)
    } else {
        match parse_square(t) {
            Err(e) => Err(e),
            Ok(a) => match parse_square(t.subrange(2, t.len() as int)) {
                Err(e) => Err(e),
                Ok(b) => Ok(
                    MoveCandidate {
                        old_pos: a,
                        new_pos: b,
                        promote_to: if t.len() < 5 {
                            None
                        } else {
                            promotion_letter(t[4], player)
                        },
                    },
                ),
            },
        }
    }
}

fn white_space_at(s: &[u8], i: usize) -> (r: usize)
    requires
        i < s@.len(),
    ensures
        r as int == white_space_len(s@.subrange(i as int, s@.len() as int)),
{
    let ghost t = s@.subrange(i as int, s@.len() as int);
    let n = s.len() - i;
    let b0 = s[i];
    assert(t[0] == b0);
    if (9 <= b0 && b0 <= 13) || b0 == 32 {
        return 1;
    }
    if n >= 2 {
        let b1 = s[i + 1];
        assert(t[1] == b1);
        if b0 == 0xC2 && (b1 == 0x85 || b1 == 0xA0) {
            return 2;
        }
        if n >= 3 {
            let b2 = s[i + 2];
            assert(t[2] == b2);
            if b0 == 0xE1 && b1 == 0x9A && b2 == 0x80 {
                return 3;
            }
            if b0 == 0xE2 && b1 == 0x80 && ((0x80 <= b2 && b2 <= 0x8A) || b2 == 0xA8 || b2 == 0xA9
                || b2 == 0xAF) {
                return 3;
            }
            if b0 == 0xE2 && b1 == 0x81 && b2 == 0x9F {
                return 3;
            }
            if b0 == 0xE3 && b1 == 0x80 && b2 == 0x80 {
                return 3;
            }
        }
    }
    0
}

/// Reads a move such as `e2e4` or `e7e8q` typed by `player`, ignoring white
/// space and letter case.
pub fn parse_simple_input(input: &str, player: Player) -> (r: Result<MoveCandidate, String>)
    ensures
        match (r, parse_input(compact(input.spec_bytes()), player)) {
            (Ok(c), Ok(d)) => c == d,
            (Err(e), Err(m)) => e@ == m,
            _ => false,
        },
{
    let s = input.as_bytes();
    let mut t: Vec<u8> = Vec::new();
    let mut i: usize = 0;
    assert(s@.subrange(0, s@.len() as int) =~= s@);
    while i < s.len()
        invariant
            0 <= i <= s@.len(),
            compact(s@) == t@ + compact(s@.subrange(i as int, s@.len() as int)),
        decreases s@.len() - i,
    {
        let ghost rest = s@.subrange(i as int, s@.len() as int);
        let w = white_space_at(s, i);
        if w > 0 {
            assert(rest.subrange(w as int, rest.len() as int) =~= s@.subrange(
                i + w,
                s@.len() as int,
            ));
            i = i + w;
        } else {
            let b = s[i];
            assert(rest[0] == b);
            assert(rest.drop_first() =~= s@.subrange(i + 1, s@.len() as int));
            let ghost before = t@;
            t.push(
                if 65 <= b && b <= 90 {
                    b + 32
                } else {
                    b
                },
            );
            assert(t@ =~= before + seq![ascii_lower(b) as u8]);
            i = i + 1;
        }
    }
    assert(compact(s@.subrange(i as int, s@.len() as int)) =~= Seq::<u8>::empty());
    assert(t@ =~= compact(s@));
    if t.len() < 4 {
        proof {
            reveal_strlit("Invalid Input!");
        }
        return Err("Invalid Input!".to_owned());
    }
    assert(t@.subrange(0, t@.len() as int) =~= t@);
    let old_pos = match square_from_bytes(t.as_slice(), 0) {
        Ok(sq) => sq,
        Err(msg) => {
            return Err(msg);
        },
    };
    let new_pos = match square_from_bytes(t.as_slice(), 2) {
        Ok(sq) => sq,
        Err(msg) => {
            return Err(msg);
        },
    };
    let promote_to = if t.len() < 5 {
        None
    } else {
        let c = t[4];
        if c == 113 {
            Some(Piece::Queen(player))
        } else if c == 114 {
            Some(Piece::Rook(player))
        } else if c == 98 {
            Some(Piece::Bishop(player))
        } else if c == 110 {
            Some(Piece::Knight(player))
        } else {
            None
        }
    };
    Ok(MoveCandidate { old_pos, new_pos, promote_to })
}

} // verus!
