use vstd::prelude::*;

use crate::board::{
    castle_rook_target, checkers, first_king, distance, en_passant_victim, lemma_ray_end, lemma_wf_views,
    mover, on_board_list, passable, ray_clear, ray_square, same_diagonal, same_line, Board,
    BoardModel,
};
use crate::piece::{Piece, Player};
use crate::pos::{abs, get_move_dir, on_board, signum, Move, MoveCandidate, MoveType, Square};

verus! {

/// The rank on which `p`'s pawns promote.
pub open spec fn last_rank(p: Player) -> int {
    if p == Player::White {
        8
    } else {
        1
    }
}

/// The rank from which `p`'s pawns may advance two squares.
pub open spec fn start_rank(p: Player) -> int {
    if p == Player::White {
        2
    } else {
        7
    }
}

/// The piece a promotion yields: the requested one if it is a queen, rook,
/// bishop or knight of `p`, a queen if none was requested.
pub open spec fn promotion_choice(p: Player, req: Option<Piece>) -> Option<Piece> {
    match req {
        None => Some(Piece::Queen(p)),
        Some(x) => if x == Piece::Queen(p) || x == Piece::Rook(p) || x == Piece::Bishop(p) || x
            == Piece::Knight(p) {
            Some(x)
        } else {
            None
        },
    }
}

/// A quiet move or a capture, as the destination's content says.
pub open spec fn plain_move(m: BoardModel, pc: Piece, from: Square, to: Square) -> Move {
    Move {
        piece: pc,
        move_type: if m.at(to) == Piece::Empty {
            MoveType::Move
        } else {
            MoveType::Capture(m.at(to))
        },
        old_pos: from,
        new_pos: to,
    }
}

pub open spec fn knight_step(from: Square, to: Square) -> bool {
    let dr = abs(to.rank - from.rank);
    let df = abs(to.file - from.file);
    (dr == 1 && df == 2) || (dr == 2 && df == 1)
}

pub open spec fn pawn_kind(m: BoardModel, p: Player, from: Square, to: Square) -> Option<MoveType> {
    let dr = to.rank - from.rank;
    let df = to.file - from.file;
    let mid = Square { rank: (from.rank + p.forward()) as i8, file: from.file };
    let victim = Square { rank: (to.rank - p.forward()) as i8, file: to.file };
    if df == 0 && dr == p.forward() && m.at(to) == Piece::Empty {
        Some(MoveType::Move)
    } else if df == 0 && dr == 2 * p.forward() && from.rank == start_rank(p) && m.at(mid)
        == Piece::Empty && m.at(to) == Piece::Empty {
        Some(MoveType::Move)
    } else if abs(df) == 1 && dr == p.forward() && m.at(to).owner_of() == Some(p.opponent()) {
        Some(MoveType::Capture(m.at(to)))
    } else if abs(df) == 1 && dr == p.forward() && m.at(to) == Piece::Empty
        && m.en_passant_window(p, from, to) && m.at(victim) == Piece::Pawn(p.opponent()) {
        Some(MoveType::EnPassant)
    } else {
        None
    }
}

/// A castling attempt of `p`'s king from `from` to `to`, two files along its
/// home rank: the king stands on its home square and is not in check, the
/// wing's right is held, the wing's rook stands in its corner, every square
/// between king and rook is empty, and neither square the king crosses or
/// lands on is attacked.
pub open spec fn castle_move(m: BoardModel, p: Player, from: Square, to: Square) -> Option<Move> {
    let home: i8 = if p == Player::White {
        1
    } else {
        8
    };
    let rook = Square { rank: from.rank, file: if to.file > from.file { 8 } else { 1 } };
    let cross = Square { rank: from.rank, file: (from.file + signum(to.file - from.file)) as i8 };
    if from != (Square { rank: home, file: 5 }) {
        None
    } else if m.is_attacked(p.opponent(), from, None) {
        None
    } else if !m.castle_right(p, rook) {
        None
    } else if m.at(rook) != Piece::Rook(p) {
        None
    } else if !ray_clear(m.grid, from, rook, Piece::Empty) {
        None
    } else if m.is_attacked(p.opponent(), cross, None) || m.is_attacked(p.opponent(), to, None) {
        None
    } else {
        Some(Move { piece: Piece::King(p), move_type: MoveType::Castle(rook), old_pos: from, new_pos: to })
    }
}

/// The move the piece on the candidate's origin makes by its own movement
/// rule, before any question of its king's safety.
pub open spec fn provisional(m: BoardModel, c: MoveCandidate) -> Option<Move> {
    let from = c.old_pos;
    let to = c.new_pos;
    let pc = m.at(from);
    let dr = to.rank - from.rank;
    let df = to.file - from.file;
    match pc {
        Piece::Empty => None,
        Piece::Pawn(p) => match pawn_kind(m, p, from, to) {
            None => None,
            Some(k) => if to.rank == last_rank(p) {
                match promotion_choice(p, c.promote_to) {
                    None => None,
                    Some(q) => Some(
                        Move { piece: pc, move_type: MoveType::Promotion(q), old_pos: from, new_pos: to },
                    ),
                }
            } else {
                Some(Move { piece: pc, move_type: k, old_pos: from, new_pos: to })
            },
        },
        Piece::Knight(_) => if knight_step(from, to) {
            Some(plain_move(m, pc, from, to))
        } else {
            None
        },
        Piece::Bishop(_) => if same_diagonal(from, to) && ray_clear(m.grid, from, to, Piece::Empty) {
            Some(plain_move(m, pc, from, to))
        } else {
            None
        },
        Piece::Rook(_) => if same_line(from, to) && ray_clear(m.grid, from, to, Piece::Empty) {
            Some(plain_move(m, pc, from, to))
        } else {
            None
        },
        Piece::Queen(_) => if (same_line(from, to) || same_diagonal(from, to)) && ray_clear(
            m.grid,
            from,
            to,
            Piece::Empty,
        ) {
            Some(plain_move(m, pc, from, to))
        } else {
            None
        },
        Piece::King(p) => if abs(df) == 2 && dr == 0 {
            castle_move(m, p, from, to)
        } else if abs(dr) <= 1 && abs(df) <= 1 {
            if m.is_attacked(p.opponent(), to, None) {
                None
            } else {
                Some(plain_move(m, pc, from, to))
            }
        } else {
            None
        },
    }
}

/// `mv` deals with the checking piece on `sq`: it takes it, or, for a
/// checking piece other than a knight or pawn, lands between it and the king.
pub open spec fn resolves(m: BoardModel, mv: Move, sq: Square, king: Square) -> bool {
    let taken = mv.new_pos == sq || (mv.move_type == MoveType::EnPassant && en_passant_victim(mv)
        == sq);
    if m.at(sq) is Knight || m.at(sq) is Pawn {
        taken
    } else {
        taken || ((same_line(sq, king) || same_diagonal(sq, king)) && exists|k: int|
            0 < k < distance(sq, king) && #[trigger] ray_square(sq, king, k) == mv.new_pos)
    }
}

/// When the side to move is in check, a move other than a king move must
/// deal with every checking piece.
pub open spec fn resolves_checks(m: BoardModel, mv: Move) -> bool {
    match m.check_state(m.active) {
        (None, _) => true,
        (Some(king), chk) => mv.piece.is_king() || forall|i: int|
            0 <= i < chk.len() ==> resolves(m, mv, #[trigger] chk[i], king),
    }
}

/// The legal move that a candidate denotes, if there is one.
pub open spec fn legal(m: BoardModel, c: MoveCandidate) -> Option<Move> {
    if !c.old_pos.is_on_board() || !c.new_pos.is_on_board() {
        None
    } else if m.at(c.old_pos).owner_of() != Some(m.active) {
        None
    } else if m.at(c.new_pos).owner_of() == Some(m.active) {
        None
    } else {
        match provisional(m, c) {
            None => None,
            Some(mv) => {
                let safe = match m.check_state(m.active).0 {
                    None => true,
                    Some(king) => m.safe_after(king, mv),
                };
                if resolves_checks(m, mv) && safe {
                    Some(mv)
                } else {
                    None
                }
            },
        }
    }
}

/// The `n`-th square in rank-major order.
pub open spec fn square_at(n: int) -> Square {
    Square { rank: (n / 8 + 1) as i8, file: (n % 8 + 1) as i8 }
}

pub open spec fn opt_seq(o: Option<Move>) -> Seq<Move> {
    match o {
        Some(mv) => seq![mv],
        None => Seq::empty(),
    }
}

pub open spec fn candidate(from: Square, to: Square, promote_to: Option<Piece>) -> MoveCandidate {
    MoveCandidate { old_pos: from, new_pos: to, promote_to }
}

/// The legal moves from `from` to `to`: for a pawn reaching its last rank,
/// one per promotion piece (queen, rook, bishop, knight); otherwise at most one.
pub open spec fn moves_to(m: BoardModel, from: Square, to: Square) -> Seq<Move> {
    match m.at(from) {
        Piece::Pawn(p) => if to.rank == last_rank(p) {
            opt_seq(legal(m, candidate(from, to, Some(Piece::Queen(p))))) + opt_seq(
                legal(m, candidate(from, to, Some(Piece::Rook(p)))),
            ) + opt_seq(legal(m, candidate(from, to, Some(Piece::Bishop(p))))) + opt_seq(
                legal(m, candidate(from, to, Some(Piece::Knight(p)))),
            )
        } else {
            opt_seq(legal(m, candidate(from, to, None)))
        },
        _ => opt_seq(legal(m, candidate(from, to, None))),
    }
}

/// The legal moves from `from` to the first `n` squares, in square order.
pub open spec fn moves_from_upto(m: BoardModel, from: Square, n: int) -> Seq<Move>
    decreases n,
{
    if n <= 0 {
        Seq::empty()
    } else {
        moves_from_upto(m, from, n - 1) + moves_to(m, from, square_at(n - 1))
    }
}

/// The legal moves of the piece on `from`; none unless it belongs to the
/// side to move.
pub open spec fn moves_from(m: BoardModel, from: Square) -> Seq<Move> {
    if from.is_on_board() && m.at(from).owner_of() == Some(m.active) {
        moves_from_upto(m, from, 64)
    } else {
        Seq::empty()
    }
}

pub open spec fn all_moves_upto(m: BoardModel, n: int) -> Seq<Move>
    decreases n,
{
    if n <= 0 {
        Seq::empty()
    } else {
        all_moves_upto(m, n - 1) + moves_from(m, square_at(n - 1))
    }
}

/// Every legal move of the side to move, by origin and then destination square.
pub open spec fn legal_moves(m: BoardModel) -> Seq<Move> {
    all_moves_upto(m, 64)
}

/// How a position stands for the side to move.
#[derive(Clone, Copy, PartialEq, Eq, Structural, Debug)]
pub enum Outcome {
    /// The side to move is mated; the other side has won.
    Checkmate(Player),
    /// The side to move has no legal move and is not in check.
    Stalemate,
    Ongoing,
}

pub open spec fn outcome_of(m: BoardModel) -> Outcome {
    if legal_moves(m).len() == 0 {
        if m.check_state(m.active).1.len() > 0 {
            Outcome::Checkmate(m.active.opponent())
        } else {
            Outcome::Stalemate
        }
    } else {
        Outcome::Ongoing
    }
}

/// `mv` is the move a typed candidate asks for: same origin and destination
/// and, for a promotion, the requested piece (a queen when none is named).
pub open spec fn picks(c: MoveCandidate, mv: Move, active: Player) -> bool {
    &&& mv.old_pos == c.old_pos
    &&& mv.new_pos == c.new_pos
    &&& match mv.move_type {
        MoveType::Promotion(p) => p == match c.promote_to {
            Some(q) => q,
            None => Piece::Queen(active),
        },
        _ => true,
    }
}

pub open spec fn check_tuple_of(m: BoardModel, t: (Option<Square>, Vec<Square>)) -> bool {
    t.0 == m.check_state(m.active).0 && t.1@ == m.check_state(m.active).1
}


pub proof fn lemma_first_king_on_board(l: Seq<crate::board::PieceState>)
    requires
        on_board_list(l),
    ensures
        first_king(l) matches Some(k) ==> k.is_on_board(),
    decreases l.len(),
{
    if l.len() > 0 && !l[0].piece_type.is_king() {
        assert(on_board_list(l.drop_first())) by {
            assert forall|i: int| 0 <= i < l.drop_first().len() implies (
            #[trigger] l.drop_first()[i]).pos.is_on_board() by {
                assert(l.drop_first()[i] == l[i + 1]);
            }
        }
        lemma_first_king_on_board(l.drop_first());
    }
}

pub proof fn lemma_checkers_on_board(
    grid: Seq<Piece>,
    l: Seq<crate::board::PieceState>,
    target: Square,
)
    requires
        on_board_list(l),
    ensures
        forall|i: int|
            0 <= i < checkers(grid, l, target).len() ==> (#[trigger] checkers(
                grid,
                l,
                target,
            )[i]).is_on_board(),
    decreases l.len(),
{
    if l.len() > 0 {
        assert(on_board_list(l.drop_last())) by {
            assert forall|i: int| 0 <= i < l.drop_last().len() implies (
            #[trigger] l.drop_last()[i]).pos.is_on_board() by {
                assert(l.drop_last()[i] == l[i]);
            }
        }
        lemma_checkers_on_board(grid, l.drop_last(), target);
        let rest = checkers(grid, l.drop_last(), target);
        let all = checkers(grid, l, target);
        assert forall|i: int| 0 <= i < all.len() implies (#[trigger] all[i]).is_on_board() by {
            if i < rest.len() {
                assert(all[i] == rest[i]);
            } else {
                assert(all[i] == l.last().pos);
            }
        }
    }
}

/// Both piece lists of a well-formed board stand on the board.
pub proof fn lemma_wf_on_board(m: BoardModel)
    requires
        m.wf(),
    ensures
        on_board_list(m.white),
        on_board_list(m.black),
{
}

/// A move the movement rules admit can be played on the board.
pub proof fn lemma_provisional_applicable(m: BoardModel, c: MoveCandidate)
    requires
        m.wf(),
        c.old_pos.is_on_board(),
        c.new_pos.is_on_board(),
        m.at(c.old_pos).owner_of() == Some(m.active),
        m.at(c.new_pos).owner_of() != Some(m.active),
        provisional(m, c) is Some,
    ensures
        m.move_applicable(provisional(m, c)->Some_0),
        mover(provisional(m, c)->Some_0) == m.active,
{
    let from = c.old_pos;
    let to = c.new_pos;
    if let Piece::King(p) = m.at(from) {
        if abs(to.file - from.file) == 2 && to.rank == from.rank {
            let rook = Square { rank: from.rank, file: if to.file > from.file { 8 } else { 1 } };
            assert(passable(m.grid, ray_square(from, rook, 1), Piece::Empty));
            assert(passable(m.grid, ray_square(from, rook, 2), Piece::Empty));
        }
    }
}

fn plain(board: &Board, pc: Piece, from: Square, to: Square) -> (r: Move)
    requires
        board@.grid.len() == 64,
        to.is_on_board(),
    ensures
        r == plain_move(board@, pc, from, to),
{
    let target = board.get(to);
    let move_type = if target == Piece::Empty {
        MoveType::Move
    } else {
        MoveType::Capture(target)
    };
    Move { piece: pc, move_type, old_pos: from, new_pos: to }
}

fn promotion_piece(p: Player, req: Option<Piece>) -> (r: Option<Piece>)
    ensures
        r == promotion_choice(p, req),
{
    match req {
        None => Some(Piece::Queen(p)),
        Some(x) => {
            if x == Piece::Queen(p) || x == Piece::Rook(p) || x == Piece::Bishop(p) || x
                == Piece::Knight(p) {
                Some(x)
            } else {
                None
            }
        },
    }
}

fn pawn_move_kind(board: &Board, p: Player, from: Square, to: Square) -> (r: Option<MoveType>)
    requires
        board@.wf(),
        from.is_on_board(),
        to.is_on_board(),
    ensures
        r == pawn_kind(board@, p, from, to),
{
    let dr: i8 = to.rank - from.rank;
    let df: i8 = to.file - from.file;
    let fwd: i8 = p.sign();
    let target = board.get(to);
    if df == 0 && dr == fwd && target == Piece::Empty {
        return Some(MoveType::Move);
    }
    let start: i8 = match p {
        Player::White => 2,
        Player::Black => 7,
    };
    if df == 0 && dr == 2 * fwd && from.rank == start && target == Piece::Empty {
        let mid = Square { rank: from.rank + fwd, file: from.file };
        if board.get(mid) == Piece::Empty {
            return Some(MoveType::Move);
        }
        return None;
    }
    if (df == 1 || df == -1) && dr == fwd {
        if target.owner() == Some(p.invert()) {
            return Some(MoveType::Capture(target));
        }
        if target == Piece::Empty && board.en_passant_possible(p, from, to) {
            let victim = Square { rank: to.rank - fwd, file: to.file };
            if board.get(victim) == Piece::Pawn(p.invert()) {
                return Some(MoveType::EnPassant);
            }
        }
    }
    None
}

fn castle_attempt(board: &Board, p: Player, from: Square, to: Square) -> (r: Option<Move>)
    requires
        board@.wf(),
        from.is_on_board(),
        to.is_on_board(),
    ensures
        r == castle_move(board@, p, from, to),
{
    proof {
        lemma_wf_on_board(board@);
    }
    let home: i8 = match p {
        Player::White => 1,
        Player::Black => 8,
    };
    if from != (Square { rank: home, file: 5 }) {
        return None;
    }
    let enemy = p.invert();
    if board.any_piece_attacking(enemy, from) {
        return None;
    }
    let rook = Square { rank: from.rank, file: if to.file > from.file { 8 } else { 1 } };
    if !board.has_castle_rights(p, rook) {
        return None;
    }
    if board.get(rook) != Piece::Rook(p) {
        return None;
    }
    if !board.path_clear(from, rook, Piece::Empty) {
        return None;
    }
    let step: i8 = if to.file > from.file {
        1
    } else if to.file < from.file {
        -1
    } else {
        0
    };
    let cross = Square { rank: from.rank, file: from.file + step };
    if board.any_piece_attacking(enemy, cross) || board.any_piece_attacking(enemy, to) {
        return None;
    }
    Some(Move { piece: Piece::King(p), move_type: MoveType::Castle(rook), old_pos: from, new_pos: to })
}

/// The move that the piece on the origin makes by its own movement rule.
fn provisional_move(board: &Board, c: MoveCandidate) -> (r: Option<Move>)
    requires
        board@.wf(),
        c.old_pos.is_on_board(),
        c.new_pos.is_on_board(),
    ensures
        r == provisional(board@, c),
{
    proof {
        lemma_wf_on_board(board@);
    }
    let from = c.old_pos;
    let to = c.new_pos;
    let pc = board.get(from);
    let dr: i8 = to.rank - from.rank;
    let df: i8 = to.file - from.file;
    let adr: i8 = if dr < 0 {
        -dr
    } else {
        dr
    };
    let adf: i8 = if df < 0 {
        -df
    } else {
        df
    };
    let line = (dr == 0) != (df == 0);
    let diagonal = adr == adf && dr != 0;
    match pc {
        Piece::Empty => None,
        Piece::Pawn(p) => match pawn_move_kind(board, p, from, to) {
            None => None,
            Some(k) => {
                let last: i8 = match p {
                    Player::White => 8,
                    Player::Black => 1,
                };
                if to.rank == last {
                    match promotion_piece(p, c.promote_to) {
                        None => None,
                        Some(q) => Some(
                            Move {
                                piece: pc,
                                move_type: MoveType::Promotion(q),
                                old_pos: from,
                                new_pos: to,
                            },
                        ),
                    }
                } else {
                    Some(Move { piece: pc, move_type: k, old_pos: from, new_pos: to })
                }
            },
        },
        Piece::Knight(_) => {
            if (adr == 1 && adf == 2) || (adr == 2 && adf == 1) {
                Some(plain(board, pc, from, to))
            } else {
                None
            }
        },
        Piece::Bishop(_) => {
            if diagonal && board.path_clear(from, to, Piece::Empty) {
                Some(plain(board, pc, from, to))
            } else {
                None
            }
        },
        Piece::Rook(_) => {
            if line && board.path_clear(from, to, Piece::Empty) {
                Some(plain(board, pc, from, to))
            } else {
                None
            }
        },
        Piece::Queen(_) => {
            if (line || diagonal) && board.path_clear(from, to, Piece::Empty) {
                Some(plain(board, pc, from, to))
            } else {
                None
            }
        },
        Piece::King(p) => {
            if adf == 2 && dr == 0 {
                castle_attempt(board, p, from, to)
            } else if adr <= 1 && adf <= 1 {
                if board.any_piece_attacking(p.invert(), to) {
                    None
                } else {
                    Some(plain(board, pc, from, to))
                }
            } else {
                None
            }
        },
    }
}

/// Whether `mv` takes the checking piece on `sq` or blocks its line to `king`.
fn resolves_check(board: &Board, mv: &Move, sq: Square, king: Square) -> (r: bool)
    requires
        board@.grid.len() == 64,
        sq.is_on_board(),
        king.is_on_board(),
        mv.new_pos.is_on_board(),
    ensures
        r == resolves(board@, *mv, sq, king),
{
    let fwd: i8 = match mv.piece.owner() {
        Some(p) => p.sign(),
        None => 1,
    };
    let victim = Square { rank: mv.new_pos.rank - fwd, file: mv.new_pos.file };
    let taken = mv.new_pos == sq || (mv.move_type == MoveType::EnPassant && victim == sq);
    match board.get(sq) {
        Piece::Knight(_) => taken,
        Piece::Pawn(_) => taken,
        _ => {
            if taken {
                return true;
            }
            let dr: i8 = king.rank - sq.rank;
            let df: i8 = king.file - sq.file;
            let aligned = ((dr == 0) != (df == 0)) || ((dr == df || dr == -df) && dr != 0);
            if !aligned {
                return false;
            }
            proof {
                lemma_ray_end(sq, king);
            }
            let dir = get_move_dir(sq, king);
            let ghost n = distance(sq, king);
            let mut cur = sq.add(dir);
            let mut k: i8 = 1;
            while cur != king
                invariant
                    sq.is_on_board(),
                    king.is_on_board(),
                    same_line(sq, king) || same_diagonal(sq, king),
                    n == distance(sq, king),
                    dir.rank == signum(king.rank - sq.rank),
                    dir.file == signum(king.file - sq.file),
                    1 <= k <= n,
                    cur == ray_square(sq, king, k as int),
                    ray_square(sq, king, n) == king,
                    forall|j: int| 0 <= j < n ==> ray_square(sq, king, j) != king,
                    forall|j: int| 0 < j < k ==> #[trigger] ray_square(sq, king, j) != mv.new_pos,
                    !(board@.at(sq) is Knight),
                    !(board@.at(sq) is Pawn),
                    !(mv.new_pos == sq || (mv.move_type == MoveType::EnPassant && en_passant_victim(*mv) == sq)),
                decreases n - k,
            {
                if cur == mv.new_pos {
                    assert(k < n);
                    assert(0 < k < distance(sq, king) && ray_square(sq, king, k as int) == mv.new_pos);
                    return true;
                }
                cur = cur.add(dir);
                k = k + 1;
            }
            false
        },
    }
}

fn resolves_all_checks(board: &Board, mv: &Move, check_tuple: &(Option<Square>, Vec<Square>)) -> (r:
    bool)
    requires
        board@.wf(),
        check_tuple_of(board@, *check_tuple),
        mv.new_pos.is_on_board(),
    ensures
        r == resolves_checks(board@, *mv),
{
    proof {
        lemma_wf_on_board(board@);
        lemma_wf_views(board@, board@.active);
    }
    match check_tuple.0 {
        None => true,
        Some(king) => {
            if let Piece::King(_) = mv.piece {
                return true;
            }
            let ghost m = board@;
            proof {
                lemma_first_king_on_board(m.pieces(m.active));
                lemma_checkers_on_board(m.grid, m.pieces(m.active.opponent()), king);
            }
            let chk = &check_tuple.1;
            let mut i: usize = 0;
            while i < chk.len()
                invariant
                    board@.wf(),
                    king.is_on_board(),
                    mv.new_pos.is_on_board(),
                    chk@ == m.check_state(m.active).1,
                    m == board@,
                    m.check_state(m.active).0 == Some(king),
                    !mv.piece.is_king(),
                    forall|j: int| 0 <= j < chk@.len() ==> (#[trigger] chk@[j]).is_on_board(),
                    0 <= i <= chk@.len(),
                    forall|j: int| 0 <= j < i ==> resolves(m, *mv, #[trigger] chk@[j], king),
                decreases chk@.len() - i,
            {
                if !resolves_check(board, mv, chk[i], king) {
                    assert(!resolves(m, *mv, chk@[i as int], king));
                    return false;
                }
                i = i + 1;
            }
            true
        },
    }
}

/// The legal move that `move_candidate` denotes on `board`, if any: the
/// origin must hold a piece of the side to move, the destination no piece of
/// that side; the piece's movement rule must admit the move; when the side
/// is in check a non-king move must take or block every checking piece; and the
/// move, tried on the board, must not leave the king attacked. The board is
/// left as it was.
pub fn legal_move(
    board: &mut Board,
    move_candidate: MoveCandidate,
    check_tuple: &(Option<Square>, Vec<Square>),
) -> (r: Option<Move>)
    requires
        old(board)@.wf(),
        check_tuple_of(old(board)@, *check_tuple),
    ensures
        final(board)@ == old(board)@,
        r == legal(old(board)@, move_candidate),
        r matches Some(mv) ==> old(board)@.move_applicable(mv) && mover(mv) == old(board)@.active,
{
    let old_pos = move_candidate.old_pos;
    let new_pos = move_candidate.new_pos;
    if !on_board(&old_pos) || !on_board(&new_pos) {
        return None;
    }
    let active = board.active_player();
    if board.get(old_pos).owner() != Some(active) {
        return None;
    }
    if board.get(new_pos).owner() == Some(active) {
        return None;
    }
    let potential = match provisional_move(board, move_candidate) {
        None => {
            return None;
        },
        Some(mv) => mv,
    };
    proof {
        lemma_provisional_applicable(board@, move_candidate);
    }
    if !resolves_all_checks(board, &potential, check_tuple) {
        return None;
    }
    match check_tuple.0 {
        None => Some(potential),
        Some(king) => {
            proof {
                lemma_wf_on_board(board@);
                lemma_first_king_on_board(board@.pieces(active));
            }
            board.king_safe_after_move(king, potential)
        },
    }
}


fn push_legal(
    board: &mut Board,
    res: &mut Vec<Move>,
    c: MoveCandidate,
    check_tuple: &(Option<Square>, Vec<Square>),
)
    requires
        old(board)@.wf(),
        check_tuple_of(old(board)@, *check_tuple),
    ensures
        final(board)@ == old(board)@,
        final(res)@ == old(res)@ + opt_seq(legal(old(board)@, c)),
{
    match legal_move(board, c, check_tuple) {
        Some(mv) => {
            res.push(mv);
            assert(res@ =~= old(res)@ + seq![mv]);
        },
        None => {
            assert(res@ =~= old(res)@ + Seq::<Move>::empty());
        },
    }
}

fn moves_to_square(
    board: &mut Board,
    from: Square,
    to: Square,
    check_tuple: &(Option<Square>, Vec<Square>),
) -> (r: Vec<Move>)
    requires
        old(board)@.wf(),
        check_tuple_of(old(board)@, *check_tuple),
        from.is_on_board(),
    ensures
        final(board)@ == old(board)@,
        r@ == moves_to(old(board)@, from, to),
{
    let ghost m = board@;
    let mut res: Vec<Move> = Vec::new();
    let pc = board.get(from);
    if let Piece::Pawn(p) = pc {
        let last: i8 = match p {
            Player::White => 8,
            Player::Black => 1,
        };
        if to.rank == last {
            push_legal(board, &mut res, MoveCandidate { old_pos: from, new_pos: to, promote_to: Some(Piece::Queen(p)) }, check_tuple);
            push_legal(board, &mut res, MoveCandidate { old_pos: from, new_pos: to, promote_to: Some(Piece::Rook(p)) }, check_tuple);
            push_legal(board, &mut res, MoveCandidate { old_pos: from, new_pos: to, promote_to: Some(Piece::Bishop(p)) }, check_tuple);
            push_legal(board, &mut res, MoveCandidate { old_pos: from, new_pos: to, promote_to: Some(Piece::Knight(p)) }, check_tuple);
            assert(res@ =~= moves_to(m, from, to));
            return res;
        }
    }
    push_legal(board, &mut res, MoveCandidate { old_pos: from, new_pos: to, promote_to: None }, check_tuple);
    assert(res@ =~= moves_to(m, from, to));
    res
}

/// The legal moves of the piece on `piece_pos`, by destination square; none
/// unless it belongs to the side to move. The board is left as it was.
pub fn get_possible_moves_from_square(
    board: &mut Board,
    piece_pos: Square,
    check_tuple: &(Option<Square>, Vec<Square>),
) -> (r: Vec<Move>)
    requires
        old(board)@.wf(),
        check_tuple_of(old(board)@, *check_tuple),
    ensures
        final(board)@ == old(board)@,
        r@ == moves_from(old(board)@, piece_pos),
{
    let ghost m = board@;
    if !on_board(&piece_pos) {
        return Vec::new();
    }
    let piece_type = board.get(piece_pos);
    if piece_type.owner() != Some(board.active_player()) {
        return Vec::new();
    }
    let mut res: Vec<Move> = Vec::new();
    let mut n: usize = 0;
    let mut rank: i8 = 1;
    let mut file: i8 = 1;
    while n < 64
        invariant
            board@ == m,
            m.wf(),
            check_tuple_of(m, *check_tuple),
            piece_pos.is_on_board(),
            0 <= n <= 64,
            1 <= file <= 8,
            1 <= rank <= 9,
            n == (rank - 1) * 8 + (file - 1),
            res@ == moves_from_upto(m, piece_pos, n as int),
        decreases 64 - n,
    {
        let to = Square { rank, file };
        assert(to == square_at(n as int));
        let mut v = moves_to_square(board, piece_pos, to, check_tuple);
        res.append(&mut v);
        n = n + 1;
        if file == 8 {
            file = 1;
            rank = rank + 1;
        } else {
            file = file + 1;
        }
    }
    res
}

/// Every legal move of the side to move. The board is left as it was.
pub fn get_possible_moves(board: &mut Board) -> (r: Vec<Move>)
    requires
        old(board)@.wf(),
    ensures
        final(board)@ == old(board)@,
        r@ == legal_moves(old(board)@),
{
    let ghost m = board@;
    let check_tuple = board.in_check(board.active_player());
    let mut res: Vec<Move> = Vec::new();
    let mut n: usize = 0;
    let mut rank: i8 = 1;
    let mut file: i8 = 1;
    while n < 64
        invariant
            board@ == m,
            m.wf(),
            check_tuple_of(m, check_tuple),
            0 <= n <= 64,
            1 <= file <= 8,
            1 <= rank <= 9,
            n == (rank - 1) * 8 + (file - 1),
            res@ == all_moves_upto(m, n as int),
        decreases 64 - n,
    {
        let from = Square { rank, file };
        assert(from == square_at(n as int));
        let mut v = get_possible_moves_from_square(board, from, &check_tuple);
        res.append(&mut v);
        n = n + 1;
        if file == 8 {
            file = 1;
            rank = rank + 1;
        } else {
            file = file + 1;
        }
    }
    res
}

/// The first move of `moves` that the typed candidate asks for.
pub fn find_move(moves: &Vec<Move>, c: MoveCandidate, active: Player) -> (r: Option<Move>)
    ensures
        match r {
            Some(mv) => exists|i: int|
                0 <= i < moves@.len() && moves@[i] == mv && picks(c, mv, active) && forall|j: int|
                    0 <= j < i ==> !picks(c, #[trigger] moves@[j], active),
            None => forall|j: int| 0 <= j < moves@.len() ==> !picks(c, #[trigger] moves@[j], active),
        },
{
    let wanted = match c.promote_to {
        Some(q) => q,
        None => Piece::Queen(active),
    };
    let mut i: usize = 0;
    while i < moves.len()
        invariant
            0 <= i <= moves@.len(),
            wanted == match c.promote_to {
                Some(q) => q,
                None => Piece::Queen(active),
            },
            forall|j: int| 0 <= j < i ==> !picks(c, #[trigger] moves@[j], active),
        decreases moves@.len() - i,
    {
        let mv = moves[i];
        let kind_ok = match mv.move_type {
            MoveType::Promotion(p) => p == wanted,
            _ => true,
        };
        if mv.old_pos == c.old_pos && mv.new_pos == c.new_pos && kind_ok {
            assert(picks(c, moves@[i as int], active));
            return Some(mv);
        }
        i = i + 1;
    }
    None
}

/// Checkmate when the side to move has no legal move and is in check,
/// stalemate when it has none and is not in check.
pub fn evaluate(board: &mut Board) -> (r: Outcome)
    requires
        old(board)@.wf(),
    ensures
        final(board)@ == old(board)@,
        r == outcome_of(old(board)@),
{
    let active = board.active_player();
    let moves = get_possible_moves(board);
    if moves.len() > 0 {
        return Outcome::Ongoing;
    }
    let (_, checkers) = board.in_check(active);
    if checkers.len() > 0 {
        Outcome::Checkmate(active.invert())
    } else {
        Outcome::Stalemate
    }
}

} // verus!
