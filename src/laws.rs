use vstd::prelude::*;

use crate::board::{
    castle_rook_target, en_passant_victim, grid_after, lemma_listed, lemma_relocate, lemma_remove,
    lemma_retype, lemma_wf_views, mover, relocated, removed, retyped, rights_after, views_agree,
    entry_at, BoardModel, CastleRights,
};
use crate::piece::{Piece, Player};
use crate::pos::{abs, Move, MoveCandidate, MoveType, Square};
use crate::validator::{
    candidate, last_rank, legal, lemma_provisional_applicable, moves_from, moves_from_upto,
    moves_to, provisional, square_at,
};

verus! {

proof fn lemma_views_swap(grid: Seq<Piece>, l: Seq<crate::board::PieceState>, owner: Player, lo: Seq<crate::board::PieceState>)
    requires
        views_agree(grid, l, owner, lo),
    ensures
        views_agree(grid, lo, owner.opponent(), l),
{
    assert(owner.opponent().opponent() == owner);
}

proof fn lemma_step_relocate(
    grid: Seq<Piece>,
    l: Seq<crate::board::PieceState>,
    owner: Player,
    lo: Seq<crate::board::PieceState>,
    from: Square,
    to: Square,
)
    requires
        views_agree(grid, l, owner, lo),
        from.is_on_board(),
        to.is_on_board(),
        grid[from.index()].owner_of() == Some(owner),
        grid[to.index()] == Piece::Empty,
    ensures
        views_agree(
            grid.update(from.index(), Piece::Empty).update(to.index(), grid[from.index()]),
            relocated(l, from, to),
            owner,
            lo,
        ),
{
    lemma_listed(grid, l, owner, from);
    let i = entry_at(l, from);
    assert(l[i].pos == from);
    lemma_relocate(grid, l, owner, lo, i, to);
}

proof fn lemma_step_remove(
    grid: Seq<Piece>,
    l: Seq<crate::board::PieceState>,
    owner: Player,
    lo: Seq<crate::board::PieceState>,
    at: Square,
)
    requires
        views_agree(grid, l, owner, lo),
        at.is_on_board(),
        grid[at.index()].owner_of() == Some(owner),
    ensures
        views_agree(grid.update(at.index(), Piece::Empty), removed(l, at), owner, lo),
{
    lemma_listed(grid, l, owner, at);
    let i = entry_at(l, at);
    assert(l[i].pos == at);
    lemma_remove(grid, l, owner, lo, i);
}

proof fn lemma_step_retype(
    grid: Seq<Piece>,
    l: Seq<crate::board::PieceState>,
    owner: Player,
    lo: Seq<crate::board::PieceState>,
    at: Square,
    to: Piece,
)
    requires
        views_agree(grid, l, owner, lo),
        at.is_on_board(),
        grid[at.index()].owner_of() == Some(owner),
        to.owner_of() == Some(owner),
    ensures
        views_agree(grid.update(at.index(), to), retyped(l, at, to), owner, lo),
{
    lemma_listed(grid, l, owner, at);
    let i = entry_at(l, at);
    assert(l[i].pos == at);
    lemma_retype(grid, l, owner, lo, i, to);
}

/// Playing a move keeps the grid and the piece lists in step: every move
/// that fits a well-formed board, in particular every move the legality
/// pipeline returns, leaves a well-formed board.
pub proof fn lemma_play_keeps_invariant(m: BoardModel, mv: Move)
    requires
        m.wf(),
        m.move_applicable(mv),
    ensures
        m.after(mv).wf(),
{
    let p = mover(mv);
    let o = p.opponent();
    let own = m.pieces(p);
    let opp = m.pieces(o);
    let g = m.grid;
    let from = mv.old_pos;
    let to = mv.new_pos;
    let a = m.after(mv);
    lemma_wf_views(m, p);
    match mv.move_type {
        MoveType::Move => {
            lemma_step_relocate(g, own, p, opp, from, to);
        },
        MoveType::Capture(_) => {
            lemma_views_swap(g, own, p, opp);
            lemma_step_remove(g, opp, o, own, to);
            let g1 = g.update(to.index(), Piece::Empty);
            lemma_views_swap(g1, removed(opp, to), o, own);
            assert(o.opponent() == p);
            lemma_step_relocate(g1, own, p, removed(opp, to), from, to);
            assert(g1.update(from.index(), Piece::Empty).update(to.index(), g1[from.index()])
                =~= grid_after(g, mv));
        },
        MoveType::EnPassant => {
            let v = en_passant_victim(mv);
            lemma_views_swap(g, own, p, opp);
            lemma_step_remove(g, opp, o, own, v);
            let g1 = g.update(v.index(), Piece::Empty);
            lemma_views_swap(g1, removed(opp, v), o, own);
            assert(o.opponent() == p);
            lemma_step_relocate(g1, own, p, removed(opp, v), from, to);
            assert(g1.update(from.index(), Piece::Empty).update(to.index(), g1[from.index()])
                =~= grid_after(g, mv));
        },
        MoveType::Castle(rook) => {
            let rt = castle_rook_target(mv, rook);
            lemma_step_relocate(g, own, p, opp, rook, rt);
            let g1 = g.update(rook.index(), Piece::Empty).update(rt.index(), g[rook.index()]);
            lemma_step_relocate(g1, relocated(own, rook, rt), p, opp, from, to);
            assert(g1.update(from.index(), Piece::Empty).update(to.index(), g1[from.index()])
                =~= grid_after(g, mv));
        },
        MoveType::Promotion(q) => {
            if m.at(to) == Piece::Empty {
                lemma_step_relocate(g, own, p, opp, from, to);
                let g1 = g.update(from.index(), Piece::Empty).update(to.index(), g[from.index()]);
                lemma_step_retype(g1, relocated(own, from, to), p, opp, to, q);
                assert(g1.update(to.index(), q) =~= grid_after(g, mv));
            } else {
                lemma_views_swap(g, own, p, opp);
                lemma_step_remove(g, opp, o, own, to);
                let g0 = g.update(to.index(), Piece::Empty);
                lemma_views_swap(g0, removed(opp, to), o, own);
                assert(o.opponent() == p);
                lemma_step_relocate(g0, own, p, removed(opp, to), from, to);
                let g1 = g0.update(from.index(), Piece::Empty).update(to.index(), g0[from.index()]);
                lemma_step_retype(g1, relocated(own, from, to), p, removed(opp, to), to, q);
                assert(g1.update(to.index(), q) =~= grid_after(g, mv));
            }
        },
    }
    lemma_wf_views(a, p);
}

/// Playing a move adds one ply, hands the move to the other side, records
/// the move, and moves the last pawn ply to the new ply exactly when a pawn
/// moved.
pub proof fn lemma_play_counters(m: BoardModel, mv: Move)
    ensures
        m.after(mv).move_count == m.move_count + 1,
        m.after(mv).active == m.active.opponent(),
        m.after(mv).last_move == Some(mv),
        mv.piece is Pawn ==> m.after(mv).last_pawn_move == m.after(mv).move_count,
        !(mv.piece is Pawn) ==> m.after(mv).last_pawn_move == m.last_pawn_move,
{
}

/// En passant answers only the move just played: on a board whose last
/// move was anything but a two-square pawn push, no legal move takes en
/// passant. Since playing a move makes it the last move, the chance to take
/// a pushed pawn lasts exactly one ply.
pub proof fn lemma_en_passant_expires(m: BoardModel, c: MoveCandidate)
    requires
        m.wf(),
        match m.last_move {
            Some(mv) => !(mv.piece is Pawn && abs(mv.new_pos.rank - mv.old_pos.rank) == 2),
            None => true,
        },
    ensures
        legal(m, c) matches Some(r) ==> r.move_type != MoveType::EnPassant,
{
}

/// En passant takes exactly the pawn that was just pushed two squares: the
/// last move pushed an enemy pawn two ranks onto the square behind the
/// destination.
pub proof fn lemma_en_passant_target(m: BoardModel, c: MoveCandidate)
    requires
        m.wf(),
        legal(m, c) matches Some(r) && r.move_type == MoveType::EnPassant,
    ensures
        m.last_move matches Some(mv) && mv.piece == Piece::Pawn(m.active.opponent()) && abs(
            mv.new_pos.rank - mv.old_pos.rank,
        ) == 2 && mv.new_pos.file == c.new_pos.file && mv.new_pos.rank == c.new_pos.rank
            - m.active.forward(),
{
}

/// A pawn move onto the last rank comes as exactly four moves, promoting to
/// queen, rook, bishop and knight, and never as a plain move.
pub proof fn lemma_promotion_complete(m: BoardModel, from: Square, to: Square, p: Player)
    requires
        m.wf(),
        m.at(from) == Piece::Pawn(p),
        to.rank == last_rank(p),
        moves_to(m, from, to).len() > 0,
    ensures
        moves_to(m, from, to).len() == 4,
        moves_to(m, from, to)[0].move_type == MoveType::Promotion(Piece::Queen(p)),
        moves_to(m, from, to)[1].move_type == MoveType::Promotion(Piece::Rook(p)),
        moves_to(m, from, to)[2].move_type == MoveType::Promotion(Piece::Bishop(p)),
        moves_to(m, from, to)[3].move_type == MoveType::Promotion(Piece::Knight(p)),
        forall|i: int|
            0 <= i < 4 ==> (#[trigger] moves_to(m, from, to)[i]).old_pos == from && moves_to(
                m,
                from,
                to,
            )[i].new_pos == to,
{
    let q = legal(m, candidate(from, to, Some(Piece::Queen(p))));
    let r = legal(m, candidate(from, to, Some(Piece::Rook(p))));
    let b = legal(m, candidate(from, to, Some(Piece::Bishop(p))));
    let n = legal(m, candidate(from, to, Some(Piece::Knight(p))));
    assert(q is Some || r is Some || b is Some || n is Some);
    assert(q is Some && r is Some && b is Some && n is Some);
    let all = moves_to(m, from, to);
    assert(all =~= seq![q->Some_0, r->Some_0, b->Some_0, n->Some_0]);
}

/// Castling needs the wing's right; rights are never granted back by a
/// move; and a move of the king, or one from or onto a wing's rook corner,
/// takes that wing's right away for good.
pub proof fn lemma_castle_gating(m: BoardModel, c: MoveCandidate, r: CastleRights, side: Player, mv: Move)
    ensures
        legal(m, c) is Some && legal(m, c)->Some_0.move_type is Castle ==> m.castle_right(
            m.active,
            legal(m, c)->Some_0.move_type->Castle_0,
        ),
        rights_after(r, side, mv).kingside ==> r.kingside,
        rights_after(r, side, mv).queenside ==> r.queenside,
        mv.piece == Piece::King(side) ==> !rights_after(r, side, mv).kingside && !rights_after(
            r,
            side,
            mv,
        ).queenside,
        mv.old_pos == (Square { rank: if side == Player::White { 1 } else { 8 }, file: 8 })
            ==> !rights_after(r, side, mv).kingside,
        mv.old_pos == (Square { rank: if side == Player::White { 1 } else { 8 }, file: 1 })
            ==> !rights_after(r, side, mv).queenside,
{
}


/// Every move the legality pipeline returns fits the board, so it can be
/// played, and it is a move of the side to move.
pub proof fn lemma_legal_applicable(m: BoardModel, c: MoveCandidate)
    requires
        m.wf(),
        legal(m, c) is Some,
    ensures
        m.move_applicable(legal(m, c)->Some_0),
        mover(legal(m, c)->Some_0) == m.active,
{
    lemma_provisional_applicable(m, c);
}

proof fn lemma_moves_to_shape(m: BoardModel, from: Square, to: Square, p: Player)
    requires
        m.at(from) == Piece::Pawn(p),
        to.rank == last_rank(p),
    ensures
        forall|i: int|
            0 <= i < moves_to(m, from, to).len() ==> (#[trigger] moves_to(m, from, to)[i]).move_type
                is Promotion,
{
    let q = legal(m, candidate(from, to, Some(Piece::Queen(p))));
    let r = legal(m, candidate(from, to, Some(Piece::Rook(p))));
    let b = legal(m, candidate(from, to, Some(Piece::Bishop(p))));
    let n = legal(m, candidate(from, to, Some(Piece::Knight(p))));
    assert(q is Some ==> q->Some_0.move_type is Promotion);
    assert(r is Some ==> r->Some_0.move_type is Promotion);
    assert(b is Some ==> b->Some_0.move_type is Promotion);
    assert(n is Some ==> n->Some_0.move_type is Promotion);
}

proof fn lemma_moves_from_upto_promote(m: BoardModel, from: Square, p: Player, n: int)
    requires
        m.at(from) == Piece::Pawn(p),
    ensures
        forall|i: int|
            0 <= i < moves_from_upto(m, from, n).len() && (#[trigger] moves_from_upto(m, from, n)[i]).new_pos.rank
                == last_rank(p) ==> moves_from_upto(m, from, n)[i].move_type is Promotion,
    decreases n,
{
    if n > 0 {
        lemma_moves_from_upto_promote(m, from, p, n - 1);
        let a = moves_from_upto(m, from, n - 1);
        let to = square_at(n - 1);
        let b = moves_to(m, from, to);
        assert(forall|i: int| 0 <= i < b.len() ==> (#[trigger] b[i]).new_pos == to) by {
            assert forall|i: int| 0 <= i < b.len() implies (#[trigger] b[i]).new_pos == to by {
                let q = legal(m, candidate(from, to, Some(Piece::Queen(p))));
                let r = legal(m, candidate(from, to, Some(Piece::Rook(p))));
                let bb = legal(m, candidate(from, to, Some(Piece::Bishop(p))));
                let k = legal(m, candidate(from, to, Some(Piece::Knight(p))));
                let z = legal(m, candidate(from, to, None));
                assert(q is Some ==> q->Some_0.new_pos == to);
                assert(r is Some ==> r->Some_0.new_pos == to);
                assert(bb is Some ==> bb->Some_0.new_pos == to);
                assert(k is Some ==> k->Some_0.new_pos == to);
                assert(z is Some ==> z->Some_0.new_pos == to);
            }
        }
        if to.rank == last_rank(p) {
            lemma_moves_to_shape(m, from, to, p);
        }
        let all = moves_from_upto(m, from, n);
        assert(all == a + b);
        assert forall|i: int|
            0 <= i < all.len() && (#[trigger] all[i]).new_pos.rank == last_rank(p) implies all[i].move_type is Promotion by {
            if i >= a.len() {
                assert(all[i] == b[i - a.len()]);
            } else {
                assert(all[i] == a[i]);
            }
        }
    }
}

/// A pawn never reaches its last rank by a plain move or capture: among the
/// legal moves of a pawn, every one onto the last rank is a promotion (and
/// each destination there carries the four promotions, as
/// `lemma_promotion_complete` states).
pub proof fn lemma_pawn_moves_promote(m: BoardModel, from: Square, p: Player)
    requires
        m.at(from) == Piece::Pawn(p),
    ensures
        forall|i: int|
            0 <= i < moves_from(m, from).len() && (#[trigger] moves_from(m, from)[i]).new_pos.rank
                == last_rank(p) ==> moves_from(m, from)[i].move_type is Promotion,
{
    lemma_moves_from_upto_promote(m, from, p, 64);
}

/// The board after playing `moves` in order.
pub open spec fn play_all(m: BoardModel, moves: Seq<Move>) -> BoardModel
    decreases moves.len(),
{
    if moves.len() == 0 {
        m
    } else {
        play_all(m.after(moves[0]), moves.drop_first())
    }
}

proof fn lemma_rights_stay_lost(m: BoardModel, moves: Seq<Move>, side: Player)
    ensures
        !m.rights(side).kingside ==> !play_all(m, moves).rights(side).kingside,
        !m.rights(side).queenside ==> !play_all(m, moves).rights(side).queenside,
    decreases moves.len(),
{
    if moves.len() > 0 {
        lemma_rights_stay_lost(m.after(moves[0]), moves.drop_first(), side);
    }
}

/// Once a rook leaves its corner, its wing can never be castled again,
/// whatever moves follow: the right is gone in every later position, and no
/// legal move of that side castles with that corner.
pub proof fn lemma_castle_lost_for_good(
    m: BoardModel,
    moves: Seq<Move>,
    side: Player,
    kingside: bool,
    c: MoveCandidate,
)
    requires
        moves.len() > 0,
        moves[0].old_pos == (Square {
            rank: if side == Player::White { 1 } else { 8 },
            file: if kingside { 8 } else { 1 },
        }),
    ensures
        kingside ==> !play_all(m, moves).rights(side).kingside,
        !kingside ==> !play_all(m, moves).rights(side).queenside,
        play_all(m, moves).active == side && legal(play_all(m, moves), c) is Some ==> legal(
            play_all(m, moves),
            c,
        )->Some_0.move_type != MoveType::Castle(
            Square {
                rank: if side == Player::White { 1 } else { 8 },
                file: if kingside { 8 } else { 1 },
            },
        ),
{
    let m1 = m.after(moves[0]);
    assert(side == Player::White || side == Player::Black);
    lemma_rights_stay_lost(m1, moves.drop_first(), side);
    let end = play_all(m, moves);
    lemma_castle_gating(end, c, end.white_rights, side, moves[0]);
}

} // verus!
