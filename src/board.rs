use vstd::prelude::*;

use crate::piece::{Piece, Player};
use crate::fen::{
    fen_describes, implied_push_at, read_active_field, read_castling_field, read_number_field,
    read_placement, skip_to_next_field,
};
use crate::pos::{abs, get_move_dir, signum, Move, MoveType, Square};
use vstd::string::StringSliceAdditionalSpecFns;

verus! {

/// A piece together with the square it stands on: one entry of a side's
/// piece list.
#[derive(Clone, Copy, PartialEq, Eq, Structural, Debug)]
pub struct PieceState {
    pub piece_type: Piece,
    pub pos: Square,
}

/// The wings on which a side may still castle.
#[derive(Clone, Copy, PartialEq, Eq, Structural, Debug)]
pub struct CastleRights {
    pub kingside: bool,
    pub queenside: bool,
}

pub open spec fn gcd(a: nat, b: nat) -> nat
    decreases b,
{
    if b == 0 {
        a
    } else {
        gcd(b, a % b)
    }
}

/// The difference of two squares, divided by the greatest common divisor of
/// its components (a zero difference stays zero).
pub fn chess_factor(old_pos: Square, new_pos: Square) -> (r: Square)
    requires
        old_pos.is_on_board(),
        new_pos.is_on_board(),
    ensures
        ({
            let dr = new_pos.rank - old_pos.rank;
            let df = new_pos.file - old_pos.file;
            let g = gcd(abs(dr) as nat, abs(df) as nat) as int;
            if g == 0 {
                r.rank == 0 && r.file == 0
            } else {
                r.rank == signum(dr) * (abs(dr) / g) && r.file == signum(df) * (abs(df) / g)
            }
        }),
{
    let rank_diff: i8 = new_pos.rank - old_pos.rank;
    let file_diff: i8 = new_pos.file - old_pos.file;
    let dr: u8 = if rank_diff < 0 {
        (-rank_diff) as u8
    } else {
        rank_diff as u8
    };
    let df: u8 = if file_diff < 0 {
        (-file_diff) as u8
    } else {
        file_diff as u8
    };
    let mut a: u8 = dr;
    let mut b: u8 = df;
    while b != 0
        invariant
            gcd(a as nat, b as nat) == gcd(dr as nat, df as nat),
            a <= 7,
            b <= 7,
        decreases b,
    {
        let t: u8 = a % b;
        assert(t < b) by (nonlinear_arith)
            requires
                t == a % b,
                b > 0,
        ;
        a = b;
        b = t;
    }
    assert(gcd(a as nat, 0) == a);
    if a == 0 {
        return Square { rank: 0, file: 0 };
    }
    let qr: u8 = dr / a;
    let qf: u8 = df / a;
    proof {
        assert(dr / a <= dr) by (nonlinear_arith)
            requires
                a >= 1,
        ;
        assert(df / a <= df) by (nonlinear_arith)
            requires
                a >= 1,
        ;
    }
    let rank: i8 = if rank_diff < 0 {
        -(qr as i8)
    } else {
        qr as i8
    };
    let file: i8 = if file_diff < 0 {
        -(qf as i8)
    } else {
        qf as i8
    };
    assert(abs(rank_diff as int) == dr as int);
    assert(gcd(abs(rank_diff as int) as nat, abs(file_diff as int) as nat) == a);
    assert(rank == signum(rank_diff as int) * (dr / a));
    Square { rank, file }
}


/// `k` steps in the direction of the sign of `d`.
pub open spec fn toward(d: int, k: int) -> int {
    if d > 0 {
        k
    } else if d < 0 {
        -k
    } else {
        0
    }
}

/// The k-th square on the straight line from `from` towards `to`.
pub open spec fn ray_square(from: Square, to: Square, k: int) -> Square {
    Square {
        rank: (from.rank + toward(to.rank - from.rank, k)) as i8,
        file: (from.file + toward(to.file - from.file, k)) as i8,
    }
}

/// The number of king steps from one square to another.
pub open spec fn distance(from: Square, to: Square) -> int {
    let dr = abs(to.rank - from.rank);
    let df = abs(to.file - from.file);
    if dr > df {
        dr
    } else {
        df
    }
}

pub open spec fn same_line(from: Square, to: Square) -> bool {
    (from.rank == to.rank) != (from.file == to.file)
}

pub open spec fn same_diagonal(from: Square, to: Square) -> bool {
    abs(to.rank - from.rank) == abs(to.file - from.file) && from.rank != to.rank
}

pub open spec fn grid_at(grid: Seq<Piece>, s: Square) -> Piece {
    grid[s.index()]
}

/// A square a line passes: empty, or holding the one piece that is seen through.
pub open spec fn passable(grid: Seq<Piece>, s: Square, see_through: Piece) -> bool {
    grid_at(grid, s) == Piece::Empty || grid_at(grid, s) == see_through
}

/// Every square strictly between `from` and `to` on their line is passable.
pub open spec fn ray_clear(grid: Seq<Piece>, from: Square, to: Square, see_through: Piece) -> bool {
    forall|k: int|
        0 < k < distance(from, to) ==> #[trigger] passable(
            grid,
            ray_square(from, to, k),
            see_through,
        )
}

/// A line ends at its target after `distance` steps, and not before.
pub proof fn lemma_ray_end(from: Square, to: Square)
    requires
        from.is_on_board(),
        to.is_on_board(),
        same_line(from, to) || same_diagonal(from, to),
    ensures
        ray_square(from, to, distance(from, to)) == to,
        forall|k: int| 0 <= k < distance(from, to) ==> ray_square(from, to, k) != to,
        forall|k: int| 0 < k < distance(from, to) ==> (#[trigger] ray_square(from, to, k)).is_on_board(),
{
}

/// Whether the piece `ps` threatens `target` on `grid`. Lines of sliding
/// pieces are blocked by every piece except the king of the other side,
/// which they see through.
pub open spec fn attacks(grid: Seq<Piece>, ps: PieceState, target: Square) -> bool {
    let dr = target.rank - ps.pos.rank;
    let df = target.file - ps.pos.file;
    match ps.piece_type {
        Piece::Empty => false,
        Piece::Pawn(p) => abs(df) == 1 && dr == p.forward(),
        Piece::King(_) => abs(dr) <= 1 && abs(df) <= 1 && !(dr == 0 && df == 0),
        Piece::Knight(_) => (abs(dr) == 1 && abs(df) == 2) || (abs(dr) == 2 && abs(df) == 1),
        Piece::Bishop(p) => same_diagonal(ps.pos, target) && ray_clear(
            grid,
            ps.pos,
            target,
            Piece::King(p.opponent()),
        ),
        Piece::Rook(p) => same_line(ps.pos, target) && ray_clear(
            grid,
            ps.pos,
            target,
            Piece::King(p.opponent()),
        ),
        Piece::Queen(p) => (same_line(ps.pos, target) || same_diagonal(ps.pos, target))
            && ray_clear(grid, ps.pos, target, Piece::King(p.opponent())),
    }
}

/// Whether some piece of `list`, other than one standing on `except`,
/// threatens `target`.
pub open spec fn attacked(
    grid: Seq<Piece>,
    list: Seq<PieceState>,
    target: Square,
    except: Option<Square>,
) -> bool {
    exists|i: int|
        0 <= i < list.len() && except != Some(list[i].pos) && #[trigger] attacks(
            grid,
            list[i],
            target,
        )
}

/// The squares of the pieces of `list` that threaten `target`, in list order.
pub open spec fn checkers(grid: Seq<Piece>, list: Seq<PieceState>, target: Square) -> Seq<Square>
    decreases list.len(),
{
    if list.len() == 0 {
        Seq::empty()
    } else {
        let rest = checkers(grid, list.drop_last(), target);
        if attacks(grid, list.last(), target) {
            rest.push(list.last().pos)
        } else {
            rest
        }
    }
}

/// The square of the first king in `list`.
pub open spec fn first_king(list: Seq<PieceState>) -> Option<Square>
    decreases list.len(),
{
    if list.len() == 0 {
        None
    } else if list[0].piece_type.is_king() {
        Some(list[0].pos)
    } else {
        first_king(list.drop_first())
    }
}

pub open spec fn on_board_list(l: Seq<PieceState>) -> bool {
    forall|i: int| 0 <= i < l.len() ==> (#[trigger] l[i]).pos.is_on_board()
}

/// The side that makes a move.
pub open spec fn mover(mv: Move) -> Player {
    match mv.piece.owner_of() {
        Some(p) => p,
        None => Player::White,
    }
}

/// The square of the pawn that an en passant capture takes.
pub open spec fn en_passant_victim(mv: Move) -> Square {
    Square { rank: (mv.new_pos.rank - mover(mv).forward()) as i8, file: mv.new_pos.file }
}

/// Where the rook from `rook` lands when the king castles with `mv`.
pub open spec fn castle_rook_target(mv: Move, rook: Square) -> Square {
    Square {
        rank: mv.new_pos.rank,
        file: (mv.new_pos.file - (if rook.file == 8 {
            1int
        } else {
            -1int
        })) as i8,
    }
}

/// The grid after a move is played on it.
pub open spec fn grid_after(grid: Seq<Piece>, mv: Move) -> Seq<Piece> {
    let from = mv.old_pos.index();
    let to = mv.new_pos.index();
    match mv.move_type {
        MoveType::EnPassant => grid.update(en_passant_victim(mv).index(), Piece::Empty).update(
            from,
            Piece::Empty,
        ).update(to, mv.piece),
        MoveType::Promotion(pc) => grid.update(from, Piece::Empty).update(to, pc),
        MoveType::Castle(rook) => grid.update(rook.index(), Piece::Empty).update(
            castle_rook_target(mv, rook).index(),
            grid[rook.index()],
        ).update(from, Piece::Empty).update(to, mv.piece),
        _ => grid.update(from, Piece::Empty).update(to, mv.piece),
    }
}

/// `side`'s castling rights after a move: a wing is lost once the king
/// moves, or once a move leaves from or lands on that wing's rook corner.
pub open spec fn rights_after(r: CastleRights, side: Player, mv: Move) -> CastleRights {
    let home: i8 = if side == Player::White {
        1
    } else {
        8
    };
    let king_moved = mv.piece == Piece::King(side);
    let ks = Square { rank: home, file: 8 };
    let qs = Square { rank: home, file: 1 };
    CastleRights {
        kingside: r.kingside && !king_moved && mv.old_pos != ks && mv.new_pos != ks,
        queenside: r.queenside && !king_moved && mv.old_pos != qs && mv.new_pos != qs,
    }
}

/// The index of the entry standing on `s`.
pub open spec fn entry_at(l: Seq<PieceState>, s: Square) -> int {
    choose|i: int| 0 <= i < l.len() && l[i].pos == s
}

/// The list with the entry on `from` moved to `to`.
pub open spec fn relocated(l: Seq<PieceState>, from: Square, to: Square) -> Seq<PieceState> {
    let i = entry_at(l, from);
    l.update(i, PieceState { piece_type: l[i].piece_type, pos: to })
}

/// The list with the entry on `s` taken out, the last entry taking its place.
pub open spec fn removed(l: Seq<PieceState>, s: Square) -> Seq<PieceState> {
    l.update(entry_at(l, s), l.last()).drop_last()
}

/// The list with the entry on `s` holding the piece `p`.
pub open spec fn retyped(l: Seq<PieceState>, s: Square, p: Piece) -> Seq<PieceState> {
    l.update(entry_at(l, s), PieceState { piece_type: p, pos: s })
}

/// Every entry stands on the board, on a square that holds exactly its piece,
/// the piece belongs to `owner`, and no two entries share a square.
pub open spec fn list_matches(grid: Seq<Piece>, list: Seq<PieceState>, owner: Player) -> bool {
    &&& forall|i: int|
        0 <= i < list.len() ==> {
            &&& (#[trigger] list[i]).pos.is_on_board()
            &&& grid[list[i].pos.index()] == list[i].piece_type
            &&& list[i].piece_type.owner_of() == Some(owner)
        }
    &&& forall|i: int, j: int|
        0 <= i < list.len() && 0 <= j < list.len() && i != j ==> #[trigger] list[i].pos
            != #[trigger] list[j].pos
}

/// Every square of the grid that holds a piece of `owner` has an entry in `list`.
#[verifier::opaque]
pub open spec fn list_covers(grid: Seq<Piece>, list: Seq<PieceState>, owner: Player) -> bool {
    forall|n: int|
        0 <= n < 64 && (#[trigger] grid[n]).owner_of() == Some(owner) ==> exists|i: int|
            0 <= i < list.len() && (#[trigger] list[i].pos.index()) == n
}

pub proof fn lemma_index(a: Square, b: Square)
    requires
        a.is_on_board(),
        b.is_on_board(),
    ensures
        0 <= a.index() < 64,
        a.index() == b.index() ==> a == b,
{
}

/// Both piece lists agree with the grid.
pub open spec fn views_agree(
    grid: Seq<Piece>,
    l: Seq<PieceState>,
    owner: Player,
    lo: Seq<PieceState>,
) -> bool {
    &&& grid.len() == 64
    &&& list_matches(grid, l, owner)
    &&& list_matches(grid, lo, owner.opponent())
    &&& list_covers(grid, l, owner)
    &&& list_covers(grid, lo, owner.opponent())
}

/// A list stays matched when the grid keeps the squares of its entries.
pub proof fn lemma_matches_frame(grid: Seq<Piece>, g2: Seq<Piece>, l: Seq<PieceState>, owner: Player)
    requires
        list_matches(grid, l, owner),
        forall|j: int| 0 <= j < l.len() ==> g2[(#[trigger] l[j]).pos.index()] == grid[l[j].pos.index()],
    ensures
        list_matches(g2, l, owner),
{
}

/// A list stays covering when the grid gains no square of its side.
pub proof fn lemma_covers_frame(grid: Seq<Piece>, g2: Seq<Piece>, l: Seq<PieceState>, owner: Player)
    requires
        list_covers(grid, l, owner),
        forall|n: int|
            0 <= n < 64 && (#[trigger] g2[n]).owner_of() == Some(owner) ==> grid[n].owner_of()
                == Some(owner),
    ensures
        list_covers(g2, l, owner),
{
    reveal(list_covers);
    assert forall|n: int| 0 <= n < 64 && (#[trigger] g2[n]).owner_of() == Some(owner) implies exists|
        j: int,
    |
        0 <= j < l.len() && (#[trigger] l[j].pos.index()) == n by {
        assert(grid[n].owner_of() == Some(owner));
    }
}

/// No entry of a matched list stands on a square that holds no piece of its side.
pub proof fn lemma_not_listed(grid: Seq<Piece>, l: Seq<PieceState>, owner: Player, s: Square)
    requires
        list_matches(grid, l, owner),
        s.is_on_board(),
        grid[s.index()].owner_of() != Some(owner),
    ensures
        forall|j: int| 0 <= j < l.len() ==> (#[trigger] l[j]).pos != s,
{
}

/// A square holding a piece of a covering, matched list's side has an entry.
pub proof fn lemma_listed(grid: Seq<Piece>, l: Seq<PieceState>, owner: Player, s: Square)
    requires
        grid.len() == 64,
        forall|j: int| 0 <= j < l.len() ==> (#[trigger] l[j]).pos.is_on_board(),
        list_covers(grid, l, owner),
        s.is_on_board(),
        grid[s.index()].owner_of() == Some(owner),
    ensures
        exists|j: int| 0 <= j < l.len() && (#[trigger] l[j]).pos == s,
{
    reveal(list_covers);
    lemma_index(s, s);
    let j = choose|j: int| 0 <= j < l.len() && (#[trigger] l[j].pos.index()) == s.index();
    assert(l[j].pos.is_on_board());
    lemma_index(l[j].pos, s);
}

proof fn lemma_relocate_matches(grid: Seq<Piece>, l: Seq<PieceState>, owner: Player, i: int, to: Square)
    requires
        grid.len() == 64,
        list_matches(grid, l, owner),
        0 <= i < l.len(),
        to.is_on_board(),
        grid[to.index()] == Piece::Empty,
    ensures
        list_matches(
            grid.update(l[i].pos.index(), Piece::Empty).update(to.index(), l[i].piece_type),
            l.update(i, PieceState { piece_type: l[i].piece_type, pos: to }),
            owner,
        ),
{
    let from = l[i].pos;
    let g2 = grid.update(from.index(), Piece::Empty).update(to.index(), l[i].piece_type);
    let l2 = l.update(i, PieceState { piece_type: l[i].piece_type, pos: to });
    lemma_not_listed(grid, l, owner, to);
    assert forall|j: int| 0 <= j < l2.len() implies {
        &&& (#[trigger] l2[j]).pos.is_on_board()
        &&& g2[l2[j].pos.index()] == l2[j].piece_type
        &&& l2[j].piece_type.owner_of() == Some(owner)
    } by {
        if j != i {
            assert(l[j].pos != from);
            assert(l[j].pos != to);
            lemma_index(l[j].pos, from);
            lemma_index(l[j].pos, to);
        }
    }
    assert forall|j: int, k: int|
        0 <= j < l2.len() && 0 <= k < l2.len() && j != k implies #[trigger] l2[j].pos
        != #[trigger] l2[k].pos by {
        if j != i && k != i {
            assert(l[j].pos != l[k].pos);
        } else if j == i {
            assert(l[k].pos != to);
        } else {
            assert(l[j].pos != to);
        }
    }
}

proof fn lemma_relocate_covers(grid: Seq<Piece>, l: Seq<PieceState>, owner: Player, i: int, to: Square)
    requires
        grid.len() == 64,
        list_covers(grid, l, owner),
        0 <= i < l.len(),
        to.is_on_board(),
        l[i].pos.is_on_board(),
        l[i].pos != to,
        l[i].piece_type.owner_of() == Some(owner),
    ensures
        list_covers(
            grid.update(l[i].pos.index(), Piece::Empty).update(to.index(), l[i].piece_type),
            l.update(i, PieceState { piece_type: l[i].piece_type, pos: to }),
            owner,
        ),
{
    reveal(list_covers);
    let from = l[i].pos;
    let g2 = grid.update(from.index(), Piece::Empty).update(to.index(), l[i].piece_type);
    let l2 = l.update(i, PieceState { piece_type: l[i].piece_type, pos: to });
    lemma_index(from, to);
    assert forall|n: int| 0 <= n < 64 && (#[trigger] g2[n]).owner_of() == Some(owner) implies exists|
        j: int,
    |
        0 <= j < l2.len() && (#[trigger] l2[j].pos.index()) == n by {
        if n == to.index() {
            assert(l2[i].pos.index() == n);
        } else {
            assert(n != from.index());
            assert(grid[n].owner_of() == Some(owner));
            let j = choose|j: int| 0 <= j < l.len() && (#[trigger] l[j].pos.index()) == n;
            assert(j != i);
            assert(l2[j].pos.index() == n);
        }
    }
}

/// Moving the entry `i` of `l` to the empty square `to` keeps the views in step.
pub proof fn lemma_relocate(
    grid: Seq<Piece>,
    l: Seq<PieceState>,
    owner: Player,
    lo: Seq<PieceState>,
    i: int,
    to: Square,
)
    requires
        views_agree(grid, l, owner, lo),
        0 <= i < l.len(),
        to.is_on_board(),
        grid[to.index()] == Piece::Empty,
    ensures
        views_agree(
            grid.update(l[i].pos.index(), Piece::Empty).update(to.index(), l[i].piece_type),
            l.update(i, PieceState { piece_type: l[i].piece_type, pos: to }),
            owner,
            lo,
        ),
{
    let from = l[i].pos;
    let g2 = grid.update(from.index(), Piece::Empty).update(to.index(), l[i].piece_type);
    let opp = owner.opponent();
    lemma_relocate_matches(grid, l, owner, i, to);
    assert(grid[from.index()].owner_of() == Some(owner));
    lemma_relocate_covers(grid, l, owner, i, to);
    lemma_not_listed(grid, lo, opp, from);
    lemma_not_listed(grid, lo, opp, to);
    assert forall|j: int| 0 <= j < lo.len() implies g2[(#[trigger] lo[j]).pos.index()]
        == grid[lo[j].pos.index()] by {
        lemma_index(lo[j].pos, from);
        lemma_index(lo[j].pos, to);
    }
    lemma_matches_frame(grid, g2, lo, opp);
    lemma_covers_frame(grid, g2, lo, opp);
}

proof fn lemma_remove_covers(grid: Seq<Piece>, l: Seq<PieceState>, owner: Player, i: int)
    requires
        grid.len() == 64,
        list_covers(grid, l, owner),
        0 <= i < l.len(),
        l[i].pos.is_on_board(),
    ensures
        list_covers(grid.update(l[i].pos.index(), Piece::Empty), l.update(i, l.last()).drop_last(), owner),
{
    reveal(list_covers);
    let at = l[i].pos;
    let g2 = grid.update(at.index(), Piece::Empty);
    let l2 = l.update(i, l.last()).drop_last();
    let last = l.len() - 1;
    assert forall|n: int| 0 <= n < 64 && (#[trigger] g2[n]).owner_of() == Some(owner) implies exists|
        j: int,
    |
        0 <= j < l2.len() && (#[trigger] l2[j].pos.index()) == n by {
        assert(grid[n].owner_of() == Some(owner));
        let j = choose|j: int| 0 <= j < l.len() && (#[trigger] l[j].pos.index()) == n;
        assert(j != i);
        if j == last {
            assert(l2[i] == l[last]);
            assert(l2[i].pos.index() == n);
        } else {
            assert(l2[j] == l[j]);
            assert(l2[j].pos.index() == n);
        }
    }
}

proof fn lemma_retype_covers(grid: Seq<Piece>, l: Seq<PieceState>, owner: Player, i: int, to: Piece)
    requires
        grid.len() == 64,
        list_covers(grid, l, owner),
        0 <= i < l.len(),
        l[i].pos.is_on_board(),
    ensures
        list_covers(
            grid.update(l[i].pos.index(), to),
            l.update(i, PieceState { piece_type: to, pos: l[i].pos }),
            owner,
        ),
{
    reveal(list_covers);
    let at = l[i].pos;
    let g2 = grid.update(at.index(), to);
    let l2 = l.update(i, PieceState { piece_type: to, pos: at });
    assert forall|n: int| 0 <= n < 64 && (#[trigger] g2[n]).owner_of() == Some(owner) implies exists|
        j: int,
    |
        0 <= j < l2.len() && (#[trigger] l2[j].pos.index()) == n by {
        if n == at.index() {
            assert(l2[i].pos.index() == n);
        } else {
            assert(grid[n] == g2[n]);
            let j = choose|j: int| 0 <= j < l.len() && (#[trigger] l[j].pos.index()) == n;
            assert(l2[j].pos.index() == n);
        }
    }
}

/// Taking the entry `i` out of `l` (by swapping in the last entry) and
/// emptying its square keeps the views in step.
pub proof fn lemma_remove(grid: Seq<Piece>, l: Seq<PieceState>, owner: Player, lo: Seq<PieceState>, i: int)
    requires
        views_agree(grid, l, owner, lo),
        0 <= i < l.len(),
    ensures
        views_agree(
            grid.update(l[i].pos.index(), Piece::Empty),
            l.update(i, l.last()).drop_last(),
            owner,
            lo,
        ),
{
    let at = l[i].pos;
    let g2 = grid.update(at.index(), Piece::Empty);
    let l2 = l.update(i, l.last()).drop_last();
    let last = l.len() - 1;
    let opp = owner.opponent();
    assert forall|j: int| 0 <= j < l2.len() implies {
        &&& (#[trigger] l2[j]).pos.is_on_board()
        &&& g2[l2[j].pos.index()] == l2[j].piece_type
        &&& l2[j].piece_type.owner_of() == Some(owner)
    } by {
        let src = if j == i { last } else { j };
        assert(l2[j] == l[src]);
        assert(l[src].pos != at);
        lemma_index(l[src].pos, at);
    }
    assert forall|j: int, k: int|
        0 <= j < l2.len() && 0 <= k < l2.len() && j != k implies #[trigger] l2[j].pos
        != #[trigger] l2[k].pos by {
        let sj = if j == i { last } else { j };
        let sk = if k == i { last } else { k };
        assert(l2[j] == l[sj]);
        assert(l2[k] == l[sk]);
    }
    lemma_remove_covers(grid, l, owner, i);
    lemma_not_listed(grid, lo, opp, at);
    assert forall|j: int| 0 <= j < lo.len() implies g2[(#[trigger] lo[j]).pos.index()]
        == grid[lo[j].pos.index()] by {
        lemma_index(lo[j].pos, at);
    }
    lemma_matches_frame(grid, g2, lo, opp);
    lemma_covers_frame(grid, g2, lo, opp);
}

/// Replacing the piece of entry `i` (on grid and list alike) by another
/// piece of the same side keeps the views in step.
pub proof fn lemma_retype(
    grid: Seq<Piece>,
    l: Seq<PieceState>,
    owner: Player,
    lo: Seq<PieceState>,
    i: int,
    to: Piece,
)
    requires
        views_agree(grid, l, owner, lo),
        0 <= i < l.len(),
        to.owner_of() == Some(owner),
    ensures
        views_agree(
            grid.update(l[i].pos.index(), to),
            l.update(i, PieceState { piece_type: to, pos: l[i].pos }),
            owner,
            lo,
        ),
{
    let at = l[i].pos;
    let g2 = grid.update(at.index(), to);
    let l2 = l.update(i, PieceState { piece_type: to, pos: at });
    let opp = owner.opponent();
    assert forall|j: int| 0 <= j < l2.len() implies {
        &&& (#[trigger] l2[j]).pos.is_on_board()
        &&& g2[l2[j].pos.index()] == l2[j].piece_type
        &&& l2[j].piece_type.owner_of() == Some(owner)
    } by {
        if j != i {
            assert(l[j].pos != at);
            lemma_index(l[j].pos, at);
        }
    }
    lemma_retype_covers(grid, l, owner, i, to);
    assert(grid[at.index()].owner_of() == Some(owner));
    lemma_not_listed(grid, lo, opp, at);
    assert forall|j: int| 0 <= j < lo.len() implies g2[(#[trigger] lo[j]).pos.index()]
        == grid[lo[j].pos.index()] by {
        lemma_index(lo[j].pos, at);
    }
    lemma_matches_frame(grid, g2, lo, opp);
    lemma_covers_frame(grid, g2, lo, opp);
}

/// The mathematical value of a board.
pub struct BoardModel {
    pub grid: Seq<Piece>,
    pub white: Seq<PieceState>,
    pub black: Seq<PieceState>,
    pub move_count: int,
    pub last_pawn_move: int,
    pub last_move: Option<Move>,
    pub active: Player,
    pub white_rights: CastleRights,
    pub black_rights: CastleRights,
}

impl BoardModel {
    pub open spec fn at(self, s: Square) -> Piece {
        self.grid[s.index()]
    }

    pub open spec fn pieces(self, p: Player) -> Seq<PieceState> {
        match p {
            Player::White => self.white,
            Player::Black => self.black,
        }
    }

    pub open spec fn with_grid(self, g: Seq<Piece>) -> BoardModel {
        BoardModel { grid: g, ..self }
    }

    pub open spec fn with_pieces(self, p: Player, l: Seq<PieceState>) -> BoardModel {
        match p {
            Player::White => BoardModel { white: l, ..self },
            Player::Black => BoardModel { black: l, ..self },
        }
    }

    /// Everything but the grid and the piece lists is the same.
    pub open spec fn same_meta(self, other: BoardModel) -> bool {
        &&& self.move_count == other.move_count
        &&& self.last_pawn_move == other.last_pawn_move
        &&& self.last_move == other.last_move
        &&& self.active == other.active
        &&& self.white_rights == other.white_rights
        &&& self.black_rights == other.black_rights
    }

    pub open spec fn rights(self, p: Player) -> CastleRights {
        match p {
            Player::White => self.white_rights,
            Player::Black => self.black_rights,
        }
    }

    /// The grid and the two piece lists describe the same position, and the
    /// last pawn move lies no later than the current ply.
    pub open spec fn wf(self) -> bool {
        &&& self.grid.len() == 64
        &&& 0 <= self.last_pawn_move <= self.move_count
        &&& list_matches(self.grid, self.white, Player::White)
        &&& list_matches(self.grid, self.black, Player::Black)
        &&& list_covers(self.grid, self.white, Player::White)
        &&& list_covers(self.grid, self.black, Player::Black)
    }

    /// Whether a piece of `enemy` (other than one on `except`) threatens `target`.
    pub open spec fn is_attacked(self, enemy: Player, target: Square, except: Option<Square>) -> bool {
        attacked(self.grid, self.pieces(enemy), target, except)
    }

    /// `mv` fits the position: its piece stands on its origin and the
    /// squares it touches hold what its kind expects, so that it can be
    /// played.
    pub open spec fn move_applicable(self, mv: Move) -> bool {
        let p = mover(mv);
        &&& mv.piece.owner_of() is Some
        &&& mv.old_pos.is_on_board()
        &&& mv.new_pos.is_on_board()
        &&& mv.old_pos != mv.new_pos
        &&& self.at(mv.old_pos) == mv.piece
        &&& match mv.move_type {
            MoveType::Move => self.at(mv.new_pos) == Piece::Empty,
            MoveType::Capture(c) => self.at(mv.new_pos) == c && c.owner_of() == Some(p.opponent()),
            MoveType::EnPassant => {
                &&& self.at(mv.new_pos) == Piece::Empty
                &&& en_passant_victim(mv).is_on_board()
                &&& self.at(en_passant_victim(mv)).owner_of() == Some(p.opponent())
            },
            MoveType::Promotion(pc) => self.at(mv.new_pos).owner_of() != Some(p) && pc.owner_of()
                == Some(p),
            MoveType::Castle(rook) => {
                let rt = castle_rook_target(mv, rook);
                &&& mv.piece == Piece::King(p)
                &&& rook.is_on_board()
                &&& rt.is_on_board()
                &&& (rook.file == 8 || rook.file == 1)
                &&& self.at(rook) == Piece::Rook(p)
                &&& self.at(mv.new_pos) == Piece::Empty
                &&& self.at(rt) == Piece::Empty
                &&& rt != mv.new_pos
            },
        }
    }

    /// The mover's and the opponent's piece lists after `mv` is played.
    pub open spec fn lists_after(self, mv: Move) -> (Seq<PieceState>, Seq<PieceState>) {
        let own = self.pieces(mover(mv));
        let opp = self.pieces(mover(mv).opponent());
        match mv.move_type {
            MoveType::Move => (relocated(own, mv.old_pos, mv.new_pos), opp),
            MoveType::Capture(_) => (relocated(own, mv.old_pos, mv.new_pos), removed(opp, mv.new_pos)),
            MoveType::EnPassant => (
                relocated(own, mv.old_pos, mv.new_pos),
                removed(opp, en_passant_victim(mv)),
            ),
            MoveType::Castle(rook) => (
                relocated(
                    relocated(own, rook, castle_rook_target(mv, rook)),
                    mv.old_pos,
                    mv.new_pos,
                ),
                opp,
            ),
            MoveType::Promotion(q) => (
                retyped(relocated(own, mv.old_pos, mv.new_pos), mv.new_pos, q),
                if self.at(mv.new_pos) == Piece::Empty {
                    opp
                } else {
                    removed(opp, mv.new_pos)
                },
            ),
        }
    }

    /// The board after `mv` is played.
    pub open spec fn after(self, mv: Move) -> BoardModel {
        let lists = self.lists_after(mv);
        BoardModel {
            grid: grid_after(self.grid, mv),
            white: if mover(mv) == Player::White {
                lists.0
            } else {
                lists.1
            },
            black: if mover(mv) == Player::White {
                lists.1
            } else {
                lists.0
            },
            move_count: self.move_count + 1,
            last_pawn_move: if mv.piece.is_pawn() {
                self.move_count + 1
            } else {
                self.last_pawn_move
            },
            last_move: Some(mv),
            active: self.active.opponent(),
            white_rights: rights_after(self.white_rights, Player::White, mv),
            black_rights: rights_after(self.black_rights, Player::Black, mv),
        }
    }

    /// Whether `mv`, played tentatively, leaves its side's king (on `king`)
    /// unattacked. Castling is judged by its own path checks instead, and a
    /// king move by whether its destination is attacked.
    pub open spec fn safe_after(self, king: Square, mv: Move) -> bool {
        let enemy = mover(mv).opponent();
        let from = mv.old_pos.index();
        let to = mv.new_pos.index();
        match mv.move_type {
            MoveType::Castle(_) => true,
            MoveType::EnPassant => !attacked(
                self.grid.update(from, Piece::Empty).update(to, mv.piece).update(
                    en_passant_victim(mv).index(),
                    Piece::Empty,
                ),
                self.pieces(enemy),
                king,
                Some(en_passant_victim(mv)),
            ),
            _ => if mv.piece.is_king() {
                !self.is_attacked(enemy, mv.new_pos, None)
            } else {
                !attacked(
                    self.grid.update(from, Piece::Empty).update(to, mv.piece),
                    self.pieces(enemy),
                    king,
                    Some(mv.new_pos),
                )
            },
        }
    }

    /// Where `p`'s king stands, and the squares of the enemy pieces that
    /// threaten it.
    pub open spec fn check_state(self, p: Player) -> (Option<Square>, Seq<Square>) {
        match first_king(self.pieces(p)) {
            None => (None, Seq::empty()),
            Some(k) => (Some(k), checkers(self.grid, self.pieces(p.opponent()), k)),
        }
    }

    pub open spec fn castle_right(self, p: Player, rook_pos: Square) -> bool {
        if rook_pos.file == 8 {
            self.rights(p).kingside
        } else if rook_pos.file == 1 {
            self.rights(p).queenside
        } else {
            false
        }
    }

    /// A pawn of `p` on `from` may take en passant on `to`: the previous
    /// ply was a two-square push of an enemy pawn that now stands right
    /// behind `to`.
    pub open spec fn en_passant_window(self, p: Player, from: Square, to: Square) -> bool {
        &&& self.last_pawn_move >= self.move_count
        &&& from.rank == (if p == Player::White { 5int } else { 4int })
        &&& match self.last_move {
            Some(m) => {
                &&& m.piece == Piece::Pawn(p.opponent())
                &&& abs(m.new_pos.rank - m.old_pos.rank) == 2
                &&& m.new_pos.rank == to.rank - p.forward()
                &&& m.new_pos.file == to.file
            },
            None => false,
        }
    }
}

/// Well-formedness read from either side.
pub proof fn lemma_wf_views(m: BoardModel, p: Player)
    ensures
        m.wf() <==> (views_agree(m.grid, m.pieces(p), p, m.pieces(p.opponent())) && 0
            <= m.last_pawn_move <= m.move_count),
{
}

/// The piece on square `f` (0-based file) of `p`'s back rank at the start.
pub open spec fn back_rank_piece(p: Player, f: int) -> Piece {
    if f == 0 || f == 7 {
        Piece::Rook(p)
    } else if f == 1 || f == 6 {
        Piece::Knight(p)
    } else if f == 2 || f == 5 {
        Piece::Bishop(p)
    } else if f == 3 {
        Piece::Queen(p)
    } else {
        Piece::King(p)
    }
}

/// The content of the `n`-th square (rank-major) in the initial position.
pub open spec fn initial_piece(n: int) -> Piece {
    if n < 8 {
        back_rank_piece(Player::White, n)
    } else if n < 16 {
        Piece::Pawn(Player::White)
    } else if n < 48 {
        Piece::Empty
    } else if n < 56 {
        Piece::Pawn(Player::Black)
    } else {
        back_rank_piece(Player::Black, n - 56)
    }
}

pub open spec fn initial_grid() -> Seq<Piece> {
    Seq::new(64, |n: int| initial_piece(n))
}

fn initial_piece_at(n: usize) -> (r: Piece)
    requires
        n < 64,
    ensures
        r == initial_piece(n as int),
{
    let (side, f): (Player, usize) = if n < 8 {
        (Player::White, n)
    } else if n < 56 {
        if n < 16 {
            return Piece::Pawn(Player::White);
        } else if n < 48 {
            return Piece::Empty;
        } else {
            return Piece::Pawn(Player::Black);
        }
    } else {
        (Player::Black, n - 56)
    };
    if f == 0 || f == 7 {
        Piece::Rook(side)
    } else if f == 1 || f == 6 {
        Piece::Knight(side)
    } else if f == 2 || f == 5 {
        Piece::Bishop(side)
    } else if f == 3 {
        Piece::Queen(side)
    } else {
        Piece::King(side)
    }
}

/// Entries of `l` are listed, in increasing square order, from the first `n` squares.
pub open spec fn listed_prefix(grid: Seq<Piece>, l: Seq<PieceState>, player: Player, n: int) -> bool {
    &&& forall|j: int|
        0 <= j < l.len() ==> {
            &&& (#[trigger] l[j]).pos.is_on_board()
            &&& l[j].pos.index() < n
            &&& grid[l[j].pos.index()] == l[j].piece_type
            &&& l[j].piece_type.owner_of() == Some(player)
        }
    &&& forall|j: int, k: int|
        0 <= j < k < l.len() ==> (#[trigger] l[j]).pos.index() < (#[trigger] l[k]).pos.index()
}

/// Every square among the first `n` that holds a piece of `player` is listed.
#[verifier::opaque]
pub open spec fn covered_prefix(grid: Seq<Piece>, l: Seq<PieceState>, player: Player, n: int) -> bool {
    forall|m: int|
        0 <= m < n && (#[trigger] grid[m]).owner_of() == Some(player) ==> exists|j: int|
            0 <= j < l.len() && (#[trigger] l[j].pos.index()) == m
}

proof fn lemma_gen_listed(grid: Seq<Piece>, l: Seq<PieceState>, player: Player, n: int, s: Square)
    requires
        grid.len() == 64,
        0 <= n < 64,
        s.is_on_board(),
        s.index() == n,
        listed_prefix(grid, l, player, n),
    ensures
        grid[n].owner_of() == Some(player) ==> listed_prefix(
            grid,
            l.push(PieceState { piece_type: grid[n], pos: s }),
            player,
            n + 1,
        ),
        listed_prefix(grid, l, player, n + 1),
{
    let l2 = l.push(PieceState { piece_type: grid[n], pos: s });
    if grid[n].owner_of() == Some(player) {
        assert forall|j: int| 0 <= j < l2.len() implies {
            &&& (#[trigger] l2[j]).pos.is_on_board()
            &&& l2[j].pos.index() < n + 1
            &&& grid[l2[j].pos.index()] == l2[j].piece_type
            &&& l2[j].piece_type.owner_of() == Some(player)
        } by {
            if j < l.len() {
                assert(l2[j] == l[j]);
            }
        }
        assert forall|j: int, k: int| 0 <= j < k < l2.len() implies (#[trigger] l2[j]).pos.index()
            < (#[trigger] l2[k]).pos.index() by {
            assert(l2[j] == l[j]);
            if k < l.len() {
                assert(l2[k] == l[k]);
            }
        }
    }
}

proof fn lemma_gen_covered(grid: Seq<Piece>, l: Seq<PieceState>, player: Player, n: int, s: Square)
    requires
        grid.len() == 64,
        0 <= n < 64,
        s.index() == n,
        covered_prefix(grid, l, player, n),
    ensures
        grid[n].owner_of() == Some(player) ==> covered_prefix(
            grid,
            l.push(PieceState { piece_type: grid[n], pos: s }),
            player,
            n + 1,
        ),
        grid[n].owner_of() != Some(player) ==> covered_prefix(grid, l, player, n + 1),
{
    reveal(covered_prefix);
    let l2 = l.push(PieceState { piece_type: grid[n], pos: s });
    if grid[n].owner_of() == Some(player) {
        assert forall|m: int| 0 <= m < n + 1 && (#[trigger] grid[m]).owner_of() == Some(player) implies exists|
            j: int,
        |
            0 <= j < l2.len() && (#[trigger] l2[j].pos.index()) == m by {
            if m == n {
                assert(l2[l.len() as int].pos.index() == m);
            } else {
                let j = choose|j: int| 0 <= j < l.len() && (#[trigger] l[j].pos.index()) == m;
                assert(l2[j] == l[j]);
            }
        }
    } else {
        assert forall|m: int| 0 <= m < n + 1 && (#[trigger] grid[m]).owner_of() == Some(player) implies exists|
            j: int,
        |
            0 <= j < l.len() && (#[trigger] l[j].pos.index()) == m by {
            assert(m != n);
        }
    }
}

proof fn lemma_gen_start(grid: Seq<Piece>, player: Player)
    ensures
        covered_prefix(grid, Seq::empty(), player, 0),
{
    reveal(covered_prefix);
}

proof fn lemma_gen_distinct(grid: Seq<Piece>, l: Seq<PieceState>, player: Player)
    requires
        grid.len() == 64,
        listed_prefix(grid, l, player, 64),
    ensures
        list_matches(grid, l, player),
{
    assert forall|j: int, k: int|
        0 <= j < l.len() && 0 <= k < l.len() && j != k implies #[trigger] l[j].pos
        != #[trigger] l[k].pos by {
        if j < k {
            assert(l[j].pos.index() < l[k].pos.index());
        } else {
            assert(l[k].pos.index() < l[j].pos.index());
        }
    }
}

proof fn lemma_gen_covers(grid: Seq<Piece>, l: Seq<PieceState>, player: Player)
    requires
        covered_prefix(grid, l, player, 64),
    ensures
        list_covers(grid, l, player),
{
    reveal(covered_prefix);
    reveal(list_covers);
}

/// The piece list of `player` read off a grid, in square order.
fn pieces_generator(player: Player, squares: &Vec<Piece>) -> (r: Vec<PieceState>)
    requires
        squares@.len() == 64,
    ensures
        list_matches(squares@, r@, player),
        list_covers(squares@, r@, player),
{
    let mut res: Vec<PieceState> = Vec::new();
    let mut n: usize = 0;
    let mut rank: i8 = 1;
    let mut file: i8 = 1;
    proof {
        lemma_gen_start(squares@, player);
    }
    while n < 64
        invariant
            squares@.len() == 64,
            0 <= n <= 64,
            1 <= file <= 8,
            1 <= rank <= 9,
            n == (rank - 1) * 8 + (file - 1),
            listed_prefix(squares@, res@, player, n as int),
            covered_prefix(squares@, res@, player, n as int),
        decreases 64 - n,
    {
        let p = squares[n];
        proof {
            lemma_gen_listed(squares@, res@, player, n as int, Square { rank, file });
            lemma_gen_covered(squares@, res@, player, n as int, Square { rank, file });
        }
        if p.owner() == Some(player) {
            res.push(PieceState { piece_type: p, pos: Square { rank, file } });
        }
        n = n + 1;
        if file == 8 {
            file = 1;
            rank = rank + 1;
        } else {
            file = file + 1;
        }
    }
    proof {
        lemma_gen_distinct(squares@, res@, player);
        lemma_gen_covers(squares@, res@, player);
    }
    res
}

/// A chess position: a grid of 64 squares kept in step with one piece list
/// per side, together with the side to move, castling rights, ply counters
/// and the last move played.
#[derive(Clone, Debug)]
pub struct Board {
    squares: Vec<Piece>,
    move_count: u32,
    last_pawn_move: u32,
    last_move: Option<Move>,
    white_pieces: Vec<PieceState>,
    black_pieces: Vec<PieceState>,
    active_player: Player,
    white_castle_rights: CastleRights,
    black_castle_rights: CastleRights,
}

impl View for Board {
    type V = BoardModel;

    closed spec fn view(&self) -> BoardModel {
        BoardModel {
            grid: self.squares@,
            white: self.white_pieces@,
            black: self.black_pieces@,
            move_count: self.move_count as int,
            last_pawn_move: self.last_pawn_move as int,
            last_move: self.last_move,
            active: self.active_player,
            white_rights: self.white_castle_rights,
            black_rights: self.black_castle_rights,
        }
    }
}

impl PieceState {
    /// Whether this piece threatens `square` on `board`'s grid.
    pub fn is_attacking(&self, board: &Board, square: Square) -> (r: bool)
        requires
            board@.grid.len() == 64,
            self.pos.is_on_board(),
            square.is_on_board(),
        ensures
            r == attacks(board@.grid, *self, square),
    {
        let dr: i8 = square.rank - self.pos.rank;
        let df: i8 = square.file - self.pos.file;
        let adr: i8 = if dr < 0 {
            -dr
        } else {
            dr
        };
        let adf: i8 = if df < 0 {
            -df
        } else {
            df
        };
        let see_through = match self.piece_type {
            Piece::Empty => {
                return false;
            },
            Piece::Pawn(pc) => {
                return adf == 1 && dr == pc.sign();
            },
            Piece::King(_) => {
                return adr <= 1 && adf <= 1 && !(dr == 0 && df == 0);
            },
            Piece::Knight(_) => {
                return (adr == 1 && adf == 2) || (adr == 2 && adf == 1);
            },
            Piece::Bishop(pc) => {
                if !(adr == adf && dr != 0) {
                    return false;
                }
                Piece::King(pc.invert())
            },
            Piece::Rook(pc) => {
                if !((dr == 0) != (df == 0)) {
                    return false;
                }
                Piece::King(pc.invert())
            },
            Piece::Queen(pc) => {
                if !((adr == adf && dr != 0) || ((dr == 0) != (df == 0))) {
                    return false;
                }
                Piece::King(pc.invert())
            },
        };
        board.path_clear(self.pos, square, see_through)
    }
}

impl Board {
    /// The initial position, White to move, all castling rights held.
    pub fn new() -> (r: Board)
        ensures
            r@.wf(),
            r@.grid == initial_grid(),
            r@.move_count == 0,
            r@.last_pawn_move == 0,
            r@.last_move is None,
            r@.active == Player::White,
            r@.white_rights == (CastleRights { kingside: true, queenside: true }),
            r@.black_rights == (CastleRights { kingside: true, queenside: true }),
    {
        let mut squares: Vec<Piece> = Vec::new();
        let mut n: usize = 0;
        while n < 64
            invariant
                0 <= n <= 64,
                squares@.len() == n,
                forall|m: int| 0 <= m < n ==> squares@[m] == initial_piece(m),
            decreases 64 - n,
        {
            squares.push(initial_piece_at(n));
            n = n + 1;
        }
        assert(squares@ =~= initial_grid());
        let white_pieces = pieces_generator(Player::White, &squares);
        let black_pieces = pieces_generator(Player::Black, &squares);
        Board {
            squares,
            move_count: 0,
            last_pawn_move: 0,
            last_move: None,
            white_pieces,
            black_pieces,
            active_player: Player::White,
            white_castle_rights: CastleRights { queenside: true, kingside: true },
            black_castle_rights: CastleRights { queenside: true, kingside: true },
        }
    }

    /// The position a FEN text describes. Malformed number fields read as
    /// zero; an en passant square is kept as the pawn push that allows it.
    pub fn from_fen(fen: &str) -> (r: Board)
        ensures
            r@.wf(),
            fen_describes(
                fen.spec_bytes(),
                r@.grid,
                r@.active,
                r@.white_rights,
                r@.black_rights,
                r@.last_move,
                r@.move_count,
                r@.last_pawn_move,
            ),
    {
        let s = fen.as_bytes();
        let (squares, i1) = read_placement(s);
        let (active_player, i2) = read_active_field(s, i1);
        let (white_castle_rights, black_castle_rights, i3) = read_castling_field(s, i2);
        let last_move = implied_push_at(s, i3, active_player);
        let i4 = skip_to_next_field(s, i3);
        let (half, i5) = read_number_field(s, i4);
        let (full, _) = read_number_field(s, i5);
        let move_count: u32 = 2 * full + match active_player {
            Player::Black => 1,
            Player::White => 0,
        };
        let last_pawn_move: u32 = if last_move.is_some() {
            move_count
        } else if half <= move_count {
            move_count - half
        } else {
            0
        };
        let white_pieces = pieces_generator(Player::White, &squares);
        let black_pieces = pieces_generator(Player::Black, &squares);
        Board {
            squares,
            move_count,
            last_pawn_move,
            last_move,
            white_pieces,
            black_pieces,
            active_player,
            white_castle_rights,
            black_castle_rights,
        }
    }

    /// Walks the line from `from` to `to` and tells whether every square
    /// strictly between them is empty or holds `see_through`.
    pub fn path_clear(&self, from: Square, to: Square, see_through: Piece) -> (r: bool)
        requires
            self@.grid.len() == 64,
            from.is_on_board(),
            to.is_on_board(),
            same_line(from, to) || same_diagonal(from, to),
        ensures
            r == ray_clear(self@.grid, from, to, see_through),
    {
        let dir = get_move_dir(from, to);
        let ghost n = distance(from, to);
        let mut cur = from.add(dir);
        let mut k: i8 = 1;
        while cur != to
            invariant
                self@.grid.len() == 64,
                from.is_on_board(),
                to.is_on_board(),
                same_line(from, to) || same_diagonal(from, to),
                n == distance(from, to),
                dir.rank == signum(to.rank - from.rank),
                dir.file == signum(to.file - from.file),
                1 <= k <= n,
                cur == ray_square(from, to, k as int),
                forall|j: int| 0 < j < k ==> #[trigger] passable(self@.grid, ray_square(from, to, j), see_through),
            decreases n - k,
        {
            proof {
                lemma_ray_end(from, to);
            }
            let here = self.get(cur);
            if here != Piece::Empty && here != see_through {
                assert(!passable(self@.grid, ray_square(from, to, k as int), see_through));
                return false;
            }
            cur = cur.add(dir);
            k = k + 1;
        }
        true
    }

    pub fn get(&self, pos: Square) -> (r: Piece)
        requires
            self@.grid.len() == 64,
            pos.is_on_board(),
        ensures
            r == self@.at(pos),
    {
        let i: usize = ((pos.get_rank() - 1) * 8 + (pos.get_file() - 1)) as usize;
        self.squares[i]
    }

    fn set(&mut self, pos: Square, p: Piece) -> (r: Piece)
        requires
            old(self)@.grid.len() == 64,
            pos.is_on_board(),
        ensures
            r == old(self)@.at(pos),
            final(self)@ == old(self)@.with_grid(old(self)@.grid.update(pos.index(), p)),
    {
        let i: usize = ((pos.get_rank() - 1) * 8 + (pos.get_file() - 1)) as usize;
        let res = self.squares[i];
        self.squares.set(i, p);
        res
    }

    /// Moves whatever stands on `old_pos` to `new_pos` on the grid alone,
    /// leaving `old_pos` empty; returns what stood on `new_pos`.
    fn force_move(&mut self, old_pos: Square, new_pos: Square) -> (r: Piece)
        requires
            old(self)@.grid.len() == 64,
            old_pos.is_on_board(),
            new_pos.is_on_board(),
            old_pos != new_pos,
        ensures
            r == old(self)@.at(new_pos),
            final(self)@ == old(self)@.with_grid(
                old(self)@.grid.update(old_pos.index(), Piece::Empty).update(
                    new_pos.index(),
                    old(self)@.at(old_pos),
                ),
            ),
    {
        let old_piece = self.get(old_pos);
        self.set(old_pos, Piece::Empty);
        self.set(new_pos, old_piece)
    }

    /// The index in `player_color`'s list of the entry on `pos`.
    fn player_piece_at(&self, player_color: Player, pos: Square) -> (r: Option<usize>)
        ensures
            match r {
                Some(i) => i < self@.pieces(player_color).len() && self@.pieces(player_color)[i as int].pos == pos,
                None => forall|j: int|
                    0 <= j < self@.pieces(player_color).len() ==> (#[trigger] self@.pieces(
                        player_color,
                    )[j]).pos != pos,
            },
    {
        let list = self.get_pieces(player_color);
        let mut i: usize = 0;
        while i < list.len()
            invariant
                list@ == self@.pieces(player_color),
                0 <= i <= list@.len(),
                forall|j: int| 0 <= j < i ==> (#[trigger] list@[j]).pos != pos,
            decreases list@.len() - i,
        {
            if list[i].pos == pos {
                return Some(i);
            }
            i = i + 1;
        }
        None
    }

    /// The index of the entry on `pos`, which a well-formed board has for
    /// every square holding a piece of `owner`.
    fn entry_index(&self, owner: Player, pos: Square) -> (r: usize)
        requires
            self@.wf(),
            pos.is_on_board(),
            self@.at(pos).owner_of() == Some(owner),
        ensures
            r < self@.pieces(owner).len(),
            self@.pieces(owner)[r as int].pos == pos,
            r == entry_at(self@.pieces(owner), pos),
    {
        proof {
            lemma_wf_views(self@, owner);
            lemma_listed(self@.grid, self@.pieces(owner), owner, pos);
        }
        let r = match self.player_piece_at(owner, pos) {
            Some(i) => i,
            None => 0,
        };
        proof {
            let l = self@.pieces(owner);
            let j = entry_at(l, pos);
            assert(l[j].pos == pos);
            assert(list_matches(self@.grid, l, owner));
            if j != r {
                assert(l[j].pos != l[r as int].pos);
            }
        }
        r
    }

    fn set_entry(&mut self, owner: Player, i: usize, ps: PieceState)
        requires
            i < old(self)@.pieces(owner).len(),
        ensures
            final(self)@ == old(self)@.with_pieces(owner, old(self)@.pieces(owner).update(i as int, ps)),
    {
        match owner {
            Player::White => self.white_pieces.set(i, ps),
            Player::Black => self.black_pieces.set(i, ps),
        }
    }

    fn remove_entry(&mut self, owner: Player, i: usize)
        requires
            i < old(self)@.pieces(owner).len(),
        ensures
            final(self)@ == old(self)@.with_pieces(
                owner,
                old(self)@.pieces(owner).update(i as int, old(self)@.pieces(owner).last()).drop_last(),
            ),
    {
        match owner {
            Player::White => {
                self.white_pieces.swap_remove(i);
            },
            Player::Black => {
                self.black_pieces.swap_remove(i);
            },
        }
    }

    /// Moves a piece of `owner` to an empty square, on the grid and in its list.
    fn move_piece(&mut self, owner: Player, old_pos: Square, new_pos: Square)
        requires
            old(self)@.wf(),
            old_pos.is_on_board(),
            new_pos.is_on_board(),
            old(self)@.at(old_pos).owner_of() == Some(owner),
            old(self)@.at(new_pos) == Piece::Empty,
        ensures
            final(self)@.wf(),
            final(self)@.same_meta(old(self)@),
            final(self)@.grid == old(self)@.grid.update(old_pos.index(), Piece::Empty).update(
                new_pos.index(),
                old(self)@.at(old_pos),
            ),
            final(self)@.pieces(owner) == relocated(old(self)@.pieces(owner), old_pos, new_pos),
            final(self)@.pieces(owner.opponent()) == old(self)@.pieces(owner.opponent()),
    {
        let index = self.entry_index(owner, old_pos);
        let ghost m = self@;
        proof {
            lemma_wf_views(m, owner);
            lemma_relocate(m.grid, m.pieces(owner), owner, m.pieces(owner.opponent()), index as int, new_pos);
        }
        let pc = self.get(old_pos);
        self.set_entry(owner, index, PieceState { piece_type: pc, pos: new_pos });
        self.force_move(old_pos, new_pos);
        proof {
            lemma_wf_views(self@, owner);
            assert(self@.pieces(owner.opponent()) == m.pieces(owner.opponent()));
        }
    }

    /// Takes the piece of `owner` on `pos` off the board.
    fn remove_piece(&mut self, owner: Player, pos: Square)
        requires
            old(self)@.wf(),
            pos.is_on_board(),
            old(self)@.at(pos).owner_of() == Some(owner),
        ensures
            final(self)@.wf(),
            final(self)@.same_meta(old(self)@),
            final(self)@.grid == old(self)@.grid.update(pos.index(), Piece::Empty),
            final(self)@.pieces(owner) == removed(old(self)@.pieces(owner), pos),
            final(self)@.pieces(owner.opponent()) == old(self)@.pieces(owner.opponent()),
    {
        let index = self.entry_index(owner, pos);
        let ghost m = self@;
        proof {
            lemma_wf_views(m, owner);
            lemma_remove(m.grid, m.pieces(owner), owner, m.pieces(owner.opponent()), index as int);
        }
        self.remove_entry(owner, index);
        self.set(pos, Piece::Empty);
        proof {
            lemma_wf_views(self@, owner);
            assert(self@.pieces(owner.opponent()) == m.pieces(owner.opponent()));
        }
    }

    /// Replaces the piece of `owner` on `pos` by `to`, of the same side.
    fn retype_piece(&mut self, owner: Player, pos: Square, to: Piece)
        requires
            old(self)@.wf(),
            pos.is_on_board(),
            old(self)@.at(pos).owner_of() == Some(owner),
            to.owner_of() == Some(owner),
        ensures
            final(self)@.wf(),
            final(self)@.same_meta(old(self)@),
            final(self)@.grid == old(self)@.grid.update(pos.index(), to),
            final(self)@.pieces(owner) == retyped(old(self)@.pieces(owner), pos, to),
            final(self)@.pieces(owner.opponent()) == old(self)@.pieces(owner.opponent()),
    {
        let index = self.entry_index(owner, pos);
        let ghost m = self@;
        proof {
            lemma_wf_views(m, owner);
            lemma_retype(m.grid, m.pieces(owner), owner, m.pieces(owner.opponent()), index as int, to);
        }
        self.set_entry(owner, index, PieceState { piece_type: to, pos });
        self.set(pos, to);
        proof {
            lemma_wf_views(self@, owner);
            assert(self@.pieces(owner.opponent()) == m.pieces(owner.opponent()));
        }
    }

    /// Plays a move that fits the position: updates grid and piece lists,
    /// castling rights, the ply counters, the last move and the side to move.
    pub fn make_move(&mut self, valid_move: &Move)
        requires
            old(self)@.wf(),
            old(self)@.move_applicable(*valid_move),
            old(self)@.move_count < u32::MAX,
        ensures
            final(self)@.wf(),
            final(self)@ == old(self)@.after(*valid_move),
            final(self)@.grid == grid_after(old(self)@.grid, *valid_move),
            final(self)@.move_count == old(self)@.move_count + 1,
            final(self)@.active == old(self)@.active.opponent(),
            final(self)@.last_move == Some(*valid_move),
            final(self)@.last_pawn_move == if valid_move.piece.is_pawn() {
                old(self)@.move_count + 1
            } else {
                old(self)@.last_pawn_move
            },
            final(self)@.white_rights == rights_after(
                old(self)@.white_rights,
                Player::White,
                *valid_move,
            ),
            final(self)@.black_rights == rights_after(
                old(self)@.black_rights,
                Player::Black,
                *valid_move,
            ),
    {
        let mv = *valid_move;
        let ghost m = self@;
        self.play_pieces(&mv);
        assert(self@.white == m.after(mv).white);
        assert(self@.black == m.after(mv).black);
        self.move_count = self.move_count + 1;
        self.last_move = Some(mv);
        if let Piece::Pawn(_) = mv.piece {
            self.last_pawn_move = self.move_count;
        }
        self.active_player = self.active_player.invert();
        self.white_castle_rights = Board::rights_after_move(self.white_castle_rights, Player::White, &mv);
        self.black_castle_rights = Board::rights_after_move(self.black_castle_rights, Player::Black, &mv);
    }

    /// Moves the pieces of a move that fits the position, on the grid and in
    /// both lists, leaving everything else as it is.
    fn play_pieces(&mut self, valid_move: &Move)
        requires
            old(self)@.wf(),
            old(self)@.move_applicable(*valid_move),
        ensures
            final(self)@.wf(),
            final(self)@.same_meta(old(self)@),
            final(self)@.grid == grid_after(old(self)@.grid, *valid_move),
            final(self)@.pieces(mover(*valid_move)) == old(self)@.lists_after(*valid_move).0,
            final(self)@.pieces(mover(*valid_move).opponent()) == old(self)@.lists_after(
                *valid_move,
            ).1,
    {
        let ghost g = self@.grid;
        let mv = *valid_move;
        let owner = match mv.piece.owner() {
            Some(p) => p,
            None => Player::White,
        };
        match mv.move_type {
            MoveType::Capture(_) => {
                self.remove_piece(owner.invert(), mv.new_pos);
                self.move_piece(owner, mv.old_pos, mv.new_pos);
                assert(self@.grid =~= grid_after(g, mv));
            },
            MoveType::Castle(rook_pos) => {
                let dir_file: i8 = if rook_pos.file == 8 {
                    1
                } else {
                    -1
                };
                let rook_target = Square { rank: mv.new_pos.rank, file: mv.new_pos.file - dir_file };
                self.move_piece(owner, rook_pos, rook_target);
                self.move_piece(owner, mv.old_pos, mv.new_pos);
                assert(self@.grid =~= grid_after(g, mv));
            },
            MoveType::EnPassant => {
                let victim = Square { rank: mv.new_pos.rank - owner.sign(), file: mv.new_pos.file };
                self.remove_piece(owner.invert(), victim);
                self.move_piece(owner, mv.old_pos, mv.new_pos);
                assert(self@.grid =~= grid_after(g, mv));
            },
            MoveType::Move => {
                self.move_piece(owner, mv.old_pos, mv.new_pos);
            },
            MoveType::Promotion(to_piece) => {
                if self.get(mv.new_pos) != Piece::Empty {
                    self.remove_piece(owner.invert(), mv.new_pos);
                }
                self.move_piece(owner, mv.old_pos, mv.new_pos);
                self.retype_piece(owner, mv.new_pos, to_piece);
                assert(self@.grid =~= grid_after(g, mv));
            },
        }
    }

    fn rights_after_move(r: CastleRights, side: Player, mv: &Move) -> (res: CastleRights)
        ensures
            res == rights_after(r, side, *mv),
    {
        let home: i8 = match side {
            Player::White => 1,
            Player::Black => 8,
        };
        let king_moved = mv.piece == Piece::King(side);
        let ks = Square { rank: home, file: 8 };
        let qs = Square { rank: home, file: 1 };
        CastleRights {
            kingside: r.kingside && !king_moved && mv.old_pos != ks && mv.new_pos != ks,
            queenside: r.queenside && !king_moved && mv.old_pos != qs && mv.new_pos != qs,
        }
    }

    /// Plays `temp_move` on the grid alone, asks whether its side's king on
    /// `king_pos` is then attacked, and restores the grid exactly; returns
    /// the move if the king is safe.
    pub fn king_safe_after_move(&mut self, king_pos: Square, temp_move: Move) -> (r: Option<Move>)
        requires
            old(self)@.wf(),
            old(self)@.move_applicable(temp_move),
            king_pos.is_on_board(),
        ensures
            final(self)@ == old(self)@,
            r == if old(self)@.safe_after(king_pos, temp_move) {
                Some(temp_move)
            } else {
                None
            },
    {
        let ghost m = self@;
        let owner = match temp_move.piece.owner() {
            Some(p) => p,
            None => Player::White,
        };
        let enemy = owner.invert();
        proof {
            lemma_wf_views(m, owner);
        }
        let king_safe = match temp_move.move_type {
            MoveType::Castle(_) => {
                return Some(temp_move);
            },
            MoveType::EnPassant => {
                let victim = Square {
                    rank: temp_move.new_pos.rank - owner.sign(),
                    file: temp_move.new_pos.file,
                };
                self.force_move(temp_move.old_pos, temp_move.new_pos);
                let captured_pawn = self.set(victim, Piece::Empty);
                let safe = !self.any_piece_attacking_except(enemy, king_pos, victim);
                self.force_move(temp_move.new_pos, temp_move.old_pos);
                self.set(victim, captured_pawn);
                assert(self@.grid =~= m.grid);
                safe
            },
            _ => {
                if let Piece::King(_) = temp_move.piece {
                    !self.any_piece_attacking(enemy, temp_move.new_pos)
                } else {
                    let captured = self.force_move(temp_move.old_pos, temp_move.new_pos);
                    let safe = !self.any_piece_attacking_except(enemy, king_pos, temp_move.new_pos);
                    self.force_move(temp_move.new_pos, temp_move.old_pos);
                    self.set(temp_move.new_pos, captured);
                    assert(self@.grid =~= m.grid);
                    safe
                }
            },
        };
        if king_safe {
            Some(temp_move)
        } else {
            None
        }
    }

    /// Whether a pawn of `player` on `attacking_pawn_pos` may take en
    /// passant on `end`.
    pub fn en_passant_possible(&self, player: Player, attacking_pawn_pos: Square, end: Square) -> (r:
        bool)
        ensures
            r == self@.en_passant_window(player, attacking_pawn_pos, end),
    {
        if self.last_pawn_move < self.move_count {
            return false;
        }
        let pawn_rank: i8 = match player {
            Player::White => 5,
            Player::Black => 4,
        };
        if attacking_pawn_pos.rank != pawn_rank {
            return false;
        }
        match self.last_move {
            Some(m) => {
                let pushed: i16 = m.new_pos.rank as i16 - m.old_pos.rank as i16;
                m.piece == Piece::Pawn(player.invert()) && (pushed == 2 || pushed == -2)
                    && m.new_pos.rank as i16 == end.rank as i16 - player.sign() as i16
                    && m.new_pos.file == end.file
            },
            None => false,
        }
    }

    pub fn get_pieces(&self, pc: Player) -> (r: &Vec<PieceState>)
        ensures
            r@ == self@.pieces(pc),
    {
        match pc {
            Player::White => &self.white_pieces,
            Player::Black => &self.black_pieces,
        }
    }

    /// The number of plies played.
    pub fn move_count(&self) -> (r: u32)
        ensures
            r == self@.move_count,
    {
        self.move_count
    }

    /// The ply of the last pawn move.
    pub fn last_pawn_move(&self) -> (r: u32)
        ensures
            r == self@.last_pawn_move,
    {
        self.last_pawn_move
    }

    pub fn last_move(&self) -> (r: Option<Move>)
        ensures
            r == self@.last_move,
    {
        self.last_move
    }

    pub fn active_player(&self) -> (r: Player)
        ensures
            r == self@.active,
    {
        self.active_player
    }

    pub fn has_castle_rights(&self, player: Player, rook_pos: Square) -> (r: bool)
        ensures
            r == self@.castle_right(player, rook_pos),
    {
        if rook_pos.file == 8 {
            match player {
                Player::White => self.white_castle_rights.kingside,
                Player::Black => self.black_castle_rights.kingside,
            }
        } else if rook_pos.file == 1 {
            match player {
                Player::White => self.white_castle_rights.queenside,
                Player::Black => self.black_castle_rights.queenside,
            }
        } else {
            false
        }
    }

    /// Whether a piece of `enemy`, other than one on `except`, threatens `square`.
    pub fn any_piece_attacking_except(&self, enemy: Player, square: Square, except: Square) -> (r:
        bool)
        requires
            self@.grid.len() == 64,
            on_board_list(self@.pieces(enemy)),
            square.is_on_board(),
        ensures
            r == self@.is_attacked(enemy, square, Some(except)),
    {
        self.attack_scan(enemy, square, Some(except))
    }

    /// Whether any piece of `enemy` threatens `square`.
    pub fn any_piece_attacking(&self, enemy: Player, square: Square) -> (r: bool)
        requires
            self@.grid.len() == 64,
            on_board_list(self@.pieces(enemy)),
            square.is_on_board(),
        ensures
            r == self@.is_attacked(enemy, square, None),
    {
        self.attack_scan(enemy, square, None)
    }

    fn attack_scan(&self, enemy: Player, square: Square, except: Option<Square>) -> (r: bool)
        requires
            self@.grid.len() == 64,
            on_board_list(self@.pieces(enemy)),
            square.is_on_board(),
        ensures
            r == self@.is_attacked(enemy, square, except),
    {
        let list = self.get_pieces(enemy);
        let mut i: usize = 0;
        while i < list.len()
            invariant
                self@.grid.len() == 64,
                list@ == self@.pieces(enemy),
                on_board_list(list@),
                square.is_on_board(),
                0 <= i <= list@.len(),
                forall|j: int|
                    0 <= j < i ==> !(except != Some(list@[j].pos) && #[trigger] attacks(
                        self@.grid,
                        list@[j],
                        square,
                    )),
            decreases list@.len() - i,
        {
            let ps = list[i];
            assert(list@[i as int] == ps);
            if except != Some(ps.pos) && ps.is_attacking(self, square) {
                return true;
            }
            i = i + 1;
        }
        false
    }

    /// Where `player_color`'s king stands (the first king of its list) and
    /// the squares of the enemy pieces that threaten it; `(None, [])` when
    /// the side has no king.
    pub fn in_check(&self, player_color: Player) -> (r: (Option<Square>, Vec<Square>))
        requires
            self@.wf(),
        ensures
            r.0 == self@.check_state(player_color).0,
            r.1@ == self@.check_state(player_color).1,
    {
        match self.find_king(player_color) {
            None => (None, Vec::new()),
            Some(king_pos) => (Some(king_pos), self.collect_checkers(player_color.invert(), king_pos)),
        }
    }

    fn find_king(&self, player_color: Player) -> (r: Option<Square>)
        requires
            list_matches(self@.grid, self@.pieces(player_color), player_color),
        ensures
            r == first_king(self@.pieces(player_color)),
            r matches Some(k) ==> k.is_on_board(),
    {
        let own = self.get_pieces(player_color);
        let mut i: usize = 0;
        assert(own@.subrange(0, own@.len() as int) =~= own@);
        while i < own.len()
            invariant
                own@ == self@.pieces(player_color),
                list_matches(self@.grid, own@, player_color),
                0 <= i <= own@.len(),
                first_king(own@) == first_king(own@.subrange(i as int, own@.len() as int)),
            decreases own@.len() - i,
        {
            assert(own@.subrange(i as int, own@.len() as int).drop_first() =~= own@.subrange(
                i + 1,
                own@.len() as int,
            ));
            assert(own@[i as int] == own[i as int]);
            if let Piece::King(_) = own[i].piece_type {
                return Some(own[i].pos);
            }
            i = i + 1;
        }
        assert(own@.subrange(i as int, own@.len() as int).len() == 0);
        None
    }

    fn collect_checkers(&self, enemy: Player, king_pos: Square) -> (r: Vec<Square>)
        requires
            self@.grid.len() == 64,
            list_matches(self@.grid, self@.pieces(enemy), enemy),
            king_pos.is_on_board(),
        ensures
            r@ == checkers(self@.grid, self@.pieces(enemy), king_pos),
    {
        let list = self.get_pieces(enemy);
        let mut res: Vec<Square> = Vec::new();
        let mut j: usize = 0;
        while j < list.len()
            invariant
                self@.grid.len() == 64,
                list_matches(self@.grid, list@, enemy),
                list@ == self@.pieces(enemy),
                king_pos.is_on_board(),
                0 <= j <= list@.len(),
                res@ == checkers(self@.grid, list@.subrange(0, j as int), king_pos),
            decreases list@.len() - j,
        {
            assert(list@.subrange(0, j + 1).drop_last() =~= list@.subrange(0, j as int));
            let ps = list[j];
            assert(list@[j as int] == ps);
            if ps.is_attacking(self, king_pos) {
                res.push(ps.pos);
            }
            j = j + 1;
        }
        assert(list@.subrange(0, list@.len() as int) =~= list@);
        res
    }
}

} // verus!
