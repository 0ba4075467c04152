use chess::board::Board;
use chess::piece::{Piece, Player};
use chess::pos::{Move, MoveCandidate, MoveType, Square};
use chess::validator::{evaluate, find_move, get_possible_moves, get_possible_moves_from_square, legal_move, Outcome};

fn sq(name: &str) -> Square {
    Square::from_string(name).unwrap()
}

fn moves(b: &Board) -> Vec<Move> {
    let mut c = b.clone();
    get_possible_moves(&mut c)
}

fn find(b: &Board, from: &str, to: &str) -> Option<Move> {
    moves(b).into_iter().find(|m| m.old_pos == sq(from) && m.new_pos == sq(to))
}

fn play(b: &mut Board, from: &str, to: &str) {
    let m = find(b, from, to).expect("move should be legal");
    b.make_move(&m);
}

fn same_board(a: &Board, b: &Board) -> bool {
    for r in 1..=8usize {
        for f in 1..=8usize {
            let s = Square::new(r, f);
            if a.get(s) != b.get(s) {
                return false;
            }
        }
    }
    a.move_count() == b.move_count()
        && a.last_pawn_move() == b.last_pawn_move()
        && a.last_move() == b.last_move()
        && a.active_player() == b.active_player()
        && a.get_pieces(Player::White) == b.get_pieces(Player::White)
        && a.get_pieces(Player::Black) == b.get_pieces(Player::Black)
}

#[test]
fn new_board_has_initial_position() {
    let b = Board::new();
    assert_eq!(b.get(sq("e1")), Piece::King(Player::White));
    assert_eq!(b.get(sq("d8")), Piece::Queen(Player::Black));
    assert_eq!(b.get(sq("b1")), Piece::Knight(Player::White));
    assert_eq!(b.get(sq("e4")), Piece::Empty);
    assert_eq!(b.get(sq("g7")), Piece::Pawn(Player::Black));
    assert_eq!(b.get_pieces(Player::White).len(), 16);
    assert_eq!(b.get_pieces(Player::Black).len(), 16);
    assert_eq!(b.active_player(), Player::White);
    assert_eq!(b.move_count(), 0);
    assert!(b.has_castle_rights(Player::White, sq("h1")));
    assert!(b.has_castle_rights(Player::Black, sq("a8")));
    assert!(!b.has_castle_rights(Player::Black, sq("d8")));
}

#[test]
fn from_fen_reads_all_fields() {
    let b = Board::from_fen("rnbqkbnr/pppp1ppp/8/4p3/4P3/8/PPPP1PPP/RNBQKBNR w Kq e6 0 2");
    assert_eq!(b.get(sq("e5")), Piece::Pawn(Player::Black));
    assert_eq!(b.get(sq("e4")), Piece::Pawn(Player::White));
    assert_eq!(b.get(sq("e2")), Piece::Empty);
    assert_eq!(b.active_player(), Player::White);
    assert!(b.has_castle_rights(Player::White, sq("h1")));
    assert!(!b.has_castle_rights(Player::White, sq("a1")));
    assert!(!b.has_castle_rights(Player::Black, sq("h8")));
    assert!(b.has_castle_rights(Player::Black, sq("a8")));
    assert_eq!(b.move_count(), 4);
    assert_eq!(b.last_pawn_move(), 4);
    let push = b.last_move().unwrap();
    assert_eq!(push.piece, Piece::Pawn(Player::Black));
    assert_eq!(push.old_pos, sq("e7"));
    assert_eq!(push.new_pos, sq("e5"));
}

#[test]
fn from_fen_malformed_numbers_read_as_zero() {
    let b = Board::from_fen("4k3/8/8/8/8/8/8/4K3 b - - x y");
    assert_eq!(b.active_player(), Player::Black);
    assert_eq!(b.move_count(), 1);
    assert_eq!(b.last_pawn_move(), 1);
    assert_eq!(b.last_move(), None);
    let c = Board::from_fen("4k3/8/8/8/8/8/8/4K3 w - - 3 10");
    assert_eq!(c.move_count(), 20);
    assert_eq!(c.last_pawn_move(), 17);
}

#[test]
fn in_check_reports_king_and_checkers() {
    let b = Board::from_fen("4k3/8/8/8/1b6/8/8/4K2r w - - 0 1");
    let (king, checkers) = b.in_check(Player::White);
    assert_eq!(king, Some(sq("e1")));
    assert_eq!(checkers.len(), 2);
    assert!(checkers.contains(&sq("b4")));
    assert!(checkers.contains(&sq("h1")));
    let (bk, none) = b.in_check(Player::Black);
    assert_eq!(bk, Some(sq("e8")));
    assert!(none.is_empty());
    let lone = Board::from_fen("4k3/8/8/8/8/8/8/8 w - - 0 1");
    assert_eq!(lone.in_check(Player::White), (None, vec![]));
}

#[test]
fn any_piece_attacking_with_exception() {
    let b = Board::from_fen("4k3/8/8/8/8/8/8/R3K2R w - - 0 1");
    assert!(b.any_piece_attacking(Player::White, sq("a8")));
    assert!(!b.any_piece_attacking_except(Player::White, sq("a8"), sq("a1")));
    assert!(b.any_piece_attacking_except(Player::White, sq("h8"), sq("a1")));
    assert!(!b.any_piece_attacking(Player::Black, sq("e1")));
}

#[test]
fn make_move_side_effects() {
    let mut b = Board::new();
    play(&mut b, "g1", "f3");
    assert_eq!(b.move_count(), 1);
    assert_eq!(b.active_player(), Player::Black);
    assert_eq!(b.last_pawn_move(), 0);
    assert_eq!(b.get(sq("f3")), Piece::Knight(Player::White));
    assert_eq!(b.get(sq("g1")), Piece::Empty);
    play(&mut b, "d7", "d5");
    assert_eq!(b.move_count(), 2);
    assert_eq!(b.active_player(), Player::White);
    assert_eq!(b.last_pawn_move(), 2);
    assert_eq!(b.last_move().unwrap().new_pos, sq("d5"));
}

#[test]
fn capture_removes_piece_from_list() {
    let mut b = Board::from_fen("4k3/8/8/3p4/4P3/8/8/4K3 w - - 0 1");
    let m = find(&b, "e4", "d5").unwrap();
    assert_eq!(m.move_type, MoveType::Capture(Piece::Pawn(Player::Black)));
    b.make_move(&m);
    assert_eq!(b.get_pieces(Player::Black).len(), 1);
    assert_eq!(b.get(sq("d5")), Piece::Pawn(Player::White));
}

#[test]
fn en_passant_only_on_next_ply() {
    let mut b = Board::from_fen("4k3/3p4/8/4P3/8/8/8/4K3 b - - 0 1");
    play(&mut b, "d7", "d5");
    assert!(b.en_passant_possible(Player::White, sq("e5"), sq("d6")));
    let ep = find(&b, "e5", "d6").unwrap();
    assert_eq!(ep.move_type, MoveType::EnPassant);
    let mut taken = b.clone();
    taken.make_move(&ep);
    assert_eq!(taken.get(sq("d5")), Piece::Empty);
    assert_eq!(taken.get(sq("d6")), Piece::Pawn(Player::White));
    assert_eq!(taken.get_pieces(Player::Black).len(), 1);
    play(&mut b, "e1", "f1");
    play(&mut b, "e8", "f8");
    assert!(!b.en_passant_possible(Player::White, sq("e5"), sq("d6")));
    assert!(find(&b, "e5", "d6").is_none());
}

#[test]
fn en_passant_from_fen_target() {
    let b = Board::from_fen("4k3/8/8/3pP3/8/8/8/4K3 w - d6 0 1");
    let ep = find(&b, "e5", "d6").unwrap();
    assert_eq!(ep.move_type, MoveType::EnPassant);
}

#[test]
fn en_passant_that_exposes_king_is_rejected() {
    let b = Board::from_fen("8/8/8/K2pP2r/8/8/8/7k w - d6 0 1");
    assert!(find(&b, "e5", "d6").is_none());
}

#[test]
fn promotion_enumerates_four_pieces() {
    let b = Board::from_fen("4k3/1P6/8/8/8/8/8/4K3 w - - 0 1");
    let promos: Vec<Move> = moves(&b)
        .into_iter()
        .filter(|m| m.old_pos == sq("b7") && m.new_pos == sq("b8"))
        .collect();
    assert_eq!(promos.len(), 4);
    let kinds: Vec<MoveType> = promos.iter().map(|m| m.move_type).collect();
    assert_eq!(
        kinds,
        vec![
            MoveType::Promotion(Piece::Queen(Player::White)),
            MoveType::Promotion(Piece::Rook(Player::White)),
            MoveType::Promotion(Piece::Bishop(Player::White)),
            MoveType::Promotion(Piece::Knight(Player::White)),
        ]
    );
    let mut after = b.clone();
    after.make_move(&promos[3]);
    assert_eq!(after.get(sq("b8")), Piece::Knight(Player::White));
    assert_eq!(after.get(sq("b7")), Piece::Empty);
}

#[test]
fn promotion_defaults_to_queen() {
    let mut b = Board::from_fen("4k3/1P6/8/8/8/8/8/4K3 w - - 0 1");
    let check = b.in_check(Player::White);
    let c = MoveCandidate { old_pos: sq("b7"), new_pos: sq("b8"), promote_to: None };
    let m = legal_move(&mut b, c, &check).unwrap();
    assert_eq!(m.move_type, MoveType::Promotion(Piece::Queen(Player::White)));
    let bad = MoveCandidate { old_pos: sq("b7"), new_pos: sq("b8"), promote_to: Some(Piece::King(Player::White)) };
    assert_eq!(legal_move(&mut b, bad, &check), None);
}

#[test]
fn castling_gated_by_rook_moves() {
    let mut b = Board::from_fen("r3k2r/8/8/8/8/8/8/R3K2R w KQkq - 0 1");
    let ks = find(&b, "e1", "g1").unwrap();
    assert_eq!(ks.move_type, MoveType::Castle(sq("h1")));
    let qs = find(&b, "e1", "c1").unwrap();
    assert_eq!(qs.move_type, MoveType::Castle(sq("a1")));
    let mut castled = b.clone();
    castled.make_move(&ks);
    assert_eq!(castled.get(sq("g1")), Piece::King(Player::White));
    assert_eq!(castled.get(sq("f1")), Piece::Rook(Player::White));
    assert_eq!(castled.get(sq("h1")), Piece::Empty);
    play(&mut b, "h1", "h2");
    play(&mut b, "a8", "b8");
    play(&mut b, "h2", "h1");
    play(&mut b, "b8", "a8");
    play(&mut b, "a1", "a2");
    play(&mut b, "a8", "b8");
    play(&mut b, "a2", "a1");
    play(&mut b, "b8", "a8");
    assert!(find(&b, "e1", "g1").is_none());
    assert!(find(&b, "e1", "c1").is_none());
    assert!(!b.has_castle_rights(Player::White, sq("h1")));
    assert!(b.has_castle_rights(Player::Black, sq("h8")));
}

#[test]
fn castling_blocked_by_attack_or_pieces() {
    let through = Board::from_fen("r3k2r/8/8/8/8/8/5r2/R3K2R w KQkq - 0 1");
    assert!(find(&through, "e1", "g1").is_none());
    let blocked = Board::from_fen("r3k2r/8/8/8/8/8/8/RN2K2R w KQkq - 0 1");
    assert!(find(&blocked, "e1", "c1").is_none());
    assert!(find(&blocked, "e1", "g1").is_some());
    let in_check = Board::from_fen("r3k2r/8/8/8/8/8/4r3/R3K2R w KQkq - 0 1");
    assert!(find(&in_check, "e1", "g1").is_none());
}

#[test]
fn pinned_piece_cannot_move() {
    let b = Board::from_fen("4k3/4r3/8/8/8/8/4B3/4K3 w - - 0 1");
    assert!(find(&b, "e2", "d3").is_none());
    let mut c = b.clone();
    let check = c.in_check(Player::White);
    let piece_moves = get_possible_moves_from_square(&mut c, sq("e2"), &check);
    assert!(piece_moves.is_empty());
}

#[test]
fn simulation_leaves_board_unchanged() {
    let b = Board::from_fen("4k3/4r3/8/2Pp4/8/8/4B3/4K3 w - d6 0 1");
    let mut c = b.clone();
    let pinned = Move {
        piece: Piece::Bishop(Player::White),
        move_type: MoveType::Move,
        old_pos: sq("e2"),
        new_pos: sq("d3"),
    };
    assert_eq!(c.king_safe_after_move(sq("e1"), pinned), None);
    assert!(same_board(&b, &c));
    let ep = Move {
        piece: Piece::Pawn(Player::White),
        move_type: MoveType::EnPassant,
        old_pos: sq("c5"),
        new_pos: sq("d6"),
    };
    assert_eq!(c.king_safe_after_move(sq("e1"), ep), Some(ep));
    assert!(same_board(&b, &c));
    let exposed = Board::from_fen("8/8/8/K1Pp3r/8/8/8/7k w - d6 0 1");
    let mut d = exposed.clone();
    assert_eq!(d.king_safe_after_move(sq("a5"), ep), None);
    assert!(same_board(&exposed, &d));
}

#[test]
fn check_must_be_answered() {
    let b = Board::from_fen("4k3/8/8/8/8/8/3N4/r3K3 w - - 0 1");
    let all = moves(&b);
    assert!(all.iter().all(|m| m.piece == Piece::King(Player::White) || m.new_pos == sq("b1")));
    assert!(find(&b, "d2", "b1").is_some());
    assert!(find(&b, "d2", "f3").is_none());
}

#[test]
fn double_check_allows_only_king_moves() {
    let b = Board::from_fen("4k3/8/8/8/1b6/8/3N4/4K2r w - - 0 1");
    assert!(moves(&b).iter().all(|m| m.piece == Piece::King(Player::White)));
}

#[test]
fn checkmate_is_detected() {
    let mut b = Board::new();
    play(&mut b, "f2", "f3");
    play(&mut b, "e7", "e5");
    play(&mut b, "g2", "g4");
    play(&mut b, "d8", "h4");
    assert!(moves(&b).is_empty());
    assert_eq!(evaluate(&mut b), Outcome::Checkmate(Player::Black));
}

#[test]
fn stalemate_is_detected() {
    let mut b = Board::from_fen("7k/5Q2/6K1/8/8/8/8/8 b - - 0 1");
    assert_eq!(evaluate(&mut b), Outcome::Stalemate);
    let mut open = Board::new();
    assert_eq!(evaluate(&mut open), Outcome::Ongoing);
}

#[test]
fn wrong_side_and_own_capture_rejected() {
    let mut b = Board::new();
    let check = b.in_check(Player::White);
    let black = MoveCandidate { old_pos: sq("e7"), new_pos: sq("e5"), promote_to: None };
    assert_eq!(legal_move(&mut b, black, &check), None);
    let own = MoveCandidate { old_pos: sq("a1"), new_pos: sq("a2"), promote_to: None };
    assert_eq!(legal_move(&mut b, own, &check), None);
    let off = MoveCandidate { old_pos: sq("e2"), new_pos: Square { rank: 9, file: 5 }, promote_to: None };
    assert_eq!(legal_move(&mut b, off, &check), None);
    let push = MoveCandidate { old_pos: sq("e2"), new_pos: sq("e4"), promote_to: None };
    assert_eq!(legal_move(&mut b, push, &check).unwrap().move_type, MoveType::Move);
}

#[test]
fn find_move_picks_typed_move() {
    let b = Board::from_fen("4k3/1P6/8/8/8/8/8/4K3 w - - 0 1");
    let all = moves(&b);
    let plain = MoveCandidate { old_pos: sq("b7"), new_pos: sq("b8"), promote_to: None };
    assert_eq!(find_move(&all, plain, Player::White).unwrap().move_type, MoveType::Promotion(Piece::Queen(Player::White)));
    let rook = MoveCandidate { old_pos: sq("b7"), new_pos: sq("b8"), promote_to: Some(Piece::Rook(Player::White)) };
    assert_eq!(find_move(&all, rook, Player::White).unwrap().move_type, MoveType::Promotion(Piece::Rook(Player::White)));
    let king = MoveCandidate { old_pos: sq("e1"), new_pos: sq("d2"), promote_to: None };
    assert_eq!(find_move(&all, king, Player::White).unwrap().new_pos, sq("d2"));
    let none = MoveCandidate { old_pos: sq("e1"), new_pos: sq("e3"), promote_to: None };
    assert_eq!(find_move(&all, none, Player::White), None);
}

#[test]
fn from_fen_ignores_off_board_en_passant_square() {
    let b = Board::from_fen("4k3/8/8/3pP3/8/8/8/4K3 w - d9 0 1");
    assert_eq!(b.last_move(), None);
    assert!(find(&b, "e5", "d6").is_none());
}
