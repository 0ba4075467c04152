use chess::board::{chess_factor, PieceState, Board};
use chess::input::parse_simple_input;
use chess::piece::{Piece, Player};
use chess::pos::{get_move_dir, move_diff_sign, on_board, Square};

fn sq(name: &str) -> Square {
    Square::from_string(name).unwrap()
}

#[test]
fn player_invert_and_sign() {
    assert_eq!(Player::White.invert(), Player::Black);
    assert_eq!(Player::Black.invert(), Player::White);
    assert_eq!(Player::White.sign(), 1);
    assert_eq!(Player::Black.sign(), -1);
}

#[test]
fn piece_owner_and_glyph() {
    assert_eq!(Piece::Empty.owner(), None);
    assert_eq!(Piece::Knight(Player::Black).owner(), Some(Player::Black));
    assert_eq!(Piece::King(Player::White).owner(), Some(Player::White));
    assert_eq!(Piece::Empty.to_char(), ' ');
    assert_eq!(Piece::Pawn(Player::White).to_char(), '♟');
    assert_eq!(Piece::Queen(Player::Black).to_char(), '♕');
    assert_eq!(Piece::King(Player::White).to_char(), '♚');
}

#[test]
fn square_from_string_reads_names() {
    assert_eq!(sq("e4"), Square { rank: 4, file: 5 });
    assert_eq!(sq("A1"), Square { rank: 1, file: 1 });
    assert_eq!(sq("h8"), Square { rank: 8, file: 8 });
    assert_eq!(Square::from_string("e"), Err("input too short".to_string()));
    assert_eq!(Square::from_string("4e"), Err("invalid character".to_string()));
    assert_eq!(Square::from_string("i4"), Err("Invalid character".to_string()));
    assert_eq!(Square::from_string("e9"), Err("rank out of range".to_string()));
    assert_eq!(Square::from_string("a0"), Err("rank out of range".to_string()));
}

#[test]
fn square_arithmetic() {
    let s = Square::new(2, 3);
    assert_eq!(s, Square { rank: 2, file: 3 });
    assert_eq!(s.get_rank(), 2);
    assert_eq!(s.get_file(), 3);
    assert_eq!(s.add(Square { rank: 1, file: -1 }), Square { rank: 3, file: 2 });
    assert_eq!(s.sub(Square { rank: 1, file: -1 }), Square { rank: 1, file: 4 });
    assert!(on_board(&s));
    assert!(!on_board(&Square { rank: 0, file: 3 }));
    assert!(!on_board(&Square { rank: 4, file: 9 }));
}

#[test]
fn directions_are_unit_steps() {
    assert_eq!(move_diff_sign(5, -3), Square { rank: 1, file: -1 });
    assert_eq!(move_diff_sign(0, 2), Square { rank: 0, file: 1 });
    assert_eq!(get_move_dir(sq("a1"), sq("h8")), Square { rank: 1, file: 1 });
    assert_eq!(get_move_dir(sq("e4"), sq("e1")), Square { rank: -1, file: 0 });
}

#[test]
fn chess_factor_divides_by_gcd() {
    assert_eq!(chess_factor(sq("a1"), sq("c3")), Square { rank: 1, file: 1 });
    assert_eq!(chess_factor(sq("a1"), sq("e3")), Square { rank: 1, file: 2 });
    assert_eq!(chess_factor(sq("h8"), sq("b8")), Square { rank: 0, file: -1 });
    assert_eq!(chess_factor(sq("d4"), sq("e6")), Square { rank: 2, file: 1 });
    assert_eq!(chess_factor(sq("d4"), sq("d4")), Square { rank: 0, file: 0 });
}

#[test]
fn attack_oracle_sees_blocking() {
    let b = Board::from_fen("4k3/8/8/8/8/8/4P3/R3K3 w - - 0 1");
    let rook = PieceState { piece_type: Piece::Rook(Player::White), pos: sq("a1") };
    assert!(rook.is_attacking(&b, sq("d1")));
    assert!(rook.is_attacking(&b, sq("a8")));
    assert!(!rook.is_attacking(&b, sq("b2")));
    let pawn = PieceState { piece_type: Piece::Pawn(Player::White), pos: sq("e2") };
    assert!(pawn.is_attacking(&b, sq("d3")));
    assert!(pawn.is_attacking(&b, sq("f3")));
    assert!(!pawn.is_attacking(&b, sq("e3")));
    let king = PieceState { piece_type: Piece::King(Player::White), pos: sq("e1") };
    assert!(!rook.is_attacking(&b, sq("f1")));
    assert!(king.is_attacking(&b, sq("f1")));
    assert!(!king.is_attacking(&b, sq("e1")));
}

#[test]
fn attack_oracle_sees_through_enemy_king() {
    let b = Board::from_fen("8/8/8/8/r3K3/8/8/7k w - - 0 1");
    let rook = PieceState { piece_type: Piece::Rook(Player::Black), pos: sq("a4") };
    assert!(rook.is_attacking(&b, sq("f4")));
    let knight = PieceState { piece_type: Piece::Knight(Player::White), pos: sq("g1") };
    assert!(knight.is_attacking(&b, sq("f3")));
    assert!(!knight.is_attacking(&b, sq("g3")));
}

#[test]
fn parse_simple_input_reads_moves() {
    let c = parse_simple_input(" E2 e4\n", Player::White).unwrap();
    assert_eq!(c.old_pos, sq("e2"));
    assert_eq!(c.new_pos, sq("e4"));
    assert_eq!(c.promote_to, None);
    let p = parse_simple_input("e7e8n", Player::White).unwrap();
    assert_eq!(p.promote_to, Some(Piece::Knight(Player::White)));
    let q = parse_simple_input("a2a1x", Player::Black).unwrap();
    assert_eq!(q.promote_to, None);
    assert_eq!(parse_simple_input("e2e", Player::White), Err("Invalid Input!".to_string()));
    assert_eq!(parse_simple_input("z2e4", Player::White), Err("Invalid character".to_string()));
    assert_eq!(parse_simple_input("e2-4", Player::White), Err("invalid character".to_string()));
}

#[test]
fn parse_simple_input_drops_unicode_white_space() {
    let c = parse_simple_input("e2\u{3000}e4", Player::White).unwrap();
    assert_eq!(c.old_pos, sq("e2"));
    assert_eq!(c.new_pos, sq("e4"));
    let d = parse_simple_input("\u{00A0}g1\u{2003}f3\u{2028}", Player::White).unwrap();
    assert_eq!(d.old_pos, sq("g1"));
    assert_eq!(d.new_pos, sq("f3"));
    assert_eq!(parse_simple_input("e2e9", Player::White), Err("rank out of range".to_string()));
    assert_eq!(parse_simple_input("e2\u{00E9}4", Player::White), Err("invalid character".to_string()));
}
