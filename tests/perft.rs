use chess::board::Board;
use chess::validator::get_possible_moves;

fn perft(board: &Board, depth: u32) -> u64 {
    if depth == 0 {
        return 1;
    }
    let mut b = board.clone();
    let moves = get_possible_moves(&mut b);
    if depth == 1 {
        return moves.len() as u64;
    }
    let mut count = 0u64;
    for m in &moves {
        let mut next = board.clone();
        next.make_move(m);
        count += perft(&next, depth - 1);
    }
    count
}

#[test]
fn perft_initial_depth_1() {
    assert_eq!(perft(&Board::new(), 1), 20);
}

#[test]
fn perft_initial_depth_2() {
    assert_eq!(perft(&Board::new(), 2), 400);
}

#[test]
fn perft_initial_depth_3() {
    assert_eq!(perft(&Board::new(), 3), 8902);
}

#[test]
fn perft_initial_depth_4() {
    assert_eq!(perft(&Board::new(), 4), 197281);
}

#[test]
fn perft_kiwipete_depth_1() {
    let b = Board::from_fen("r3k2r/p1ppqpb1/bn2pnp1/3PN3/1p2P3/2N2Q1p/PPPBBPPP/R3K2R w KQkq - 0 1");
    assert_eq!(perft(&b, 1), 48);
}

#[test]
fn perft_kiwipete_depth_2() {
    let b = Board::from_fen("r3k2r/p1ppqpb1/bn2pnp1/3PN3/1p2P3/2N2Q1p/PPPBBPPP/R3K2R w KQkq - 0 1");
    assert_eq!(perft(&b, 2), 2039);
}

#[test]
fn perft_kiwipete_depth_3() {
    let b = Board::from_fen("r3k2r/p1ppqpb1/bn2pnp1/3PN3/1p2P3/2N2Q1p/PPPBBPPP/R3K2R w KQkq - 0 1");
    assert_eq!(perft(&b, 3), 97862);
}

#[test]
fn perft_rook_endgame_depth_3() {
    let b = Board::from_fen("8/2p5/3p4/KP5r/1R3p1k/8/4P1P1/8 w - - 0 1");
    assert_eq!(perft(&b, 1), 14);
    assert_eq!(perft(&b, 2), 191);
    assert_eq!(perft(&b, 3), 2812);
}

#[test]
fn perft_rook_endgame_depth_4() {
    let b = Board::from_fen("8/2p5/3p4/KP5r/1R3p1k/8/4P1P1/8 w - - 0 1");
    assert_eq!(perft(&b, 4), 43238);
}

#[test]
fn perft_promotion_position_depth_3() {
    let b = Board::from_fen("r3k2r/Pppp1ppp/1b3nbN/nP6/BBP1P3/q4N2/Pp1P2PP/R2Q1RK1 w kq - 0 1");
    assert_eq!(perft(&b, 1), 6);
    assert_eq!(perft(&b, 2), 264);
    assert_eq!(perft(&b, 3), 9467);
}
