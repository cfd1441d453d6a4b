use chess_core::board::Board;
use chess_core::utils;

fn count(fen: &str, depth: u32) -> u64 {
    let mut board = Board::load_fen(fen.to_owned()).expect("position should load");
    utils::perft(&mut board, depth, depth, &mut None)
}

#[test]
pub fn startpos() {
    const RESULTS: [u64; 5] = [1, 20, 400, 8902, 197281];

    let mut board =
        Board::load_fen("rnbqkbnr/pppppppp/8/8/8/8/PPPPPPPP/RNBQKBNR w KQkq - 0 1".to_owned())
            .expect("failed to construct board with starting position");

    for depth in 1..=4 {
        println!("Running Perft({})...", depth);

        let res = utils::perft(&mut board, depth, depth, &mut None);

        assert_eq!(
            res, RESULTS[depth as usize],
            "Perft({}) returned an incorrect value.",
            depth
        );
    }
}

#[test]
fn perft_depth_zero_is_one() {
    assert_eq!(count("rnbqkbnr/pppppppp/8/8/8/8/PPPPPPPP/RNBQKBNR w KQkq - 0 1", 0), 1);
}

#[test]
fn perft_kiwipete() {
    let fen = "r3k2r/p1ppqpb1/bn2pnp1/3PN3/1p2P3/2N2Q1p/PPPBBPPP/R3K2R w KQkq - 0 1";
    assert_eq!(count(fen, 1), 48);
    assert_eq!(count(fen, 2), 2039);
    assert_eq!(count(fen, 3), 97862);
}

#[test]
fn perft_rook_endgame() {
    let fen = "8/2p5/3p4/KP5r/1R3p1k/8/4P1P1/8 w - - 0 1";
    assert_eq!(count(fen, 1), 14);
    assert_eq!(count(fen, 2), 191);
    assert_eq!(count(fen, 3), 2812);
    assert_eq!(count(fen, 4), 43238);
}

#[test]
fn perft_promotions_under_check() {
    let fen = "r3k2r/Pppp1ppp/1b3nbN/nP6/BBP1P3/q4N2/Pp1P2PP/R2Q1RK1 w kq - 0 1";
    assert_eq!(count(fen, 1), 6);
    assert_eq!(count(fen, 2), 264);
    assert_eq!(count(fen, 3), 9467);
}

#[test]
fn perft_promotion_with_castling() {
    let fen = "rnbq1k1r/pp1Pbppp/2p5/8/2B5/8/PPP1NnPP/RNBQK2R w KQ - 1 8";
    assert_eq!(count(fen, 1), 44);
    assert_eq!(count(fen, 2), 1486);
    assert_eq!(count(fen, 3), 62379);
}

#[test]
fn perft_rook_endgame_deep() {
    assert_eq!(count("8/2p5/3p4/KP5r/1R3p1k/8/4P1P1/8 w - - 0 1", 5), 674624);
}

#[test]
fn perft_promotions_under_check_deep() {
    let fen = "r3k2r/Pppp1ppp/1b3nbN/nP6/BBP1P3/q4N2/Pp1P2PP/R2Q1RK1 w kq - 0 1";
    assert_eq!(count(fen, 4), 422333);
}

#[test]
fn perft_kiwipete_deep() {
    let fen = "r3k2r/p1ppqpb1/bn2pnp1/3PN3/1p2P3/2N2Q1p/PPPBBPPP/R3K2R w KQkq - 0 1";
    assert_eq!(count(fen, 4), 4085603);
}

#[test]
fn perft_promotion_with_castling_deep() {
    let fen = "rnbq1k1r/pp1Pbppp/2p5/8/2B5/8/PPP1NnPP/RNBQK2R w KQ - 1 8";
    assert_eq!(count(fen, 4), 2103487);
}

#[test]
fn perft_start_position_deep() {
    assert_eq!(
        count("rnbqkbnr/pppppppp/8/8/8/8/PPPPPPPP/RNBQKBNR w KQkq - 0 1", 5),
        4865609
    );
}
