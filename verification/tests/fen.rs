use chess_core::board::Board;
use chess_core::error::{EngineError, FenField};
use chess_core::piece::{Color, Piece};
use chess_core::square::Square;

fn error_of(fen: &str) -> EngineError {
    match Board::load_fen(fen.to_owned()) {
        Ok(_) => panic!("{} should not load", fen),
        Err(e) => e,
    }
}

#[test]
fn loads_the_six_fields() {
    let board = Board::load_fen(
        "rnbqkbnr/pp1ppppp/8/2p5/4P3/8/PPPP1PPP/RNBQKBNR w Kq c6 3 17".to_owned(),
    )
    .expect("position should load");
    assert_eq!(board.squares[0], Some((Color::White, Piece::Rook)));
    assert_eq!(board.squares[28], Some((Color::White, Piece::Pawn)));
    assert_eq!(board.squares[34], Some((Color::Black, Piece::Pawn)));
    assert_eq!(board.squares[60], Some((Color::Black, Piece::King)));
    assert_eq!(board.squares[12], None);
    assert_eq!(board.turn, Color::White);
    assert_eq!(board.castling_availability, [(true, false), (false, true)]);
    assert_eq!(board.en_passant, Square::C6.bitboard());
    assert_eq!(board.halfmove_count, 3);
    assert_eq!(board.move_count, 17);
    assert_eq!(board.bitboards.0[0].0, 0x0000_0000_1000_efff);
    assert_eq!(board.bitboards.0[1].0, 0xfffb_0004_0000_0000);
}

#[test]
fn text_round_trip() {
    for fen in [
        "rnbqkbnr/pppppppp/8/8/8/8/PPPPPPPP/RNBQKBNR w KQkq - 0 1",
        "r3k2r/p1ppqpb1/bn2pnp1/3PN3/1p2P3/2N2Q1p/PPPBBPPP/R3K2R w KQkq - 0 1",
        "8/2p5/3p4/KP5r/1R3p1k/8/4P1P1/8 w - - 0 1",
        "r3k2r/Pppp1ppp/1b3nbN/nP6/BBP1P3/q4N2/Pp1P2PP/R2Q1RK1 w kq - 0 1",
        "rnbq1k1r/pp1Pbppp/2p5/8/2B5/8/PPP1NnPP/RNBQK2R w KQ - 1 8",
        "rnbqkbnr/pppppppp/8/8/4P3/8/PPPP1PPP/RNBQKBNR b KQkq e3 0 1",
        "4k3/8/8/8/8/8/8/4K3 b - - 120 4096",
    ] {
        let board = Board::load_fen(fen.to_owned()).expect("position should load");
        assert_eq!(board.to_fen(), fen);
    }
}

#[test]
fn each_field_is_checked() {
    assert_eq!(error_of(""), EngineError::ParsePosition(FenField::Placement));
    assert_eq!(
        error_of("rnbqkbnr/pppppppp/8/8/8/8/PPPPPPPP/RNBQKBN w KQkq - 0 1"),
        EngineError::ParsePosition(FenField::Placement)
    );
    assert_eq!(
        error_of("rnbqkbnr/pppppppp/44/8/8/8/PPPPPPPP/RNBQKBNR w KQkq - 0 1"),
        EngineError::ParsePosition(FenField::Placement)
    );
    assert_eq!(
        error_of("rnbqkbnr/pppppppp/9/8/8/8/PPPPPPPP/RNBQKBNR w KQkq - 0 1"),
        EngineError::ParsePosition(FenField::Placement)
    );
    assert_eq!(
        error_of("rnbqkbnr/pppppppp/8/8/8/8/PPPPPPPP/RNBQXBNR w KQkq - 0 1"),
        EngineError::ParsePosition(FenField::Placement)
    );
    assert_eq!(
        error_of("rnbqkbnr/pppppppp/8/8/8/8/PPPPPPPP/RNBQKBNR"),
        EngineError::ParsePosition(FenField::SideToMove)
    );
    assert_eq!(
        error_of("rnbqkbnr/pppppppp/8/8/8/8/PPPPPPPP/RNBQKBNR x KQkq - 0 1"),
        EngineError::ParsePosition(FenField::SideToMove)
    );
    assert_eq!(
        error_of("rnbqkbnr/pppppppp/8/8/8/8/PPPPPPPP/RNBQKBNR w QK - 0 1"),
        EngineError::ParsePosition(FenField::Castling)
    );
    assert_eq!(
        error_of("rnbqkbnr/pppppppp/8/8/8/8/PPPPPPPP/RNBQKBNR w KQkq e9 0 1"),
        EngineError::ParsePosition(FenField::EnPassant)
    );
    assert_eq!(
        error_of("rnbqkbnr/pppppppp/8/8/8/8/PPPPPPPP/RNBQKBNR w KQkq - x 1"),
        EngineError::ParsePosition(FenField::HalfmoveClock)
    );
    assert_eq!(
        error_of("rnbqkbnr/pppppppp/8/8/8/8/PPPPPPPP/RNBQKBNR w KQkq - 0 0"),
        EngineError::ParsePosition(FenField::FullmoveCounter)
    );
    assert_eq!(
        error_of("rnbqkbnr/pppppppp/8/8/8/8/PPPPPPPP/RNBQKBNR w KQkq - 0 01"),
        EngineError::ParsePosition(FenField::FullmoveCounter)
    );
    assert_eq!(
        error_of("rnbqkbnr/pppppppp/8/8/8/8/PPPPPPPP/RNBQKBNR w KQkq - 0 1 extra"),
        EngineError::ParsePosition(FenField::FullmoveCounter)
    );
    assert_eq!(
        error_of("rnbqkbnr/pppppppp/8/8/8/8/PPPPPPPP/RNBQKBNR w KQkq - 0 99999999999999999999999"),
        EngineError::ParsePosition(FenField::FullmoveCounter)
    );
}

#[test]
fn positions_that_no_game_reaches_are_refused() {
    assert_eq!(
        error_of("r3k2r/Pppp1ppp/1b3nbN/nP6/BBP1P3/q4N2/Pp1P2pP/R2Q1RQ1 w kq - 0 1"),
        EngineError::ParsePosition(FenField::Placement)
    );
    assert_eq!(
        error_of("4k3/8/8/8/8/8/8/3KK3 w - - 0 1"),
        EngineError::ParsePosition(FenField::Placement)
    );
    assert_eq!(
        error_of("P3k3/8/8/8/8/8/8/4K3 w - - 0 1"),
        EngineError::ParsePosition(FenField::Placement)
    );
    assert_eq!(
        error_of("4k3/8/8/8/8/8/8/4K2p w - - 0 1"),
        EngineError::ParsePosition(FenField::Placement)
    );
    assert_eq!(
        error_of("rnbqkbnr/pppppppp/8/8/8/8/PPPPPPPP/RNBQKBNR w KQkq e3 0 1"),
        EngineError::ParsePosition(FenField::EnPassant)
    );
    assert_eq!(
        error_of("rnbqkbnr/pppppppp/8/8/8/8/PPPPPPPP/RNBQKBNR b KQkq e3 0 1"),
        EngineError::ParsePosition(FenField::EnPassant)
    );
    assert_eq!(
        error_of("4k3/8/8/8/8/8/8/r3K3 b - - 0 1"),
        EngineError::ParsePosition(FenField::SideToMove)
    );
}
