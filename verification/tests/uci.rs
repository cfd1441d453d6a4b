use chess_core::piece::Piece;
use chess_core::square::Square;
use chess_core::uci::{UciCommand, UciFen, UciMove};

#[test]
pub fn simple() {
    assert_eq!(
        UciMove::parse("a2a4"),
        Some(UciMove {
            promotion: None,
            starting_square: Square::A2,
            target_square: Square::A4,
        })
    );
}

#[test]
pub fn pawn_promotion() {
    assert_eq!(
        UciMove::parse("a2a4Q"),
        Some(UciMove {
            promotion: Some(Piece::Queen),
            starting_square: Square::A2,
            target_square: Square::A4,
        })
    );
}

#[test]
pub fn invalid_pawn_promotion() {
    assert_eq!(
        UciMove::parse("a2a4K"), // Promote to a new King...
        None
    );
}

#[test]
pub fn basic_startpos() {
    assert_eq!(
        UciCommand::try_parse("position startpos".to_owned()),
        Some(UciCommand::Position {
            fen: None,
            moves: vec![],
        })
    )
}

#[test]
pub fn startpos_kingspawn() {
    assert_eq!(
        UciCommand::try_parse("position startpos moves e2e4 e7e5".to_owned()),
        Some(UciCommand::Position {
            fen: None,
            moves: vec![
                UciMove {
                    starting_square: Square::E2,
                    target_square: Square::E4,
                    promotion: None
                },
                UciMove {
                    starting_square: Square::E7,
                    target_square: Square::E5,
                    promotion: None
                }
            ],
        })
    )
}

#[test]
pub fn fen_startpos() {
    assert_eq!(
        UciCommand::try_parse(
            "position fen rnbqkbnr/pppppppp/8/8/8/8/PPPPPPPP/RNBQKBNR w KQkq - 0 1".to_owned()
        ),
        Some(UciCommand::Position {
            fen: Some(UciFen::new(
                "rnbqkbnr/pppppppp/8/8/8/8/PPPPPPPP/RNBQKBNR w KQkq - 0 1"
            )),
            moves: vec![],
        })
    )
}

#[test]
pub fn position_invalid_fen() {
    assert_eq!(
        UciCommand::try_parse("position fen 0000/A0A0A.? @NOT_A_FEN_STRING".to_owned()),
        None
    )
}
