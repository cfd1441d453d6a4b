use chess_core::engine::{EngineControl, EngineEvent, UciEngine};
use chess_core::error::{EngineError, FenField};
use chess_core::moves::{Move, MoveFlag};
use chess_core::piece::Piece;
use chess_core::square::Square;
use chess_core::uci::{UciCommand, UciFen, UciMove, UciRawCommand, Words};
use chess_core::utils::perft_report;

fn command(line: &str) -> UciCommand {
    UciCommand::try_parse(line.to_owned()).expect("the line is a command")
}

#[test]
fn perft_before_a_position_is_reported() {
    let mut engine = UciEngine::new();
    let events = engine.handle_command(UciCommand::Perft(2)).expect("no error");
    assert_eq!(events.len(), 1);
    match &events[0] {
        EngineEvent::Debug(text) => assert_eq!(text, "position not set"),
        other => panic!("unexpected event {:?}", other),
    }
}

#[test]
fn position_then_perft_gives_the_root_breakdown() {
    let mut engine = UciEngine::new();
    let events = engine
        .handle_command(command("position startpos moves e2e4 e7e5"))
        .expect("no error");
    assert!(events.is_empty());
    assert!(engine.is_position_set);
    assert_eq!(
        engine.board.to_fen(),
        "rnbqkbnr/pppp1ppp/8/4p3/4P3/8/PPPP1PPP/RNBQKBNR w KQkq e6 0 2"
    );
    let events = engine.handle_command(command("perft 2")).expect("no error");
    assert_eq!(events.len(), 1);
    match &events[0] {
        EngineEvent::PerftResult {
            depth,
            count,
            root_nodes,
        } => {
            assert_eq!(*depth, 2);
            assert_eq!(*count, 835);
            assert_eq!(root_nodes.len(), 29);
            assert_eq!(root_nodes.iter().map(|n| n.1).sum::<u64>(), 835);
            let first = &root_nodes[0];
            assert_eq!(
                first.0,
                Move {
                    starting_square: Square::B1,
                    target_square: Square::A3,
                    flag: MoveFlag::Quiet
                }
            );
            assert_eq!(first.0.notation_long(), "b1a3");
            assert_eq!(first.1, 29);
        }
        other => panic!("unexpected event {:?}", other),
    }
    assert_eq!(
        engine.board.to_fen(),
        "rnbqkbnr/pppp1ppp/8/4p3/4P3/8/PPPP1PPP/RNBQKBNR w KQkq e6 0 2"
    );
}

#[test]
fn illegal_replay_keeps_the_position_that_was_read() {
    let mut engine = UciEngine::new();
    let result = engine.handle_command(command("position startpos moves e2e4 e2e4"));
    assert!(matches!(result, Err(EngineError::IllegalMove(1))));
    assert!(engine.is_position_set);
    assert_eq!(
        engine.board.to_fen(),
        "rnbqkbnr/pppppppp/8/8/8/8/PPPPPPPP/RNBQKBNR w KQkq - 0 1"
    );
}

#[test]
fn a_text_that_is_no_position_changes_nothing() {
    let mut engine = UciEngine::new();
    let result = engine.handle_command(command("position fen a b c d e f"));
    assert!(matches!(
        result,
        Err(EngineError::ParsePosition(FenField::Placement))
    ));
    assert!(!engine.is_position_set);
    let events = engine.run_thread(EngineControl::UciCommand(command(
        "position fen 8/8/8/8/8/8/8/8 w - - 0 1",
    )));
    assert_eq!(events.len(), 1);
    match &events[0] {
        EngineEvent::Debug(text) => assert_eq!(text, "error: invalid fen"),
        other => panic!("unexpected event {:?}", other),
    }
}

#[test]
fn terminate_stops_the_engine() {
    let mut engine = UciEngine::new();
    assert!(engine.run_thread(EngineControl::Perft(1)).is_empty());
    assert!(!engine.stop);
    assert!(engine.run_thread(EngineControl::Terminate).is_empty());
    assert!(engine.stop);
}

#[test]
fn commands_are_named_in_any_case() {
    assert_eq!(command("QUIT"), UciCommand::Quit);
    assert_eq!(command("junk Stop"), UciCommand::Stop);
    assert_eq!(command("debug on"), UciCommand::Debug(true));
    assert_eq!(command("debug off"), UciCommand::Debug(false));
    assert_eq!(command("  perft   5 "), UciCommand::Perft(5));
    assert_eq!(UciCommand::try_parse("perft".to_owned()), None);
    assert_eq!(UciCommand::try_parse("perft 4294967296".to_owned()), None);
    assert_eq!(UciCommand::try_parse("go depth 3".to_owned()), None);
    assert_eq!(UciCommand::try_parse("position here".to_owned()), None);
    assert_eq!(UciCommand::try_parse("".to_owned()), None);
    let mut words = Words::new("x y GO z");
    assert_eq!(UciRawCommand::parse(&mut words), Some(UciRawCommand::Go));
    assert_eq!(words.remaining(), 1);
    assert_eq!(UciRawCommand::parse(&mut words), None);
    assert_eq!(words.remaining(), 0);
}

#[test]
fn position_with_fen_and_moves() {
    assert_eq!(
        command("position fen 4k3/8/8/8/8/8/P7/4K3 w - - 0 1 moves a2a4 zz e8d8 a7a8n"),
        UciCommand::Position {
            fen: Some(UciFen::new("4k3/8/8/8/8/8/P7/4K3 w - - 0 1")),
            moves: vec![
                UciMove {
                    starting_square: Square::A2,
                    target_square: Square::A4,
                    promotion: None
                },
                UciMove {
                    starting_square: Square::E8,
                    target_square: Square::D8,
                    promotion: None
                },
                UciMove {
                    starting_square: Square::A7,
                    target_square: Square::A8,
                    promotion: Some(Piece::Knight)
                },
            ],
        }
    );
    let fen = UciFen::new("4k3/8/8/8/8/8/P7/4K3 w - - 0 1");
    assert_eq!(fen.inner(), "4k3/8/8/8/8/8/P7/4K3 w - - 0 1");
}

#[test]
fn moves_in_long_algebraic_notation() {
    assert_eq!(
        UciMove::parse("H7h8r"),
        Some(UciMove {
            starting_square: Square::H7,
            target_square: Square::H8,
            promotion: Some(Piece::Rook)
        })
    );
    assert_eq!(UciMove::parse("e2e"), None);
    assert_eq!(UciMove::parse("e2e9"), None);
    assert_eq!(UciMove::parse("i2e4"), None);
    assert_eq!(UciMove::parse("e7e8p"), None);
    assert_eq!(UciMove::parse("e7e8qq"), None);
    let promotion = Move {
        starting_square: Square::E7,
        target_square: Square::D8,
        flag: MoveFlag::PromotionCapture(Piece::Rook, Piece::Bishop),
    };
    assert_eq!(promotion.notation_long(), "e7d8b");
    assert_eq!(promotion.to_text(), "e7xd8=B");
    let en_passant = Move {
        starting_square: Square::D5,
        target_square: Square::E6,
        flag: MoveFlag::EnPassant(Square::E5),
    };
    assert_eq!(en_passant.to_text(), "[EP e5]d5e6");
}

#[test]
fn perft_report_lists_the_root_moves_and_the_total() {
    let nodes = vec![
        (
            Move {
                starting_square: Square::E2,
                target_square: Square::E4,
                flag: MoveFlag::DoublePush,
            },
            20,
        ),
        (
            Move {
                starting_square: Square::E7,
                target_square: Square::E8,
                flag: MoveFlag::Promotion(Piece::Queen),
            },
            1234567,
        ),
    ];
    assert_eq!(
        perft_report(&nodes, 1234587),
        "e2e4: 20\ne7e8q: 1234567\n\nNodes searched: 1234587\n"
    );
    assert_eq!(perft_report(&vec![], 0), "\nNodes searched: 0\n");
}
