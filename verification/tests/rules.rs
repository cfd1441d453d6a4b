use chess_core::bitboard::BitBoard;
use chess_core::board::Board;
use chess_core::error::EngineError;
use chess_core::moves::{CastlingMethod, Move, MoveFlag};
use chess_core::piece::{Color, Piece};
use chess_core::square::Square;

const START: &str = "rnbqkbnr/pppppppp/8/8/8/8/PPPPPPPP/RNBQKBNR w KQkq - 0 1";

fn load(fen: &str) -> Board {
    Board::load_fen(fen.to_owned()).expect("position should load")
}

fn legal(board: &mut Board) -> Vec<Move> {
    let turn = board.turn;
    board.generate_moves(turn)
}

fn assert_invariants(board: &Board) {
    let t = &board.bitboards.0;
    assert_eq!(t[0].0 & t[1].0, 0);
    assert_eq!(
        t[2].0 | t[3].0 | t[4].0 | t[5].0 | t[6].0 | t[7].0,
        t[0].0 | t[1].0
    );
    assert_eq!((t[0].0 & t[2].0).count_ones(), 1);
    assert_eq!((t[1].0 & t[2].0).count_ones(), 1);
    assert_eq!(t[3].0 & 0xff00_0000_0000_00ff, 0);
    for s in 0..64usize {
        let bit = 1u64 << s;
        match board.squares[s] {
            Some((c, k)) => {
                assert_ne!(t[c.index()].0 & bit, 0);
                assert_ne!(t[k.index()].0 & bit, 0);
                assert_eq!(t[c.opponent().index()].0 & bit, 0);
                let mut kinds = 0;
                for i in 2..8 {
                    if t[i].0 & bit != 0 {
                        kinds += 1;
                    }
                }
                assert_eq!(kinds, 1);
            }
            None => {
                for i in 0..8 {
                    assert_eq!(t[i].0 & bit, 0);
                }
            }
        }
    }
}

#[test]
fn start_position_has_twenty_moves() {
    let mut board = load(START);
    let moves = legal(&mut board);
    assert_eq!(moves.len(), 20);
    assert_eq!(
        moves[0],
        Move {
            starting_square: Square::B1,
            target_square: Square::A3,
            flag: MoveFlag::Quiet
        }
    );
    assert!(moves.contains(&Move {
        starting_square: Square::E2,
        target_square: Square::E4,
        flag: MoveFlag::DoublePush
    }));
}

#[test]
fn invariants_hold_along_a_game() {
    let mut board = load(START);
    assert_invariants(&board);
    board
        .do_str_moves("e2e4 d7d5 e4d5 d8d5 b1c3 d5a5 g1f3 c8g4 f1e2 b8c6 e1g1 e8c8")
        .expect("the moves are legal");
    assert_invariants(&board);
    assert_eq!(
        board.to_fen(),
        "2kr1bnr/ppp1pppp/2n5/q7/6b1/2N2N2/PPPPBPPP/R1BQ1RK1 w - - 8 7"
    );
    let turn = board.turn;
    let attacked = board.compute_attacks(turn);
    let other_king = board.bitboards.get_piece_set(Piece::King, Some(turn.opponent()));
    assert_eq!(attacked.0 & other_king.0, 0);
}

#[test]
fn promotion_gives_four_moves_per_destination() {
    let mut board = load("1n2k3/P7/8/8/8/8/8/4K3 w - - 0 1");
    let moves: Vec<Move> = legal(&mut board)
        .into_iter()
        .filter(|m| m.starting_square == Square::A7)
        .collect();
    let expected = vec![
        Move {
            starting_square: Square::A7,
            target_square: Square::A8,
            flag: MoveFlag::Promotion(Piece::Queen),
        },
        Move {
            starting_square: Square::A7,
            target_square: Square::A8,
            flag: MoveFlag::Promotion(Piece::Rook),
        },
        Move {
            starting_square: Square::A7,
            target_square: Square::A8,
            flag: MoveFlag::Promotion(Piece::Bishop),
        },
        Move {
            starting_square: Square::A7,
            target_square: Square::A8,
            flag: MoveFlag::Promotion(Piece::Knight),
        },
        Move {
            starting_square: Square::A7,
            target_square: Square::B8,
            flag: MoveFlag::PromotionCapture(Piece::Knight, Piece::Queen),
        },
        Move {
            starting_square: Square::A7,
            target_square: Square::B8,
            flag: MoveFlag::PromotionCapture(Piece::Knight, Piece::Rook),
        },
        Move {
            starting_square: Square::A7,
            target_square: Square::B8,
            flag: MoveFlag::PromotionCapture(Piece::Knight, Piece::Bishop),
        },
        Move {
            starting_square: Square::A7,
            target_square: Square::B8,
            flag: MoveFlag::PromotionCapture(Piece::Knight, Piece::Knight),
        },
    ];
    assert_eq!(moves, expected);
}

#[test]
fn promotion_replaces_the_pawn() {
    let mut board = load("1n2k3/P7/8/8/8/8/8/4K3 w - - 0 1");
    board.do_str_moves("a7b8q").expect("the capture is legal");
    assert_eq!(board.to_fen(), "1Q2k3/8/8/8/8/8/8/4K3 b - - 0 1");
    assert_invariants(&board);
}

#[test]
fn double_push_sets_the_en_passant_target_for_one_ply() {
    let mut board = load(START);
    board.do_str_moves("e2e4").expect("e2e4 is legal");
    assert_eq!(board.en_passant, Square::E3.bitboard());
    assert_eq!(
        board.to_fen(),
        "rnbqkbnr/pppppppp/8/8/4P3/8/PPPP1PPP/RNBQKBNR b KQkq e3 0 1"
    );
    board.do_str_moves("g8f6").expect("g8f6 is legal");
    assert_eq!(board.en_passant, BitBoard(0));
    assert_eq!(
        board.to_fen(),
        "rnbqkb1r/pppppppp/5n2/8/4P3/8/PPPP1PPP/RNBQKBNR w KQkq - 1 2"
    );
}

#[test]
fn en_passant_takes_the_pawn_behind_the_target() {
    let mut board = load("4k3/8/8/3Pp3/8/8/8/4K3 w - e6 0 1");
    let moves = legal(&mut board);
    let capture = Move {
        starting_square: Square::D5,
        target_square: Square::E6,
        flag: MoveFlag::EnPassant(Square::E5),
    };
    assert!(moves.contains(&capture));
    assert_eq!(board.do_move(capture), Some(()));
    assert_eq!(board.to_fen(), "4k3/8/4P3/8/8/8/8/4K3 b - - 0 1");
    assert_invariants(&board);
    assert_eq!(board.undo_move(capture), Some(()));
    assert_eq!(board.to_fen(), "4k3/8/8/3Pp3/8/8/8/4K3 w - e6 0 1");
    assert_invariants(&board);
}

#[test]
fn en_passant_that_uncovers_the_king_is_not_generated() {
    let mut board = load("8/8/8/K2Pp2r/8/8/8/4k3 w - e6 0 1");
    let moves = legal(&mut board);
    assert!(moves
        .iter()
        .all(|m| !matches!(m.flag, MoveFlag::EnPassant(_))));
    assert!(moves.contains(&Move {
        starting_square: Square::D5,
        target_square: Square::D6,
        flag: MoveFlag::Quiet
    }));
    assert_eq!(board.to_fen(), "8/8/8/K2Pp2r/8/8/8/4k3 w - e6 0 1");
}

#[test]
fn en_passant_may_take_the_pawn_that_gives_check() {
    let mut board = load("8/8/8/3pP3/4K3/8/8/7k w - d6 0 1");
    let moves = legal(&mut board);
    assert!(moves.contains(&Move {
        starting_square: Square::E5,
        target_square: Square::D6,
        flag: MoveFlag::EnPassant(Square::D5),
    }));
}

#[test]
fn king_keeps_off_the_squares_next_to_the_other_king() {
    let mut board = load("8/8/8/3k4/8/3K4/8/8 w - - 0 1");
    let mut targets: Vec<Square> = legal(&mut board)
        .into_iter()
        .map(|m| m.target_square)
        .collect();
    targets.sort_by_key(|s| s.to_index());
    assert_eq!(
        targets,
        vec![Square::C2, Square::D2, Square::E2, Square::C3, Square::E3]
    );
}

#[test]
fn no_castling_across_an_attacked_square() {
    let mut board = load("4k3/8/8/8/8/5r2/8/4K2R w K - 0 1");
    let moves = legal(&mut board);
    assert!(moves.iter().all(|m| !matches!(m.flag, MoveFlag::Castle(_))));
    let mut free = load("4k3/8/8/8/8/7r/8/4K2R w K - 0 1");
    let moves = legal(&mut free);
    assert!(moves.contains(&Move {
        starting_square: Square::E1,
        target_square: Square::G1,
        flag: MoveFlag::Castle(CastlingMethod::Short),
    }));
}

#[test]
fn castling_moves_the_rook_and_gives_up_the_rights() {
    let mut board = load("r3k2r/8/8/8/8/8/8/R3K2R w KQkq - 0 1");
    board.do_str_moves("e1c1").expect("long castling is legal");
    assert_eq!(board.to_fen(), "r3k2r/8/8/8/8/8/8/2KR3R b kq - 1 1");
    board.do_str_moves("e8g8").expect("short castling is legal");
    assert_eq!(board.to_fen(), "r4rk1/8/8/8/8/8/8/2KR3R w - - 2 2");
    assert_invariants(&board);
}

#[test]
fn capturing_a_rook_at_home_takes_the_right() {
    let mut board = load("r3k2r/8/8/8/8/8/6B1/4K3 w kq - 0 1");
    board.do_str_moves("g2a8").expect("the capture is legal");
    assert_eq!(board.to_fen(), "B3k2r/8/8/8/8/8/8/4K3 b k - 0 1");
}

#[test]
fn pinned_piece_stays_on_the_pin_ray() {
    let mut board = load("4k3/8/8/8/8/4r3/4R3/4K3 w - - 0 1");
    let rook_moves: Vec<Square> = legal(&mut board)
        .into_iter()
        .filter(|m| m.starting_square == Square::E2)
        .map(|m| m.target_square)
        .collect();
    assert_eq!(rook_moves, vec![Square::E3]);
    let (pins, checks) = board.pinned_pieces(Color::White);
    assert_eq!(pins.len(), 1);
    assert_eq!(pins[0].square, Square::E2);
    assert_eq!(pins[0].ray.0, (1u64 << 12) | (1u64 << 20));
    assert_eq!(checks.count, 0);
}

#[test]
fn double_check_leaves_king_moves_only() {
    let mut board = load("4k3/8/8/8/8/3n4/4r3/4K2Q w - - 0 1");
    let (_, checks) = board.pinned_pieces(Color::White);
    assert_eq!(checks.count, 2);
    let moves = legal(&mut board);
    assert!(moves.iter().all(|m| m.starting_square == Square::E1));
    assert_eq!(board.move_filter(Color::White), BitBoard(0));
}

#[test]
fn single_check_is_answered_on_the_check_ray() {
    let mut board = load("4k3/8/8/8/8/8/3P4/r3K3 w - - 0 1");
    let moves = legal(&mut board);
    assert_eq!(
        moves,
        vec![
            Move {
                starting_square: Square::E1,
                target_square: Square::E2,
                flag: MoveFlag::Quiet
            },
            Move {
                starting_square: Square::E1,
                target_square: Square::F2,
                flag: MoveFlag::Quiet
            },
        ]
    );
    assert_eq!(board.move_filter(Color::White).0, 0b1111);
    assert!(board.in_check(Color::White));
}

#[test]
fn make_then_unmake_restores_everything() {
    let mut board = load("r3k2r/p1ppqpb1/bn2pnp1/3PN3/1p2P3/2N2Q1p/PPPBBPPP/R3K2R w KQkq - 0 1");
    let before_fen = board.to_fen();
    let before_squares = board.squares;
    let moves = legal(&mut board);
    let before_sets = board.bitboards.0;
    assert_eq!(moves.len(), 48);
    for m in moves {
        assert_eq!(board.do_move(m), Some(()));
        assert_eq!(board.history.len(), 1);
        assert_invariants(&board);
        assert_eq!(board.undo_move(m), Some(()));
        assert_eq!(board.history.len(), 0);
        assert_eq!(board.to_fen(), before_fen);
        assert_eq!(board.squares, before_squares);
        for i in 0..8 {
            assert_eq!(board.bitboards.0[i], before_sets[i]);
        }
        board.prepare();
        let turn = board.turn;
        let _ = board.generate_moves(turn);
        assert_eq!(board.bitboards.0, before_sets);
    }
}

#[test]
fn a_move_that_cannot_be_made_changes_nothing() {
    let mut board = load(START);
    let quiet_onto_own_piece = Move {
        starting_square: Square::A1,
        target_square: Square::A2,
        flag: MoveFlag::Quiet,
    };
    assert_eq!(board.do_move(quiet_onto_own_piece), None);
    let from_empty = Move {
        starting_square: Square::E4,
        target_square: Square::E5,
        flag: MoveFlag::Quiet,
    };
    assert_eq!(board.do_move(from_empty), None);
    assert_eq!(board.undo_move(from_empty), None);
    assert_eq!(board.to_fen(), START);
}

#[test]
fn replay_reports_the_index_of_the_illegal_move() {
    let mut board = load(START);
    assert_eq!(
        board.do_str_moves("e2e4 e7e5 e4e5"),
        Err(EngineError::IllegalMove(2))
    );
    assert_eq!(board.to_fen(), START);
    assert_eq!(board.do_str_moves("e2e4 e7"), Err(EngineError::ParseMove));
    assert_eq!(board.to_fen(), START);
    assert_eq!(board.do_str_moves(""), Ok(()));
    assert_eq!(board.to_fen(), START);
}

#[test]
fn clocks_follow_the_moves() {
    let mut board = load("4k3/8/8/8/8/8/4P3/4K3 b - - 12 40");
    board.do_str_moves("e8d8").expect("legal");
    assert_eq!(board.halfmove_count, 13);
    assert_eq!(board.move_count, 41);
    board.do_str_moves("e2e3").expect("legal");
    assert_eq!(board.halfmove_count, 0);
    assert_eq!(board.move_count, 41);
}

#[test]
fn material_is_counted_without_the_king() {
    let board = load(START);
    assert_eq!(board.count_material(), (39, 39));
    let board = load("4k3/8/8/8/8/8/4P3/4K2R w - - 0 1");
    assert_eq!(board.count_material(), (6, 0));
}

#[test]
fn attack_map_sees_through_the_king() {
    let board = load("4k3/8/8/8/8/8/8/r3K3 w - - 0 1");
    let attacked = board.compute_attacks(Color::Black);
    assert_ne!(attacked.0 & Square::F1.bitboard().0, 0);
    assert_ne!(attacked.0 & Square::H1.bitboard().0, 0);
    assert_eq!(attacked.0 & Square::E2.bitboard().0, 0);
}
