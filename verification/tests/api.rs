use chess_core::bitboard::BitBoard;
use chess_core::board::{BitBoards, Board};
use chess_core::moves::{CastlingMethod, Move, MoveFlag};
use chess_core::piece::{Color, Piece, Slider};
use chess_core::profiler::Profiler;
use chess_core::square::Square;
use chess_core::utils::{render_bitboard, AttackTables};

const START: &str = "rnbqkbnr/pppppppp/8/8/8/8/PPPPPPPP/RNBQKBNR w KQkq - 0 1";

fn load(fen: &str) -> Board {
    Board::load_fen(fen.to_owned()).expect("position should load")
}

#[test]
fn empty_board() {
    let board = Board::new();
    assert_eq!(board.turn, Color::White);
    assert_eq!(board.move_count, 1);
    assert_eq!(board.halfmove_count, 0);
    assert_eq!(board.castling_availability, [(false, false); 2]);
    assert_eq!(board.bitboards.0, [BitBoard(0); 10]);
    assert!(board.squares.iter().all(|s| s.is_none()));
    assert_eq!(board.to_fen(), "8/8/8/8/8/8/8/8 w - - 0 1");
    assert_eq!(board.blockers(), BitBoard(0));
}

#[test]
fn piece_sets_of_the_start_position() {
    let board = load(START);
    let sets = &board.bitboards;
    assert_eq!(sets.all_pieces(Some(Color::White)).0, 0xffff);
    assert_eq!(sets.all_pieces(Some(Color::Black)).0, 0xffff_0000_0000_0000);
    assert_eq!(sets.all_pieces(None).0, 0xffff_0000_0000_ffff);
    assert_eq!(board.pieces(Color::White).0, 0xffff);
    assert_eq!(board.blockers().0, 0xffff_0000_0000_ffff);
    assert_eq!(sets.get_piece_set(Piece::Pawn, Some(Color::White)).0, 0xff00);
    assert_eq!(sets.get_piece_set(Piece::King, None).0, (1 << 4) | (1 << 60));
    assert_eq!(
        sets.sliding_pieces(Color::White).0,
        0b1010_1101
    );
    assert_eq!(BitBoards::ad_bitboard(Color::White), 8);
    assert_eq!(BitBoards::ad_bitboard(Color::Black), 9);
    assert_eq!(board.king_square(Color::White), Square::E1);
    assert_eq!(board.king_square(Color::Black), Square::E8);
    assert_eq!(board.get_piece_type(Square::D8), Some(Piece::Queen));
    assert_eq!(board.get_piece_type(Square::D4), None);
}

#[test]
fn sets_follow_insert_move_and_remove() {
    let mut sets = BitBoards([BitBoard(0); 10]);
    sets.insert_piece(Square::E2, Piece::Pawn, Color::White);
    assert_eq!(sets.0[0].0, 1 << 12);
    assert_eq!(sets.0[3].0, 1 << 12);
    let mv = Move {
        starting_square: Square::E2,
        target_square: Square::E4,
        flag: MoveFlag::DoublePush,
    };
    sets.move_piece(Color::White, Piece::Pawn, mv);
    assert_eq!(sets.0[0].0, 1 << 28);
    assert_eq!(sets.0[3].0, 1 << 28);
    sets.undo_move(Color::White, Piece::Pawn, mv);
    assert_eq!(sets.0[0].0, 1 << 12);
    assert_eq!(sets.0[3].0, 1 << 12);
    sets.remove_piece(Piece::Pawn, Color::White, Square::E2);
    assert_eq!(sets.0, [BitBoard(0); 10]);
}

#[test]
fn simple_moves_keep_mailbox_and_sets_together() {
    let mut board = load(START);
    let mv = Move {
        starting_square: Square::G1,
        target_square: Square::F3,
        flag: MoveFlag::Quiet,
    };
    assert!(Board::is_double_move(
        Color::White,
        Move {
            starting_square: Square::E2,
            target_square: Square::E4,
            flag: MoveFlag::DoublePush
        }
    ));
    assert!(!Board::is_double_move(Color::Black, mv));
    board.do_simple_move(Piece::Knight, mv);
    assert_eq!(board.squares[21], Some((Color::White, Piece::Knight)));
    assert_eq!(board.squares[6], None);
    assert_eq!(board.bitboards.0[5].0 & 0xff, (1 << 1));
    assert_eq!(board.bitboards.0[0].0, 0xffff & !(1 << 6) | (1 << 21));
    board.undo_simple_move(Piece::Knight, mv);
    assert_eq!(board.to_fen(), START);
    assert_eq!(board.bitboards.0[0].0, 0xffff);
    board.set_square(Square::E4, Some((Color::Black, Piece::Queen)));
    assert_eq!(board.bitboards.0[1].0 & (1 << 28), 1 << 28);
    assert_eq!(board.bitboards.0[7].0 & (1 << 28), 1 << 28);
    board.set_square(Square::E4, None);
    assert_eq!(board.to_fen(), START);
    board.next_turn();
    assert_eq!(board.turn, Color::White);
}

#[test]
fn castling_squares_are_fixed() {
    assert_eq!(
        Board::castling_squares(Color::White, CastlingMethod::Short),
        (Square::G1, Square::F1)
    );
    assert_eq!(
        Board::castling_squares(Color::Black, CastlingMethod::Long),
        (Square::C8, Square::D8)
    );
    assert_eq!(
        Board::castling_homes(Color::Black, CastlingMethod::Short),
        (Square::E8, Square::H8)
    );
    assert_eq!(
        Board::castling_homes(Color::White, CastlingMethod::Long),
        (Square::E1, Square::A1)
    );
}

#[test]
fn pawn_moves_and_attacks() {
    let board = load("4k3/8/8/8/3p4/4P3/P7/4K3 w - - 0 1");
    let (mask, moves) = board.pawn_moves(Square::A2.bitboard(), Color::White);
    assert_eq!(mask.0, 1 << 17);
    assert_eq!(moves.0, (1 << 16) | (1 << 24));
    let (mask, moves) = board.pawn_moves(Square::E3.bitboard(), Color::White);
    assert_eq!(mask.0, (1 << 27) | (1 << 29));
    assert_eq!(moves.0, (1 << 28) | (1 << 27));
    let (_, moves) = board.pawn_moves(Square::D4.bitboard(), Color::Black);
    assert_eq!(moves.0, (1 << 19) | (1 << 20));
}

#[test]
fn slider_moves_stop_at_blockers() {
    let board = load("4k3/8/8/8/8/8/P7/R3K3 w - - 0 1");
    let moves = board.slider_moves(
        &[Slider::up(), Slider::left()],
        Color::White,
        1,
        board.blockers(),
    );
    assert_eq!(moves.0, 0b1110);
    let pieces = Board::isolate_pieces(board.pieces(Color::White));
    assert_eq!(pieces, vec![BitBoard(1), BitBoard(1 << 4), BitBoard(1 << 8)]);
}

#[test]
fn stored_attack_maps_decide_check_and_castling() {
    let mut board = load("r3k2r/8/8/8/8/8/8/R3K2R w KQkq - 0 1");
    assert!(!board.in_check(Color::White));
    board.prepare();
    assert!(board.can_castle_short(Color::White));
    assert!(board.can_castle_long(Color::White));
    assert!(board.can_castle(Color::Black, CastlingMethod::Short));
    assert_eq!(
        board.king_moves(Color::White).0,
        (1 << 3) | (1 << 5) | (1 << 11) | (1 << 12) | (1 << 13)
    );
    assert_eq!(
        board.bitboards.add_attackerd_bitboard(Color::Black),
        board.compute_attacks(Color::Black)
    );
    let mut blocked = load("r3k2r/8/8/8/8/8/8/RN2K1NR w Qkq - 0 1");
    blocked.prepare();
    assert!(!blocked.can_castle_short(Color::White));
    assert!(!blocked.can_castle_long(Color::White));
    let copy = blocked.duplicate();
    assert_eq!(copy.to_fen(), blocked.to_fen());
    assert_eq!(copy.bitboards, blocked.bitboards);
}

#[test]
fn picture_of_a_set() {
    let text = render_bitboard(BitBoard((1 << 63) | 1 | (1 << 9)));
    assert_eq!(
        text,
        ". . . . . . . % \n\
         . . . . . . . . \n\
         . . . . . . . . \n\
         . . . . . . . . \n\
         . . . . . . . . \n\
         . . . . . . . . \n\
         . % . . . . . . \n\
         % . . . . . . . \n"
    );
}

#[test]
fn tables_are_built_once_per_board() {
    let tables = AttackTables::new();
    let board = Board::new();
    assert_eq!(tables.king, board.tables.king);
    assert_eq!(tables.knight, board.tables.knight);
    assert_eq!(tables.bishop, board.tables.bishop);
    assert_eq!(tables.king[9].0, 0x0007_0507);
}

#[test]
fn profiler_adds_up_the_time_of_a_task() {
    let mut profiler = Profiler::new();
    assert!(!profiler.is_running("perft"));
    assert!(!profiler.is_paused("perft"));
    profiler.begin("perft", 100);
    assert!(profiler.is_running("perft"));
    assert!(!profiler.is_running("load"));
    assert_eq!(profiler.time_of("perft"), None);
    profiler.stop("perft", 250);
    assert_eq!(profiler.time_of("perft"), Some(150));
    profiler.stop("perft", 400);
    assert_eq!(profiler.time_of("perft"), Some(300));
    assert_eq!(profiler.completed.len(), 1);
    profiler.begin("load", 500);
    profiler.stop("load", 450);
    assert_eq!(profiler.time_of("load"), Some(0));
    assert_eq!(profiler.completed.len(), 2);
    assert_eq!(profiler.running.len(), 2);
}
