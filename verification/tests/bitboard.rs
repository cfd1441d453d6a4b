use chess_core::attacks::{king_reach, knight_reach, pawn_reach, ray_walk, step};
use chess_core::bitboard::BitBoard;
use chess_core::piece::{Color, Piece, Slider};
use chess_core::square::{File, Rank, Square};
use chess_core::utils::{
    build_king_moves_lookup, generate_bishop_moves, generate_knight_move_magics, safe_shl,
    safe_shr,
};

#[test]
fn set_algebra() {
    let a = BitBoard(0b1100);
    let b = BitBoard(0b1010);
    assert_eq!(a.union(b), BitBoard(0b1110));
    assert_eq!(a.intersect(b), BitBoard(0b1000));
    assert_eq!(a.minus(b), BitBoard(0b0100));
    assert_eq!(a.complement(), BitBoard(!0b1100));
    assert_eq!(a.count(), 2);
    assert_eq!(BitBoard::full().count(), 64);
    assert_eq!(BitBoard::empty().count(), 0);
    assert!(a.has_square(Square::C1));
    assert!(!a.has_square(Square::A1));
    assert!(BitBoard(1 << 63).is_single());
    assert!(!a.is_single());
    assert!(!BitBoard(0).is_single());
    assert_eq!(a.lowest(), Square::C1);
}

#[test]
fn members_come_in_ascending_order() {
    let set = BitBoard((1 << 63) | (1 << 9) | 1);
    assert_eq!(
        set.active_squares(),
        vec![Square::A1, Square::B2, Square::H8]
    );
    assert_eq!(BitBoard(0).active_squares(), vec![]);
    assert_eq!(BitBoard::full().active_squares().len(), 64);
}

#[test]
fn shifts() {
    assert_eq!(BitBoard::lshifted(BitBoard(1), 9), BitBoard(1 << 9));
    assert_eq!(BitBoard(0xff).shifted_up(2), BitBoard(0xff_0000));
    assert_eq!(BitBoard(u64::MAX).get_rank(2), BitBoard(0xff00));
    assert_eq!(BitBoard(5).shl(64), BitBoard(5));
    assert_eq!(BitBoard(5).shl(1), BitBoard(10));
    assert_eq!(BitBoard(5).shr(64), BitBoard(5));
    assert_eq!(BitBoard(5).shr(1), BitBoard(2));
    assert_eq!(BitBoard(1 << 8).forward(Color::White), BitBoard(1 << 16));
    assert_eq!(BitBoard(1 << 8).forward(Color::Black), BitBoard(1));
    assert_eq!(BitBoard(1 << 8).backward(Color::White), BitBoard(1));
    assert_eq!(BitBoard(1 << 8).backward(Color::Black), BitBoard(1 << 16));
    assert_eq!(BitBoard(1 << 60).forward(Color::White), BitBoard(0));
    assert_eq!(BitBoard(1 << 7).slide(&Slider::left()), BitBoard(1 << 8));
    assert_eq!(safe_shl(3, 64), 3);
    assert_eq!(safe_shl(3, 2), 12);
    assert_eq!(safe_shr(12, 2), 3);
    assert_eq!(safe_shr(12, 70), 12);
}

#[test]
fn steps_do_not_wrap_around_the_edges() {
    assert_eq!(step(Square::H1.bitboard(), &Slider::left()), BitBoard(0));
    assert_eq!(step(Square::A2.bitboard(), &Slider::right()), BitBoard(0));
    assert_eq!(step(Square::H4.bitboard(), &Slider::left_up()), BitBoard(0));
    assert_eq!(
        step(Square::G4.bitboard(), &Slider::left_up()),
        Square::H5.bitboard()
    );
    assert_eq!(
        step(Square::B2.bitboard(), &Slider::left_down()),
        Square::A1.bitboard()
    );
    assert_eq!(
        step(Square::A1.bitboard(), &Slider::right_up()),
        BitBoard(0)
    );
    assert_eq!(
        step(Square::A1.bitboard(), &Slider::up()),
        Square::A2.bitboard()
    );
}

#[test]
fn rays_end_on_the_first_blocker() {
    let occ = BitBoard(Square::E5.bitboard().0 | Square::E7.bitboard().0);
    let (reach, first) = ray_walk(occ, Square::E2, &Slider::up());
    assert_eq!(
        reach.0,
        Square::E3.bitboard().0 | Square::E4.bitboard().0 | Square::E5.bitboard().0
    );
    assert_eq!(first, Some(Square::E5));
    let (reach, first) = ray_walk(occ, Square::E2, &Slider::left());
    assert_eq!(reach.0, 0b1110_0000 << 8);
    assert_eq!(first, None);
}

#[test]
fn tables_hold_the_reach_from_each_square() {
    let king = build_king_moves_lookup();
    assert_eq!(king[0].0, 0x302);
    assert_eq!(king[63].0, 0x40c0_0000_0000_0000);
    assert_eq!(king[28].0, 0x0000_0038_2838_0000);
    assert_eq!(king[28], king_reach(Square::E4));
    let knight = generate_knight_move_magics();
    assert_eq!(knight[1].0, 0x0005_0800);
    assert_eq!(knight[0].0, 0x0002_0400);
    assert_eq!(knight[36].0, 0x0028_4400_4428_0000);
    assert_eq!(knight[36], knight_reach(Square::E5));
    let bishop = generate_bishop_moves();
    assert_eq!(bishop[0].0, 0x8040_2010_0804_0200);
    assert_eq!(bishop[7].0, 0x0102_0408_1020_4000);
    assert_eq!(bishop[27], Piece::Bishop.possible_moves(Square::D4));
    assert_eq!(pawn_reach(Square::A2, Color::White).0, 1 << 17);
    assert_eq!(pawn_reach(Square::E5, Color::Black).0, (1 << 27) | (1 << 29));
}

#[test]
fn reach_on_the_empty_board() {
    assert_eq!(
        Piece::Rook.possible_moves(Square::A1).0,
        0x0101_0101_0101_01ff
    );
    assert_eq!(
        Piece::Queen.possible_moves(Square::A1).0,
        0x8141_2111_0905_03ff
    );
    assert_eq!(Piece::Pawn.possible_moves(Square::E2).0, 0);
    assert_eq!(Piece::King.possible_moves(Square::A1).0, 0x302);
    assert_eq!(Piece::Knight.possible_moves(Square::B1).0, 0x0005_0800);
}

#[test]
fn coordinates() {
    assert_eq!(Square::new(File::E, Rank::Fourth), Square::E4);
    assert_eq!(Square::E4.to_index(), 28);
    assert_eq!(Square::index(63), Square::H8);
    assert_eq!(Square::E4.file(), File::E);
    assert_eq!(Square::E4.rank(), Rank::Fourth);
    assert_eq!(Square::E4.bitboard(), BitBoard(1 << 28));
    assert_eq!(File::A.bitboard().0, 0x0101_0101_0101_0101);
    assert_eq!(File::H.bitboard().0, 0x8080_8080_8080_8080);
    assert_eq!(Rank::First.bitboard().0, 0xff);
    assert_eq!(Rank::Eighth.bitboard().0, 0xff00_0000_0000_0000);
    assert_eq!(Square::from_chars('e', '4'), Some(Square::E4));
    assert_eq!(Square::from_chars('E', '4'), Some(Square::E4));
    assert_eq!(Square::from_chars('e', '9'), None);
    assert_eq!(Square::NUM, 64);
}

#[test]
fn pieces_and_colors() {
    assert_eq!(Piece::Queen.notation(), 'Q');
    assert_eq!(Piece::from_notation('N'), Some(Piece::Knight));
    assert_eq!(Piece::from_notation('n'), None);
    assert_eq!(Piece::Rook.material_value(), 5);
    assert_eq!(Piece::King.material_value(), 0);
    assert!(Piece::Bishop.is_sliding());
    assert!(!Piece::Knight.is_sliding());
    assert_eq!(Piece::King.index(), 2);
    assert_eq!(Piece::Queen.index(), 7);
    assert_eq!(Piece::from_index(3), Some(Piece::Pawn));
    assert_eq!(Piece::from_index(8), None);
    assert_eq!(Piece::Knight.sliders(), None);
    assert_eq!(
        Piece::Rook.sliders(),
        Some(vec![
            Slider::down(),
            Slider::up(),
            Slider::right(),
            Slider::left()
        ])
    );
    assert_eq!(Piece::Queen.sliders().map(|v| v.len()), Some(8));
    assert_eq!(Slider::new(9, 0), Slider::left_up());
    assert_eq!(Color::White.opponent(), Color::Black);
    assert_eq!(Color::White.promotion_rank(), Rank::Eighth);
    assert_eq!(Color::Black.promotion_rank(), Rank::First);
    assert_eq!(Color::Black.index(), 1);
}
