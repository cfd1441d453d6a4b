//! The position: piece sets, mailbox, rights, clocks, and the moves that change it.

use vstd::prelude::*;
use crate::bitboard::BitBoard;
use crate::bitboard::popcount;
use crate::bits::{bit, in_bb, lemma_bb_where, lemma_ext, lemma_in_bit, lemma_in_ops};
use crate::utils::AttackTables;
use crate::moves::Move;
use crate::piece::{Color, Piece};
use crate::position::{color_of, kind_of, Position, Undo};
use crate::square::Square;

verus! {

/// The table of sets of a position: slots 0 and 1 hold the squares of the white and
/// the black pieces, slots 2 to 7 the squares of each kind of piece whatever its
/// color, slots 8 and 9 the squares that White and Black attack or defend.
#[derive(Debug, Clone, Copy, Eq, PartialEq)]
pub struct BitBoards(pub [BitBoard; 10]);

/// Whether the set in slot `i` of the table should hold square `s`, going by the mailbox.
pub open spec fn slot_has(squares: Seq<Option<(Color, Piece)>>, i: int, s: int) -> bool {
    &&& 0 <= s < 64
    &&& squares[s] is Some
    &&& if i == 0 {
        color_of(squares[s]) == Color::White
    } else if i == 1 {
        color_of(squares[s]) == Color::Black
    } else {
        kind_of(squares[s]) == Piece::of(i)
    }
}

impl BitBoards {
    /// The pieces of one color, or of both.
    pub fn all_pieces(&self, color: Option<Color>) -> (r: BitBoard)
        ensures
            r.0 == (match color {
                Some(c) => self.0[c.idx()].0,
                None => self.0[0].0 | self.0[1].0,
            }),
    {
        match color {
            Some(color) => self.0[color.index()],
            None => self.0[0].union(self.0[1]),
        }
    }

    /// The slot that holds the squares that `color` attacks or defends.
    pub fn ad_bitboard(color: Color) -> (r: usize)
        ensures
            r == 8 + color.idx(),
    {
        match color {
            Color::White => 8,
            Color::Black => 9,
        }
    }

    /// The pieces of one kind, of one color or of both.
    pub fn get_piece_set(&self, piece: Piece, color: Option<Color>) -> (r: BitBoard)
        ensures
            r.0 == (match color {
                Some(c) => self.0[c.idx()].0 & self.0[piece.idx()].0,
                None => self.0[piece.idx()].0,
            }),
    {
        match color {
            Some(color) => self.0[color.index()].intersect(self.0[piece.index()]),
            _ => self.0[piece.index()],
        }
    }

    /// The squares that `color` attacks or defends, as last computed.
    pub fn add_attackerd_bitboard(&self, color: Color) -> (r: BitBoard)
        ensures
            r == self.0[8 + color.idx()],
    {
        match color {
            Color::White => self.0[8],
            Color::Black => self.0[9],
        }
    }

    /// The bishops, queens and rooks of `color`.
    pub fn sliding_pieces(&self, color: Color) -> (r: BitBoard)
        ensures
            r.0 == (self.0[color.idx()].0 & self.0[Piece::Bishop.idx()].0) | (self.0[color.idx()].0
                & self.0[Piece::Queen.idx()].0) | (self.0[color.idx()].0
                & self.0[Piece::Rook.idx()].0),
    {
        self.get_piece_set(Piece::Bishop, Some(color)).union(
            self.get_piece_set(Piece::Queen, Some(color)),
        ).union(self.get_piece_set(Piece::Rook, Some(color)))
    }

    /// Takes `square` out of the sets of `piece` and of `color`.
    pub fn remove_piece(&mut self, piece: Piece, color: Color, square: Square)
        ensures
            final(self).0@ == old(self).0@.update(
                piece.idx(),
                BitBoard(old(self).0[piece.idx()].0 & !bit(square.idx())),
            ).update(color.idx(), BitBoard(old(self).0[color.idx()].0 & !bit(square.idx()))),
    {
        let b = square.bitboard();
        self.0[piece.index()] = self.0[piece.index()].minus(b);
        self.0[color.index()] = self.0[color.index()].minus(b);
    }

    /// Takes the origin of `mv` out of the sets of `color` and of `piece`, and puts
    /// its destination into them.
    pub fn move_piece(&mut self, color: Color, piece: Piece, mv: Move)
        ensures
            final(self).0@ == old(self).0@.update(
                color.idx(),
                BitBoard(
                    (old(self).0[color.idx()].0 & !bit(mv.starting_square.idx())) | bit(
                        mv.target_square.idx(),
                    ),
                ),
            ).update(
                piece.idx(),
                BitBoard(
                    (old(self).0[piece.idx()].0 & !bit(mv.starting_square.idx())) | bit(
                        mv.target_square.idx(),
                    ),
                ),
            ),
    {
        let from = mv.starting_square.bitboard();
        let to = mv.target_square.bitboard();
        self.0[color.index()] = self.0[color.index()].minus(from).union(to);
        self.0[piece.index()] = self.0[piece.index()].minus(from).union(to);
    }

    /// Takes the destination of `mv` out of the sets of `color` and of `piece`, and
    /// puts its origin into them.
    pub fn undo_move(&mut self, color: Color, piece: Piece, mv: Move)
        ensures
            final(self).0@ == old(self).0@.update(
                color.idx(),
                BitBoard(
                    (old(self).0[color.idx()].0 & !bit(mv.target_square.idx())) | bit(
                        mv.starting_square.idx(),
                    ),
                ),
            ).update(
                piece.idx(),
                BitBoard(
                    (old(self).0[piece.idx()].0 & !bit(mv.target_square.idx())) | bit(
                        mv.starting_square.idx(),
                    ),
                ),
            ),
    {
        let from = mv.starting_square.bitboard();
        let to = mv.target_square.bitboard();
        self.0[color.index()] = self.0[color.index()].minus(to).union(from);
        self.0[piece.index()] = self.0[piece.index()].minus(to).union(from);
    }

    /// Puts `square` into the sets of `color` and of `piece`.
    pub fn insert_piece(&mut self, square: Square, piece: Piece, color: Color)
        ensures
            final(self).0@ == old(self).0@.update(
                color.idx(),
                BitBoard(old(self).0[color.idx()].0 | bit(square.idx())),
            ).update(piece.idx(), BitBoard(old(self).0[piece.idx()].0 | bit(square.idx()))),
    {
        let b = square.bitboard();
        self.0[color.index()] = self.0[color.index()].union(b);
        self.0[piece.index()] = self.0[piece.index()].union(b);
    }
}

/// A position that can be played on: the piece sets and the mailbox say the same,
/// and every move made is kept so that it can be taken back.
#[derive(Debug, Clone)]
pub struct Board {
    pub bitboards: BitBoards,
    pub turn: Color,
    /// For White, then Black: whether the short and the long castling are still allowed.
    pub castling_availability: [(bool, bool); 2],
    pub en_passant: BitBoard,
    pub halfmove_count: usize,
    pub move_count: usize,
    pub squares: [Option<(Color, Piece)>; 64],
    /// For White, then Black: where a piece other than the king may land, going by
    /// the checks found when that side's moves were last generated.
    pub move_filters: [BitBoard; 2],
    /// What was kept of each move made and not yet taken back, oldest first.
    pub history: Vec<Undo>,
    /// The reach of king, knight and bishop from every square, computed once.
    pub tables: AttackTables,
}

impl View for Board {
    type V = Position;

    open spec fn view(&self) -> Position {
        Position {
            squares: self.squares@,
            turn: self.turn,
            castling: self.castling_availability@,
            en_passant: self.en_passant.0,
            halfmove: self.halfmove_count as int,
            fullmove: self.move_count as int,
        }
    }
}

impl Board {
    /// The piece sets hold exactly what the mailbox holds.
    pub open spec fn wf(&self) -> bool {
        &&& self.tables.wf()
        &&& forall|i: int, s: int|
            0 <= i < 8 && 0 <= s < 64 ==> #[trigger] in_bb(self.bitboards.0[i].0, s) == slot_has(
                self.squares@,
                i,
                s,
            )
    }

    /// Whether the caches are those of a position that no one has looked at yet.
    pub open spec fn caches_clear(&self) -> bool {
        &&& self.bitboards.0[8].0 == 0
        &&& self.bitboards.0[9].0 == 0
        &&& self.move_filters[0].0 == 0
        &&& self.move_filters[1].0 == 0
    }

    /// Whether `other` differs from this board at most in the pieces on the squares.
    pub open spec fn same_but_pieces(&self, other: &Board) -> bool {
        &&& self.turn == other.turn
        &&& self.castling_availability == other.castling_availability
        &&& self.en_passant == other.en_passant
        &&& self.halfmove_count == other.halfmove_count
        &&& self.move_count == other.move_count
        &&& self.move_filters == other.move_filters
        &&& self.history == other.history
        &&& self.tables == other.tables
        &&& self.bitboards.0[8] == other.bitboards.0[8]
        &&& self.bitboards.0[9] == other.bitboards.0[9]
    }

    /// The empty board: White to move, no rights, move 1.
    pub fn new() -> (r: Self)
        ensures
            r.wf(),
            r.caches_clear(),
            r@.squares == Seq::new(64, |s: int| None::<(Color, Piece)>),
            r@.turn == Color::White,
            r@.castling == seq![(false, false), (false, false)],
            r@.en_passant == 0,
            r@.halfmove == 0,
            r@.fullmove == 1,
            r.history@.len() == 0,
    {
        let r = Self {
            bitboards: BitBoards([BitBoard(0); 10]),
            squares: [None; 64],
            turn: Color::White,
            castling_availability: [(false, false); 2],
            en_passant: BitBoard(0),
            halfmove_count: 0,
            move_count: 1,
            move_filters: [BitBoard(0); 2],
            history: Vec::new(),
            tables: AttackTables::new(),
        };
        proof {
            crate::bits::lemma_in_not(0);
            assert(r@.squares =~= Seq::new(64, |s: int| None::<(Color, Piece)>));
            assert(r@.castling =~= seq![(false, false), (false, false)]);
        }
        r
    }

    /// Puts `v` on `sq` in the mailbox and in the piece sets.
    pub fn set_square(&mut self, sq: Square, v: Option<(Color, Piece)>)
        requires
            old(self).wf(),
        ensures
            final(self).wf(),
            final(self).squares@ == old(self).squares@.update(sq.idx(), v),
            old(self).same_but_pieces(final(self)),
    {
        let i: usize = sq.to_index();
        proof {
            lemma_in_bit(sq.idx());
        }
        match self.squares[i] {
            Some((c, k)) => {
                proof {
                    lemma_in_ops(self.bitboards.0[k.idx()].0, bit(sq.idx()));
                    lemma_in_ops(self.bitboards.0[c.idx()].0, bit(sq.idx()));
                }
                self.bitboards.remove_piece(k, c, sq);
            },
            None => {},
        }
        let ghost mid = self.bitboards;
        assert forall|j: int, s: int| 0 <= j < 8 && 0 <= s < 64 implies #[trigger] in_bb(
            mid.0[j].0,
            s,
        ) == slot_has(old(self).squares@.update(sq.idx(), None), j, s) by {}
        match v {
            Some((c, k)) => {
                proof {
                    lemma_in_ops(self.bitboards.0[k.idx()].0, bit(sq.idx()));
                    lemma_in_ops(self.bitboards.0[c.idx()].0, bit(sq.idx()));
                }
                self.bitboards.insert_piece(sq, k, c);
            },
            None => {},
        }
        self.squares[i] = v;
    }

    /// The piece sets are the sets that the mailbox describes.
    pub proof fn lemma_sets(&self)
        requires
            self.wf(),
            self@.shape(),
        ensures
            forall|c: Color| self.bitboards.0[c.idx()].0 == #[trigger] self@.color_bb(c),
            forall|k: Piece| self.bitboards.0[k.idx()].0 == #[trigger] self@.kind_bb(k),
            forall|c: Color, k: Piece|
                self.bitboards.0[c.idx()].0 & self.bitboards.0[k.idx()].0 == #[trigger] self@.piece_bb(
                    c,
                    k,
                ),
            self.bitboards.0[0].0 | self.bitboards.0[1].0 == self@.occupied(),
    {
        let p = self@;
        assert forall|c: Color| self.bitboards.0[c.idx()].0 == #[trigger] p.color_bb(c) by {
            let w = self.bitboards.0[c.idx()].0;
            lemma_bb_where(|s: int| p.color_at(s, c), 64);
            assert forall|s: int| 0 <= s < 64 implies in_bb(w, s) == in_bb(p.color_bb(c), s) by {
                assert(in_bb(w, s) == slot_has(self.squares@, c.idx(), s));
            }
            lemma_ext(w, p.color_bb(c));
        }
        assert forall|k: Piece| self.bitboards.0[k.idx()].0 == #[trigger] p.kind_bb(k) by {
            let w = self.bitboards.0[k.idx()].0;
            lemma_bb_where(|s: int| p.kind_at(s, k), 64);
            assert forall|s: int| 0 <= s < 64 implies in_bb(w, s) == in_bb(p.kind_bb(k), s) by {
                assert(in_bb(w, s) == slot_has(self.squares@, k.idx(), s));
            }
            lemma_ext(w, p.kind_bb(k));
        }
        assert forall|c: Color, k: Piece|
            self.bitboards.0[c.idx()].0 & self.bitboards.0[k.idx()].0 == #[trigger] p.piece_bb(
                c,
                k,
            ) by {
            let a = self.bitboards.0[c.idx()].0;
            let b = self.bitboards.0[k.idx()].0;
            lemma_in_ops(a, b);
            lemma_bb_where(|s: int| p.holds(s, c, k), 64);
            assert forall|s: int| 0 <= s < 64 implies in_bb(a & b, s) == in_bb(
                p.piece_bb(c, k),
                s,
            ) by {
                assert(in_bb(a, s) == slot_has(self.squares@, c.idx(), s));
                assert(in_bb(b, s) == slot_has(self.squares@, k.idx(), s));
            }
            lemma_ext(a & b, p.piece_bb(c, k));
        }
        let a = self.bitboards.0[0].0;
        let b = self.bitboards.0[1].0;
        lemma_in_ops(a, b);
        lemma_bb_where(|s: int| 0 <= s < 64 && p.squares[s] is Some, 64);
        assert forall|s: int| 0 <= s < 64 implies in_bb(a | b, s) == in_bb(p.occupied(), s) by {
            assert(in_bb(a, s) == slot_has(self.squares@, 0, s));
            assert(in_bb(b, s) == slot_has(self.squares@, 1, s));
        }
        lemma_ext(a | b, p.occupied());
    }

    /// The pieces of `color`.
    pub fn pieces(&self, color: Color) -> (r: BitBoard)
        ensures
            r == self.bitboards.0[color.idx()],
            self.wf() && self@.shape() ==> r.0 == self@.color_bb(color),
    {
        proof {
            if self.wf() && self@.shape() {
                self.lemma_sets();
            }
        }
        self.bitboards.all_pieces(Some(color))
    }

    /// The squares with a piece on them.
    pub fn blockers(&self) -> (r: BitBoard)
        ensures
            r.0 == self.bitboards.0[0].0 | self.bitboards.0[1].0,
            self.wf() && self@.shape() ==> r.0 == self@.occupied(),
    {
        proof {
            if self.wf() && self@.shape() {
                self.lemma_sets();
            }
        }
        self.bitboards.all_pieces(None)
    }

    /// Leaves the board as it is: the side to move changes only when a move is made.
    pub fn next_turn(&mut self)
        ensures
            *final(self) == *old(self),
    {
    }

    /// Where a piece of `color` other than its king may land, going by the checks
    /// found when the moves of `color` were last generated.
    pub fn move_filter(&self, color: Color) -> (r: BitBoard)
        ensures
            r == self.move_filters[color.idx()],
    {
        match color {
            Color::White => self.move_filters[0],
            Color::Black => self.move_filters[1],
        }
    }

    /// The square of the king of `color`.
    pub fn king_square(&self, color: Color) -> (r: Square)
        requires
            self.wf(),
            self@.shape(),
            self@.one_king(color),
        ensures
            r.idx() == self@.king_sq(color),
            self@.holds(r.idx(), color, Piece::King),
    {
        let set = self.bitboards.get_piece_set(Piece::King, Some(color));
        proof {
            crate::laws::lemma_king_sq(self@, color);
            let ks = self@.king_sq(color);
            lemma_in_ops(self.bitboards.0[color.idx()].0, self.bitboards.0[2].0);
            assert(in_bb(self.bitboards.0[color.idx()].0, ks) == slot_has(
                self.squares@,
                color.idx(),
                ks,
            ));
            assert(in_bb(self.bitboards.0[2].0, ks) == slot_has(self.squares@, 2, ks));
            assert(in_bb(set.0, ks));
            crate::bits::lemma_in_not(0);
        }
        let r = set.lowest();
        proof {
            let t = r.idx();
            assert(in_bb(self.bitboards.0[color.idx()].0, t) == slot_has(
                self.squares@,
                color.idx(),
                t,
            ));
            assert(in_bb(self.bitboards.0[2].0, t) == slot_has(self.squares@, 2, t));
            assert(self@.holds(t, color, Piece::King));
        }
        r
    }

    /// The members of `board`, each as a set of its own, in ascending order.
    pub fn isolate_pieces(board: BitBoard) -> (r: Vec<BitBoard>)
        ensures
            r@.len() == crate::bitboard::members(board.0).len(),
            forall|i: int|
                0 <= i < r@.len() ==> (#[trigger] r@[i]).0 == bit(
                    crate::bitboard::members(board.0)[i].idx(),
                ),
    {
        let squares = board.active_squares();
        let mut list: Vec<BitBoard> = Vec::new();
        let mut i: usize = 0;
        while i < squares.len()
            invariant
                i <= squares@.len(),
                squares@ == crate::bitboard::members(board.0),
                list@.len() == i,
                forall|j: int| 0 <= j < i ==> (#[trigger] list@[j]).0 == bit(squares@[j].idx()),
            decreases squares@.len() - i,
        {
            list.push(squares[i].bitboard());
            i = i + 1;
        }
        list
    }

    /// The material of White and of Black, the king counted as nothing.
    pub fn count_material(&self) -> (r: (u32, u32))
        ensures
            r.0 == material(self.bitboards, Color::White),
            r.1 == material(self.bitboards, Color::Black),
    {
        (self.material_of(Color::White), self.material_of(Color::Black))
    }

    fn material_of(&self, color: Color) -> (r: u32)
        ensures
            r == material(self.bitboards, color),
    {
        let c = Some(color);
        self.bitboards.get_piece_set(Piece::Pawn, c).count() + 3 * self.bitboards.get_piece_set(
            Piece::Bishop,
            c,
        ).count() + 3 * self.bitboards.get_piece_set(Piece::Knight, c).count() + 5
            * self.bitboards.get_piece_set(Piece::Rook, c).count() + 9
            * self.bitboards.get_piece_set(Piece::Queen, c).count()
    }
}

/// The worth of the pieces of `c`: one for each pawn, three for each bishop and
/// knight, five for each rook, nine for each queen.
pub open spec fn material(t: BitBoards, c: Color) -> nat {
    popcount(t.0[c.idx()].0 & t.0[3].0) + 3 * popcount(t.0[c.idx()].0 & t.0[4].0) + 3 * popcount(
        t.0[c.idx()].0 & t.0[5].0,
    ) + 5 * popcount(t.0[c.idx()].0 & t.0[6].0) + 9 * popcount(t.0[c.idx()].0 & t.0[7].0)
}

} // verus!
