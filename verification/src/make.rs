//! Making a move on the board, and taking it back.

use vstd::prelude::*;
use crate::bitboard::BitBoard;

use crate::board::Board;
use crate::moves::{CastlingMethod, Move, MoveFlag};
use crate::piece::{Color, Piece};
use crate::position::{king_home, king_target, rook_home, rook_target, Undo};
use crate::square::{File, Rank, Square};

verus! {

impl Board {
    /// Where the king and the rook of `color` land by castling to the side
    /// `castling_method`.
    pub fn castling_squares(color: Color, castling_method: CastlingMethod) -> (r: (Square, Square))
        ensures
            r.0.idx() == king_target(color, castling_method),
            r.1.idx() == rook_target(color, castling_method),
    {
        let king_file = match castling_method {
            CastlingMethod::Short => File::G,
            CastlingMethod::Long => File::C,
        };
        let rook_file = match castling_method {
            CastlingMethod::Short => File::F,
            CastlingMethod::Long => File::D,
        };
        let rank = match color {
            Color::White => Rank::First,
            Color::Black => Rank::Eighth,
        };
        (Square::new(king_file, rank), Square::new(rook_file, rank))
    }

    /// Where the king and the rook of `color` stand before castling to the side
    /// `castling_method`.
    pub fn castling_homes(color: Color, castling_method: CastlingMethod) -> (r: (Square, Square))
        ensures
            r.0.idx() == king_home(color),
            r.1.idx() == rook_home(color, castling_method),
    {
        let rook_file = match castling_method {
            CastlingMethod::Short => File::H,
            CastlingMethod::Long => File::A,
        };
        let rank = match color {
            Color::White => Rank::First,
            Color::Black => Rank::Eighth,
        };
        (Square::new(File::E, rank), Square::new(rook_file, rank))
    }

    /// Whether `mv` takes a piece two ranks forward, as `color` sees forward.
    pub fn is_double_move(color: Color, mv: Move) -> (r: bool)
        ensures
            r == (mv.target_square.idx() == mv.starting_square.idx() + 16 * color.dir()),
    {
        let from: usize = mv.starting_square.to_index();
        let to: usize = mv.target_square.to_index();
        match color {
            Color::White => to == from + 16,
            Color::Black => to + 16 == from,
        }
    }

    /// Takes the piece `piece` of the side to move from the origin of `mv` to its
    /// destination; what stood there is gone.
    pub fn do_simple_move(&mut self, piece: Piece, mv: Move)
        requires
            old(self).wf(),
        ensures
            final(self).wf(),
            final(self).squares@ == old(self).squares@.update(
                mv.starting_square.idx(),
                None,
            ).update(mv.target_square.idx(), Some((old(self).turn, piece))),
            old(self).same_but_pieces(final(self)),
    {
        let c = self.turn;
        self.set_square(mv.starting_square, None);
        self.set_square(mv.target_square, Some((c, piece)));
    }

    /// Takes the piece `piece` of the side to move from the destination of `mv` back to
    /// its origin; the destination is left empty.
    pub fn undo_simple_move(&mut self, piece: Piece, mv: Move)
        requires
            old(self).wf(),
        ensures
            final(self).wf(),
            final(self).squares@ == old(self).squares@.update(mv.target_square.idx(), None).update(
                mv.starting_square.idx(),
                Some((old(self).turn, piece)),
            ),
            old(self).same_but_pieces(final(self)),
    {
        let c = self.turn;
        self.set_square(mv.target_square, None);
        self.set_square(mv.starting_square, Some((c, piece)));
    }

    /// The kind of the piece on `sq`, if there is one.
    pub fn get_piece_type(&self, sq: Square) -> (r: Option<Piece>)
        ensures
            r == (match self@.squares[sq.idx()] {
                Some((_, k)) => Some(k),
                None => None,
            }),
    {
        match self.squares[sq.to_index()] {
            Some((_, p)) => Some(p),
            None => None,
        }
    }

    /// Whether `mv` can be made on this position.
    pub fn is_applicable(&self, mv: Move) -> (r: bool)
        ensures
            r == self@.applicable(mv),
    {
        let from: usize = mv.starting_square.to_index();
        let to: usize = mv.target_square.to_index();
        let c = self.turn;
        let k = match self.squares[from] {
            Some((c0, k)) => {
                if c0 != c {
                    return false;
                }
                k
            },
            None => {
                return false;
            },
        };
        if from == to {
            return false;
        }
        let to_rank: usize = to / 8;
        let inner: bool = 0 < to_rank && to_rank < 7;
        let last: bool = match c {
            Color::White => to_rank == 7,
            Color::Black => to_rank == 0,
        };
        let target = self.squares[to];
        match mv.flag {
            MoveFlag::Quiet => target.is_none() && (k != Piece::Pawn || inner),
            MoveFlag::Capture(cap) => {
                match target {
                    Some((tc, tk)) => tc != c && tk == cap && cap != Piece::King && (k
                        != Piece::Pawn || inner),
                    None => false,
                }
            },
            MoveFlag::DoublePush => {
                if k != Piece::Pawn {
                    return false;
                }
                match c {
                    Color::White => from / 8 == 1 && to == from + 16 && self.squares[from
                        + 8].is_none() && target.is_none(),
                    Color::Black => from / 8 == 6 && to + 16 == from && self.squares[from
                        - 8].is_none() && target.is_none(),
                }
            },
            MoveFlag::EnPassant(cap) => {
                let ci: usize = cap.to_index();
                let behind: bool = match c {
                    Color::White => ci + 8 == to,
                    Color::Black => ci == to + 8,
                };
                let pawn_there: bool = match self.squares[ci] {
                    Some((tc, tk)) => tc != c && tk == Piece::Pawn,
                    None => false,
                };
                k == Piece::Pawn && self.en_passant.has_square(mv.target_square)
                    && target.is_none() && behind && pawn_there
            },
            MoveFlag::Castle(m) => {
                let (king_from, rook_from) = Self::castling_homes(c, m);
                let (king_to, rook_to) = Self::castling_squares(c, m);
                let rook_there: bool = match self.squares[rook_from.to_index()] {
                    Some((tc, tk)) => tc == c && tk == Piece::Rook,
                    None => false,
                };
                k == Piece::King && from == king_from.to_index() && to == king_to.to_index()
                    && rook_there && target.is_none() && self.squares[rook_to.to_index()].is_none()
            },
            MoveFlag::Promotion(p) => k == Piece::Pawn && last && target.is_none() && (p
                == Piece::Queen || p == Piece::Rook || p == Piece::Bishop || p == Piece::Knight),
            MoveFlag::PromotionCapture(cap, p) => {
                match target {
                    Some((tc, tk)) => k == Piece::Pawn && last && tc != c && tk == cap && cap
                        != Piece::King && (p == Piece::Queen || p == Piece::Rook || p
                        == Piece::Bishop || p == Piece::Knight),
                    None => false,
                }
            },
        }
    }

    /// The castling rights of `side` once `mv` is made.
    fn rights_after(&self, mv: Move, side: Color) -> (r: (bool, bool))
        requires
            self@.shape(),
            self@.squares[mv.starting_square.idx()] is Some,
        ensures
            r == self@.rights_after(mv, side),
    {
        let from: usize = mv.starting_square.to_index();
        let to: usize = mv.target_square.to_index();
        let old_rights = self.castling_availability[side.index()];
        let (_, short_home) = Self::castling_homes(side, CastlingMethod::Short);
        let (_, long_home) = Self::castling_homes(side, CastlingMethod::Long);
        let k = match self.squares[from] {
            Some((_, k)) => k,
            None => Piece::Pawn,
        };
        if side == self.turn {
            if k == Piece::King {
                (false, false)
            } else if k == Piece::Rook {
                (
                    old_rights.0 && from != short_home.to_index(),
                    old_rights.1 && from != long_home.to_index(),
                )
            } else {
                old_rights
            }
        } else {
            match mv.flag.captured_piece() {
                Some(Piece::Rook) => (
                    old_rights.0 && to != short_home.to_index(),
                    old_rights.1 && to != long_home.to_index(),
                ),
                _ => old_rights,
            }
        }
    }

    /// Makes `mv` if it can be made, and keeps what is needed to take it back. The
    /// attack maps and move filters are emptied: they were those of the position before.
    pub fn do_move(&mut self, mv: Move) -> (r: Option<()>)
        requires
            old(self).wf(),
            old(self)@.shape(),
        ensures
            r is Some <==> old(self)@.applicable(mv),
            r is None ==> *final(self) == *old(self),
            r is Some ==> {
                &&& final(self)@ == old(self)@.make(mv)
                &&& final(self).history@ == old(self).history@.push(old(self)@.record(mv))
                &&& final(self).wf()
                &&& final(self).caches_clear()
            },
    {
        if !self.is_applicable(mv) {
            return None;
        }
        let from: usize = mv.starting_square.to_index();
        let c = self.turn;
        let k = match self.squares[from] {
            Some((_, k)) => k,
            None => Piece::Pawn,
        };
        let undo = Undo {
            mv,
            en_passant: self.en_passant,
            white: self.castling_availability[0],
            black: self.castling_availability[1],
            halfmove: self.halfmove_count,
            fullmove: self.move_count,
            captured: mv.flag.captured_piece(),
        };
        let white = self.rights_after(mv, Color::White);
        let black = self.rights_after(mv, Color::Black);
        let placed = match mv.flag.promotion() {
            Some(p) => p,
            None => k,
        };
        self.set_square(mv.starting_square, None);
        match mv.flag {
            MoveFlag::EnPassant(cap) => {
                self.set_square(cap, None);
            },
            _ => {},
        }
        self.set_square(mv.target_square, Some((c, placed)));
        match mv.flag {
            MoveFlag::Castle(m) => {
                let (_, rook_from) = Self::castling_homes(c, m);
                let (_, rook_to) = Self::castling_squares(c, m);
                self.set_square(rook_from, None);
                self.set_square(rook_to, Some((c, Piece::Rook)));
            },
            _ => {},
        }
        self.castling_availability = [white, black];
        self.en_passant = match mv.flag {
            MoveFlag::DoublePush => match c {
                Color::White => Square::index(from + 8).bitboard(),
                Color::Black => Square::index(from - 8).bitboard(),
            },
            _ => BitBoard(0),
        };
        self.halfmove_count = if k == Piece::Pawn || undo.captured.is_some() {
            0
        } else if self.halfmove_count < usize::MAX {
            self.halfmove_count + 1
        } else {
            self.halfmove_count
        };
        if c == Color::Black && self.move_count < usize::MAX {
            self.move_count = self.move_count + 1;
        }
        self.turn = c.opponent();
        self.bitboards.0[8] = BitBoard(0);
        self.bitboards.0[9] = BitBoard(0);
        self.move_filters = [BitBoard(0), BitBoard(0)];
        self.history.push(undo);
        proof {
            assert(self@.castling =~= old(self)@.make(mv).castling);
            assert(self@.squares =~= old(self)@.make(mv).squares);
        }
        Some(())
    }

    /// Takes back `mv`, the move made last. Nothing is done if no move is left to take
    /// back, if the last one was another move, or if the destination of `mv` is empty.
    pub fn undo_move(&mut self, mv: Move) -> (r: Option<()>)
        requires
            old(self).wf(),
        ensures
            r is Some <==> (old(self).history@.len() > 0 && old(self).history@.last().mv == mv
                && old(self)@.squares[mv.target_square.idx()] is Some),
            r is None ==> *final(self) == *old(self),
            r is Some ==> {
                &&& final(self)@ == old(self)@.unmake(old(self).history@.last())
                &&& final(self).history@ == old(self).history@.drop_last()
                &&& final(self).wf()
                &&& final(self).caches_clear()
            },
    {
        let n: usize = self.history.len();
        if n == 0 {
            return None;
        }
        let u: Undo = self.history[n - 1];
        if u.mv != mv {
            return None;
        }
        let k = match self.squares[mv.target_square.to_index()] {
            Some((_, k)) => k,
            None => {
                return None;
            },
        };
        let mover = self.turn.opponent();
        let taken_side = self.turn;
        let moving = match mv.flag.promotion() {
            Some(_) => Piece::Pawn,
            None => k,
        };
        let restored: Option<(Color, Piece)> = match mv.flag {
            MoveFlag::Capture(cap) => Some((taken_side, cap)),
            MoveFlag::PromotionCapture(cap, _) => Some((taken_side, cap)),
            _ => None,
        };
        self.set_square(mv.target_square, restored);
        self.set_square(mv.starting_square, Some((mover, moving)));
        match mv.flag {
            MoveFlag::EnPassant(cap) => {
                self.set_square(cap, Some((taken_side, Piece::Pawn)));
            },
            MoveFlag::Castle(m) => {
                let (_, rook_from) = Self::castling_homes(mover, m);
                let (_, rook_to) = Self::castling_squares(mover, m);
                self.set_square(rook_to, None);
                self.set_square(rook_from, Some((mover, Piece::Rook)));
            },
            _ => {},
        }
        self.turn = mover;
        self.castling_availability = [u.white, u.black];
        self.en_passant = u.en_passant;
        self.halfmove_count = u.halfmove;
        self.move_count = u.fullmove;
        self.bitboards.0[8] = BitBoard(0);
        self.bitboards.0[9] = BitBoard(0);
        self.move_filters = [BitBoard(0), BitBoard(0)];
        self.history.pop();
        proof {
            assert(self@.castling =~= old(self)@.unmake(u).castling);
            assert(self@.squares =~= old(self)@.unmake(u).squares);
        }
        Some(())
    }
}

} // verus!
