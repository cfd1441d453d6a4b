//! Replaying moves given in long algebraic notation.

use vstd::prelude::*;
use crate::board::Board;
use crate::error::EngineError;
use crate::moves::Move;
use crate::piece::Color;
use crate::position::{Position, Undo};
use crate::text::{chars_of, split_words, texts, words_of};
use crate::uci::{parse_move, UciMove};
use crate::utils::AttackTables;

verus! {

/// Whether `m` is the move that `um` writes: the same squares and the same promotion.
pub open spec fn move_matches(m: Move, um: UciMove) -> bool {
    m.starting_square == um.starting_square && m.target_square == um.target_square
        && m.flag.promoted() == um.promotion
}

/// The first of `ms` from index `k` on that `um` writes.
pub open spec fn find_move(ms: Seq<Move>, um: UciMove, k: int) -> Option<Move>
    decreases ms.len() - k,
{
    if k < 0 || k >= ms.len() {
        None
    } else if move_matches(ms[k], um) {
        Some(ms[k])
    } else {
        find_move(ms, um, k + 1)
    }
}

/// The moves that the words of `ws` write, if each of them writes one.
pub open spec fn parse_all(ws: Seq<Seq<char>>) -> Option<Seq<UciMove>>
    decreases ws.len(),
{
    if ws.len() == 0 {
        Some(Seq::empty())
    } else {
        match (parse_all(ws.drop_last()), parse_move(ws.last())) {
            (Some(ms), Some(m)) => Some(ms.push(m)),
            _ => None,
        }
    }
}

impl Position {
    /// The legal move of the side to move that `um` writes, if there is one.
    pub open spec fn resolve(self, um: UciMove) -> Option<Move> {
        find_move(self.legal_moves(self.turn), um, 0)
    }

    /// The position after the moves of `ums` from index `k` on, each made by the side
    /// then to move; or the index of the first that is not legal where it is to be made.
    pub open spec fn replay(self, ums: Seq<UciMove>, k: int) -> Result<Position, int>
        decreases ums.len() - k,
    {
        if k < 0 || k >= ums.len() {
            Ok(self)
        } else {
            match self.resolve(ums[k]) {
                Some(m) => self.make(m).replay(ums, k + 1),
                None => Err(k),
            }
        }
    }
}

/// A move found among `ms` is one of `ms`.
proof fn lemma_find_member(ms: Seq<Move>, um: UciMove, k: int)
    requires
        0 <= k,
        find_move(ms, um, k) is Some,
    ensures
        ms.contains(find_move(ms, um, k).unwrap()),
    decreases ms.len() - k,
{
    if k < ms.len() {
        if move_matches(ms[k], um) {
            assert(ms[k] == find_move(ms, um, k).unwrap());
        } else {
            lemma_find_member(ms, um, k + 1);
        }
    }
}

impl Board {
    /// A board of its own with the same position and the same moves to take back.
    pub fn duplicate(&self) -> (r: Board)
        requires
            self.wf(),
        ensures
            r.wf(),
            r@ == self@,
            r.history@ == self.history@,
            r.bitboards == self.bitboards,
            r.move_filters == self.move_filters,
    {
        let mut history: Vec<Undo> = Vec::new();
        let mut i: usize = 0;
        while i < self.history.len()
            invariant
                i <= self.history@.len(),
                history@ == self.history@.take(i as int),
            decreases self.history@.len() - i,
        {
            history.push(self.history[i]);
            proof {
                assert(history@ =~= self.history@.take(i + 1));
            }
            i = i + 1;
        }
        proof {
            assert(self.history@.take(i as int) =~= self.history@);
        }
        Board {
            bitboards: self.bitboards,
            turn: self.turn,
            castling_availability: self.castling_availability,
            en_passant: self.en_passant,
            halfmove_count: self.halfmove_count,
            move_count: self.move_count,
            squares: self.squares,
            move_filters: self.move_filters,
            history,
            tables: AttackTables {
                king: self.tables.king,
                knight: self.tables.knight,
                bishop: self.tables.bishop,
            },
        }
    }

    /// The legal move of `color` that `mv` writes, if there is one.
    pub fn uci_to_board_move(&mut self, color: Color, mv: UciMove) -> (r: Option<Move>)
        requires
            old(self).wf(),
            old(self)@.valid(),
        ensures
            r == find_move(old(self)@.legal_moves(color), mv, 0),
            final(self)@ == old(self)@,
            final(self).history@ == old(self).history@,
            final(self).wf(),
    {
        let moves = self.generate_moves(color);
        let mut i: usize = 0;
        while i < moves.len()
            invariant
                i <= moves@.len(),
                moves@ == old(self)@.legal_moves(color),
                self@ == old(self)@,
                self.history@ == old(self).history@,
                self.wf(),
                find_move(moves@, mv, 0) == find_move(moves@, mv, i as int),
            decreases moves@.len() - i,
        {
            let m = moves[i];
            let promoted = m.flag.promotion();
            let same_promotion: bool = match (promoted, mv.promotion) {
                (Some(a), Some(b)) => a == b,
                (None, None) => true,
                _ => false,
            };
            if m.starting_square == mv.starting_square && m.target_square == mv.target_square
                && same_promotion {
                return Some(m);
            }
            i = i + 1;
        }
        None
    }

    /// Makes the moves of `moves` in turn. If one of them is not legal where it is to
    /// be made, none is made, and the error names its index.
    pub fn replay(&mut self, moves: &Vec<UciMove>) -> (r: Result<(), EngineError>)
        requires
            old(self).wf(),
            old(self)@.valid(),
        ensures
            final(self).wf(),
            final(self)@.valid(),
            match r {
                Ok(_) => old(self)@.replay(moves@, 0) == Ok::<Position, int>(final(self)@),
                Err(e) => exists|i: int|
                    0 <= i < moves@.len() && e == EngineError::IllegalMove(i as usize) && old(
                        self,
                    )@.replay(moves@, 0) == Err::<Position, int>(i) && *final(self) == *old(self),
            },
    {
        let mut work = self.duplicate();
        let mut i: usize = 0;
        while i < moves.len()
            invariant
                i <= moves@.len(),
                work.wf(),
                work@.valid(),
                *self == *old(self),
                self.wf(),
                self@.valid(),
                old(self)@.replay(moves@, 0) == work@.replay(moves@, i as int),
            decreases moves@.len() - i,
        {
            let turn = work.turn;
            let ghost p = work@;
            match work.uci_to_board_move(turn, moves[i]) {
                Some(m) => {
                    proof {
                        lemma_find_member(p.legal_moves(p.turn), moves@[i as int], 0);
                        crate::legality::lemma_legal_applicable(p, m);
                        crate::laws::lemma_make_valid(p, m);
                    }
                    let made = work.do_move(m);
                },
                None => {
                    return Err(EngineError::IllegalMove(i));
                },
            }
            i = i + 1;
        }
        *self = work;
        Ok(())
    }

    /// Makes the moves that `moves` writes in long algebraic notation, separated by
    /// blanks. If a word writes no move, or a move is not legal where it is to be
    /// made, none is made.
    pub fn do_str_moves(&mut self, moves: &str) -> (r: Result<(), EngineError>)
        requires
            old(self).wf(),
            old(self)@.valid(),
        ensures
            final(self).wf(),
            final(self)@.valid(),
            match r {
                Ok(_) => {
                    let ums = parse_all(words_of(moves@));
                    ums is Some && old(self)@.replay(ums.unwrap(), 0) == Ok::<Position, int>(
                        final(self)@,
                    )
                },
                Err(EngineError::ParseMove) => parse_all(words_of(moves@)) is None && *final(self)
                    == *old(self),
                Err(EngineError::IllegalMove(i)) => {
                    let ums = parse_all(words_of(moves@));
                    ums is Some && old(self)@.replay(ums.unwrap(), 0) == Err::<Position, int>(
                        i as int,
                    ) && *final(self) == *old(self)
                },
                Err(EngineError::ParsePosition(_)) => false,
            },
    {
        let cs = chars_of(moves);
        let words = split_words(&cs);
        let mut list: Vec<UciMove> = Vec::new();
        let mut i: usize = 0;
        proof {
            assert(texts(words@).take(0) =~= Seq::<Seq<char>>::empty());
        }
        while i < words.len()
            invariant
                i <= words@.len(),
                texts(words@) == words_of(moves@),
                parse_all(texts(words@).take(i as int)) == Some(list@),
                *self == *old(self),
                self.wf(),
                self@.valid(),
            decreases words@.len() - i,
        {
            proof {
                assert(texts(words@).take(i + 1).drop_last() =~= texts(words@).take(i as int));
                assert(texts(words@).take(i + 1).last() == words@[i as int]@);
            }
            match UciMove::parse_chars(&words[i]) {
                Some(m) => {
                    list.push(m);
                },
                None => {
                    proof {
                        lemma_parse_all_fails(texts(words@), i + 1);
                    }
                    return Err(EngineError::ParseMove);
                },
            }
            i = i + 1;
        }
        proof {
            assert(texts(words@).take(i as int) =~= texts(words@));
        }
        self.replay(&list)
    }
}

/// If the first `i` words do not all write moves, neither do all the words.
proof fn lemma_parse_all_fails(ws: Seq<Seq<char>>, i: int)
    requires
        0 <= i <= ws.len(),
        parse_all(ws.take(i)) is None,
    ensures
        parse_all(ws) is None,
    decreases ws.len() - i,
{
    if i < ws.len() {
        assert(ws.take(i + 1).drop_last() =~= ws.take(i));
        lemma_parse_all_fails(ws, i + 1);
    } else {
        assert(ws.take(i) =~= ws);
    }
}

} // verus!
