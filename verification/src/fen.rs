//! Positions in text: six fields, separated by single spaces.

use vstd::prelude::*;
use crate::bitboard::BitBoard;
use crate::bits::{bit, in_bb, lemma_in_bit, lemma_tz_bit};
use crate::board::Board;
use crate::error::{EngineError, FenField};
use crate::piece::{Color, Piece};
use crate::position::{sole_square, Position};
use crate::square::{file_of, rank_of, Square};
use crate::text::{
    chars_of, decimal, number_of, parse_decimal, push_decimal, split_fields, split_on, string_of,
    texts,
};

verus! {

/// The letter of a piece in the placement field: upper case for White, lower case for Black.
pub open spec fn piece_letter(c: Color, k: Piece) -> char {
    match c {
        Color::White => k.letter(),
        Color::Black => match k {
            Piece::King => 'k',
            Piece::Queen => 'q',
            Piece::Knight => 'n',
            Piece::Bishop => 'b',
            Piece::Pawn => 'p',
            Piece::Rook => 'r',
        },
    }
}

/// The piece that a letter of the placement field stands for.
pub open spec fn piece_of_letter(ch: char) -> Option<(Color, Piece)> {
    if ch == 'K' {
        Some((Color::White, Piece::King))
    } else if ch == 'Q' {
        Some((Color::White, Piece::Queen))
    } else if ch == 'N' {
        Some((Color::White, Piece::Knight))
    } else if ch == 'B' {
        Some((Color::White, Piece::Bishop))
    } else if ch == 'P' {
        Some((Color::White, Piece::Pawn))
    } else if ch == 'R' {
        Some((Color::White, Piece::Rook))
    } else if ch == 'k' {
        Some((Color::Black, Piece::King))
    } else if ch == 'q' {
        Some((Color::Black, Piece::Queen))
    } else if ch == 'n' {
        Some((Color::Black, Piece::Knight))
    } else if ch == 'b' {
        Some((Color::Black, Piece::Bishop))
    } else if ch == 'p' {
        Some((Color::Black, Piece::Pawn))
    } else if ch == 'r' {
        Some((Color::Black, Piece::Rook))
    } else {
        None
    }
}

/// How far the placement field has been read: the pieces set so far, the square that
/// comes next, whether the last character was a count of empty squares, and whether
/// all was in order so far.
pub struct Placing {
    pub squares: Seq<Option<(Color, Piece)>>,
    pub rank: int,
    pub file: int,
    pub after_count: bool,
    pub ok: bool,
}

/// The state after one more character `ch`. A `/` must come at the end of a full rank,
/// a count of empty squares must not follow another and must fit in the rank, and a
/// piece needs a square left in the rank.
pub open spec fn place_step(st: Placing, ch: char) -> Placing {
    if !st.ok {
        st
    } else if ch == '/' {
        if st.file == 8 && st.rank > 0 {
            Placing { rank: st.rank - 1, file: 0, after_count: false, ..st }
        } else {
            Placing { ok: false, ..st }
        }
    } else if '1' <= ch <= '8' {
        if !st.after_count && st.file + (ch as int - 48) <= 8 {
            Placing { file: st.file + (ch as int - 48), after_count: true, ..st }
        } else {
            Placing { ok: false, ..st }
        }
    } else {
        match piece_of_letter(ch) {
            Some(piece) => if st.file < 8 {
                Placing {
                    squares: st.squares.update(st.rank * 8 + st.file, Some(piece)),
                    file: st.file + 1,
                    after_count: false,
                    ..st
                }
            } else {
                Placing { ok: false, ..st }
            },
            None => Placing { ok: false, ..st },
        }
    }
}

/// The state after the characters of `s`, read from the first square of the eighth rank.
pub open spec fn place(s: Seq<char>) -> Placing
    decreases s.len(),
{
    if s.len() == 0 {
        Placing {
            squares: Seq::new(64, |i: int| None::<(Color, Piece)>),
            rank: 7,
            file: 0,
            after_count: false,
            ok: true,
        }
    } else {
        place_step(place(s.drop_last()), s.last())
    }
}

/// What the placement field `s` puts on the squares, if it fills all eight ranks.
pub open spec fn parse_placement(s: Seq<char>) -> Option<Seq<Option<(Color, Piece)>>> {
    let st = place(s);
    if st.ok && st.rank == 0 && st.file == 8 {
        Some(st.squares)
    } else {
        None
    }
}

/// The side that the second field names.
pub open spec fn parse_side(s: Seq<char>) -> Option<Color> {
    if s =~= seq!['w'] {
        Some(Color::White)
    } else if s =~= seq!['b'] {
        Some(Color::Black)
    } else {
        None
    }
}

/// The side to move in text.
pub open spec fn side_text(c: Color) -> Seq<char> {
    match c {
        Color::White => seq!['w'],
        Color::Black => seq!['b'],
    }
}

/// The castling rights in text: of `KQkq` the letters of the rights held, or `-`.
pub open spec fn castling_text(rights: Seq<(bool, bool)>) -> Seq<char> {
    let held = (if rights[0].0 {
        seq!['K']
    } else {
        Seq::empty()
    }) + (if rights[0].1 {
        seq!['Q']
    } else {
        Seq::empty()
    }) + (if rights[1].0 {
        seq!['k']
    } else {
        Seq::empty()
    }) + (if rights[1].1 {
        seq!['q']
    } else {
        Seq::empty()
    });
    if held.len() == 0 {
        seq!['-']
    } else {
        held
    }
}

/// The rights of which `s` holds the letters.
pub open spec fn rights_in(s: Seq<char>) -> Seq<(bool, bool)> {
    seq![(s.contains('K'), s.contains('Q')), (s.contains('k'), s.contains('q'))]
}

/// The castling rights that the third field names: the field must be written as
/// `castling_text` writes the rights whose letters it holds.
pub open spec fn parse_castling(s: Seq<char>) -> Option<Seq<(bool, bool)>> {
    if castling_text(rights_in(s)) =~= s {
        Some(rights_in(s))
    } else {
        None
    }
}

/// The letter of the file numbered `f`.
pub open spec fn file_letter(f: int) -> char {
    (97 + f) as char
}

/// The digit of the rank numbered `r`.
pub open spec fn rank_digit(r: int) -> char {
    (49 + r) as char
}

/// The en-passant target that the fourth field names: `-` for none, else a file
/// letter from `a` to `h` and a rank digit from `1` to `8`.
pub open spec fn parse_ep(s: Seq<char>) -> Option<u64> {
    if s =~= seq!['-'] {
        Some(0)
    } else if s.len() == 2 && 'a' <= s[0] <= 'h' && '1' <= s[1] <= '8' {
        Some(bit((s[1] as int - 49) * 8 + (s[0] as int - 97)))
    } else {
        None
    }
}

/// The en-passant target in text.
pub open spec fn ep_text(ep: u64) -> Seq<char> {
    if ep == 0 {
        seq!['-']
    } else {
        seq![file_letter(file_of(sole_square(ep))), rank_digit(rank_of(sole_square(ep)))]
    }
}

/// The field with the number `i`, if the text has that many.
pub open spec fn field(f: Seq<Seq<char>>, i: int) -> Seq<char> {
    if 0 <= i < f.len() {
        f[i]
    } else {
        Seq::empty()
    }
}

/// The position that the text `s` describes, or the first field that is missing or
/// wrong. The fields are read in order. Then the position must be one that a game can
/// reach: one king a side and no pawn on the outer ranks (else the placement is
/// wrong), an en-passant target behind a pawn that has just advanced (else that
/// field is wrong), and the side that has just moved not in check (else the side to
/// move is wrong).
pub open spec fn parse_fen(s: Seq<char>) -> Result<Position, FenField> {
    let f = split_on(s, ' ');
    let squares = parse_placement(field(f, 0));
    let turn = parse_side(field(f, 1));
    let castling = parse_castling(field(f, 2));
    let ep = parse_ep(field(f, 3));
    let halfmove = number_of(field(f, 4));
    let fullmove = number_of(field(f, 5));
    if squares is None {
        Err(FenField::Placement)
    } else if turn is None {
        Err(FenField::SideToMove)
    } else if castling is None {
        Err(FenField::Castling)
    } else if ep is None {
        Err(FenField::EnPassant)
    } else if halfmove is None {
        Err(FenField::HalfmoveClock)
    } else if fullmove is None || fullmove.unwrap() == 0 || f.len() != 6 {
        Err(FenField::FullmoveCounter)
    } else {
        let p = Position {
            squares: squares.unwrap(),
            turn: turn.unwrap(),
            castling: castling.unwrap(),
            en_passant: ep.unwrap(),
            halfmove: halfmove.unwrap() as int,
            fullmove: fullmove.unwrap() as int,
        };
        if !(p.one_king(Color::White) && p.one_king(Color::Black) && p.pawns_in_bounds()) {
            Err(FenField::Placement)
        } else if !p.ep_ok() {
            Err(FenField::EnPassant)
        } else if p.in_check(p.turn.other()) {
            Err(FenField::SideToMove)
        } else {
            Ok(p)
        }
    }
}

/// The rest of the text of rank `r` from file `f` on, with `run` empty squares
/// counted and not yet written.
pub open spec fn rank_text(squares: Seq<Option<(Color, Piece)>>, r: int, f: int, run: int) -> Seq<
    char,
>
    decreases 8 - f,
{
    let count = if run > 0 {
        seq![crate::text::digit_char(run)]
    } else {
        Seq::empty()
    };
    if f >= 8 {
        count
    } else {
        match squares[r * 8 + f] {
            None => rank_text(squares, r, f + 1, run + 1),
            Some((c, k)) => count + seq![piece_letter(c, k)] + rank_text(squares, r, f + 1, 0),
        }
    }
}

/// The text of the ranks from `r` down to the first, with `/` between them.
pub open spec fn ranks_text(squares: Seq<Option<(Color, Piece)>>, r: int) -> Seq<char>
    decreases r,
{
    if r <= 0 {
        rank_text(squares, 0, 0, 0)
    } else {
        rank_text(squares, r, 0, 0) + seq!['/'] + ranks_text(squares, r - 1)
    }
}

/// The position in text.
pub open spec fn fen_text(p: Position) -> Seq<char> {
    ranks_text(p.squares, 7) + seq![' '] + side_text(p.turn) + seq![' '] + castling_text(
        p.castling,
    ) + seq![' '] + ep_text(p.en_passant) + seq![' '] + decimal(p.halfmove as nat) + seq![' ']
        + decimal(p.fullmove as nat)
}

/// Once the reading of a placement has failed, it has failed for good.
proof fn lemma_place_fails(s: Seq<char>, i: int)
    requires
        0 <= i <= s.len(),
        !place(s.take(i)).ok,
    ensures
        !place(s).ok,
    decreases s.len() - i,
{
    if i < s.len() {
        assert(s.take(i + 1).drop_last() =~= s.take(i));
        lemma_place_fails(s, i + 1);
    } else {
        assert(s.take(i) =~= s);
    }
}

/// A side has exactly one king when the set of its kings is a single square.
pub proof fn lemma_one_king(p: Position, c: Color)
    requires
        p.shape(),
    ensures
        p.one_king(c) == (exists|s: int| 0 <= s < 64 && p.piece_bb(c, Piece::King) == bit(s)),
{
    crate::legality::lemma_sets_of(p);
    let set = p.piece_bb(c, Piece::King);
    if p.one_king(c) {
        crate::laws::lemma_king_sq(p, c);
        let s = p.king_sq(c);
        lemma_in_bit(s);
        assert forall|t: int| 0 <= t < 64 implies in_bb(set, t) == in_bb(bit(s), t) by {
            assert(in_bb(set, t) == p.holds(t, c, Piece::King));
        }
        crate::bits::lemma_ext(set, bit(s));
    }
    if exists|s: int| 0 <= s < 64 && set == bit(s) {
        let s = choose|s: int| 0 <= s < 64 && set == bit(s);
        lemma_in_bit(s);
        assert(in_bb(set, s) == p.holds(s, c, Piece::King));
        assert(p.holds(s, c, Piece::King));
        assert forall|t: int| #[trigger] p.holds(t, c, Piece::King) implies t == s by {
            assert(in_bb(set, t) == p.holds(t, c, Piece::King));
        }
    }
}

/// A copy of `v`.
fn copy_chars(v: &Vec<char>) -> (r: Vec<char>)
    ensures
        r@ == v@,
{
    let mut out: Vec<char> = Vec::new();
    let mut i: usize = 0;
    while i < v.len()
        invariant
            i <= v@.len(),
            out@ == v@.take(i as int),
        decreases v@.len() - i,
    {
        out.push(v[i]);
        proof {
            assert(out@ =~= v@.take(i + 1));
        }
        i = i + 1;
    }
    proof {
        assert(v@.take(i as int) =~= v@);
    }
    out
}

/// The field with the number `i`, empty if the text has fewer.
fn field_at(f: &Vec<Vec<char>>, i: usize) -> (r: Vec<char>)
    ensures
        r@ == field(texts(f@), i as int),
{
    if i < f.len() {
        copy_chars(&f[i])
    } else {
        Vec::new()
    }
}

/// Whether two texts are the same.
fn same_chars(a: &Vec<char>, b: &Vec<char>) -> (r: bool)
    ensures
        r == (a@ =~= b@),
{
    if a.len() != b.len() {
        return false;
    }
    let mut i: usize = 0;
    while i < a.len()
        invariant
            i <= a@.len(),
            a@.len() == b@.len(),
            forall|j: int| 0 <= j < i ==> a@[j] == b@[j],
        decreases a@.len() - i,
    {
        if a[i] != b[i] {
            return false;
        }
        i = i + 1;
    }
    true
}

/// Whether `c` occurs in `s`.
fn has_char(s: &Vec<char>, c: char) -> (r: bool)
    ensures
        r == s@.contains(c),
{
    let mut i: usize = 0;
    while i < s.len()
        invariant
            i <= s@.len(),
            forall|j: int| 0 <= j < i ==> s@[j] != c,
        decreases s@.len() - i,
    {
        if s[i] == c {
            return true;
        }
        i = i + 1;
    }
    false
}

/// The piece that a letter of the placement field stands for.
pub fn piece_from_letter(ch: char) -> (r: Option<(Color, Piece)>)
    ensures
        r == piece_of_letter(ch),
{
    if ch == 'K' {
        Some((Color::White, Piece::King))
    } else if ch == 'Q' {
        Some((Color::White, Piece::Queen))
    } else if ch == 'N' {
        Some((Color::White, Piece::Knight))
    } else if ch == 'B' {
        Some((Color::White, Piece::Bishop))
    } else if ch == 'P' {
        Some((Color::White, Piece::Pawn))
    } else if ch == 'R' {
        Some((Color::White, Piece::Rook))
    } else if ch == 'k' {
        Some((Color::Black, Piece::King))
    } else if ch == 'q' {
        Some((Color::Black, Piece::Queen))
    } else if ch == 'n' {
        Some((Color::Black, Piece::Knight))
    } else if ch == 'b' {
        Some((Color::Black, Piece::Bishop))
    } else if ch == 'p' {
        Some((Color::Black, Piece::Pawn))
    } else if ch == 'r' {
        Some((Color::Black, Piece::Rook))
    } else {
        None
    }
}

/// The letter of a piece in the placement field.
pub fn letter_of(c: Color, k: Piece) -> (r: char)
    ensures
        r == piece_letter(c, k),
{
    match c {
        Color::White => k.notation(),
        Color::Black => match k {
            Piece::King => 'k',
            Piece::Queen => 'q',
            Piece::Knight => 'n',
            Piece::Bishop => 'b',
            Piece::Pawn => 'p',
            Piece::Rook => 'r',
        },
    }
}

/// Appends the castling rights in text to `out`.
fn push_castling(out: &mut Vec<char>, rights: &[(bool, bool); 2])
    ensures
        final(out)@ == old(out)@ + castling_text(rights@),
{
    let mut any: bool = false;
    if rights[0].0 {
        out.push('K');
        any = true;
    }
    if rights[0].1 {
        out.push('Q');
        any = true;
    }
    if rights[1].0 {
        out.push('k');
        any = true;
    }
    if rights[1].1 {
        out.push('q');
        any = true;
    }
    if !any {
        out.push('-');
    }
    proof {
        assert(final(out)@ =~= old(out)@ + castling_text(rights@));
    }
}

impl Board {
    /// Sets the pieces that the placement field `s` names on a board that holds none.
    /// Tells whether the field was in order; if it was not, the board may hold some
    /// of the pieces.
    fn place_pieces(&mut self, s: &Vec<char>) -> (r: bool)
        requires
            old(self).wf(),
            old(self).squares@ == Seq::new(64, |i: int| None::<(Color, Piece)>),
        ensures
            r == parse_placement(s@) is Some,
            r ==> final(self).squares@ == parse_placement(s@).unwrap(),
            final(self).wf(),
            old(self).same_but_pieces(final(self)),
    {
        let mut rank: usize = 7;
        let mut file: usize = 0;
        let mut after_count: bool = false;
        let mut i: usize = 0;
        proof {
            assert(s@.take(0) =~= Seq::<char>::empty());
        }
        while i < s.len()
            invariant
                i <= s@.len(),
                rank <= 7,
                file <= 8,
                self.wf(),
                old(self).same_but_pieces(self),
                place(s@.take(i as int)) == (Placing {
                    squares: self.squares@,
                    rank: rank as int,
                    file: file as int,
                    after_count,
                    ok: true,
                }),
            decreases s@.len() - i,
        {
            let ch = s[i];
            proof {
                assert(s@.take(i + 1).drop_last() =~= s@.take(i as int));
            }
            let mut ok: bool = true;
            if ch == '/' {
                if file == 8 && rank > 0 {
                    rank = rank - 1;
                    file = 0;
                    after_count = false;
                } else {
                    ok = false;
                }
            } else if ch >= '1' && ch <= '8' {
                let d: usize = (ch as u32 - 48) as usize;
                if !after_count && file + d <= 8 {
                    file = file + d;
                    after_count = true;
                } else {
                    ok = false;
                }
            } else {
                match piece_from_letter(ch) {
                    Some(piece) => {
                        if file < 8 {
                            self.set_square(Square::index(rank * 8 + file), Some(piece));
                            file = file + 1;
                            after_count = false;
                        } else {
                            ok = false;
                        }
                    },
                    None => {
                        ok = false;
                    },
                }
            }
            if !ok {
                proof {
                    lemma_place_fails(s@, i + 1);
                }
                return false;
            }
            i = i + 1;
        }
        proof {
            assert(s@.take(i as int) =~= s@);
        }
        rank == 0 && file == 8
    }

    /// Whether no pawn stands on the first or the eighth rank.
    fn pawns_inside(&self) -> (r: bool)
        ensures
            r == self@.pawns_in_bounds(),
    {
        let mut i: usize = 0;
        while i < 64
            invariant
                i <= 64,
                forall|s: int| 0 <= s < i && #[trigger] self@.kind_at(s, Piece::Pawn) ==> 0 < rank_of(s) < 7,
            decreases 64 - i,
        {
            match self.squares[i] {
                Some((_, k)) => {
                    if k == Piece::Pawn && (i / 8 == 0 || i / 8 == 7) {
                        assert(self@.kind_at(i as int, Piece::Pawn));
                        return false;
                    }
                },
                None => {},
            }
            i = i + 1;
        }
        true
    }

    /// Whether the en-passant target is empty or is the empty square behind a pawn
    /// of the side that has just moved, on the rank that a double push skips.
    fn ep_consistent(&self) -> (r: bool)
        requires
            self.en_passant.0 == 0 || exists|e: int| 0 <= e < 64 && self.en_passant.0 == bit(e),
        ensures
            r == self@.ep_ok(),
    {
        if self.en_passant.0 == 0 {
            return true;
        }
        proof {
            let e = choose|e: int| 0 <= e < 64 && self.en_passant.0 == bit(e);
            lemma_tz_bit(e);
        }
        let target = self.en_passant.lowest();
        let e: usize = target.to_index();
        let (rank, pawn): (usize, usize) = match self.turn {
            Color::White => (5, if e >= 8 {
                (e - 8) as usize
            } else {
                0
            }),
            Color::Black => (2, if e + 8 < 64 {
                e + 8
            } else {
                0
            }),
        };
        if e / 8 != rank || self.squares[e].is_some() {
            return false;
        }
        match self.squares[pawn] {
            Some((pc, k)) => pc != self.turn && k == Piece::Pawn,
            None => false,
        }
    }

    /// Reads a position from text: the placement of the pieces from the eighth rank
    /// down, the side to move, the castling rights, the en-passant target and the two
    /// clocks, separated by single spaces.
    pub fn load_fen(fen: String) -> (r: Result<Self, EngineError>)
        ensures
            match r {
                Ok(board) => {
                    &&& parse_fen(fen@) == Ok::<Position, FenField>(board@)
                    &&& board.wf()
                    &&& board@.valid()
                    &&& !board@.in_check(board@.turn.other())
                    &&& board.history@.len() == 0
                },
                Err(e) => exists|f: FenField|
                    e == EngineError::ParsePosition(f) && parse_fen(fen@) == Err::<
                        Position,
                        FenField,
                    >(f),
            },
    {
        let cs = chars_of(fen.as_str());
        let f = split_fields(&cs, ' ');
        let mut board = Board::new();
        if !board.place_pieces(&field_at(&f, 0)) {
            return Err(EngineError::ParsePosition(FenField::Placement));
        }
        let side = field_at(&f, 1);
        let turn = if side.len() == 1 && side[0] == 'w' {
            Color::White
        } else if side.len() == 1 && side[0] == 'b' {
            Color::Black
        } else {
            return Err(EngineError::ParsePosition(FenField::SideToMove));
        };
        let rights_text = field_at(&f, 2);
        let rights: [(bool, bool); 2] = [
            (has_char(&rights_text, 'K'), has_char(&rights_text, 'Q')),
            (has_char(&rights_text, 'k'), has_char(&rights_text, 'q')),
        ];
        proof {
            assert(rights@ =~= rights_in(rights_text@));
        }
        let mut written: Vec<char> = Vec::new();
        push_castling(&mut written, &rights);
        proof {
            assert(written@ =~= castling_text(rights@));
        }
        if !same_chars(&written, &rights_text) {
            return Err(EngineError::ParsePosition(FenField::Castling));
        }
        let target = field_at(&f, 3);
        let ep: u64 = if target.len() == 1 && target[0] == '-' {
            0
        } else if target.len() == 2 && target[0] >= 'a' && target[0] <= 'h' && target[1] >= '1'
            && target[1] <= '8' {
            let file: u32 = target[0] as u32 - 97;
            let rank: u32 = target[1] as u32 - 49;
            1u64 << ((rank * 8 + file) as u64)
        } else {
            return Err(EngineError::ParsePosition(FenField::EnPassant));
        };
        let halfmove = match parse_decimal(&field_at(&f, 4)) {
            Some(n) => n,
            None => {
                return Err(EngineError::ParsePosition(FenField::HalfmoveClock));
            },
        };
        let fullmove = match parse_decimal(&field_at(&f, 5)) {
            Some(n) => n,
            None => {
                return Err(EngineError::ParsePosition(FenField::FullmoveCounter));
            },
        };
        if fullmove == 0 || f.len() != 6 {
            return Err(EngineError::ParsePosition(FenField::FullmoveCounter));
        }
        board.turn = turn;
        board.castling_availability = rights;
        board.en_passant = BitBoard(ep);
        board.halfmove_count = halfmove;
        board.move_count = fullmove;
        proof {
            board.lemma_sets();
            lemma_one_king(board@, Color::White);
            lemma_one_king(board@, Color::Black);
        }
        if !(board.bitboards.get_piece_set(Piece::King, Some(Color::White)).is_single()
            && board.bitboards.get_piece_set(Piece::King, Some(Color::Black)).is_single()
            && board.pawns_inside()) {
            return Err(EngineError::ParsePosition(FenField::Placement));
        }
        if !board.ep_consistent() {
            return Err(EngineError::ParsePosition(FenField::EnPassant));
        }
        let attacked = board.compute_attacks(turn);
        if !board.bitboards.get_piece_set(Piece::King, Some(turn.opponent())).intersect(
            attacked,
        ).is_empty() {
            return Err(EngineError::ParsePosition(FenField::SideToMove));
        }
        Ok(board)
    }

    /// Appends the text of the rank numbered `r` to `out`.
    fn push_rank(&self, out: &mut Vec<char>, r: usize)
        requires
            r < 8,
        ensures
            final(out)@ == old(out)@ + rank_text(self.squares@, r as int, 0, 0),
    {
        let mut run: u8 = 0;
        let mut f: usize = 0;
        while f < 8
            invariant
                f <= 8,
                run <= f,
                r < 8,
                out@ + rank_text(self.squares@, r as int, f as int, run as int) == old(out)@
                    + rank_text(self.squares@, r as int, 0, 0),
            decreases 8 - f,
        {
            let ghost before = out@;
            match self.squares[r * 8 + f] {
                None => {
                    run = run + 1;
                },
                Some((c, k)) => {
                    if run > 0 {
                        out.push((48u8 + run) as char);
                    }
                    out.push(letter_of(c, k));
                    proof {
                        let count = if run > 0 {
                            seq![crate::text::digit_char(run as int)]
                        } else {
                            Seq::<char>::empty()
                        };
                        assert(out@ =~= before + (count + seq![piece_letter(c, k)]));
                        assert(out@ + rank_text(self.squares@, r as int, f + 1, 0) =~= before
                            + rank_text(self.squares@, r as int, f as int, run as int));
                    }
                    run = 0;
                },
            }
            f = f + 1;
        }
        let ghost before = out@;
        if run > 0 {
            out.push((48u8 + run) as char);
        }
        proof {
            assert(out@ =~= before + rank_text(self.squares@, r as int, 8, run as int));
        }
    }

    /// Appends the text of the ranks from `r` down to the first to `out`.
    fn push_ranks(&self, out: &mut Vec<char>, r: usize)
        requires
            r < 8,
        ensures
            final(out)@ == old(out)@ + ranks_text(self.squares@, r as int),
        decreases r,
    {
        self.push_rank(out, r);
        if r > 0 {
            out.push('/');
            self.push_ranks(out, r - 1);
            proof {
                assert(final(out)@ =~= old(out)@ + ranks_text(self.squares@, r as int));
            }
        }
    }

    /// The position in text, as `load_fen` reads it.
    pub fn to_fen(&self) -> (r: String)
        ensures
            r@ == fen_text(self@),
    {
        let mut out: Vec<char> = Vec::new();
        self.push_ranks(&mut out, 7);
        let ghost t1 = ranks_text(self.squares@, 7);
        assert(out@ =~= t1);
        out.push(' ');
        match self.turn {
            Color::White => out.push('w'),
            Color::Black => out.push('b'),
        }
        let ghost t2 = t1 + seq![' '] + side_text(self.turn);
        assert(out@ =~= t2);
        out.push(' ');
        push_castling(&mut out, &self.castling_availability);
        let ghost t3 = t2 + seq![' '] + castling_text(self.castling_availability@);
        assert(out@ =~= t3);
        out.push(' ');
        if self.en_passant.0 == 0 {
            out.push('-');
        } else {
            let e: usize = self.en_passant.lowest().to_index();
            out.push((97u8 + (e % 8) as u8) as char);
            out.push((49u8 + (e / 8) as u8) as char);
        }
        let ghost t4 = t3 + seq![' '] + ep_text(self.en_passant.0);
        assert(out@ =~= t4);
        out.push(' ');
        push_decimal(&mut out, self.halfmove_count as u64);
        let ghost t5 = t4 + seq![' '] + decimal(self.halfmove_count as nat);
        assert(out@ =~= t5);
        out.push(' ');
        push_decimal(&mut out, self.move_count as u64);
        let ghost t6 = t5 + seq![' '] + decimal(self.move_count as nat);
        assert(out@ =~= t6);
        string_of(&out)
    }
}

} // verus!
