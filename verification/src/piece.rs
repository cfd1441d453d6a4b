//! Piece kinds, colors and the shift pairs that move a set one step along a compass ray.

use vstd::prelude::*;
use crate::attacks::{king_attacks, king_reach, knight_attacks, knight_reach, rays, slide_attacks};
use crate::bitboard::BitBoard;
use crate::bits::in_bb;
use crate::square::{file_of, rank_of, Rank, Square};

verus! {

/// A pair of shift distances: a set slides by shifting left, then right.
#[derive(Debug, Clone, Copy, PartialEq, Eq, Structural)]
pub struct Slider {
    pub left: u8,
    pub right: u8,
}

impl Slider {
    /// Both distances are within the word.
    pub open spec fn wf(self) -> bool {
        self.left <= 64 && self.right <= 64
    }

    /// Whether this is one of the eight one-step compass slides.
    pub open spec fn is_compass(self) -> bool {
        (self.right == 0 && (self.left == 8 || self.left == 1 || self.left == 9 || self.left == 7))
            || (self.left == 0 && (self.right == 8 || self.right == 1 || self.right == 9
            || self.right == 7))
    }

    /// How many files a compass slide moves a square toward file H.
    pub open spec fn df(self) -> int {
        if self.left == 1 || self.left == 9 || self.right == 7 {
            1
        } else if self.right == 1 || self.right == 9 || self.left == 7 {
            -1
        } else {
            0
        }
    }

    /// How many ranks a compass slide moves a square toward rank 8.
    pub open spec fn dr(self) -> int {
        if self.left == 8 || self.left == 9 || self.left == 7 {
            1
        } else if self.right == 8 || self.right == 9 || self.right == 7 {
            -1
        } else {
            0
        }
    }

    /// Whether a compass slide moves along a diagonal.
    pub open spec fn is_diagonal(self) -> bool {
        self.df() != 0 && self.dr() != 0
    }

    /// The slide that shifts left by `left`, then right by `right`.
    pub fn new(left: u8, right: u8) -> (r: Self)
        requires
            left <= 64,
            right <= 64,
        ensures
            r == (Slider { left, right }),
            r.wf(),
    {
        Self { left, right }
    }

    /// One rank toward rank 8.
    pub fn up() -> (r: Self)
        ensures
            r == (Slider { left: 8, right: 0 }),
    {
        Self { left: 8, right: 0 }
    }

    /// One rank toward rank 1.
    pub fn down() -> (r: Self)
        ensures
            r == (Slider { left: 0, right: 8 }),
    {
        Self { left: 0, right: 8 }
    }

    /// One file toward file H.
    pub fn left() -> (r: Self)
        ensures
            r == (Slider { left: 1, right: 0 }),
    {
        Self { left: 1, right: 0 }
    }

    /// One file toward file A.
    pub fn right() -> (r: Self)
        ensures
            r == (Slider { left: 0, right: 1 }),
    {
        Self { left: 0, right: 1 }
    }

    /// One rank up and one file toward file H.
    pub fn left_up() -> (r: Self)
        ensures
            r == (Slider { left: 9, right: 0 }),
    {
        Self { left: 9, right: 0 }
    }

    /// One rank up and one file toward file A.
    pub fn right_up() -> (r: Self)
        ensures
            r == (Slider { left: 7, right: 0 }),
    {
        Self { left: 7, right: 0 }
    }

    /// One rank down and one file toward file A.
    pub fn left_down() -> (r: Self)
        ensures
            r == (Slider { left: 0, right: 9 }),
    {
        Self { left: 0, right: 9 }
    }

    /// One rank down and one file toward file H.
    pub fn right_down() -> (r: Self)
        ensures
            r == (Slider { left: 0, right: 7 }),
    {
        Self { left: 0, right: 7 }
    }
}

/// The kind of a piece.
#[derive(Debug, Clone, Copy, Eq, PartialEq, Structural, Hash)]
pub enum Piece {
    King,
    Pawn,
    Bishop,
    Knight,
    Rook,
    Queen,
}

/// The four rook slides: down, up, toward file A, toward file H.
pub open spec fn rook_sliders() -> Seq<Slider> {
    seq![
        Slider { left: 0, right: 8 },
        Slider { left: 8, right: 0 },
        Slider { left: 0, right: 1 },
        Slider { left: 1, right: 0 },
    ]
}

/// The four bishop slides.
pub open spec fn bishop_sliders() -> Seq<Slider> {
    seq![
        Slider { left: 0, right: 9 },
        Slider { left: 0, right: 7 },
        Slider { left: 9, right: 0 },
        Slider { left: 7, right: 0 },
    ]
}

/// The eight queen slides: those of the rook, then those of the bishop.
pub open spec fn queen_sliders() -> Seq<Slider> {
    rook_sliders() + bishop_sliders()
}

impl Piece {
    /// The slot of this kind in a position's table of piece sets.
    pub open spec fn idx(self) -> int {
        match self {
            Piece::King => 2,
            Piece::Pawn => 3,
            Piece::Bishop => 4,
            Piece::Knight => 5,
            Piece::Rook => 6,
            Piece::Queen => 7,
        }
    }

    /// The kind that a slot of the table of piece sets stands for.
    pub open spec fn of(i: int) -> Piece {
        if i == 2 {
            Piece::King
        } else if i == 3 {
            Piece::Pawn
        } else if i == 4 {
            Piece::Bishop
        } else if i == 5 {
            Piece::Knight
        } else if i == 6 {
            Piece::Rook
        } else {
            Piece::Queen
        }
    }

    /// The letter of each kind in piece placement and move notation.
    pub open spec fn letter(self) -> char {
        match self {
            Piece::King => 'K',
            Piece::Queen => 'Q',
            Piece::Knight => 'N',
            Piece::Bishop => 'B',
            Piece::Pawn => 'P',
            Piece::Rook => 'R',
        }
    }

    /// Material worth in pawns; the king counts nothing.
    pub open spec fn value(self) -> nat {
        match self {
            Piece::King => 0,
            Piece::Pawn => 1,
            Piece::Bishop => 3,
            Piece::Knight => 3,
            Piece::Rook => 5,
            Piece::Queen => 9,
        }
    }

    /// The slides of a sliding kind; none for the others.
    pub open spec fn sliders_spec(self) -> Option<Seq<Slider>> {
        match self {
            Piece::Rook => Some(rook_sliders()),
            Piece::Bishop => Some(bishop_sliders()),
            Piece::Queen => Some(queen_sliders()),
            _ => None,
        }
    }

    /// Whether a piece of this kind moves along rays.
    pub open spec fn sliding(self) -> bool {
        self == Piece::Bishop || self == Piece::Rook || self == Piece::Queen
    }

    /// Whether a pawn may promote to this kind.
    pub open spec fn promotable(self) -> bool {
        self == Piece::Queen || self == Piece::Rook || self == Piece::Bishop || self
            == Piece::Knight
    }

    /// Whether a slider of this kind attacks along the compass slide `s`.
    pub open spec fn slides_along(self, s: Slider) -> bool {
        match self {
            Piece::Queen => true,
            Piece::Rook => !s.is_diagonal(),
            Piece::Bishop => s.is_diagonal(),
            _ => false,
        }
    }

    /// The slot of this kind in a position's table of piece sets.
    pub fn index(self) -> (r: usize)
        ensures
            r == self.idx(),
            2 <= r < 8,
            Piece::of(r as int) == self,
    {
        match self {
            Piece::King => 2,
            Piece::Pawn => 3,
            Piece::Bishop => 4,
            Piece::Knight => 5,
            Piece::Rook => 6,
            Piece::Queen => 7,
        }
    }

    /// The kind held in slot `i`, if `i` is the slot of a kind.
    pub fn from_index(i: usize) -> (r: Option<Piece>)
        ensures
            r == (if 2 <= i < 8 {
                Some(Piece::of(i as int))
            } else {
                None
            }),
            r is Some ==> r->0.idx() == i,
    {
        if i == 2 {
            Some(Piece::King)
        } else if i == 3 {
            Some(Piece::Pawn)
        } else if i == 4 {
            Some(Piece::Bishop)
        } else if i == 5 {
            Some(Piece::Knight)
        } else if i == 6 {
            Some(Piece::Rook)
        } else if i == 7 {
            Some(Piece::Queen)
        } else {
            None
        }
    }

    /// All six kinds, in the order in which material is counted.
    pub fn all() -> (r: [Piece; 6])
        ensures
            r@ =~= seq![
                Piece::King,
                Piece::Bishop,
                Piece::Knight,
                Piece::Pawn,
                Piece::Rook,
                Piece::Queen,
            ],
    {
        [Piece::King, Piece::Bishop, Piece::Knight, Piece::Pawn, Piece::Rook, Piece::Queen]
    }

    /// The kinds a pawn may promote to, in the order in which promotions are listed.
    pub fn promotions() -> (r: [Piece; 4])
        ensures
            r@ =~= seq![Piece::Queen, Piece::Rook, Piece::Bishop, Piece::Knight],
    {
        [Piece::Queen, Piece::Rook, Piece::Bishop, Piece::Knight]
    }

    /// The upper-case letter of the kind.
    pub fn notation(&self) -> (r: char)
        ensures
            r == self.letter(),
    {
        match self {
            Self::King => 'K',
            Self::Queen => 'Q',
            Self::Knight => 'N',
            Self::Bishop => 'B',
            Self::Pawn => 'P',
            Self::Rook => 'R',
        }
    }

    /// The kind named by an upper-case letter.
    pub fn from_notation(c: char) -> (r: Option<Self>)
        ensures
            r is Some <==> (c == 'K' || c == 'Q' || c == 'N' || c == 'B' || c == 'P' || c == 'R'),
            r is Some ==> r->0.letter() == c,
    {
        if c == 'K' {
            Some(Self::King)
        } else if c == 'Q' {
            Some(Self::Queen)
        } else if c == 'N' {
            Some(Self::Knight)
        } else if c == 'B' {
            Some(Self::Bishop)
        } else if c == 'P' {
            Some(Self::Pawn)
        } else if c == 'R' {
            Some(Self::Rook)
        } else {
            None
        }
    }

    /// The slides of a sliding kind, in the order in which its rays are walked.
    pub fn sliders(&self) -> (r: Option<Vec<Slider>>)
        ensures
            r is Some == self.sliders_spec() is Some,
            r is Some ==> r->0@ =~= self.sliders_spec()->0,
    {
        match self {
            Self::Rook => Some(
                vec![Slider::down(), Slider::up(), Slider::right(), Slider::left()],
            ),
            Self::Bishop => Some(
                vec![
                    Slider::left_down(),
                    Slider::right_down(),
                    Slider::left_up(),
                    Slider::right_up(),
                ],
            ),
            Self::Queen => Some(
                vec![
                    Slider::down(),
                    Slider::up(),
                    Slider::right(),
                    Slider::left(),
                    Slider::left_down(),
                    Slider::right_down(),
                    Slider::left_up(),
                    Slider::right_up(),
                ],
            ),
            _ => None,
        }
    }

    /// The squares that a piece of this kind on `square` reaches on a board with
    /// nothing else on it. For the rook and the queen the square itself is among
    /// them, as a member of its file and of its rank. A pawn reaches none: where it
    /// goes depends on its color.
    pub fn possible_moves(&self, square: Square) -> (r: BitBoard)
        ensures
            match self {
                Piece::Bishop => r.0 == rays(0, square.idx(), bishop_sliders()),
                Piece::Knight => r.0 == knight_attacks(square.idx()),
                Piece::King => r.0 == king_attacks(square.idx()),
                Piece::Pawn => r.0 == 0,
                Piece::Rook => forall|t: int| #[trigger]
                    in_bb(r.0, t) == (0 <= t < 64 && (file_of(t) == file_of(square.idx())
                        || rank_of(t) == rank_of(square.idx()))),
                Piece::Queen => forall|t: int| #[trigger]
                    in_bb(r.0, t) == (0 <= t < 64 && (file_of(t) == file_of(square.idx())
                        || rank_of(t) == rank_of(square.idx()) || in_bb(
                        rays(0, square.idx(), bishop_sliders()),
                        t,
                    ))),
            },
    {
        match self {
            Self::Bishop => Self::diagonals(square),
            Self::Knight => knight_reach(square),
            Self::Rook => square.file().bitboard().union(square.rank().bitboard()),
            Self::Queen => Self::diagonals(square).union(square.file().bitboard()).union(
                square.rank().bitboard(),
            ),
            Self::King => king_reach(square),
            _ => BitBoard::empty(),
        }
    }

    /// The squares on the diagonals of `square`, as far as the board goes.
    fn diagonals(square: Square) -> (r: BitBoard)
        ensures
            r.0 == rays(0, square.idx(), bishop_sliders()),
    {
        let sliders: [Slider; 4] = [
            Slider::left_down(),
            Slider::right_down(),
            Slider::left_up(),
            Slider::right_up(),
        ];
        assert(sliders@ =~= bishop_sliders());
        slide_attacks(BitBoard(0), square, sliders.as_slice())
    }

    /// Material worth in pawns; the king counts nothing.
    pub fn material_value(&self) -> (r: u32)
        ensures
            r == self.value(),
    {
        match self {
            Self::King => 0,
            Self::Pawn => 1,
            Self::Bishop => 3,
            Self::Knight => 3,
            Self::Rook => 5,
            Self::Queen => 9,
        }
    }

    /// Whether a piece of this kind moves along rays.
    pub fn is_sliding(&self) -> (r: bool)
        ensures
            r == self.sliding(),
    {
        match self {
            Self::Bishop | Self::Rook | Self::Queen => true,
            _ => false,
        }
    }
}

/// The side a piece belongs to.
#[derive(Debug, Clone, Copy, Eq, PartialEq, Structural, Hash)]
pub enum Color {
    White,
    Black,
}

impl Color {
    /// The slot of this color in a position's table of piece sets.
    pub open spec fn idx(self) -> int {
        match self {
            Color::White => 0,
            Color::Black => 1,
        }
    }

    /// The other side.
    pub open spec fn other(self) -> Color {
        match self {
            Color::Black => Color::White,
            Color::White => Color::Black,
        }
    }

    /// The rank direction in which this side's pawns advance.
    pub open spec fn dir(self) -> int {
        match self {
            Color::White => 1,
            Color::Black => -1,
        }
    }

    /// The number of the rank on which this side's pawns promote.
    pub open spec fn last_rank(self) -> int {
        match self {
            Color::White => 7,
            Color::Black => 0,
        }
    }

    /// The number of the rank on which this side's pawns start.
    pub open spec fn pawn_rank(self) -> int {
        match self {
            Color::White => 1,
            Color::Black => 6,
        }
    }

    /// The slot of this color in a position's table of piece sets.
    pub fn index(self) -> (r: usize)
        ensures
            r == self.idx(),
            r < 2,
    {
        match self {
            Color::White => 0,
            Color::Black => 1,
        }
    }

    /// The other side.
    pub fn opponent(&self) -> (r: Self)
        ensures
            r == self.other(),
    {
        match self {
            Color::Black => Color::White,
            Color::White => Color::Black,
        }
    }

    /// The rank on which this side's pawns promote.
    pub fn promotion_rank(&self) -> (r: Rank)
        ensures
            r.idx() == self.last_rank(),
    {
        match self {
            Color::Black => Rank::First,
            Color::White => Rank::Eighth,
        }
    }
}

} // verus!
