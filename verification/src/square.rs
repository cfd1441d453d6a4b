//! Board coordinates: squares, files and ranks.
//!
//! A square is numbered `rank * 8 + file`, with file A and rank 1 both numbered 0.

use vstd::prelude::*;
use crate::bitboard::BitBoard;
use crate::bits::{bit, in_bb, lemma_lines, FILE_A, RANK_1};

verus! {

/// A column of the board, from the queenside (A) to the kingside (H).
#[derive(Clone, Copy, Debug, PartialEq, Eq, Structural, Hash)]
pub enum File {
    A,
    B,
    C,
    D,
    E,
    F,
    G,
    H,
}

/// A row of the board, counted from White's side.
#[derive(Clone, Copy, Debug, PartialEq, Eq, Structural, Hash)]
pub enum Rank {
    First,
    Second,
    Third,
    Fourth,
    Fifth,
    Sixth,
    Seventh,
    Eighth,
}

/// One of the 64 squares, listed rank by rank from a1 to h8.
#[derive(Clone, Copy, Debug, PartialEq, Eq, Structural, Hash)]
pub enum Square {
    A1,
    B1,
    C1,
    D1,
    E1,
    F1,
    G1,
    H1,
    A2,
    B2,
    C2,
    D2,
    E2,
    F2,
    G2,
    H2,
    A3,
    B3,
    C3,
    D3,
    E3,
    F3,
    G3,
    H3,
    A4,
    B4,
    C4,
    D4,
    E4,
    F4,
    G4,
    H4,
    A5,
    B5,
    C5,
    D5,
    E5,
    F5,
    G5,
    H5,
    A6,
    B6,
    C6,
    D6,
    E6,
    F6,
    G6,
    H6,
    A7,
    B7,
    C7,
    D7,
    E7,
    F7,
    G7,
    H7,
    A8,
    B8,
    C8,
    D8,
    E8,
    F8,
    G8,
    H8,
}

/// The file number of the square numbered `s`.
pub open spec fn file_of(s: int) -> int {
    s % 8
}

/// The rank number of the square numbered `s`.
pub open spec fn rank_of(s: int) -> int {
    s / 8
}

/// Whether a file number and a rank number name a square of the board.
pub open spec fn on_board(f: int, r: int) -> bool {
    0 <= f < 8 && 0 <= r < 8
}

/// The number of the square on file `f` and rank `r`.
pub open spec fn square_at(f: int, r: int) -> int {
    r * 8 + f
}

impl File {
    /// The file's number, 0 for A up to 7 for H.
    pub open spec fn idx(self) -> int {
        match self {
            File::A => 0,
            File::B => 1,
            File::C => 2,
            File::D => 3,
            File::E => 4,
            File::F => 5,
            File::G => 6,
            File::H => 7,
        }
    }

    /// The file numbered `i`.
    pub open spec fn of(i: int) -> File {
        if i == 0 {
            File::A
        } else if i == 1 {
            File::B
        } else if i == 2 {
            File::C
        } else if i == 3 {
            File::D
        } else if i == 4 {
            File::E
        } else if i == 5 {
            File::F
        } else if i == 6 {
            File::G
        } else {
            File::H
        }
    }

    /// The file's number, 0 for A up to 7 for H.
    pub fn to_index(self) -> (r: usize)
        ensures
            r == self.idx(),
            r < 8,
    {
        match self {
            File::A => 0,
            File::B => 1,
            File::C => 2,
            File::D => 3,
            File::E => 4,
            File::F => 5,
            File::G => 6,
            File::H => 7,
        }
    }

    /// The file numbered `i`.
    pub fn index(i: usize) -> (r: File)
        requires
            i < 8,
        ensures
            r == File::of(i as int),
            r.idx() == i,
    {
        match i {
            0 => File::A,
            1 => File::B,
            2 => File::C,
            3 => File::D,
            4 => File::E,
            5 => File::F,
            6 => File::G,
            _ => File::H,
        }
    }

    /// Every square of this file.
    pub fn bitboard(self) -> (r: BitBoard)
        ensures
            forall|s: int| 0 <= s < 64 ==> #[trigger] in_bb(r.0, s) == (file_of(s) == self.idx()),
    {
        let i: usize = self.to_index();
        let r: u64 = FILE_A << (i as u64);
        proof {
            lemma_lines(i as int);
        }
        BitBoard(r)
    }
}

impl Rank {
    /// The rank's number, 0 for the first rank up to 7 for the eighth.
    pub open spec fn idx(self) -> int {
        match self {
            Rank::First => 0,
            Rank::Second => 1,
            Rank::Third => 2,
            Rank::Fourth => 3,
            Rank::Fifth => 4,
            Rank::Sixth => 5,
            Rank::Seventh => 6,
            Rank::Eighth => 7,
        }
    }

    /// The rank numbered `i`.
    pub open spec fn of(i: int) -> Rank {
        if i == 0 {
            Rank::First
        } else if i == 1 {
            Rank::Second
        } else if i == 2 {
            Rank::Third
        } else if i == 3 {
            Rank::Fourth
        } else if i == 4 {
            Rank::Fifth
        } else if i == 5 {
            Rank::Sixth
        } else if i == 6 {
            Rank::Seventh
        } else {
            Rank::Eighth
        }
    }

    /// The rank's number, 0 for the first rank up to 7 for the eighth.
    pub fn to_index(self) -> (r: usize)
        ensures
            r == self.idx(),
            r < 8,
    {
        match self {
            Rank::First => 0,
            Rank::Second => 1,
            Rank::Third => 2,
            Rank::Fourth => 3,
            Rank::Fifth => 4,
            Rank::Sixth => 5,
            Rank::Seventh => 6,
            Rank::Eighth => 7,
        }
    }

    /// The rank numbered `i`.
    pub fn index(i: usize) -> (r: Rank)
        requires
            i < 8,
        ensures
            r == Rank::of(i as int),
            r.idx() == i,
    {
        match i {
            0 => Rank::First,
            1 => Rank::Second,
            2 => Rank::Third,
            3 => Rank::Fourth,
            4 => Rank::Fifth,
            5 => Rank::Sixth,
            6 => Rank::Seventh,
            _ => Rank::Eighth,
        }
    }

    /// Every square of this rank.
    pub fn bitboard(self) -> (r: BitBoard)
        ensures
            forall|s: int| 0 <= s < 64 ==> #[trigger] in_bb(r.0, s) == (rank_of(s) == self.idx()),
    {
        let i: usize = self.to_index();
        let r: u64 = RANK_1 << ((8 * i) as u64);
        proof {
            lemma_lines(i as int);
        }
        BitBoard(r)
    }
}

impl Square {
    /// How many squares the board has.
    pub const NUM: usize = 64;

    /// The square's number, `rank * 8 + file`.
    pub closed spec fn idx(self) -> int {
        match self {
            Square::A1 => 0,
            Square::B1 => 1,
            Square::C1 => 2,
            Square::D1 => 3,
            Square::E1 => 4,
            Square::F1 => 5,
            Square::G1 => 6,
            Square::H1 => 7,
            Square::A2 => 8,
            Square::B2 => 9,
            Square::C2 => 10,
            Square::D2 => 11,
            Square::E2 => 12,
            Square::F2 => 13,
            Square::G2 => 14,
            Square::H2 => 15,
            Square::A3 => 16,
            Square::B3 => 17,
            Square::C3 => 18,
            Square::D3 => 19,
            Square::E3 => 20,
            Square::F3 => 21,
            Square::G3 => 22,
            Square::H3 => 23,
            Square::A4 => 24,
            Square::B4 => 25,
            Square::C4 => 26,
            Square::D4 => 27,
            Square::E4 => 28,
            Square::F4 => 29,
            Square::G4 => 30,
            Square::H4 => 31,
            Square::A5 => 32,
            Square::B5 => 33,
            Square::C5 => 34,
            Square::D5 => 35,
            Square::E5 => 36,
            Square::F5 => 37,
            Square::G5 => 38,
            Square::H5 => 39,
            Square::A6 => 40,
            Square::B6 => 41,
            Square::C6 => 42,
            Square::D6 => 43,
            Square::E6 => 44,
            Square::F6 => 45,
            Square::G6 => 46,
            Square::H6 => 47,
            Square::A7 => 48,
            Square::B7 => 49,
            Square::C7 => 50,
            Square::D7 => 51,
            Square::E7 => 52,
            Square::F7 => 53,
            Square::G7 => 54,
            Square::H7 => 55,
            Square::A8 => 56,
            Square::B8 => 57,
            Square::C8 => 58,
            Square::D8 => 59,
            Square::E8 => 60,
            Square::F8 => 61,
            Square::G8 => 62,
            Square::H8 => 63,
        }
    }

    /// The square numbered `i`.
    pub closed spec fn of(i: int) -> Square {
        if i == 0 {
            Square::A1
        } else if i == 1 {
            Square::B1
        } else if i == 2 {
            Square::C1
        } else if i == 3 {
            Square::D1
        } else if i == 4 {
            Square::E1
        } else if i == 5 {
            Square::F1
        } else if i == 6 {
            Square::G1
        } else if i == 7 {
            Square::H1
        } else if i == 8 {
            Square::A2
        } else if i == 9 {
            Square::B2
        } else if i == 10 {
            Square::C2
        } else if i == 11 {
            Square::D2
        } else if i == 12 {
            Square::E2
        } else if i == 13 {
            Square::F2
        } else if i == 14 {
            Square::G2
        } else if i == 15 {
            Square::H2
        } else if i == 16 {
            Square::A3
        } else if i == 17 {
            Square::B3
        } else if i == 18 {
            Square::C3
        } else if i == 19 {
            Square::D3
        } else if i == 20 {
            Square::E3
        } else if i == 21 {
            Square::F3
        } else if i == 22 {
            Square::G3
        } else if i == 23 {
            Square::H3
        } else if i == 24 {
            Square::A4
        } else if i == 25 {
            Square::B4
        } else if i == 26 {
            Square::C4
        } else if i == 27 {
            Square::D4
        } else if i == 28 {
            Square::E4
        } else if i == 29 {
            Square::F4
        } else if i == 30 {
            Square::G4
        } else if i == 31 {
            Square::H4
        } else if i == 32 {
            Square::A5
        } else if i == 33 {
            Square::B5
        } else if i == 34 {
            Square::C5
        } else if i == 35 {
            Square::D5
        } else if i == 36 {
            Square::E5
        } else if i == 37 {
            Square::F5
        } else if i == 38 {
            Square::G5
        } else if i == 39 {
            Square::H5
        } else if i == 40 {
            Square::A6
        } else if i == 41 {
            Square::B6
        } else if i == 42 {
            Square::C6
        } else if i == 43 {
            Square::D6
        } else if i == 44 {
            Square::E6
        } else if i == 45 {
            Square::F6
        } else if i == 46 {
            Square::G6
        } else if i == 47 {
            Square::H6
        } else if i == 48 {
            Square::A7
        } else if i == 49 {
            Square::B7
        } else if i == 50 {
            Square::C7
        } else if i == 51 {
            Square::D7
        } else if i == 52 {
            Square::E7
        } else if i == 53 {
            Square::F7
        } else if i == 54 {
            Square::G7
        } else if i == 55 {
            Square::H7
        } else if i == 56 {
            Square::A8
        } else if i == 57 {
            Square::B8
        } else if i == 58 {
            Square::C8
        } else if i == 59 {
            Square::D8
        } else if i == 60 {
            Square::E8
        } else if i == 61 {
            Square::F8
        } else if i == 62 {
            Square::G8
        } else {
            Square::H8
        }
    }

    /// Numbers and squares correspond one to one.
    pub proof fn lemma_idx_of(i: int)
        requires
            0 <= i < 64,
        ensures
            Square::of(i).idx() == i,
    {
    }

    /// Every square has a number below 64 and is the square of its number.
    pub proof fn lemma_of_idx(self)
        ensures
            0 <= self.idx() < 64,
            Square::of(self.idx()) == self,
    {
    }

    /// The square's number, `rank * 8 + file`.
    pub fn to_index(self) -> (r: usize)
        ensures
            r == self.idx(),
            r < 64,
    {
        match self {
            Square::A1 => 0,
            Square::B1 => 1,
            Square::C1 => 2,
            Square::D1 => 3,
            Square::E1 => 4,
            Square::F1 => 5,
            Square::G1 => 6,
            Square::H1 => 7,
            Square::A2 => 8,
            Square::B2 => 9,
            Square::C2 => 10,
            Square::D2 => 11,
            Square::E2 => 12,
            Square::F2 => 13,
            Square::G2 => 14,
            Square::H2 => 15,
            Square::A3 => 16,
            Square::B3 => 17,
            Square::C3 => 18,
            Square::D3 => 19,
            Square::E3 => 20,
            Square::F3 => 21,
            Square::G3 => 22,
            Square::H3 => 23,
            Square::A4 => 24,
            Square::B4 => 25,
            Square::C4 => 26,
            Square::D4 => 27,
            Square::E4 => 28,
            Square::F4 => 29,
            Square::G4 => 30,
            Square::H4 => 31,
            Square::A5 => 32,
            Square::B5 => 33,
            Square::C5 => 34,
            Square::D5 => 35,
            Square::E5 => 36,
            Square::F5 => 37,
            Square::G5 => 38,
            Square::H5 => 39,
            Square::A6 => 40,
            Square::B6 => 41,
            Square::C6 => 42,
            Square::D6 => 43,
            Square::E6 => 44,
            Square::F6 => 45,
            Square::G6 => 46,
            Square::H6 => 47,
            Square::A7 => 48,
            Square::B7 => 49,
            Square::C7 => 50,
            Square::D7 => 51,
            Square::E7 => 52,
            Square::F7 => 53,
            Square::G7 => 54,
            Square::H7 => 55,
            Square::A8 => 56,
            Square::B8 => 57,
            Square::C8 => 58,
            Square::D8 => 59,
            Square::E8 => 60,
            Square::F8 => 61,
            Square::G8 => 62,
            Square::H8 => 63,
        }
    }

    /// The square numbered `i`.
    pub fn index(i: usize) -> (r: Square)
        requires
            i < 64,
        ensures
            r == Square::of(i as int),
            r.idx() == i,
    {
        match i {
            0 => Square::A1,
            1 => Square::B1,
            2 => Square::C1,
            3 => Square::D1,
            4 => Square::E1,
            5 => Square::F1,
            6 => Square::G1,
            7 => Square::H1,
            8 => Square::A2,
            9 => Square::B2,
            10 => Square::C2,
            11 => Square::D2,
            12 => Square::E2,
            13 => Square::F2,
            14 => Square::G2,
            15 => Square::H2,
            16 => Square::A3,
            17 => Square::B3,
            18 => Square::C3,
            19 => Square::D3,
            20 => Square::E3,
            21 => Square::F3,
            22 => Square::G3,
            23 => Square::H3,
            24 => Square::A4,
            25 => Square::B4,
            26 => Square::C4,
            27 => Square::D4,
            28 => Square::E4,
            29 => Square::F4,
            30 => Square::G4,
            31 => Square::H4,
            32 => Square::A5,
            33 => Square::B5,
            34 => Square::C5,
            35 => Square::D5,
            36 => Square::E5,
            37 => Square::F5,
            38 => Square::G5,
            39 => Square::H5,
            40 => Square::A6,
            41 => Square::B6,
            42 => Square::C6,
            43 => Square::D6,
            44 => Square::E6,
            45 => Square::F6,
            46 => Square::G6,
            47 => Square::H6,
            48 => Square::A7,
            49 => Square::B7,
            50 => Square::C7,
            51 => Square::D7,
            52 => Square::E7,
            53 => Square::F7,
            54 => Square::G7,
            55 => Square::H7,
            56 => Square::A8,
            57 => Square::B8,
            58 => Square::C8,
            59 => Square::D8,
            60 => Square::E8,
            61 => Square::F8,
            62 => Square::G8,
            _ => Square::H8,
        }
    }

    /// The square on a file and a rank.
    pub fn new(file: File, rank: Rank) -> (r: Square)
        ensures
            r.idx() == square_at(file.idx(), rank.idx()),
            r == Square::of(square_at(file.idx(), rank.idx())),
    {
        Square::index(rank.to_index() * 8 + file.to_index())
    }

    /// The file of the square.
    pub fn file(self) -> (r: File)
        ensures
            r.idx() == file_of(self.idx()),
    {
        File::index(self.to_index() % 8)
    }

    /// The rank of the square.
    pub fn rank(self) -> (r: Rank)
        ensures
            r.idx() == rank_of(self.idx()),
    {
        Rank::index(self.to_index() / 8)
    }

    /// The set that holds this square alone.
    pub fn bitboard(self) -> (r: BitBoard)
        ensures
            r.0 == bit(self.idx()),
    {
        BitBoard(1u64 << (self.to_index() as u64))
    }
}

/// The square that a file letter, of either case, and a rank digit name.
pub open spec fn square_named(f: char, r: char) -> Option<Square> {
    if '1' <= r <= '8' {
        if 'a' <= f <= 'h' {
            Some(Square::of((r as int - 49) * 8 + (f as int - 97)))
        } else if 'A' <= f <= 'H' {
            Some(Square::of((r as int - 49) * 8 + (f as int - 65)))
        } else {
            None
        }
    } else {
        None
    }
}

/// The name of a square: the letter of its file in lower case, then the digit of its rank.
pub open spec fn square_name(s: Square) -> Seq<char> {
    seq![(97 + file_of(s.idx())) as char, (49 + rank_of(s.idx())) as char]
}

impl Square {
    /// The square that a file letter, of either case, and a rank digit name.
    pub fn from_chars(f: char, r: char) -> (sq: Option<Square>)
        ensures
            sq == square_named(f, r),
    {
        if !(r >= '1' && r <= '8') {
            return None;
        }
        let rank: usize = (r as u32 - 49) as usize;
        if f >= 'a' && f <= 'h' {
            Some(Square::index(rank * 8 + (f as u32 - 97) as usize))
        } else if f >= 'A' && f <= 'H' {
            Some(Square::index(rank * 8 + (f as u32 - 65) as usize))
        } else {
            None
        }
    }

    /// Appends the name of the square to `out`.
    pub fn push_name(self, out: &mut Vec<char>)
        ensures
            final(out)@ == old(out)@ + square_name(self),
    {
        let i: usize = self.to_index();
        out.push((97u8 + (i % 8) as u8) as char);
        out.push((49u8 + (i / 8) as u8) as char);
        proof {
            assert(final(out)@ =~= old(out)@ + square_name(self));
        }
    }
}

} // verus!
