//! Commands of the line protocol: moves in long algebraic notation, positions, perft.

use vstd::prelude::*;
use crate::piece::Piece;
use crate::square::{square_named, Square};
use crate::text::{chars_of, number_of, parse_decimal, split_words, string_of, texts, words_of};

verus! {

/// A move as the protocol writes it: origin, destination, and the kind a pawn becomes.
#[derive(Debug, Clone, Copy, PartialEq, Eq)]
pub struct UciMove {
    pub starting_square: Square,
    pub target_square: Square,
    pub promotion: Option<Piece>,
}

/// A position in text, as it came with a command.
#[derive(Debug, Clone, PartialEq, Eq)]
pub struct UciFen(String);

/// A command, read in full.
#[derive(Debug, Clone, PartialEq, Eq)]
pub enum UciCommand {
    Debug(bool),
    Perft(u32),
    Position { fen: Option<UciFen>, moves: Vec<UciMove> },
    Stop,
    Quit,
}

/// The word that names a command.
#[derive(Debug, Clone, Copy, PartialEq, Eq)]
pub enum UciRawCommand {
    Debug,
    Perft,
    Position,
    Stop,
    Go,
    Quit,
}

/// What a command says, with texts and lists as sequences.
pub enum CommandModel {
    Debug(bool),
    Perft(u32),
    Position { fen: Option<Seq<char>>, moves: Seq<UciMove> },
    Stop,
    Quit,
}

/// The words of a line, and how many of them have been read.
pub struct Words {
    pub items: Vec<Vec<char>>,
    pub pos: usize,
}

/// The kind that a promotion letter, of either case, names.
pub open spec fn promotion_named(c: char) -> Option<Piece> {
    if c == 'q' || c == 'Q' {
        Some(Piece::Queen)
    } else if c == 'r' || c == 'R' {
        Some(Piece::Rook)
    } else if c == 'b' || c == 'B' {
        Some(Piece::Bishop)
    } else if c == 'n' || c == 'N' {
        Some(Piece::Knight)
    } else {
        None
    }
}

/// The move that `s` writes: two squares, and after them at most one letter, which
/// must name a kind that a pawn may become.
pub open spec fn parse_move(s: Seq<char>) -> Option<UciMove> {
    if s.len() != 4 && s.len() != 5 {
        None
    } else if square_named(s[0], s[1]) is None || square_named(s[2], s[3]) is None {
        None
    } else if s.len() == 5 && promotion_named(s[4]) is None {
        None
    } else {
        Some(
            UciMove {
                starting_square: square_named(s[0], s[1]).unwrap(),
                target_square: square_named(s[2], s[3]).unwrap(),
                promotion: if s.len() == 5 {
                    promotion_named(s[4])
                } else {
                    None
                },
            },
        )
    }
}

/// The moves that the words of `ws` write; a word that writes none is passed over.
pub open spec fn parse_moves(ws: Seq<Seq<char>>) -> Seq<UciMove>
    decreases ws.len(),
{
    if ws.len() == 0 {
        Seq::empty()
    } else {
        match parse_move(ws.last()) {
            Some(m) => parse_moves(ws.drop_last()).push(m),
            None => parse_moves(ws.drop_last()),
        }
    }
}

/// `c` in lower case, if it is a capital of ASCII.
pub open spec fn lower(c: char) -> char {
    if 'A' <= c <= 'Z' {
        (c as int + 32) as char
    } else {
        c
    }
}

/// Whether `w` is `name`, the case of letters left aside.
pub open spec fn is_word(w: Seq<char>, name: Seq<char>) -> bool {
    w.len() == name.len() && forall|i: int| 0 <= i < w.len() ==> lower(#[trigger] w[i]) == name[i]
}

/// The command that the word `w` names.
pub open spec fn raw_named(w: Seq<char>) -> Option<UciRawCommand> {
    if is_word(w, seq!['d', 'e', 'b', 'u', 'g']) {
        Some(UciRawCommand::Debug)
    } else if is_word(w, seq!['p', 'e', 'r', 'f', 't']) {
        Some(UciRawCommand::Perft)
    } else if is_word(w, seq!['p', 'o', 's', 'i', 't', 'i', 'o', 'n']) {
        Some(UciRawCommand::Position)
    } else if is_word(w, seq!['s', 't', 'o', 'p']) {
        Some(UciRawCommand::Stop)
    } else if is_word(w, seq!['g', 'o']) {
        Some(UciRawCommand::Go)
    } else if is_word(w, seq!['q', 'u', 'i', 't']) {
        Some(UciRawCommand::Quit)
    } else {
        None
    }
}

/// The index of the first word of `ws` from `k` on that names a command; the number
/// of words if none does.
pub open spec fn first_raw(ws: Seq<Seq<char>>, k: int) -> int
    decreases ws.len() - k,
{
    if k >= ws.len() || k < 0 {
        ws.len() as int
    } else if raw_named(ws[k]) is Some {
        k
    } else {
        first_raw(ws, k + 1)
    }
}

/// The first six words of `ws`, joined by single spaces.
pub open spec fn join_six(ws: Seq<Seq<char>>) -> Seq<char> {
    ws[0] + seq![' '] + ws[1] + seq![' '] + ws[2] + seq![' '] + ws[3] + seq![' '] + ws[4] + seq![
        ' ',
    ] + ws[5]
}

/// The moves that follow the word `moves`, if `ws` starts with it; none if it does not.
pub open spec fn moves_after(ws: Seq<Seq<char>>) -> Seq<UciMove> {
    if ws.len() > 0 && ws[0] =~= seq!['m', 'o', 'v', 'e', 's'] {
        parse_moves(ws.skip(1))
    } else {
        Seq::empty()
    }
}

/// The command that the words after its name say: `on` or `off` after `debug`, a depth
/// after `perft`, `startpos` or `fen` with six fields after `position` and then the
/// moves. `go` is not a command of this engine.
pub open spec fn command_of(raw: UciRawCommand, ws: Seq<Seq<char>>) -> Option<CommandModel> {
    match raw {
        UciRawCommand::Debug => if ws.len() > 0 && ws[0] =~= seq!['o', 'n'] {
            Some(CommandModel::Debug(true))
        } else if ws.len() > 0 && ws[0] =~= seq!['o', 'f', 'f'] {
            Some(CommandModel::Debug(false))
        } else {
            None
        },
        UciRawCommand::Perft => if ws.len() > 0 && number_of(ws[0]) is Some && number_of(
            ws[0],
        ).unwrap() <= u32::MAX {
            Some(CommandModel::Perft(number_of(ws[0]).unwrap() as u32))
        } else {
            None
        },
        UciRawCommand::Position => if ws.len() > 0 && ws[0] =~= seq![
            's',
            't',
            'a',
            'r',
            't',
            'p',
            'o',
            's',
        ] {
            Some(CommandModel::Position { fen: None, moves: moves_after(ws.skip(1)) })
        } else if ws.len() >= 7 && ws[0] =~= seq!['f', 'e', 'n'] {
            Some(
                CommandModel::Position {
                    fen: Some(join_six(ws.skip(1))),
                    moves: moves_after(ws.skip(7)),
                },
            )
        } else {
            None
        },
        UciRawCommand::Stop => Some(CommandModel::Stop),
        UciRawCommand::Go => None,
        UciRawCommand::Quit => Some(CommandModel::Quit),
    }
}

/// The command that the line `s` gives: the first of its words that names a command
/// decides which, and the words after it say the rest.
pub open spec fn parse_command(s: Seq<char>) -> Option<CommandModel> {
    let ws = words_of(s);
    let k = first_raw(ws, 0);
    if k < ws.len() {
        command_of(raw_named(ws[k]).unwrap(), ws.skip(k + 1))
    } else {
        None
    }
}

/// Whether `w` is `name`, the case of letters left aside; `name` is in lower case.
fn word_is(w: &Vec<char>, name: &[char]) -> (r: bool)
    ensures
        r == is_word(w@, name@),
{
    if w.len() != name.len() {
        return false;
    }
    let mut i: usize = 0;
    while i < w.len()
        invariant
            i <= w@.len(),
            w@.len() == name@.len(),
            forall|j: int| 0 <= j < i ==> lower(#[trigger] w@[j]) == name@[j],
        decreases w@.len() - i,
    {
        let c = w[i];
        let l: char = if c >= 'A' && c <= 'Z' {
            ((c as u8) + 32) as char
        } else {
            c
        };
        if l != name[i] {
            return false;
        }
        i = i + 1;
    }
    true
}

/// Whether `w` is exactly `name`.
fn word_eq(w: &Vec<char>, name: &[char]) -> (r: bool)
    ensures
        r == (w@ =~= name@),
{
    if w.len() != name.len() {
        return false;
    }
    let mut i: usize = 0;
    while i < w.len()
        invariant
            i <= w@.len(),
            w@.len() == name@.len(),
            forall|j: int| 0 <= j < i ==> w@[j] == name@[j],
        decreases w@.len() - i,
    {
        if w[i] != name[i] {
            return false;
        }
        i = i + 1;
    }
    true
}

impl Words {
    /// The words not yet read.
    pub open spec fn rest(&self) -> Seq<Seq<char>> {
        Seq::new(
            (self.items@.len() - self.pos) as nat,
            |j: int| self.items@[self.pos + j]@,
        )
    }

    /// No more words have been read than there are.
    pub open spec fn wf(&self) -> bool {
        self.pos <= self.items@.len()
    }

    /// The words of `line`, none of them read yet.
    pub fn new(line: &str) -> (r: Self)
        ensures
            r.wf(),
            r.rest() == words_of(line@),
    {
        let cs = chars_of(line);
        let items = split_words(&cs);
        let r = Words { items, pos: 0 };
        proof {
            assert(r.rest() =~= texts(r.items@));
        }
        r
    }

    /// How many words are left to read.
    pub fn remaining(&self) -> (r: usize)
        requires
            self.wf(),
        ensures
            r == self.rest().len(),
    {
        self.items.len() - self.pos
    }

    /// The word with the number `i` among those left to read.
    pub fn peek(&self, i: usize) -> (r: &Vec<char>)
        requires
            self.wf(),
            i < self.rest().len(),
        ensures
            r@ == self.rest()[i as int],
    {
        let total = self.items.len();
        &self.items[self.pos + i]
    }

    /// Passes over `n` words.
    pub fn skip(&mut self, n: usize)
        requires
            old(self).wf(),
            n <= old(self).rest().len(),
        ensures
            final(self).wf(),
            final(self).rest() == old(self).rest().skip(n as int),
    {
        let total = self.items.len();
        self.pos = self.pos + n;
        proof {
            assert(final(self).rest() =~= old(self).rest().skip(n as int));
        }
    }
}

impl View for UciFen {
    type V = Seq<char>;

    closed spec fn view(&self) -> Seq<char> {
        self.0@
    }
}

impl UciFen {
    /// How many fields a position in text has.
    pub const FEN_PART_COUNT: usize = 6;

    /// The position that the text `s` gives, kept as it is.
    pub fn new(s: &str) -> (r: Self)
        ensures
            r@ == s@,
    {
        Self(s.to_owned())
    }

    /// The position that the next six words give, joined by single spaces. If fewer
    /// are left, there is none, and what was left has been read.
    pub fn from_cmdline(i: &mut Words) -> (r: Option<Self>)
        requires
            old(i).wf(),
        ensures
            final(i).wf(),
            r is Some == (old(i).rest().len() >= 6),
            r is Some ==> r.unwrap()@ == join_six(old(i).rest()) && final(i).rest() == old(
                i,
            ).rest().skip(6),
            r is None ==> final(i).rest().len() == 0,
    {
        let n = i.remaining();
        if n < Self::FEN_PART_COUNT {
            i.skip(n);
            return None;
        }
        let mut buf: Vec<char> = Vec::new();
        let mut k: usize = 0;
        let ghost ws = i.rest();
        while k < 6
            invariant
                k <= 6,
                i.wf(),
                i.rest() == ws,
                ws.len() >= 6,
                *i == *old(i),
                k == 0 ==> buf@.len() == 0,
                k == 1 ==> buf@ == ws[0],
                k == 2 ==> buf@ == ws[0] + seq![' '] + ws[1],
                k == 3 ==> buf@ == ws[0] + seq![' '] + ws[1] + seq![' '] + ws[2],
                k == 4 ==> buf@ == ws[0] + seq![' '] + ws[1] + seq![' '] + ws[2] + seq![' '] + ws[3],
                k == 5 ==> buf@ == ws[0] + seq![' '] + ws[1] + seq![' '] + ws[2] + seq![' '] + ws[3]
                    + seq![' '] + ws[4],
                k == 6 ==> buf@ == join_six(ws),
            decreases 6 - k,
        {
            let ghost before = buf@;
            if k > 0 {
                buf.push(' ');
            }
            let w = i.peek(k);
            let mut j: usize = 0;
            let ghost start = buf@;
            while j < w.len()
                invariant
                    j <= w@.len(),
                    buf@ == start + w@.take(j as int),
                decreases w@.len() - j,
            {
                buf.push(w[j]);
                proof {
                    assert(buf@ =~= start + w@.take(j + 1));
                }
                j = j + 1;
            }
            proof {
                assert(w@.take(j as int) =~= w@);
                if k == 0 {
                    assert(buf@ =~= ws[0]);
                } else {
                    assert(buf@ =~= before + seq![' '] + ws[k as int]);
                }
            }
            k = k + 1;
        }
        i.skip(6);
        Some(Self(string_of(&buf)))
    }

    /// The text of the position.
    pub fn inner(&self) -> (r: String)
        ensures
            r@ == self@,
    {
        self.0.clone()
    }
}

impl UciRawCommand {
    /// The command that the word `w` names, the case of letters left aside.
    pub fn from_word(w: &Vec<char>) -> (r: Option<Self>)
        ensures
            r == raw_named(w@),
    {
        if word_is(w, &['d', 'e', 'b', 'u', 'g']) {
            Some(UciRawCommand::Debug)
        } else if word_is(w, &['p', 'e', 'r', 'f', 't']) {
            Some(UciRawCommand::Perft)
        } else if word_is(w, &['p', 'o', 's', 'i', 't', 'i', 'o', 'n']) {
            Some(UciRawCommand::Position)
        } else if word_is(w, &['s', 't', 'o', 'p']) {
            Some(UciRawCommand::Stop)
        } else if word_is(w, &['g', 'o']) {
            Some(UciRawCommand::Go)
        } else if word_is(w, &['q', 'u', 'i', 't']) {
            Some(UciRawCommand::Quit)
        } else {
            None
        }
    }

    /// Reads words up to and with the first that names a command. If none does, all
    /// words have been read.
    pub fn parse(cmdline: &mut Words) -> (r: Option<Self>)
        requires
            old(cmdline).wf(),
        ensures
            final(cmdline).wf(),
            ({
                let ws = old(cmdline).rest();
                let k = first_raw(ws, 0);
                &&& r is Some == (k < ws.len())
                &&& r is Some ==> r == raw_named(ws[k]) && final(cmdline).rest() == ws.skip(k + 1)
                &&& r is None ==> final(cmdline).rest().len() == 0
            }),
    {
        let n = cmdline.remaining();
        let ghost ws = cmdline.rest();
        let mut k: usize = 0;
        while k < n
            invariant
                k <= n,
                n == ws.len(),
                cmdline.wf(),
                *cmdline == *old(cmdline),
                ws == cmdline.rest(),
                first_raw(ws, 0) == first_raw(ws, k as int),
            decreases n - k,
        {
            match Self::from_word(cmdline.peek(k)) {
                Some(raw) => {
                    cmdline.skip(k + 1);
                    return Some(raw);
                },
                None => {},
            }
            k = k + 1;
        }
        cmdline.skip(n);
        None
    }
}

impl UciMove {
    /// The move that the characters of `mv` write.
    pub fn parse_chars(mv: &Vec<char>) -> (r: Option<Self>)
        ensures
            r == parse_move(mv@),
    {
        if mv.len() != 4 && mv.len() != 5 {
            return None;
        }
        let start = match Square::from_chars(mv[0], mv[1]) {
            Some(s) => s,
            None => {
                return None;
            },
        };
        let target = match Square::from_chars(mv[2], mv[3]) {
            Some(s) => s,
            None => {
                return None;
            },
        };
        let promotion = if mv.len() == 5 {
            let c = mv[4];
            let p = if c == 'q' || c == 'Q' {
                Piece::Queen
            } else if c == 'r' || c == 'R' {
                Piece::Rook
            } else if c == 'b' || c == 'B' {
                Piece::Bishop
            } else if c == 'n' || c == 'N' {
                Piece::Knight
            } else {
                return None;
            };
            Some(p)
        } else {
            None
        };
        Some(Self { promotion, starting_square: start, target_square: target })
    }

    /// The move that `mv` writes in long algebraic notation.
    pub fn parse(mv: &str) -> (r: Option<Self>)
        ensures
            r == parse_move(mv@),
    {
        let cs = chars_of(mv);
        Self::parse_chars(&cs)
    }
}

impl View for UciCommand {
    type V = CommandModel;

    open spec fn view(&self) -> CommandModel {
        match self {
            UciCommand::Debug(on) => CommandModel::Debug(*on),
            UciCommand::Perft(depth) => CommandModel::Perft(*depth),
            UciCommand::Position { fen, moves } => CommandModel::Position {
                fen: match fen {
                    Some(f) => Some(f@),
                    None => None,
                },
                moves: moves@,
            },
            UciCommand::Stop => CommandModel::Stop,
            UciCommand::Quit => CommandModel::Quit,
        }
    }
}

impl UciCommand {
    /// The command that the line `s` gives, if it gives one.
    pub fn try_parse(s: String) -> (r: Option<UciCommand>)
        ensures
            r is Some == parse_command(s@) is Some,
            r is Some ==> r.unwrap()@ == parse_command(s@).unwrap(),
    {
        let mut parts = Words::new(s.as_str());
        let raw = match UciRawCommand::parse(&mut parts) {
            Some(raw) => raw,
            None => {
                return None;
            },
        };
        let ghost ws = parts.rest();
        match raw {
            UciRawCommand::Debug => {
                if parts.remaining() == 0 {
                    return None;
                }
                let w = parts.peek(0);
                if word_eq(w, &['o', 'n']) {
                    Some(UciCommand::Debug(true))
                } else if word_eq(w, &['o', 'f', 'f']) {
                    Some(UciCommand::Debug(false))
                } else {
                    None
                }
            },
            UciRawCommand::Perft => {
                if parts.remaining() == 0 {
                    return None;
                }
                match parse_decimal(parts.peek(0)) {
                    Some(n) => {
                        if n <= u32::MAX as usize {
                            Some(UciCommand::Perft(n as u32))
                        } else {
                            None
                        }
                    },
                    None => None,
                }
            },
            UciRawCommand::Position => {
                if parts.remaining() == 0 {
                    return None;
                }
                let startpos = word_eq(parts.peek(0), &['s', 't', 'a', 'r', 't', 'p', 'o', 's']);
                let with_fen = word_eq(parts.peek(0), &['f', 'e', 'n']);
                parts.skip(1);
                let fen = if startpos {
                    None
                } else if with_fen {
                    match UciFen::from_cmdline(&mut parts) {
                        Some(f) => Some(f),
                        None => {
                            return None;
                        },
                    }
                } else {
                    return None;
                };
                proof {
                    if with_fen && !startpos {
                        assert(ws.skip(1).skip(6) =~= ws.skip(7));
                    }
                }
                let moves = Self::position_get_moves_helper(&mut parts);
                Some(UciCommand::Position { fen, moves })
            },
            UciRawCommand::Stop => Some(UciCommand::Stop),
            UciRawCommand::Go => None,
            UciRawCommand::Quit => Some(UciCommand::Quit),
        }
    }

    /// The moves that follow the word `moves`, if that is the next word; none if it is
    /// not. All words have been read afterwards.
    pub fn position_get_moves_helper(i: &mut Words) -> (r: Vec<UciMove>)
        requires
            old(i).wf(),
        ensures
            final(i).wf(),
            final(i).rest().len() == 0,
            r@ == moves_after(old(i).rest()),
    {
        let n = i.remaining();
        let mut out: Vec<UciMove> = Vec::new();
        if n == 0 {
            return out;
        }
        let ghost ws = i.rest();
        if !word_eq(i.peek(0), &['m', 'o', 'v', 'e', 's']) {
            i.skip(n);
            return out;
        }
        let mut k: usize = 1;
        proof {
            assert(ws.skip(1).take(0) =~= Seq::<Seq<char>>::empty());
        }
        while k < n
            invariant
                1 <= k <= n,
                n == ws.len(),
                i.wf(),
                *i == *old(i),
                ws == i.rest(),
                out@ == parse_moves(ws.skip(1).take(k - 1)),
            decreases n - k,
        {
            proof {
                assert(ws.skip(1).take(k as int).drop_last() =~= ws.skip(1).take(k - 1));
                assert(ws.skip(1).take(k as int).last() == ws[k as int]);
            }
            match UciMove::parse_chars(i.peek(k)) {
                Some(m) => {
                    out.push(m);
                },
                None => {},
            }
            k = k + 1;
        }
        proof {
            assert(ws.skip(1).take(n - 1) =~= ws.skip(1));
        }
        i.skip(n);
        out
    }
}

} // verus!
