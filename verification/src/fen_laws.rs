//! A position that was read from text is written back as the same text.

use vstd::prelude::*;
use crate::bits::{bit, lemma_in_bit, lemma_tz_bit};
use crate::fen::{
    castling_text, ep_text, fen_text, field, parse_ep, parse_fen, parse_placement, piece_letter,
    piece_of_letter, place, place_step, rank_text, ranks_text, side_text, Placing,
};
use crate::piece::{Color, Piece};

use crate::text::{decimal, digit_char, is_digit, is_number, split_on, value_of};

verus! {

/// The fields of `fs`, with `sep` between one and the next.
pub open spec fn join(fs: Seq<Seq<char>>, sep: char) -> Seq<char>
    decreases fs.len(),
{
    if fs.len() == 0 {
        Seq::empty()
    } else if fs.len() == 1 {
        fs[0]
    } else {
        join(fs.drop_last(), sep) + seq![sep] + fs.last()
    }
}

/// A text is its fields with the separator between them.
pub proof fn lemma_join_split(s: Seq<char>, sep: char)
    ensures
        join(split_on(s, sep), sep) == s,
        split_on(s, sep).len() >= 1,
    decreases s.len(),
{
    if s.len() == 0 {
        assert(join(split_on(s, sep), sep) =~= s);
    } else {
        let before = split_on(s.drop_last(), sep);
        lemma_join_split(s.drop_last(), sep);
        if s.last() == sep {
            let now = before.push(Seq::empty());
            assert(now.drop_last() =~= before);
            assert(join(now, sep) =~= s);
        } else {
            let now = before.drop_last().push(before.last().push(s.last()));
            if before.len() == 1 {
                assert(join(now, sep) =~= s);
            } else {
                assert(now.drop_last() =~= before.drop_last());
                assert(join(now, sep) =~= join(before, sep).push(s.last()));
                assert(join(now, sep) =~= s);
            }
        }
    }
}

/// A number written in base ten stands for at least as much as its first digit.
proof fn lemma_value_first(s: Seq<char>)
    requires
        s.len() > 0,
        forall|i: int| 0 <= i < s.len() ==> is_digit(#[trigger] s[i]),
    ensures
        value_of(s) >= s[0] as int - 48,
    decreases s.len(),
{
    if s.len() > 1 {
        lemma_value_first(s.drop_last());
    } else {
        assert(s.drop_last().len() == 0);
    }
}

/// A number, written in base ten, is the text that it was read from.
pub proof fn lemma_decimal_of_value(s: Seq<char>)
    requires
        is_number(s),
    ensures
        decimal(value_of(s)) == s,
    decreases s.len(),
{
    let head = s.drop_last();
    let d = s.last() as int - 48;
    assert(is_digit(s[s.len() - 1]));
    if head.len() == 0 {
        assert(value_of(head) == 0);
        assert(decimal(value_of(s)) =~= s);
    } else {
        assert(head[0] == s[0]);
        assert(is_number(head)) by {
            assert forall|i: int| 0 <= i < head.len() implies is_digit(#[trigger] head[i]) by {
                assert(head[i] == s[i]);
            }
        }
        lemma_decimal_of_value(head);
        lemma_value_first(head);
        assert(is_digit(s[0]));
        assert(value_of(head) >= 1);
        let v = value_of(s);
        assert(v == value_of(head) * 10 + d);
        assert(v / 10 == value_of(head));
        assert(v % 10 == d);
        assert(decimal(v) =~= s);
    }
}

/// The state after the characters of `s`, read on from the state `st`.
pub open spec fn fold_place(st: Placing, s: Seq<char>) -> Placing
    decreases s.len(),
{
    if s.len() == 0 {
        st
    } else {
        fold_place(place_step(st, s[0]), s.skip(1))
    }
}

/// Reading one more character at the end is one more step.
proof fn lemma_fold_push(st: Placing, s: Seq<char>, ch: char)
    ensures
        fold_place(st, s.push(ch)) == place_step(fold_place(st, s), ch),
    decreases s.len(),
{
    let t = s.push(ch);
    assert(fold_place(st, t) == fold_place(place_step(st, t[0]), t.skip(1)));
    if s.len() == 0 {
        assert(t.skip(1) =~= Seq::<char>::empty());
        assert(fold_place(place_step(st, ch), t.skip(1)) == place_step(st, ch));
        assert(fold_place(st, s) == st);
    } else {
        assert(t.skip(1) =~= s.skip(1).push(ch));
        lemma_fold_push(place_step(st, s[0]), s.skip(1), ch);
        assert(fold_place(st, s) == fold_place(place_step(st, s[0]), s.skip(1)));
    }
}

/// Reading a text is reading its characters on from the first square.
proof fn lemma_place_is_fold(s: Seq<char>)
    ensures
        place(s) == fold_place(place(Seq::empty()), s),
    decreases s.len(),
{
    if s.len() > 0 {
        lemma_place_is_fold(s.drop_last());
        lemma_fold_push(place(Seq::empty()), s.drop_last(), s.last());
        assert(s.drop_last().push(s.last()) =~= s);
    }
}

/// Where a square comes in reading: the eighth rank first, each rank from file A.
pub open spec fn reading_order(square: int) -> int {
    (7 - square / 8) * 8 + square % 8
}

/// A state on the way: in order so far, on the board, with nothing yet on the
/// squares that are still to come.
pub open spec fn on_the_way(st: Placing) -> bool {
    &&& st.ok
    &&& 0 <= st.rank <= 7
    &&& 0 <= st.file <= 8
    &&& st.squares.len() == 64
    &&& forall|j: int|
        0 <= j < 64 && reading_order(j) >= (7 - st.rank) * 8 + st.file ==> (
        #[trigger] st.squares[j]) is None
}

/// Once the reading has failed, it has failed for good.
proof fn lemma_fold_fails(st: Placing, s: Seq<char>)
    requires
        !st.ok,
    ensures
        !fold_place(st, s).ok,
    decreases s.len(),
{
    if s.len() > 0 {
        lemma_fold_fails(place_step(st, s[0]), s.skip(1));
    }
}

/// A step that is in order leads from a state on the way to a state on the way.
proof fn lemma_step_on_the_way(st: Placing, ch: char)
    requires
        on_the_way(st),
        place_step(st, ch).ok,
    ensures
        on_the_way(place_step(st, ch)),
        (7 - place_step(st, ch).rank) * 8 + place_step(st, ch).file >= (7 - st.rank) * 8 + st.file,
        forall|j: int|
            0 <= j < 64 && reading_order(j) < (7 - st.rank) * 8 + st.file ==> place_step(
                st,
                ch,
            ).squares[j] == st.squares[j],
{
    let next = place_step(st, ch);
    assert forall|j: int|
        0 <= j < 64 && reading_order(j) >= (7 - next.rank) * 8 + next.file implies (
    #[trigger] next.squares[j]) is None by {
        assert(st.squares[j] is None);
    }
}

/// What was read stays: the rest of the text changes no square that was passed.
proof fn lemma_fold_keeps(st: Placing, s: Seq<char>)
    requires
        on_the_way(st),
        fold_place(st, s).ok,
    ensures
        on_the_way(fold_place(st, s)),
        forall|j: int|
            0 <= j < 64 && reading_order(j) < (7 - st.rank) * 8 + st.file ==> fold_place(
                st,
                s,
            ).squares[j] == st.squares[j],
    decreases s.len(),
{
    if s.len() > 0 {
        let next = place_step(st, s[0]);
        if !next.ok {
            lemma_fold_fails(next, s.skip(1));
        }
        lemma_step_on_the_way(st, s[0]);
        lemma_fold_keeps(next, s.skip(1));
    }
}

/// The text of a rank from file `f` on, and of the ranks below it.
pub open spec fn rest_text(squares: Seq<Option<(Color, Piece)>>, r: int, f: int, run: int) -> Seq<
    char,
> {
    rank_text(squares, r, f, run) + (if r > 0 {
        seq!['/'] + ranks_text(squares, r - 1)
    } else {
        Seq::empty()
    })
}

/// Empty squares are counted, not written.
proof fn lemma_skip_empty(squares: Seq<Option<(Color, Piece)>>, r: int, f: int, run: int, d: int)
    requires
        0 <= d,
        0 <= f,
        f + d <= 8,
        forall|i: int| f <= i < f + d ==> (#[trigger] squares[r * 8 + i]) is None,
    ensures
        rank_text(squares, r, f, run) == rank_text(squares, r, f + d, run + d),
    decreases d,
{
    if d > 0 {
        assert(squares[r * 8 + f] is None);
        lemma_skip_empty(squares, r, f + 1, run + 1, d - 1);
    }
}

/// The letter of the piece that a letter stands for is that letter.
proof fn lemma_letter(ch: char)
    requires
        piece_of_letter(ch) is Some,
    ensures
        ({
            let (c, k) = piece_of_letter(ch).unwrap();
            piece_letter(c, k) == ch
        }),
{
}

/// What is left to read of a placement is the text of what is left of the board.
proof fn lemma_rest_is_text(st: Placing, text: Seq<char>, run: int)
    requires
        on_the_way(st),
        fold_place(st, text).ok,
        fold_place(st, text).rank == 0,
        fold_place(st, text).file == 8,
        st.after_count ==> 1 <= run <= 8,
        !st.after_count ==> run == 0,
    ensures
        (if run > 0 {
            seq![digit_char(run)]
        } else {
            Seq::<char>::empty()
        }) + text == rest_text(fold_place(st, text).squares, st.rank, st.file, run),
    decreases text.len(),
{
    let fin = fold_place(st, text);
    let count = if run > 0 {
        seq![digit_char(run)]
    } else {
        Seq::<char>::empty()
    };
    let r = st.rank;
    let f = st.file;
    if text.len() == 0 {
        assert(count + text =~= rest_text(fin.squares, r, f, run));
    } else {
        let ch = text[0];
        let rest = text.skip(1);
        let next = place_step(st, ch);
        if !next.ok {
            lemma_fold_fails(next, rest);
        }
        lemma_step_on_the_way(st, ch);
        lemma_fold_keeps(next, rest);
        assert(text =~= seq![ch] + rest);
        if ch == '/' {
            lemma_rest_is_text(next, rest, 0);
            assert(Seq::<char>::empty() + rest =~= rest);
            assert(rest_text(fin.squares, r - 1, 0, 0) =~= ranks_text(fin.squares, r - 1));
            assert(count + text =~= rest_text(fin.squares, r, f, run));
        } else if '1' <= ch <= '8' {
            let d = ch as int - 48;
            lemma_rest_is_text(next, rest, d);
            assert forall|i: int| f <= i < f + d implies (#[trigger] fin.squares[r * 8 + i]) is None by {
                let j = r * 8 + i;
                assert(reading_order(j) == (7 - r) * 8 + i);
                assert(next.squares[j] == st.squares[j]);
                assert(st.squares[j] is None);
            }
            lemma_skip_empty(fin.squares, r, f, 0, d);
            assert(digit_char(d) == ch);
            assert(count + text =~= rest_text(fin.squares, r, f, run));
        } else {
            lemma_letter(ch);
            let (c, k) = piece_of_letter(ch).unwrap();
            lemma_rest_is_text(next, rest, 0);
            let j = r * 8 + f;
            assert(reading_order(j) == (7 - r) * 8 + f);
            assert(fin.squares[j] == next.squares[j]);
            assert(fin.squares[j] == Some((c, k)));
            assert(Seq::<char>::empty() + rest =~= rest);
            assert(rank_text(fin.squares, r, f, run) =~= count + seq![ch] + rank_text(
                fin.squares,
                r,
                f + 1,
                0,
            ));
            assert(count + text =~= rest_text(fin.squares, r, f, run));
        }
    }
}

/// A placement that was read is written back as it stood.
pub proof fn lemma_placement_round_trip(s: Seq<char>)
    requires
        parse_placement(s) is Some,
    ensures
        ranks_text(parse_placement(s).unwrap(), 7) == s,
{
    let start = place(Seq::empty());
    lemma_place_is_fold(s);
    lemma_rest_is_text(start, s, 0);
    let fin = fold_place(start, s);
    assert(Seq::<char>::empty() + s =~= s);
    assert(rest_text(fin.squares, 7, 0, 0) =~= ranks_text(fin.squares, 7));
}

/// An en-passant target that was read is written back as it stood.
pub proof fn lemma_ep_round_trip(s: Seq<char>)
    requires
        parse_ep(s) is Some,
    ensures
        ep_text(parse_ep(s).unwrap()) == s,
{
    if s =~= seq!['-'] {
    } else {
        let sq = (s[1] as int - 49) * 8 + (s[0] as int - 97);
        lemma_in_bit(sq);
        lemma_tz_bit(sq);
        assert(ep_text(bit(sq)) =~= s);
    }
}

/// Reading a position and writing it again gives back the text that was read, field
/// for field.
pub proof fn lemma_fen_round_trip(s: Seq<char>)
    requires
        parse_fen(s) is Ok,
    ensures
        fen_text(parse_fen(s).unwrap()) == s,
{
    let f = split_on(s, ' ');
    lemma_join_split(s, ' ');
    let p = parse_fen(s).unwrap();
    lemma_placement_round_trip(f[0]);
    lemma_ep_round_trip(f[3]);
    lemma_decimal_of_value(f[4]);
    lemma_decimal_of_value(f[5]);
    assert(side_text(p.turn) =~= f[1]);
    assert(castling_text(p.castling) =~= f[2]);
    let f1 = f.drop_last();
    let f2 = f1.drop_last();
    let f3 = f2.drop_last();
    let f4 = f3.drop_last();
    let f5 = f4.drop_last();
    assert(join(f5, ' ') == f[0]);
    assert(join(f4, ' ') == f[0] + seq![' '] + f[1]);
    assert(join(f3, ' ') == join(f4, ' ') + seq![' '] + f[2]);
    assert(join(f2, ' ') == join(f3, ' ') + seq![' '] + f[3]);
    assert(join(f1, ' ') == join(f2, ' ') + seq![' '] + f[4]);
    assert(join(f, ' ') == join(f1, ' ') + seq![' '] + f[5]);
}

} // verus!
