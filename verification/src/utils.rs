//! Attack tables, guarded shifts and the perft driver.

use vstd::prelude::*;
use crate::attacks::{king_attacks, king_reach, knight_attacks, knight_reach, rays, slide_attacks};
use crate::bitboard::BitBoard;
use crate::bits::in_bb;
use crate::moves::long_notation;
use crate::text::{decimal, push_decimal, push_text, string_of};
use crate::board::Board;
use crate::moves::Move;
use crate::piece::{bishop_sliders, Slider};
use crate::position::Position;
use crate::square::Square;

verus! {

/// `v` shifted left by `b`; a shift by the width of the word or more leaves `v` as it is.
pub fn safe_shl(v: u64, b: u32) -> (r: u64)
    ensures
        r == (if b < 64 {
            v << (b as u64)
        } else {
            v
        }),
{
    if b < 64 {
        v << (b as u64)
    } else {
        v
    }
}

/// `v` shifted right by `b`; a shift by the width of the word or more leaves `v` as it is.
pub fn safe_shr(v: u64, b: u32) -> (r: u64)
    ensures
        r == (if b < 64 {
            v >> (b as u64)
        } else {
            v
        }),
{
    if b < 64 {
        v >> (b as u64)
    } else {
        v
    }
}

/// The first `n` squares of a picture of `board`, the eighth rank first: `%` for a
/// member and `.` for any other square, a space after each, and a line feed at the
/// end of each rank.
pub open spec fn picture(board: u64, n: int) -> Seq<char>
    decreases n,
{
    if n <= 0 {
        Seq::empty()
    } else {
        let i = n - 1;
        let square = (7 - i / 8) * 8 + i % 8;
        picture(board, i) + seq![if in_bb(board, square) {
            '%'
        } else {
            '.'
        }, ' '] + (if i % 8 == 7 {
            seq!['\n']
        } else {
            Seq::empty()
        })
    }
}

/// A picture of `board` in eight lines.
pub fn render_bitboard(board: BitBoard) -> (r: String)
    ensures
        r@ == picture(board.0, 64),
{
    let mut out: Vec<char> = Vec::new();
    let mut i: usize = 0;
    while i < 64
        invariant
            i <= 64,
            out@ == picture(board.0, i as int),
        decreases 64 - i,
    {
        let square: usize = (7 - i / 8) * 8 + i % 8;
        let mark: char = if board.0 & (1u64 << (square as u64)) != 0 {
            '%'
        } else {
            '.'
        };
        out.push(mark);
        out.push(' ');
        if i % 8 == 7 {
            out.push('\n');
        }
        proof {
            assert(out@ =~= picture(board.0, i + 1));
        }
        i = i + 1;
    }
    string_of(&out)
}

/// For each square, the squares next to it.
pub fn build_king_moves_lookup() -> (out: [BitBoard; 64])
    ensures
        forall|s: int| 0 <= s < 64 ==> (#[trigger] out[s]).0 == king_attacks(s),
{
    let mut out = [BitBoard(0);64];
    let mut i: usize = 0;
    while i < 64
        invariant
            i <= 64,
            forall|s: int| 0 <= s < i ==> (#[trigger] out[s]).0 == king_attacks(s),
        decreases 64 - i,
    {
        out[i] = king_reach(Square::index(i));
        i = i + 1;
    }
    out
}

/// For each square, the squares a knight's jump away from it.
pub fn generate_knight_move_magics() -> (out: [BitBoard; 64])
    ensures
        forall|s: int| 0 <= s < 64 ==> (#[trigger] out[s]).0 == knight_attacks(s),
{
    let mut out = [BitBoard(0);64];
    let mut i: usize = 0;
    while i < 64
        invariant
            i <= 64,
            forall|s: int| 0 <= s < i ==> (#[trigger] out[s]).0 == knight_attacks(s),
        decreases 64 - i,
    {
        out[i] = knight_reach(Square::index(i));
        i = i + 1;
    }
    out
}

/// For each square, the squares on its diagonals, as far as the board goes.
pub fn generate_bishop_moves() -> (out: [BitBoard; 64])
    ensures
        forall|s: int| 0 <= s < 64 ==> (#[trigger] out[s]).0 == rays(0, s, bishop_sliders()),
{
    let mut out = [BitBoard(0);64];
    let sliders: [Slider; 4] = [
        Slider::left_down(),
        Slider::right_down(),
        Slider::left_up(),
        Slider::right_up(),
    ];
    assert(sliders@ =~= bishop_sliders());
    let mut i: usize = 0;
    while i < 64
        invariant
            i <= 64,
            sliders@ == bishop_sliders(),
            forall|s: int| 0 <= s < i ==> (#[trigger] out[s]).0 == rays(0, s, bishop_sliders()),
        decreases 64 - i,
    {
        out[i] = slide_attacks(BitBoard(0), Square::index(i), sliders.as_slice());
        i = i + 1;
    }
    out
}

/// The reach of king, knight and bishop from every square of the empty board.
#[derive(Debug, Clone)]
pub struct AttackTables {
    pub king: [BitBoard; 64],
    pub knight: [BitBoard; 64],
    pub bishop: [BitBoard; 64],
}

impl AttackTables {
    /// Every entry holds the reach from its square.
    pub open spec fn wf(&self) -> bool {
        &&& forall|s: int| 0 <= s < 64 ==> (#[trigger] self.king[s]).0 == king_attacks(s)
        &&& forall|s: int| 0 <= s < 64 ==> (#[trigger] self.knight[s]).0 == knight_attacks(s)
        &&& forall|s: int|
            0 <= s < 64 ==> (#[trigger] self.bishop[s]).0 == rays(0, s, bishop_sliders())
    }

    /// Computes the three tables.
    pub fn new() -> (r: Self)
        ensures
            r.wf(),
    {
        Self {
            king: build_king_moves_lookup(),
            knight: generate_knight_move_magics(),
            bishop: generate_bishop_moves(),
        }
    }
}

/// The number of leaves of the tree of legal moves of depth `depth` below `p`.
pub open spec fn perft_nodes(p: Position, depth: nat) -> nat
    decreases depth, 0nat,
{
    if depth == 0 {
        1
    } else {
        perft_sum(p, p.legal_moves(p.turn), (depth - 1) as nat)
    }
}

/// The leaves of the trees of depth `depth` below the positions that `moves` lead to from `p`.
pub open spec fn perft_sum(p: Position, moves: Seq<Move>, depth: nat) -> nat
    decreases depth, moves.len(),
{
    if moves.len() == 0 {
        0
    } else {
        perft_sum(p, moves.drop_last(), depth) + perft_nodes(p.make(moves.last()), depth)
    }
}

/// A count as a 64-bit word holds it: the largest word stands for every count beyond it.
pub open spec fn capped(n: nat) -> u64 {
    if n > u64::MAX {
        u64::MAX
    } else {
        n as u64
    }
}

/// For each legal move of `p`, in the order of generation, the move and the capped
/// number of leaves of depth `depth - 1` below the position it leads to; nothing
/// at depth 0.
pub open spec fn perft_divide(p: Position, depth: nat) -> Seq<(Move, u64)> {
    if depth == 0 {
        Seq::empty()
    } else {
        Seq::new(
            p.legal_moves(p.turn).len(),
            |i: int|
                (
                    p.legal_moves(p.turn)[i],
                    capped(perft_nodes(p.make(p.legal_moves(p.turn)[i]), (depth - 1) as nat)),
                ),
        )
    }
}

/// The sum of two capped counts, capped.
fn add_capped(a: u64, b: u64) -> (r: u64)
    ensures
        r == capped((a + b) as nat),
{
    if a > u64::MAX - b {
        u64::MAX
    } else {
        a + b
    }
}

/// Makes the legal move `m`, counts the leaves of depth `depth` below the position
/// it leads to, and takes the move back.
fn perft_child(board: &mut Board, m: Move, depth: u32) -> (r: u64)
    requires
        old(board).wf(),
        old(board)@.valid(),
        old(board)@.legal_moves(old(board)@.turn).contains(m),
    ensures
        r == capped(perft_nodes(old(board)@.make(m), depth as nat)),
        final(board)@ == old(board)@,
        final(board).history@ == old(board).history@,
        final(board).wf(),
    decreases depth, 1nat,
{
    proof {
        crate::legality::lemma_legal_applicable(board@, m);
        crate::laws::lemma_make_valid(board@, m);
        crate::laws::lemma_make_unmake(board@, m);
        crate::laws::lemma_make_lands(board@, m);
    }
    let made = board.do_move(m);
    let r = perft_count(board, depth);
    let undone = board.undo_move(m);
    proof {
        assert(old(board).history@.push(old(board)@.record(m)).drop_last() =~= old(
            board,
        ).history@);
    }
    r
}

/// The number of leaves of the tree of legal moves of depth `depth` below the
/// position, capped at the largest 64-bit word. The board is left as it was.
pub fn perft_count(board: &mut Board, depth: u32) -> (r: u64)
    requires
        old(board).wf(),
        old(board)@.valid(),
    ensures
        r == capped(perft_nodes(old(board)@, depth as nat)),
        final(board)@ == old(board)@,
        final(board).history@ == old(board).history@,
        final(board).wf(),
    decreases depth, 0nat,
{
    if depth == 0 {
        return 1;
    }
    let moves = board.generate_moves(board.turn);
    let ghost p = board@;
    let mut total: u64 = 0;
    let mut i: usize = 0;
    while i < moves.len()
        invariant
            i <= moves@.len(),
            depth > 0,
            moves@ == p.legal_moves(p.turn),
            board@ == p,
            p.valid(),
            board.wf(),
            board.history@ == old(board).history@,
            total == capped(perft_sum(p, moves@.take(i as int), (depth - 1) as nat)),
        decreases moves@.len() - i,
    {
        proof {
            assert(moves@.take(i + 1).drop_last() =~= moves@.take(i as int));
            assert(moves@[i as int] == moves@.take(i + 1).last());
        }
        let res = perft_child(board, moves[i], depth - 1);
        total = add_capped(total, res);
        i = i + 1;
    }
    proof {
        assert(moves@.take(i as int) =~= moves@);
    }
    total
}

/// Counts the leaves of depth `depth` below the position. A call with `depth` equal
/// to `start_depth` is the call at the root: it also hands out, in `nodes`, each legal
/// move with the count below it. Any other call leaves `nodes` as it is.
pub fn perft(
    board: &mut Board,
    start_depth: u32,
    depth: u32,
    nodes: &mut Option<Vec<(Move, u64)>>,
) -> (r: u64)
    requires
        old(board).wf(),
        old(board)@.valid(),
    ensures
        r == capped(perft_nodes(old(board)@, depth as nat)),
        final(board)@ == old(board)@,
        final(board).history@ == old(board).history@,
        final(board).wf(),
        depth != start_depth ==> *final(nodes) == *old(nodes),
        depth == start_depth ==> (*final(nodes)) is Some && (*final(nodes)).unwrap()@
            == perft_divide(old(board)@, depth as nat),
{
    if depth != start_depth {
        return perft_count(board, depth);
    }
    let mut list: Vec<(Move, u64)> = Vec::new();
    if depth == 0 {
        *nodes = Some(list);
        return 1;
    }
    let moves = board.generate_moves(board.turn);
    let ghost p = board@;
    let mut total: u64 = 0;
    let mut i: usize = 0;
    while i < moves.len()
        invariant
            i <= moves@.len(),
            depth > 0,
            moves@ == p.legal_moves(p.turn),
            board@ == p,
            p.valid(),
            board.wf(),
            board.history@ == old(board).history@,
            total == capped(perft_sum(p, moves@.take(i as int), (depth - 1) as nat)),
            list@ == perft_divide(p, depth as nat).take(i as int),
        decreases moves@.len() - i,
    {
        proof {
            assert(moves@.take(i + 1).drop_last() =~= moves@.take(i as int));
            assert(moves@[i as int] == moves@.take(i + 1).last());
        }
        let res = perft_child(board, moves[i], depth - 1);
        total = add_capped(total, res);
        list.push((moves[i], res));
        proof {
            assert(list@ =~= perft_divide(p, depth as nat).take(i + 1));
        }
        i = i + 1;
    }
    proof {
        assert(moves@.take(i as int) =~= moves@);
        assert(perft_divide(p, depth as nat).take(i as int) =~= perft_divide(p, depth as nat));
    }
    *nodes = Some(list);
    total
}

/// The lines that report the first `n` of the moves at the root: each move in long
/// algebraic notation, a colon, a space and the count below it.
pub open spec fn divide_lines(nodes: Seq<(Move, u64)>, n: int) -> Seq<char>
    decreases n,
{
    if n <= 0 {
        Seq::empty()
    } else {
        let (m, count) = nodes[n - 1];
        divide_lines(nodes, n - 1) + long_notation(m) + seq![':', ' '] + decimal(count as nat) + seq![
            '\n',
        ]
    }
}

/// The report of a perft: a line for each move at the root, a blank line, and the
/// line of the total.
pub open spec fn report_text(nodes: Seq<(Move, u64)>, total: u64) -> Seq<char> {
    divide_lines(nodes, nodes.len() as int) + seq!['\n'] + "Nodes searched: "@ + decimal(
        total as nat,
    ) + seq!['\n']
}

/// The report of a perft with the counts `nodes` below the moves at the root and the
/// total `total`.
pub fn perft_report(nodes: &Vec<(Move, u64)>, total: u64) -> (r: String)
    ensures
        r@ == report_text(nodes@, total),
{
    let mut out: Vec<char> = Vec::new();
    let mut i: usize = 0;
    while i < nodes.len()
        invariant
            i <= nodes@.len(),
            out@ == divide_lines(nodes@, i as int),
        decreases nodes@.len() - i,
    {
        let ghost before = out@;
        let (m, count) = nodes[i];
        m.push_long_notation(&mut out);
        out.push(':');
        out.push(' ');
        let ghost head = out@;
        assert(head =~= before + long_notation(m) + seq![':', ' ']);
        push_decimal(&mut out, count);
        out.push('\n');
        proof {
            assert(out@ =~= divide_lines(nodes@, i + 1));
        }
        i = i + 1;
    }
    let ghost lines = out@;
    out.push('\n');
    push_text(&mut out, "Nodes searched: ");
    let ghost head = out@;
    assert(head =~= lines + seq!['\n'] + "Nodes searched: "@);
    push_decimal(&mut out, total);
    out.push('\n');
    proof {
        assert(out@ =~= report_text(nodes@, total));
    }
    string_of(&out)
}

} // verus!
