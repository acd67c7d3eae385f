//! Counting legal move paths.
//!
//! `perft` counts, for any type implementing `Position`, the number of legal
//! move sequences of a given length: depth 0 counts one empty path, and each
//! further level sums the counts of the positions one legal move ahead.
//! `debug_perft` does the same through the checked move application, printing
//! one line per child move, and reports nothing instead of a count when the
//! move generator and the validator disagree.

use vstd::prelude::*;
use std::io::Write;
use crate::types::Move;

verus! {

/// The checked move application rejected a move.
#[derive(Clone, Copy, PartialEq, Eq, Structural, Debug)]
pub struct IllegalMoveError;

/// The capability a position type offers the move-path counter: enumerate
/// the legal moves and apply one, with value semantics.
pub trait Position: Sized {
    /// The legal moves of the position.  An implementation verified with
    /// Verus overrides this model; the default leaves it unconstrained.
    open spec fn spec_moves(&self) -> Seq<Move> {
        vstd::pervasive::arbitrary()
    }

    /// The position after a legal move.
    open spec fn spec_next(&self, m: Move) -> Self {
        vstd::pervasive::arbitrary()
    }

    /// Whether the checked application accepts the move.
    open spec fn spec_accepts(&self, m: Move) -> bool {
        vstd::pervasive::arbitrary()
    }

    /// Fills `moves` with all legal moves of the position.
    fn legal_moves(&self, moves: &mut Vec<Move>)
        ensures
            final(moves)@ == self.spec_moves(),
    ;

    /// Applies a move assumed legal, skipping re-validation.
    fn play_unchecked(&self, m: &Move) -> (r: Self)
        ensures
            r == self.spec_next(*m),
    ;

    /// Re-validates a move and applies it.
    fn play(&self, m: &Move) -> (r: Result<Self, IllegalMoveError>)
        ensures
            r is Ok <==> self.spec_accepts(*m),
            r matches Ok(p) ==> p == self.spec_next(*m),
    ;
}

/// The number of legal move paths of length `depth`: one empty path at depth
/// zero, else the sum over every legal move of the child's count.
pub open spec fn perft_count<P: Position>(pos: P, depth: nat) -> nat
    decreases depth, 1nat, 0nat,
{
    if depth == 0 {
        1
    } else {
        perft_sum(pos, pos.spec_moves(), depth)
    }
}

/// The sum of `perft_count` at `depth - 1` over the children for `moves`.
pub open spec fn perft_sum<P: Position>(pos: P, moves: Seq<Move>, depth: nat) -> nat
    decreases depth, 0nat, moves.len(),
{
    if depth == 0 || moves.len() == 0 {
        0
    } else {
        perft_count(pos.spec_next(moves[0]), (depth - 1) as nat) + perft_sum(
            pos,
            moves.skip(1),
            depth,
        )
    }
}

/// At depth one every child contributes exactly one path.
proof fn lemma_perft_sum_depth1<P: Position>(pos: P, moves: Seq<Move>)
    ensures
        perft_sum(pos, moves, 1) == moves.len(),
    decreases moves.len(),
{
    if moves.len() > 0 {
        lemma_perft_sum_depth1(pos, moves.skip(1));
        assert(perft_count(pos.spec_next(moves[0]), 0nat) == 1);
        assert(moves.skip(1).len() == moves.len() - 1);
    }
}

/// Dropping the first move splits the sum.
proof fn lemma_perft_sum_step<P: Position>(pos: P, moves: Seq<Move>, i: int, depth: nat)
    requires
        0 <= i < moves.len(),
        depth >= 1,
    ensures
        perft_sum(pos, moves.skip(i), depth) == perft_count(
            pos.spec_next(moves[i]),
            (depth - 1) as nat,
        ) + perft_sum(pos, moves.skip(i + 1), depth),
{
    assert(moves.skip(i)[0] == moves[i]);
    assert(moves.skip(i).skip(1) =~= moves.skip(i + 1));
}

/// Counts legal move paths of the given length.
///
/// Paths ending early in mate or stalemate are not counted: only full-length
/// move sequences are.
pub fn perft<P: Position>(pos: &P, depth: u8) -> (count: usize)
    requires
        perft_count(*pos, depth as nat) <= usize::MAX,
    ensures
        count == perft_count(*pos, depth as nat),
    decreases depth,
{
    if depth < 1 {
        1
    } else {
        let mut moves: Vec<Move> = Vec::new();
        pos.legal_moves(&mut moves);
        if depth == 1 {
            proof {
                lemma_perft_sum_depth1(*pos, moves@);
            }
            moves.len()
        } else {
            let ghost all = moves@;
            let mut total: usize = 0;
            let mut i: usize = 0;
            proof {
                assert(all.skip(0) =~= all);
            }
            while i < moves.len()
                invariant
                    depth >= 2,
                    moves@ == all,
                    all == pos.spec_moves(),
                    i <= all.len(),
                    perft_count(*pos, depth as nat) <= usize::MAX,
                    total + perft_sum(*pos, all.skip(i as int), depth as nat) == perft_count(
                        *pos,
                        depth as nat,
                    ),
                decreases all.len() - i,
            {
                proof {
                    lemma_perft_sum_step(*pos, all, i as int, depth as nat);
                }
                let m = moves[i];
                let child = pos.play_unchecked(&m);
                let nodes = perft(&child, depth - 1);
                total = total + nodes;
                i = i + 1;
            }
            proof {
                assert(all.skip(all.len() as int).len() == 0);
            }
            total
        }
    }
}

/// Relies on the standard output stream's `Write` implementation to print
/// one diagnostic line per child move.
#[verifier::external_body]
fn emit_perft_line(uci: &String, depth: u8, nodes: usize) {
    let mut out = std::io::stdout();
    let _ = writeln!(out, "{} {} {}: {}", uci, uci, depth, nodes);
}

/// Like `perft`, but prints the count of each child move for debugging, and
/// applies moves through the checked path.  When the position rejects a move
/// its own generator produced — an internal inconsistency that would corrupt
/// the count — no count is reported at all.
pub fn debug_perft<P: Position>(pos: &P, depth: u8) -> (r: Option<usize>)
    requires
        perft_count(*pos, depth as nat) <= usize::MAX,
    ensures
        r matches Some(n) ==> n == perft_count(*pos, depth as nat),
        (forall|i: int|
            0 <= i < pos.spec_moves().len() ==> pos.spec_accepts(
                #[trigger] pos.spec_moves()[i],
            )) ==> r is Some,
{
    if depth < 1 {
        return Some(1);
    }
    let mut moves: Vec<Move> = Vec::new();
    pos.legal_moves(&mut moves);
    let ghost all = moves@;
    let mut total: usize = 0;
    let mut i: usize = 0;
    proof {
        assert(all.skip(0) =~= all);
        if depth == 1 {
            lemma_perft_sum_depth1(*pos, all);
        }
    }
    while i < moves.len()
        invariant
            depth >= 1,
            moves@ == all,
            all == pos.spec_moves(),
            i <= all.len(),
            perft_count(*pos, depth as nat) <= usize::MAX,
            total + perft_sum(*pos, all.skip(i as int), depth as nat) == perft_count(
                *pos,
                depth as nat,
            ),
        decreases all.len() - i,
    {
        proof {
            lemma_perft_sum_step(*pos, all, i as int, depth as nat);
        }
        let m = moves[i];
        match pos.play(&m) {
            Ok(child) => {
                let nodes = perft(&child, depth - 1);
                let token = m.uci();
                emit_perft_line(&token, depth - 1, nodes);
                total = total + nodes;
            },
            Err(_) => {
                return None;
            },
        }
        i = i + 1;
    }
    proof {
        assert(all.skip(all.len() as int).len() == 0);
    }
    Some(total)
}

} // verus!
