//! The mathematical model of the board.
//!
//! Squares are integers in `0..64` with `rank = s / 8` and `file = s % 8`.
//! Each lookup table of the crate is specified as the bitboard of a
//! predicate over target squares (`bb_of`), and sliding attacks as a
//! recursive walk along a direction that stops at the first blocker
//! (`walk_from`).  The central theorem, `lemma_rook_attacks_masked` /
//! `lemma_bishop_attacks_masked`, says that occupancy outside the relevant
//! mask of a square never changes the attack set from that square; it is what
//! makes the magic-bitboard table lookup sound.

use vstd::prelude::*;
use crate::bits::{
    bit, lemma_bit_and, lemma_bit_or, lemma_bit_single, lemma_bit_zero, lemma_popcnt_range_single,
    lemma_popcnt_range_two, lemma_popcnt_range_zero, lemma_popcnt_upto_mono, popcnt, popcnt_upto,
};

verus! {

pub open spec fn rank_of(s: int) -> int {
    s / 8
}

pub open spec fn file_of(s: int) -> int {
    s % 8
}

pub open spec fn on_board(s: int) -> bool {
    0 <= s < 64
}

pub open spec fn sq_at(r: int, f: int) -> int {
    r * 8 + f
}

pub open spec fn abs_val(x: int) -> int {
    if x < 0 {
        -x
    } else {
        x
    }
}

pub proof fn lemma_sq_at(r: int, f: int)
    requires
        0 <= r < 8,
        0 <= f < 8,
    ensures
        on_board(sq_at(r, f)),
        rank_of(sq_at(r, f)) == r,
        file_of(sq_at(r, f)) == f,
{
}

// ------------------------------------------------------------------
// Bitboards of predicates
// ------------------------------------------------------------------
/// The bitboard whose bits below `n` are given by the predicate `p`.
pub open spec fn bb_upto(p: spec_fn(int) -> bool, n: int) -> u64
    decreases n,
{
    if n <= 0 {
        0u64
    } else {
        if p(n - 1) {
            bb_upto(p, n - 1) | (1u64 << ((n - 1) as u64))
        } else {
            bb_upto(p, n - 1)
        }
    }
}

/// The bitboard of the squares satisfying `p`.
pub open spec fn bb_of(p: spec_fn(int) -> bool) -> u64 {
    bb_upto(p, 64)
}

pub proof fn lemma_bb_upto_bit(p: spec_fn(int) -> bool, n: int, j: int)
    requires
        0 <= n <= 64,
        0 <= j < 64,
    ensures
        bit(bb_upto(p, n), j) == (j < n && p(j)),
    decreases n,
{
    if n <= 0 {
        lemma_bit_zero(j as u64);
    } else {
        lemma_bb_upto_bit(p, n - 1, j);
        if p(n - 1) {
            lemma_bit_or(bb_upto(p, n - 1), 1u64 << ((n - 1) as u64), j as u64);
            lemma_bit_single((n - 1) as u64, j as u64);
        }
    }
}

/// Bit `j` of `bb_of(p)` is `p(j)`.
pub proof fn lemma_bb_of_bit(p: spec_fn(int) -> bool, j: int)
    requires
        0 <= j < 64,
    ensures
        bit(bb_of(p), j) == p(j),
{
    lemma_bb_upto_bit(p, 64, j);
}

pub proof fn lemma_bb_upto_ext(p: spec_fn(int) -> bool, q: spec_fn(int) -> bool, n: int)
    requires
        0 <= n <= 64,
        forall|j: int| 0 <= j < n ==> #[trigger] p(j) == q(j),
    ensures
        bb_upto(p, n) == bb_upto(q, n),
    decreases n,
{
    if n > 0 {
        lemma_bb_upto_ext(p, q, n - 1);
    }
}

/// Pointwise equal predicates give the same bitboard.
pub proof fn lemma_bb_of_ext(p: spec_fn(int) -> bool, q: spec_fn(int) -> bool)
    requires
        forall|j: int| 0 <= j < 64 ==> #[trigger] p(j) == q(j),
    ensures
        bb_of(p) == bb_of(q),
{
    lemma_bb_upto_ext(p, q, 64);
}

// ------------------------------------------------------------------
// Leaper attack predicates
// ------------------------------------------------------------------
pub open spec fn knight_pred(s: int, t: int) -> bool {
    on_board(s) && on_board(t) && {
        let adr = abs_val(rank_of(t) - rank_of(s));
        let adf = abs_val(file_of(t) - file_of(s));
        (adr == 1 && adf == 2) || (adr == 2 && adf == 1)
    }
}

pub open spec fn king_pred(s: int, t: int) -> bool {
    on_board(s) && on_board(t) && {
        let adr = abs_val(rank_of(t) - rank_of(s));
        let adf = abs_val(file_of(t) - file_of(s));
        adr <= 1 && adf <= 1 && adr + adf >= 1
    }
}

/// Pawn capture squares; a white pawn attacks one rank up, a black pawn one
/// rank down.
pub open spec fn pawn_pred(white: bool, s: int, t: int) -> bool {
    on_board(s) && on_board(t) && abs_val(file_of(t) - file_of(s)) == 1 && rank_of(t) - rank_of(s)
        == if white {
        1int
    } else {
        -1int
    }
}

pub open spec fn knight_bb(s: int) -> u64 {
    bb_of(|t: int| knight_pred(s, t))
}

pub open spec fn king_bb(s: int) -> u64 {
    bb_of(|t: int| king_pred(s, t))
}

pub open spec fn pawn_bb(white: bool, s: int) -> u64 {
    bb_of(|t: int| pawn_pred(white, s, t))
}

// ------------------------------------------------------------------
// Relevant-occupancy masks
// ------------------------------------------------------------------
/// Squares whose occupancy can matter for a rook on `s`: the interior of the
/// rook's rank and file, own square excluded.
pub open spec fn rook_mask_pred(s: int, t: int) -> bool {
    on_board(s) && on_board(t) && t != s && ((rank_of(t) == rank_of(s) && 1 <= file_of(t) <= 6)
        || (file_of(t) == file_of(s) && 1 <= rank_of(t) <= 6))
}

/// Squares whose occupancy can matter for a bishop on `s`: the interior of
/// both diagonals through `s`, own square excluded.
pub open spec fn bishop_mask_pred(s: int, t: int) -> bool {
    on_board(s) && on_board(t) && t != s && 1 <= rank_of(t) <= 6 && 1 <= file_of(t) <= 6 && (
    rank_of(t) - file_of(t) == rank_of(s) - file_of(s) || rank_of(t) + file_of(t) == rank_of(s)
        + file_of(s))
}

pub open spec fn rook_mask_bb(s: int) -> u64 {
    bb_of(|t: int| rook_mask_pred(s, t))
}

pub open spec fn bishop_mask_bb(s: int) -> u64 {
    bb_of(|t: int| bishop_mask_pred(s, t))
}

// ------------------------------------------------------------------
// Rays and the open segment between two squares
// ------------------------------------------------------------------
/// The full rank, file or diagonal through the two distinct aligned squares
/// `a` and `b`; empty when `a == b` or the squares are not aligned.
pub open spec fn ray_pred(a: int, b: int, t: int) -> bool {
    on_board(a) && on_board(b) && on_board(t) && a != b && ((rank_of(a) == rank_of(b) && rank_of(t)
        == rank_of(a)) || (file_of(a) == file_of(b) && file_of(t) == file_of(a)) || (rank_of(a)
        - file_of(a) == rank_of(b) - file_of(b) && rank_of(t) - file_of(t) == rank_of(a) - file_of(
        a)) || (rank_of(a) + file_of(a) == rank_of(b) + file_of(b) && rank_of(t) + file_of(t)
        == rank_of(a) + file_of(a)))
}

/// The squares strictly between `a` and `b` on their common line.
pub open spec fn between_pred(a: int, b: int, t: int) -> bool {
    ray_pred(a, b, t) && t != a && t != b && (rank_of(a) <= rank_of(t) <= rank_of(b) || rank_of(b)
        <= rank_of(t) <= rank_of(a)) && (file_of(a) <= file_of(t) <= file_of(b) || file_of(b)
        <= file_of(t) <= file_of(a))
}

pub open spec fn ray_bb(a: int, b: int) -> u64 {
    bb_of(|t: int| ray_pred(a, b, t))
}

pub open spec fn between_bb(a: int, b: int) -> u64 {
    bb_of(|t: int| between_pred(a, b, t))
}

// ------------------------------------------------------------------
// Sliding attacks: a walk along a direction
// ------------------------------------------------------------------
/// The square one step from `s` in direction `(dr, df)`.
pub open spec fn step_sq(s: int, dr: int, df: int) -> int {
    sq_at(rank_of(s) + dr, file_of(s) + df)
}

/// Whether the step from `s` in direction `(dr, df)` stays on the board.
pub open spec fn step_on(s: int, dr: int, df: int) -> bool {
    0 <= rank_of(s) + dr < 8 && 0 <= file_of(s) + df < 8
}

/// The squares a slider on `s` attacks in direction `(dr, df)`: every square
/// up to and including the first occupied one, or up to the board edge.
pub open spec fn walk_from(s: int, dr: int, df: int, occ: u64, fuel: nat) -> u64
    decreases fuel,
{
    if fuel == 0 || !step_on(s, dr, df) {
        0u64
    } else {
        let t = step_sq(s, dr, df);
        let tb = 1u64 << (t as u64);
        if bit(occ, t) {
            tb
        } else {
            tb | walk_from(t, dr, df, occ, (fuel - 1) as nat)
        }
    }
}

pub open spec fn rook_attacks_bb(s: int, occ: u64) -> u64 {
    walk_from(s, 1, 0, occ, 8) | walk_from(s, -1, 0, occ, 8) | walk_from(s, 0, 1, occ, 8)
        | walk_from(s, 0, -1, occ, 8)
}

pub open spec fn bishop_attacks_bb(s: int, occ: u64) -> u64 {
    walk_from(s, 1, 1, occ, 8) | walk_from(s, 1, -1, occ, 8) | walk_from(s, -1, 1, occ, 8)
        | walk_from(s, -1, -1, occ, 8)
}

pub open spec fn queen_attacks_bb(s: int, occ: u64) -> u64 {
    rook_attacks_bb(s, occ) | bishop_attacks_bb(s, occ)
}

// ------------------------------------------------------------------
// Occupancy outside the mask does not matter
// ------------------------------------------------------------------
/// A walk only reads occupancy on squares it can continue from, so two
/// occupancies that agree on a set `p` of squares that contains every
/// non-terminal step of the walk give the same attack set.
proof fn lemma_walk_agree(
    s: int,
    dr: int,
    df: int,
    occ1: u64,
    occ2: u64,
    p: spec_fn(int) -> bool,
    fuel: nat,
)
    requires
        on_board(s),
        forall|t: int| on_board(t) && #[trigger] p(t) ==> bit(occ1, t) == bit(occ2, t),
        (step_on(s, dr, df) && step_on(step_sq(s, dr, df), dr, df)) ==> p(step_sq(s, dr, df)),
        forall|t: int|
            on_board(t) && #[trigger] p(t) && step_on(t, dr, df) && step_on(
                step_sq(t, dr, df),
                dr,
                df,
            ) ==> p(step_sq(t, dr, df)),
    ensures
        walk_from(s, dr, df, occ1, fuel) == walk_from(s, dr, df, occ2, fuel),
    decreases fuel,
{
    if fuel > 0 && step_on(s, dr, df) {
        let t = step_sq(s, dr, df);
        lemma_sq_at(rank_of(s) + dr, file_of(s) + df);
        if step_on(t, dr, df) {
            assert(p(t));
            assert(bit(occ1, t) == bit(occ2, t));
            if !bit(occ1, t) {
                lemma_walk_agree(t, dr, df, occ1, occ2, p, (fuel - 1) as nat);
            }
        } else {
            // Terminal square: both branches of the walk give the single bit
            // of `t`, whatever the occupancy says there.
            assert(walk_from(t, dr, df, occ1, (fuel - 1) as nat) == 0);
            assert(walk_from(t, dr, df, occ2, (fuel - 1) as nat) == 0);
            crate::bits::lemma_or_zero(1u64 << (t as u64));
        }
    }
}

/// Occupancy agreement on one direction's interior squares, derived from
/// agreement inside the mask.
proof fn lemma_mask_agree(occ: u64, m: u64, mp: spec_fn(int) -> bool, p: spec_fn(int) -> bool)
    requires
        m == bb_of(mp),
        forall|t: int| on_board(t) && #[trigger] p(t) ==> mp(t),
    ensures
        forall|t: int| on_board(t) && #[trigger] p(t) ==> bit(occ & m, t) == bit(occ, t),
{
    assert forall|t: int| on_board(t) && #[trigger] p(t) implies bit(occ & m, t) == bit(
        occ,
        t,
    ) by {
        lemma_bit_and(occ, m, t as u64);
        lemma_bb_of_bit(mp, t);
    }
}

/// Squares a rook can be blocked on all lie inside its relevant mask, so
/// masking the occupancy first never changes a rook's attack set.
#[verifier::rlimit(60)]
pub proof fn lemma_rook_attacks_masked(s: int, occ: u64)
    requires
        on_board(s),
    ensures
        rook_attacks_bb(s, occ & rook_mask_bb(s)) == rook_attacks_bb(s, occ),
{
    let m = rook_mask_bb(s);
    let mp = |t: int| rook_mask_pred(s, t);
    let o2 = occ & m;
    let pn = |t: int| file_of(t) == file_of(s) && rank_of(t) > rank_of(s) && 1 <= rank_of(t) <= 6;
    let ps = |t: int| file_of(t) == file_of(s) && rank_of(t) < rank_of(s) && 1 <= rank_of(t) <= 6;
    let pe = |t: int| rank_of(t) == rank_of(s) && file_of(t) > file_of(s) && 1 <= file_of(t) <= 6;
    let pw = |t: int| rank_of(t) == rank_of(s) && file_of(t) < file_of(s) && 1 <= file_of(t) <= 6;
    lemma_mask_agree(occ, m, mp, pn);
    lemma_mask_agree(occ, m, mp, ps);
    lemma_mask_agree(occ, m, mp, pe);
    lemma_mask_agree(occ, m, mp, pw);
    lemma_walk_agree(s, 1, 0, o2, occ, pn, 8);
    lemma_walk_agree(s, -1, 0, o2, occ, ps, 8);
    lemma_walk_agree(s, 0, 1, o2, occ, pe, 8);
    lemma_walk_agree(s, 0, -1, o2, occ, pw, 8);
}

/// One rank's worth of the rook mask: six squares on the rook's own rank,
/// one on any other interior rank, none on the edge ranks.
proof fn lemma_rook_mask_block(s: int, k: int)
    requires
        on_board(s),
        0 <= k < 8,
    ensures
        popcnt_upto(rook_mask_bb(s), 8 * k + 8) - popcnt_upto(rook_mask_bb(s), 8 * k) <= if k
            == rank_of(s) {
            6int
        } else if 1 <= k <= 6 {
            1int
        } else {
            0int
        },
        popcnt_upto(rook_mask_bb(s), 8 * k + 8) >= popcnt_upto(rook_mask_bb(s), 8 * k),
{
    let m = rook_mask_bb(s);
    assert forall|t: int| 0 <= t < 64 implies #[trigger] bit(m, t) == rook_mask_pred(s, t) by {
        lemma_bb_of_bit(|u: int| rook_mask_pred(s, u), t);
    }
    if k == rank_of(s) {
        lemma_popcnt_range_zero(m, 8 * k, 8 * k + 1);
        lemma_popcnt_upto_mono(m, 8 * k + 1, 8 * k + 7);
        lemma_popcnt_range_zero(m, 8 * k + 7, 8 * k + 8);
    } else if 1 <= k <= 6 {
        lemma_popcnt_range_single(m, 8 * k, 8 * k + 8, 8 * k + file_of(s));
    } else {
        lemma_popcnt_range_zero(m, 8 * k, 8 * k + 8);
    }
}

/// A rook's relevant-occupancy mask never has more than twelve squares.
pub proof fn lemma_rook_mask_popcount(s: int)
    requires
        on_board(s),
    ensures
        popcnt(rook_mask_bb(s)) <= 12,
{
    let m = rook_mask_bb(s);
    lemma_rook_mask_block(s, 0);
    lemma_rook_mask_block(s, 1);
    lemma_rook_mask_block(s, 2);
    lemma_rook_mask_block(s, 3);
    lemma_rook_mask_block(s, 4);
    lemma_rook_mask_block(s, 5);
    lemma_rook_mask_block(s, 6);
    lemma_rook_mask_block(s, 7);
    assert(popcnt_upto(m, 0) == 0);
}

/// How many squares of rank `k` the bishop mask can hold: one for each
/// diagonal whose square on this rank is interior, none on the bishop's own
/// rank or on edge ranks.
spec fn bishop_block_bound(s: int, k: int) -> int {
    let d = rank_of(s) - file_of(s);
    let a = rank_of(s) + file_of(s);
    if !(1 <= k <= 6) || k == rank_of(s) {
        0
    } else {
        (if 1 <= k - d <= 6 {
            1int
        } else {
            0int
        }) + (if 1 <= a - k <= 6 {
            1int
        } else {
            0int
        })
    }
}

proof fn lemma_bishop_mask_block(s: int, k: int)
    requires
        on_board(s),
        0 <= k < 8,
    ensures
        popcnt_upto(bishop_mask_bb(s), 8 * k + 8) - popcnt_upto(bishop_mask_bb(s), 8 * k)
            <= bishop_block_bound(s, k),
        popcnt_upto(bishop_mask_bb(s), 8 * k + 8) >= popcnt_upto(bishop_mask_bb(s), 8 * k),
{
    let m = bishop_mask_bb(s);
    let d = rank_of(s) - file_of(s);
    let a = rank_of(s) + file_of(s);
    assert forall|t: int| 0 <= t < 64 implies #[trigger] bit(m, t) == bishop_mask_pred(s, t) by {
        lemma_bb_of_bit(|u: int| bishop_mask_pred(s, u), t);
    }
    if !(1 <= k <= 6) || k == rank_of(s) {
        lemma_popcnt_range_zero(m, 8 * k, 8 * k + 8);
    } else {
        let p1 = 8 * k + (k - d);
        let p2 = 8 * k + (a - k);
        if 1 <= k - d <= 6 && 1 <= a - k <= 6 {
            lemma_popcnt_range_two(m, 8 * k, 8 * k + 8, p1, p2);
        } else if 1 <= k - d <= 6 {
            lemma_popcnt_range_single(m, 8 * k, 8 * k + 8, p1);
        } else if 1 <= a - k <= 6 {
            lemma_popcnt_range_single(m, 8 * k, 8 * k + 8, p2);
        } else {
            lemma_popcnt_range_zero(m, 8 * k, 8 * k + 8);
        }
    }
}

/// A bishop's relevant-occupancy mask never has more than nine squares.
#[verifier::rlimit(60)]
pub proof fn lemma_bishop_mask_popcount(s: int)
    requires
        on_board(s),
    ensures
        popcnt(bishop_mask_bb(s)) <= 9,
{
    let m = bishop_mask_bb(s);
    lemma_bishop_mask_block(s, 0);
    lemma_bishop_mask_block(s, 1);
    lemma_bishop_mask_block(s, 2);
    lemma_bishop_mask_block(s, 3);
    lemma_bishop_mask_block(s, 4);
    lemma_bishop_mask_block(s, 5);
    lemma_bishop_mask_block(s, 6);
    lemma_bishop_mask_block(s, 7);
    assert(popcnt_upto(m, 0) == 0);
    assert(bishop_block_bound(s, 1) + bishop_block_bound(s, 2) + bishop_block_bound(s, 3)
        + bishop_block_bound(s, 4) + bishop_block_bound(s, 5) + bishop_block_bound(s, 6) <= 9);
}

/// The ray through two squares does not depend on their order.
pub proof fn lemma_ray_symmetric(a: int, b: int)
    ensures
        ray_bb(a, b) == ray_bb(b, a),
{
    lemma_bb_of_ext(|t: int| ray_pred(a, b, t), |t: int| ray_pred(b, a, t));
}

/// The open segment between two squares does not depend on their order.
pub proof fn lemma_between_symmetric(a: int, b: int)
    ensures
        between_bb(a, b) == between_bb(b, a),
{
    lemma_bb_of_ext(|t: int| between_pred(a, b, t), |t: int| between_pred(b, a, t));
}

/// The squares between two squares lie on their ray, and neither endpoint is
/// among them.
pub proof fn lemma_between_within_ray(a: int, b: int)
    ensures
        forall|t: int| 0 <= t < 64 && #[trigger] bit(between_bb(a, b), t) ==> bit(ray_bb(a, b), t),
        0 <= a < 64 ==> !bit(between_bb(a, b), a),
        0 <= b < 64 ==> !bit(between_bb(a, b), b),
{
    assert forall|t: int| 0 <= t < 64 implies #[trigger] bit(between_bb(a, b), t)
        == between_pred(a, b, t) by {
        lemma_bb_of_bit(|u: int| between_pred(a, b, u), t);
    }
    assert forall|t: int| 0 <= t < 64 implies #[trigger] bit(ray_bb(a, b), t) == ray_pred(
        a,
        b,
        t,
    ) by {
        lemma_bb_of_bit(|u: int| ray_pred(a, b, u), t);
    }
}

/// Any square a directional walk reaches lies strictly forward of `s` along
/// the walk's direction.
proof fn lemma_walk_dir_forward(s: int, dr: int, df: int, occ: u64, fuel: nat, j: int)
    requires
        on_board(s),
        !(dr == 0 && df == 0),
        0 <= j < 64,
        bit(walk_from(s, dr, df, occ, fuel), j),
    ensures
        ({
            let a = rank_of(j) - rank_of(s);
            let b = file_of(j) - file_of(s);
            a * df == b * dr && a * dr >= 0 && b * df >= 0 && a * dr + b * df >= 1
        }),
    decreases fuel,
{
    if fuel == 0 || !step_on(s, dr, df) {
        lemma_bit_zero(j as u64);
    } else {
        let t = step_sq(s, dr, df);
        lemma_sq_at(rank_of(s) + dr, file_of(s) + df);
        let tb = 1u64 << (t as u64);
        lemma_bit_single(t as u64, j as u64);
        assert(dr * df == df * dr) by (nonlinear_arith);
        assert(dr * dr >= 0 && df * df >= 0) by (nonlinear_arith);
        assert(dr * dr + df * df >= 1) by (nonlinear_arith)
            requires
                !(dr == 0 && df == 0),
        ;
        if bit(occ, t) {
            assert(j == t);
        } else {
            let rest = walk_from(t, dr, df, occ, (fuel - 1) as nat);
            lemma_bit_or(tb, rest, j as u64);
            if j != t {
                lemma_walk_dir_forward(t, dr, df, occ, (fuel - 1) as nat, j);
                let a2 = rank_of(j) - rank_of(t);
                let b2 = file_of(j) - file_of(t);
                let a = rank_of(j) - rank_of(s);
                let b = file_of(j) - file_of(s);
                assert((a2 + dr) * df == a2 * df + dr * df) by (nonlinear_arith);
                assert((b2 + df) * dr == b2 * dr + df * dr) by (nonlinear_arith);
                assert((a2 + dr) * dr == a2 * dr + dr * dr) by (nonlinear_arith);
                assert((b2 + df) * df == b2 * df + df * df) by (nonlinear_arith);
                assert(a == a2 + dr && b == b2 + df);
            }
        }
    }
}

/// A rook attack stays on the rook's rank or file and leaves the own square.
proof fn lemma_rook_attack_dir(s: int, occ: u64, j: int)
    requires
        on_board(s),
        0 <= j < 64,
        bit(rook_attacks_bb(s, occ), j),
    ensures
        j != s,
        rank_of(j) == rank_of(s) || file_of(j) == file_of(s),
{
    let w1 = walk_from(s, 1, 0, occ, 8);
    let w2 = walk_from(s, -1, 0, occ, 8);
    let w3 = walk_from(s, 0, 1, occ, 8);
    let w4 = walk_from(s, 0, -1, occ, 8);
    lemma_bit_or(w1 | w2 | w3, w4, j as u64);
    lemma_bit_or(w1 | w2, w3, j as u64);
    lemma_bit_or(w1, w2, j as u64);
    if bit(w1, j) {
        lemma_walk_dir_forward(s, 1, 0, occ, 8, j);
    } else if bit(w2, j) {
        lemma_walk_dir_forward(s, -1, 0, occ, 8, j);
    } else if bit(w3, j) {
        lemma_walk_dir_forward(s, 0, 1, occ, 8, j);
    } else {
        lemma_walk_dir_forward(s, 0, -1, occ, 8, j);
    }
}

/// A bishop attack leaves both the rank and the file of the bishop.
proof fn lemma_bishop_attack_dir(s: int, occ: u64, j: int)
    requires
        on_board(s),
        0 <= j < 64,
        bit(bishop_attacks_bb(s, occ), j),
    ensures
        rank_of(j) != rank_of(s),
        file_of(j) != file_of(s),
{
    let w1 = walk_from(s, 1, 1, occ, 8);
    let w2 = walk_from(s, 1, -1, occ, 8);
    let w3 = walk_from(s, -1, 1, occ, 8);
    let w4 = walk_from(s, -1, -1, occ, 8);
    lemma_bit_or(w1 | w2 | w3, w4, j as u64);
    lemma_bit_or(w1 | w2, w3, j as u64);
    lemma_bit_or(w1, w2, j as u64);
    if bit(w1, j) {
        lemma_walk_dir_forward(s, 1, 1, occ, 8, j);
    } else if bit(w2, j) {
        lemma_walk_dir_forward(s, 1, -1, occ, 8, j);
    } else if bit(w3, j) {
        lemma_walk_dir_forward(s, -1, 1, occ, 8, j);
    } else {
        lemma_walk_dir_forward(s, -1, -1, occ, 8, j);
    }
}

/// Rook and bishop attacks from one square never share a square, which is
/// why taking their exclusive or is the same as taking their union.
pub proof fn lemma_rook_bishop_disjoint(s: int, occ: u64)
    requires
        on_board(s),
    ensures
        rook_attacks_bb(s, occ) & bishop_attacks_bb(s, occ) == 0,
{
    let x = rook_attacks_bb(s, occ);
    let y = bishop_attacks_bb(s, occ);
    assert forall|j: int| 0 <= j < 64 implies bit(x & y, j) == bit(0u64, j) by {
        lemma_bit_and(x, y, j as u64);
        lemma_bit_zero(j as u64);
        if bit(x, j) && bit(y, j) {
            lemma_rook_attack_dir(s, occ, j);
            lemma_bishop_attack_dir(s, occ, j);
        }
    }
    crate::bits::lemma_bit_ext(x & y, 0);
}

/// The bishop version of `lemma_rook_attacks_masked`.
#[verifier::rlimit(60)]
pub proof fn lemma_bishop_attacks_masked(s: int, occ: u64)
    requires
        on_board(s),
    ensures
        bishop_attacks_bb(s, occ & bishop_mask_bb(s)) == bishop_attacks_bb(s, occ),
{
    let m = bishop_mask_bb(s);
    let mp = |t: int| bishop_mask_pred(s, t);
    let o2 = occ & m;
    let pne = |t: int|
        rank_of(t) - file_of(t) == rank_of(s) - file_of(s) && rank_of(t) > rank_of(s) && 1
            <= rank_of(t) <= 6 && 1 <= file_of(t) <= 6;
    let pnw = |t: int|
        rank_of(t) + file_of(t) == rank_of(s) + file_of(s) && rank_of(t) > rank_of(s) && 1
            <= rank_of(t) <= 6 && 1 <= file_of(t) <= 6;
    let pse = |t: int|
        rank_of(t) + file_of(t) == rank_of(s) + file_of(s) && rank_of(t) < rank_of(s) && 1
            <= rank_of(t) <= 6 && 1 <= file_of(t) <= 6;
    let psw = |t: int|
        rank_of(t) - file_of(t) == rank_of(s) - file_of(s) && rank_of(t) < rank_of(s) && 1
            <= rank_of(t) <= 6 && 1 <= file_of(t) <= 6;
    lemma_mask_agree(occ, m, mp, pne);
    lemma_mask_agree(occ, m, mp, pnw);
    lemma_mask_agree(occ, m, mp, pse);
    lemma_mask_agree(occ, m, mp, psw);
    lemma_walk_agree(s, 1, 1, o2, occ, pne, 8);
    lemma_walk_agree(s, 1, -1, o2, occ, pnw, 8);
    lemma_walk_agree(s, -1, 1, o2, occ, pse, 8);
    lemma_walk_agree(s, -1, -1, o2, occ, psw, 8);
}

} // verus!
