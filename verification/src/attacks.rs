//! Attack and ray tables.
//!
//! `Tables` holds every precomputed table: leaper attacks for pawn, knight
//! and king; magic-bitboard records and the shared attack tables for rook and
//! bishop; and the 64x64 ray and between tables.  `Tables::new` builds them
//! once; afterwards the value is immutable and every lookup is array reads.
//!
//! A sliding lookup hashes the masked occupancy with the square's magic
//! factor.  Each table slot remembers the occupancy subset it was filled
//! for, so the lookup checks the slot's key and falls back to a direct
//! verified ray walk on a mismatch; a sound magic factor never takes the
//! fallback, and the result is proved equal to the ray walk either way.

use vstd::prelude::*;
use crate::bitboard::Bitboard;
use crate::bits::{
    bit, lemma_or_assoc, lemma_or_zero, lemma_shr_52, lemma_shr_55, lemma_xor_disjoint,
};
use crate::geometry::{
    bb_of, bb_upto, bishop_attacks_bb, bishop_mask_bb, bishop_mask_pred, between_bb,
    between_pred, file_of, king_bb, king_pred, knight_bb, knight_pred, lemma_bb_of_ext,
    lemma_bishop_attacks_masked, lemma_rook_attacks_masked, lemma_sq_at, on_board, pawn_bb,
    pawn_pred, queen_attacks_bb, rank_of, ray_bb, ray_pred, rook_attacks_bb, rook_mask_bb,
    rook_mask_pred, step_on, step_sq, walk_from,
};
use crate::square::Square;
use crate::types::{Color, Piece, Role};

verus! {

/// Remaining steps before the walk in direction `(dr, df)` leaves the board.
spec fn dist_dir(c: int, d: int) -> int {
    if d > 0 {
        7 - c
    } else if d < 0 {
        c
    } else {
        7
    }
}

spec fn steps_left(s: int, dr: int, df: int) -> int {
    let a = dist_dir(rank_of(s), dr);
    let b = dist_dir(file_of(s), df);
    if a <= b {
        a
    } else {
        b
    }
}

/// One ray walk: every square in direction `(dr, df)` from `s` up to and
/// including the first occupied square or the board edge.
fn walk_exec(s: u8, dr: i32, df: i32, occ: u64) -> (res: u64)
    requires
        s < 64,
        -1 <= dr <= 1,
        -1 <= df <= 1,
        !(dr == 0 && df == 0),
    ensures
        res == walk_from(s as int, dr as int, df as int, occ, 8),
{
    let mut acc: u64 = 0;
    let mut cr: i32 = (s / 8) as i32;
    let mut cf: i32 = (s % 8) as i32;
    let ghost mut cur: int = s as int;
    let ghost mut fuel: nat = 8;
    proof {
        lemma_or_zero(walk_from(cur, dr as int, df as int, occ, fuel));
    }
    loop
        invariant
            s < 64,
            -1 <= dr <= 1,
            -1 <= df <= 1,
            !(dr == 0 && df == 0),
            on_board(cur),
            cr == rank_of(cur),
            cf == file_of(cur),
            fuel >= steps_left(cur, dr as int, df as int) + 1,
            fuel <= 8,
            walk_from(s as int, dr as int, df as int, occ, 8) == acc | walk_from(
                cur,
                dr as int,
                df as int,
                occ,
                fuel,
            ),
        decreases fuel,
    {
        let nr = cr + dr;
        let nf = cf + df;
        if nr < 0 || nr > 7 || nf < 0 || nf > 7 {
            proof {
                assert(!step_on(cur, dr as int, df as int));
                assert(walk_from(cur, dr as int, df as int, occ, fuel) == 0);
                lemma_or_zero(acc);
            }
            return acc;
        }
        let t: u8 = (nr * 8 + nf) as u8;
        let tb: u64 = 1u64 << t;
        proof {
            lemma_sq_at(nr as int, nf as int);
            assert(step_on(cur, dr as int, df as int));
            assert(step_sq(cur, dr as int, df as int) == t as int);
            assert(steps_left(cur, dr as int, df as int) >= 1);
            assert(fuel >= 2);
        }
        if (occ >> t) & 1u64 == 1u64 {
            proof {
                assert(bit(occ, t as int));
                assert(walk_from(cur, dr as int, df as int, occ, fuel) == tb);
            }
            return acc | tb;
        }
        proof {
            assert(!bit(occ, t as int));
            assert(walk_from(cur, dr as int, df as int, occ, fuel) == tb | walk_from(
                t as int,
                dr as int,
                df as int,
                occ,
                (fuel - 1) as nat,
            ));
            lemma_or_assoc(
                acc,
                tb,
                walk_from(t as int, dr as int, df as int, occ, (fuel - 1) as nat),
            );
            assert(steps_left(t as int, dr as int, df as int) == steps_left(
                cur,
                dr as int,
                df as int,
            ) - 1);
        }
        acc = acc | tb;
        cr = nr;
        cf = nf;
        proof {
            cur = t as int;
            fuel = (fuel - 1) as nat;
        }
    }
}

/// Sliding attacks by direct ray walks: the reference computation the magic
/// tables are proved against and the fallback the lookup uses.
fn slider_exec(s: u8, occ: u64, rook: bool) -> (res: u64)
    requires
        s < 64,
    ensures
        res == if rook {
            rook_attacks_bb(s as int, occ)
        } else {
            bishop_attacks_bb(s as int, occ)
        },
{
    if rook {
        walk_exec(s, 1, 0, occ) | walk_exec(s, -1, 0, occ) | walk_exec(s, 0, 1, occ) | walk_exec(
            s,
            0,
            -1,
            occ,
        )
    } else {
        walk_exec(s, 1, 1, occ) | walk_exec(s, 1, -1, occ) | walk_exec(s, -1, 1, occ) | walk_exec(
            s,
            -1,
            -1,
            occ,
        )
    }
}

/// Which leaper a table is built for.
spec fn leaper_pred(kind: int, s: int, t: int) -> bool {
    if kind == 0 {
        pawn_pred(true, s, t)
    } else if kind == 1 {
        pawn_pred(false, s, t)
    } else if kind == 2 {
        knight_pred(s, t)
    } else {
        king_pred(s, t)
    }
}

/// One 64-entry leaper table: entry `s` is the bitboard of the squares the
/// leaper attacks from `s`.
fn build_leaper(kind: u8) -> (v: Vec<u64>)
    requires
        kind < 4,
    ensures
        v.len() == 64,
        forall|s: int|
            0 <= s < 64 ==> v[s] == bb_of(|t: int| leaper_pred(kind as int, s, t)),
{
    let mut v: Vec<u64> = Vec::new();
    let mut s: usize = 0;
    while s < 64
        invariant
            kind < 4,
            s <= 64,
            v.len() == s,
            forall|k: int| 0 <= k < s ==> v[k] == bb_of(|t: int| leaper_pred(kind as int, k, t)),
        decreases 64 - s,
    {
        let sr = (s / 8) as i32;
        let sf = (s % 8) as i32;
        let mut bb: u64 = 0;
        let mut t: usize = 0;
        while t < 64
            invariant
                kind < 4,
                s < 64,
                t <= 64,
                sr == rank_of(s as int),
                sf == file_of(s as int),
                bb == bb_upto(|j: int| leaper_pred(kind as int, s as int, j), t as int),
            decreases 64 - t,
        {
            let tr = (t / 8) as i32;
            let tf = (t % 8) as i32;
            let dr = tr - sr;
            let df = tf - sf;
            let adr = if dr < 0 {
                -dr
            } else {
                dr
            };
            let adf = if df < 0 {
                -df
            } else {
                df
            };
            let hit = if kind == 0 {
                dr == 1 && adf == 1
            } else if kind == 1 {
                dr == -1 && adf == 1
            } else if kind == 2 {
                (adr == 1 && adf == 2) || (adr == 2 && adf == 1)
            } else {
                adr <= 1 && adf <= 1 && adr + adf >= 1
            };
            proof {
                assert(hit == leaper_pred(kind as int, s as int, t as int));
            }
            if hit {
                bb = bb | (1u64 << t);
            }
            t = t + 1;
        }
        v.push(bb);
        s = s + 1;
    }
    v
}

/// One 64-entry mask table: entry `s` is the relevant-occupancy mask.
fn build_masks(rook: bool) -> (v: Vec<u64>)
    ensures
        v.len() == 64,
        forall|s: int|
            0 <= s < 64 ==> v[s] == if rook {
                rook_mask_bb(s)
            } else {
                bishop_mask_bb(s)
            },
{
    let mut v: Vec<u64> = Vec::new();
    let mut s: usize = 0;
    while s < 64
        invariant
            s <= 64,
            v.len() == s,
            forall|k: int|
                0 <= k < s ==> v[k] == if rook {
                    rook_mask_bb(k)
                } else {
                    bishop_mask_bb(k)
                },
        decreases 64 - s,
    {
        let sr = (s / 8) as i32;
        let sf = (s % 8) as i32;
        let mut bb: u64 = 0;
        let mut t: usize = 0;
        while t < 64
            invariant
                s < 64,
                t <= 64,
                sr == rank_of(s as int),
                sf == file_of(s as int),
                bb == if rook {
                    bb_upto(|j: int| rook_mask_pred(s as int, j), t as int)
                } else {
                    bb_upto(|j: int| bishop_mask_pred(s as int, j), t as int)
                },
            decreases 64 - t,
        {
            let tr = (t / 8) as i32;
            let tf = (t % 8) as i32;
            let hit = if rook {
                t != s && ((tr == sr && 1 <= tf && tf <= 6) || (tf == sf && 1 <= tr && tr <= 6))
            } else {
                t != s && 1 <= tr && tr <= 6 && 1 <= tf && tf <= 6 && (tr - tf == sr - sf || tr
                    + tf == sr + sf)
            };
            proof {
                if rook {
                    assert(hit == rook_mask_pred(s as int, t as int));
                } else {
                    assert(hit == bishop_mask_pred(s as int, t as int));
                }
            }
            if hit {
                bb = bb | (1u64 << t);
            }
            t = t + 1;
        }
        v.push(bb);
        s = s + 1;
    }
    v
}

/// The 64x64 ray or between table, entry `a * 64 + b`.
#[verifier::rlimit(60)]
fn build_lines(between: bool) -> (v: Vec<u64>)
    ensures
        v.len() == 4096,
        forall|k: int|
            0 <= k < 4096 ==> v[k] == if between {
                between_bb(k / 64, k % 64)
            } else {
                ray_bb(k / 64, k % 64)
            },
{
    let mut v: Vec<u64> = Vec::new();
    let mut i: usize = 0;
    while i < 4096
        invariant
            i <= 4096,
            v.len() == i,
            forall|k: int|
                0 <= k < i ==> v[k] == if between {
                    between_bb(k / 64, k % 64)
                } else {
                    ray_bb(k / 64, k % 64)
                },
        decreases 4096 - i,
    {
        let a = i / 64;
        let b = i % 64;
        let ar = (a / 8) as i32;
        let af = (a % 8) as i32;
        let br = (b / 8) as i32;
        let bf = (b % 8) as i32;
        let mut bb: u64 = 0;
        let mut t: usize = 0;
        while t < 64
            invariant
                a < 64,
                b < 64,
                ar == rank_of(a as int),
                af == file_of(a as int),
                br == rank_of(b as int),
                bf == file_of(b as int),
                t <= 64,
                bb == if between {
                    bb_upto(|j: int| between_pred(a as int, b as int, j), t as int)
                } else {
                    bb_upto(|j: int| ray_pred(a as int, b as int, j), t as int)
                },
            decreases 64 - t,
        {
            let tr = (t / 8) as i32;
            let tf = (t % 8) as i32;
            let on_ray = a != b && ((ar == br && tr == ar) || (af == bf && tf == af) || (ar - af
                == br - bf && tr - tf == ar - af) || (ar + af == br + bf && tr + tf == ar + af));
            let hit = if between {
                on_ray && t != a && t != b && ((ar <= tr && tr <= br) || (br <= tr && tr <= ar))
                    && ((af <= tf && tf <= bf) || (bf <= tf && tf <= af))
            } else {
                on_ray
            };
            proof {
                assert(on_ray == ray_pred(a as int, b as int, t as int));
                if between {
                    assert(hit == between_pred(a as int, b as int, t as int));
                }
            }
            if hit {
                bb = bb | (1u64 << t);
            }
            t = t + 1;
        }
        v.push(bb);
        i = i + 1;
    }
    v
}

/// Size of one square's slice of the shared attack table.
spec fn msize(rook: bool) -> int {
    if rook {
        4096
    } else {
        512
    }
}

fn filled(n: usize, x: u64) -> (v: Vec<u64>)
    ensures
        v.len() == n,
{
    let mut v: Vec<u64> = Vec::new();
    let mut i: usize = 0;
    while i < n
        invariant
            v.len() == i,
            i <= n,
        decreases n - i,
    {
        v.push(x);
        i = i + 1;
    }
    v
}

/// Every subset of the mask's bits, by the carry-rippler successor
/// `(sub - mask) & mask`, which cycles through all subsets from zero.
fn subsets_of(mask: u64) -> (subs: Vec<u64>) {
    let mut subs: Vec<u64> = Vec::new();
    let mut sub: u64 = 0;
    let mut i: usize = 0;
    loop
        invariant_except_break
            i <= 4095,
        invariant
            subs.len() == i,
            i <= 4096,
        decreases 4096 - i,
    {
        subs.push(sub);
        sub = sub.wrapping_sub(mask) & mask;
        i = i + 1;
        if sub == 0 || i >= 4096 {
            break;
        }
    }
    subs
}

/// One output of a splitmix-style generator: well-mixed draws whose
/// bitwise and gives the sparse random candidates the factor search wants.
fn mix(z0: u64) -> u64 {
    let z1 = (z0 ^ (z0 >> 30)).wrapping_mul(0xBF58476D1CE4E5B9);
    let z2 = (z1 ^ (z1 >> 27)).wrapping_mul(0x94D049BB133111EB);
    z2 ^ (z2 >> 31)
}

/// Searches for a magic factor whose multiply-shift hash maps every listed
/// occupancy subset injectively, counting two subsets with the same attack
/// set as no collision.  Any return value keeps the tables sound — an unlucky
/// factor only makes lookups take the verified ray-walk fallback — so the
/// search is bounded and falls back to the last candidate.
fn find_factor(subs: &Vec<u64>, atts: &Vec<u64>, rook: bool, seed: u64) -> (factor: u64)
    requires
        atts.len() == subs.len(),
{
    let size: usize = if rook {
        4096
    } else {
        512
    };
    let mut state: u64 = seed;
    let mut tries: u64 = 0;
    let mut cand: u64 = 1;
    let mut stamp: Vec<u64> = filled(size, 0);
    let mut val: Vec<u64> = filled(size, 0);
    while tries < 100000
        invariant
            atts.len() == subs.len(),
            stamp.len() == size,
            val.len() == size,
            size == if rook {
                4096int
            } else {
                512int
            },
        decreases 100000 - tries,
    {
        tries = tries + 1;
        state = state.wrapping_add(0x9E3779B97F4A7C15);
        let r1 = mix(state);
        state = state.wrapping_add(0x9E3779B97F4A7C15);
        let r2 = mix(state);
        state = state.wrapping_add(0x9E3779B97F4A7C15);
        cand = r1 & r2 & mix(state);
        let mut ok = true;
        let mut k: usize = 0;
        while k < subs.len() && ok
            invariant
                atts.len() == subs.len(),
                stamp.len() == size,
                val.len() == size,
                size == if rook {
                    4096int
                } else {
                    512int
                },
                k <= subs.len(),
            decreases subs.len() - k,
        {
            let h = if rook {
                proof {
                    lemma_shr_52(cand.wrapping_mul(subs[k as int]));
                }
                (cand.wrapping_mul(subs[k]) >> 52u64) as usize
            } else {
                proof {
                    lemma_shr_55(cand.wrapping_mul(subs[k as int]));
                }
                (cand.wrapping_mul(subs[k]) >> 55u64) as usize
            };
            if stamp[h] == tries {
                if val[h] != atts[k] {
                    ok = false;
                }
            } else {
                stamp.set(h, tries);
                val.set(h, atts[k]);
            }
            k = k + 1;
        }
        if ok {
            return cand;
        }
    }
    cand
}

/// Builds one family's magic records and shared attack table.  Every slot of
/// a square's slice ends up holding the ray-walk attack set of the occupancy
/// subset recorded in the slot's key, which is all the lookup relies on.
fn build_magic(rook: bool, masks: &Vec<u64>) -> (r: (Vec<u64>, Vec<u64>, Vec<u64>))
    requires
        masks.len() == 64,
    ensures
        r.0.len() == 64,
        r.1.len() == 64 * msize(rook),
        r.2.len() == 64 * msize(rook),
        forall|s: int, i: int|
            0 <= s < 64 && 0 <= i < msize(rook) ==> #[trigger] r.2[s * msize(rook) + i] == if rook {
                rook_attacks_bb(s, r.1[s * msize(rook) + i])
            } else {
                bishop_attacks_bb(s, r.1[s * msize(rook) + i])
            },
{
    let size: usize = if rook {
        4096
    } else {
        512
    };
    let mut factors: Vec<u64> = Vec::new();
    let mut keys: Vec<u64> = filled(64 * size, 0);
    let mut tbl: Vec<u64> = filled(64 * size, 0);
    let mut s: usize = 0;
    while s < 64
        invariant
            masks.len() == 64,
            size == msize(rook),
            factors.len() == s,
            s <= 64,
            keys.len() == 64 * size,
            tbl.len() == 64 * size,
            forall|q: int, i: int|
                0 <= q < s && 0 <= i < msize(rook) ==> #[trigger] tbl[q * msize(rook) + i] == if rook {
                    rook_attacks_bb(q, keys[q * msize(rook) + i])
                } else {
                    bishop_attacks_bb(q, keys[q * msize(rook) + i])
                },
        decreases 64 - s,
    {
        let off = s * size;
        let att0 = slider_exec(s as u8, 0, rook);
        let mut i: usize = 0;
        while i < size
            invariant
                s < 64,
                size == msize(rook),
                off == s * size,
                keys.len() == 64 * size,
                tbl.len() == 64 * size,
                i <= size,
                att0 == if rook {
                    rook_attacks_bb(s as int, 0)
                } else {
                    bishop_attacks_bb(s as int, 0)
                },
                forall|q: int, k: int|
                    0 <= q < s && 0 <= k < msize(rook) ==> #[trigger] tbl[q * msize(rook) + k] == if rook {
                        rook_attacks_bb(q, keys[q * msize(rook) + k])
                    } else {
                        bishop_attacks_bb(q, keys[q * msize(rook) + k])
                    },
                forall|k: int| 0 <= k < i ==> #[trigger] keys[s * msize(rook) + k] == 0,
                forall|k: int| 0 <= k < i ==> #[trigger] tbl[s * msize(rook) + k] == att0,
            decreases size - i,
        {
            keys.set(off + i, 0);
            tbl.set(off + i, att0);
            i = i + 1;
        }
        let mask = masks[s];
        let subs = subsets_of(mask);
        let mut atts: Vec<u64> = Vec::new();
        let mut k: usize = 0;
        while k < subs.len()
            invariant
                s < 64,
                atts.len() == k,
                k <= subs.len(),
                forall|j: int|
                    0 <= j < k ==> atts[j] == if rook {
                        rook_attacks_bb(s as int, subs[j])
                    } else {
                        bishop_attacks_bb(s as int, subs[j])
                    },
            decreases subs.len() - k,
        {
            atts.push(slider_exec(s as u8, subs[k], rook));
            k = k + 1;
        }
        let factor = find_factor(&subs, &atts, rook, 0x9E3779B97F4A7C15u64 ^ ((s as u64) << 32));
        let mut k2: usize = 0;
        while k2 < subs.len()
            invariant
                s < 64,
                size == msize(rook),
                off == s * size,
                keys.len() == 64 * size,
                tbl.len() == 64 * size,
                atts.len() == subs.len(),
                k2 <= subs.len(),
                forall|j: int|
                    0 <= j < subs.len() ==> atts[j] == if rook {
                        rook_attacks_bb(s as int, subs[j])
                    } else {
                        bishop_attacks_bb(s as int, subs[j])
                    },
                forall|q: int, k: int|
                    0 <= q < s && 0 <= k < msize(rook) ==> #[trigger] tbl[q * msize(rook) + k] == if rook {
                        rook_attacks_bb(q, keys[q * msize(rook) + k])
                    } else {
                        bishop_attacks_bb(q, keys[q * msize(rook) + k])
                    },
                forall|k: int|
                    0 <= k < msize(rook) ==> #[trigger] tbl[s * msize(rook) + k] == if rook {
                        rook_attacks_bb(s as int, keys[s * msize(rook) + k])
                    } else {
                        bishop_attacks_bb(s as int, keys[s * msize(rook) + k])
                    },
            decreases subs.len() - k2,
        {
            let h = if rook {
                proof {
                    lemma_shr_52(factor.wrapping_mul(subs[k2 as int]));
                }
                (factor.wrapping_mul(subs[k2]) >> 52u64) as usize
            } else {
                proof {
                    lemma_shr_55(factor.wrapping_mul(subs[k2 as int]));
                }
                (factor.wrapping_mul(subs[k2]) >> 55u64) as usize
            };
            keys.set(off + h, subs[k2]);
            tbl.set(off + h, atts[k2]);
            k2 = k2 + 1;
        }
        factors.push(factor);
        s = s + 1;
    }
    (factors, keys, tbl)
}

/// The precomputed attack, mask, ray and between tables.  Build one with
/// `Tables::new`; the value is immutable afterwards and every query function
/// takes it by shared reference.
pub struct Tables {
    white_pawn: Vec<u64>,
    black_pawn: Vec<u64>,
    knight_t: Vec<u64>,
    king_t: Vec<u64>,
    rook_masks: Vec<u64>,
    bishop_masks: Vec<u64>,
    rook_factors: Vec<u64>,
    rook_keys: Vec<u64>,
    rook_table: Vec<u64>,
    bishop_factors: Vec<u64>,
    bishop_keys: Vec<u64>,
    bishop_table: Vec<u64>,
    rays: Vec<u64>,
    betweens: Vec<u64>,
}

impl Tables {
    /// Every table has its full size and agrees with the geometric model:
    /// leaper entries and masks are the bitboards of their predicates, every
    /// magic slot holds the ray-walk attacks of its recorded key, and the
    /// line tables hold the ray and between bitboards.
    pub closed spec fn wf(&self) -> bool {
        &&& self.white_pawn.len() == 64
        &&& self.black_pawn.len() == 64
        &&& self.knight_t.len() == 64
        &&& self.king_t.len() == 64
        &&& self.rook_masks.len() == 64
        &&& self.bishop_masks.len() == 64
        &&& self.rook_factors.len() == 64
        &&& self.rook_keys.len() == 262144
        &&& self.rook_table.len() == 262144
        &&& self.bishop_factors.len() == 64
        &&& self.bishop_keys.len() == 32768
        &&& self.bishop_table.len() == 32768
        &&& self.rays.len() == 4096
        &&& self.betweens.len() == 4096
        &&& forall|s: int| 0 <= s < 64 ==> self.white_pawn[s] == pawn_bb(true, s)
        &&& forall|s: int| 0 <= s < 64 ==> self.black_pawn[s] == pawn_bb(false, s)
        &&& forall|s: int| 0 <= s < 64 ==> self.knight_t[s] == knight_bb(s)
        &&& forall|s: int| 0 <= s < 64 ==> self.king_t[s] == king_bb(s)
        &&& forall|s: int| 0 <= s < 64 ==> self.rook_masks[s] == rook_mask_bb(s)
        &&& forall|s: int| 0 <= s < 64 ==> self.bishop_masks[s] == bishop_mask_bb(s)
        &&& forall|s: int, i: int|
            0 <= s < 64 && 0 <= i < 4096 ==> #[trigger] self.rook_table[s * 4096 + i] == rook_attacks_bb(
                s,
                self.rook_keys[s * 4096 + i],
            )
        &&& forall|s: int, i: int|
            0 <= s < 64 && 0 <= i < 512 ==> #[trigger] self.bishop_table[s * 512 + i] == bishop_attacks_bb(
                s,
                self.bishop_keys[s * 512 + i],
            )
        &&& forall|k: int| 0 <= k < 4096 ==> self.rays[k] == ray_bb(k / 64, k % 64)
        &&& forall|k: int| 0 <= k < 4096 ==> self.betweens[k] == between_bb(k / 64, k % 64)
    }

    /// The rook magic factor stored for square `s`.
    pub closed spec fn spec_rook_factor(&self, s: int) -> u64 {
        self.rook_factors[s]
    }

    /// The bishop magic factor stored for square `s`.
    pub closed spec fn spec_bishop_factor(&self, s: int) -> u64 {
        self.bishop_factors[s]
    }

    /// Builds every table once.
    pub fn new() -> (t: Tables)
        ensures
            t.wf(),
    {
        let white_pawn = build_leaper(0);
        let black_pawn = build_leaper(1);
        let knight_t = build_leaper(2);
        let king_t = build_leaper(3);
        proof {
            assert forall|s: int| 0 <= s < 64 implies white_pawn[s] == pawn_bb(true, s) by {
                lemma_bb_of_ext(|t: int| leaper_pred(0, s, t), |t: int| pawn_pred(true, s, t));
            }
            assert forall|s: int| 0 <= s < 64 implies black_pawn[s] == pawn_bb(false, s) by {
                lemma_bb_of_ext(|t: int| leaper_pred(1, s, t), |t: int| pawn_pred(false, s, t));
            }
            assert forall|s: int| 0 <= s < 64 implies knight_t[s] == knight_bb(s) by {
                lemma_bb_of_ext(|t: int| leaper_pred(2, s, t), |t: int| knight_pred(s, t));
            }
            assert forall|s: int| 0 <= s < 64 implies king_t[s] == king_bb(s) by {
                lemma_bb_of_ext(|t: int| leaper_pred(3, s, t), |t: int| king_pred(s, t));
            }
        }
        let rook_masks = build_masks(true);
        let bishop_masks = build_masks(false);
        let rm = build_magic(true, &rook_masks);
        let bm = build_magic(false, &bishop_masks);
        let rays = build_lines(false);
        let betweens = build_lines(true);
        Tables {
            white_pawn,
            black_pawn,
            knight_t,
            king_t,
            rook_masks,
            bishop_masks,
            rook_factors: rm.0,
            rook_keys: rm.1,
            rook_table: rm.2,
            bishop_factors: bm.0,
            bishop_keys: bm.1,
            bishop_table: bm.2,
            rays,
            betweens,
        }
    }
}

/// Looks up attacks for a pawn of `color` on `sq`.
pub fn pawn_attacks(t: &Tables, color: Color, sq: Square) -> (r: Bitboard)
    requires
        t.wf(),
    ensures
        r@ == pawn_bb(color == Color::White, sq@),
{
    let s = sq.index() as usize;
    match color {
        Color::White => Bitboard(t.white_pawn[s]),
        Color::Black => Bitboard(t.black_pawn[s]),
    }
}

/// Looks up attacks for a knight on `sq`.
pub fn knight_attacks(t: &Tables, sq: Square) -> (r: Bitboard)
    requires
        t.wf(),
    ensures
        r@ == knight_bb(sq@),
{
    Bitboard(t.knight_t[sq.index() as usize])
}

/// Looks up attacks for a king on `sq`.
pub fn king_attacks(t: &Tables, sq: Square) -> (r: Bitboard)
    requires
        t.wf(),
    ensures
        r@ == king_bb(sq@),
{
    Bitboard(t.king_t[sq.index() as usize])
}

/// Gets the set of potential blocking squares for a rook on `sq`.
pub fn rook_mask(t: &Tables, sq: Square) -> (r: Bitboard)
    requires
        t.wf(),
    ensures
        r@ == rook_mask_bb(sq@),
{
    Bitboard(t.rook_masks[sq.index() as usize])
}

/// Gets the set of potential blocking squares for a bishop on `sq`.
pub fn bishop_mask(t: &Tables, sq: Square) -> (r: Bitboard)
    requires
        t.wf(),
    ensures
        r@ == bishop_mask_bb(sq@),
{
    Bitboard(t.bishop_masks[sq.index() as usize])
}

/// The magic factor of the rook record for `sq`, for table inspection.
pub fn rook_magic_factor(t: &Tables, sq: Square) -> (r: u64)
    requires
        t.wf(),
    ensures
        r == t.spec_rook_factor(sq@),
{
    t.rook_factors[sq.index() as usize]
}

/// The magic factor of the bishop record for `sq`, for table inspection.
pub fn bishop_magic_factor(t: &Tables, sq: Square) -> (r: u64)
    requires
        t.wf(),
    ensures
        r == t.spec_bishop_factor(sq@),
{
    t.bishop_factors[sq.index() as usize]
}

/// Looks up attacks for a rook on `sq` with `occupied` squares: every square
/// along the rook's rank and file up to and including the first blocker.
pub fn rook_attacks(t: &Tables, sq: Square, occupied: Bitboard) -> (r: Bitboard)
    requires
        t.wf(),
    ensures
        r@ == rook_attacks_bb(sq@, occupied@),
{
    let s = sq.index() as usize;
    let relevant = occupied.0 & t.rook_masks[s];
    let h = {
        proof {
            lemma_shr_52(t.rook_factors[s as int].wrapping_mul(relevant));
        }
        (t.rook_factors[s].wrapping_mul(relevant) >> 52u64) as usize
    };
    let idx = s * 4096 + h;
    if t.rook_keys[idx] == relevant {
        proof {
            lemma_rook_attacks_masked(sq@, occupied@);
        }
        Bitboard(t.rook_table[idx])
    } else {
        Bitboard(slider_exec(sq.index(), occupied.0, true))
    }
}

/// Looks up attacks for a bishop on `sq` with `occupied` squares: every
/// square along the bishop's diagonals up to and including the first blocker.
pub fn bishop_attacks(t: &Tables, sq: Square, occupied: Bitboard) -> (r: Bitboard)
    requires
        t.wf(),
    ensures
        r@ == bishop_attacks_bb(sq@, occupied@),
{
    let s = sq.index() as usize;
    let relevant = occupied.0 & t.bishop_masks[s];
    let h = {
        proof {
            lemma_shr_55(t.bishop_factors[s as int].wrapping_mul(relevant));
        }
        (t.bishop_factors[s].wrapping_mul(relevant) >> 55u64) as usize
    };
    let idx = s * 512 + h;
    if t.bishop_keys[idx] == relevant {
        proof {
            lemma_bishop_attacks_masked(sq@, occupied@);
        }
        Bitboard(t.bishop_table[idx])
    } else {
        Bitboard(slider_exec(sq.index(), occupied.0, false))
    }
}

/// Looks up attacks for a queen on `sq` with `occupied` squares: rook and
/// bishop attacks combined.  The two sets are disjoint, so the exclusive or
/// is their union.
pub fn queen_attacks(t: &Tables, sq: Square, occupied: Bitboard) -> (r: Bitboard)
    requires
        t.wf(),
    ensures
        r@ == queen_attacks_bb(sq@, occupied@),
{
    let ra = rook_attacks(t, sq, occupied);
    let ba = bishop_attacks(t, sq, occupied);
    let si = sq.index();
    proof {
        assert(si < 64 && on_board(sq@));
        crate::geometry::lemma_rook_bishop_disjoint(sq@, occupied@);
        lemma_xor_disjoint(ra.0, ba.0);
    }
    Bitboard(ra.0 ^ ba.0)
}

/// What `attacks` returns for each piece role.
pub open spec fn attacks_bb(piece: Piece, s: int, occ: u64) -> u64 {
    match piece.role {
        Role::Pawn => pawn_bb(piece.color == Color::White, s),
        Role::Knight => knight_bb(s),
        Role::Bishop => bishop_attacks_bb(s, occ),
        Role::Rook => rook_attacks_bb(s, occ),
        Role::Queen => queen_attacks_bb(s, occ),
        Role::King => king_bb(s),
    }
}

/// Looks up attacks for `piece` on `sq` with `occupied` squares.
pub fn attacks(t: &Tables, sq: Square, piece: Piece, occupied: Bitboard) -> (r: Bitboard)
    requires
        t.wf(),
    ensures
        r@ == attacks_bb(piece, sq@, occupied@),
{
    match piece.role {
        Role::Pawn => pawn_attacks(t, piece.color, sq),
        Role::Knight => knight_attacks(t, sq),
        Role::Bishop => bishop_attacks(t, sq, occupied),
        Role::Rook => rook_attacks(t, sq, occupied),
        Role::Queen => queen_attacks(t, sq, occupied),
        Role::King => king_attacks(t, sq),
    }
}

/// The rank, file or diagonal with the two squares, or an empty bitboard if
/// they are not aligned or equal.
pub fn ray(t: &Tables, a: Square, b: Square) -> (r: Bitboard)
    requires
        t.wf(),
    ensures
        r@ == ray_bb(a@, b@),
{
    let idx = (a.index() as usize) * 64 + (b.index() as usize);
    proof {
        assert(idx / 64 == a@ && idx % 64 == b@);
    }
    Bitboard(t.rays[idx])
}

/// The squares strictly between the two squares, or an empty bitboard if
/// they are not aligned or equal.
pub fn between(t: &Tables, a: Square, b: Square) -> (r: Bitboard)
    requires
        t.wf(),
    ensures
        r@ == between_bb(a@, b@),
{
    let idx = (a.index() as usize) * 64 + (b.index() as usize);
    proof {
        assert(idx / 64 == a@ && idx % 64 == b@);
    }
    Bitboard(t.betweens[idx])
}

/// Tests if all three squares are aligned on a rank, file or diagonal.
pub fn aligned(t: &Tables, a: Square, b: Square, c: Square) -> (r: bool)
    requires
        t.wf(),
    ensures
        r == bit(ray_bb(a@, b@), c@),
{
    ray(t, a, b).contains(c)
}

} // verus!
