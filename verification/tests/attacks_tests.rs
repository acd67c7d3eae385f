use shakmaty::attacks::{
    aligned, attacks, between, bishop_attacks, bishop_magic_factor, bishop_mask, king_attacks,
    knight_attacks, pawn_attacks, queen_attacks, ray, rook_attacks, rook_magic_factor, rook_mask,
    Tables,
};
use shakmaty::bitboard::Bitboard;
use shakmaty::square::Square;
use shakmaty::types::{Color, Piece, Role};

fn sq(file: u8, rank: u8) -> Square {
    Square::from_coords(file, rank)
}

/// Reference ray-cast: walk each direction until the first blocker.
fn ref_walk(s: usize, dr: i32, df: i32, occ: u64) -> u64 {
    let mut bb = 0u64;
    let mut r = (s / 8) as i32 + dr;
    let mut f = (s % 8) as i32 + df;
    while (0..8).contains(&r) && (0..8).contains(&f) {
        let t = (r * 8 + f) as u64;
        bb |= 1u64 << t;
        if occ >> t & 1 == 1 {
            break;
        }
        r += dr;
        f += df;
    }
    bb
}

fn ref_rook(s: usize, occ: u64) -> u64 {
    ref_walk(s, 1, 0, occ) | ref_walk(s, -1, 0, occ) | ref_walk(s, 0, 1, occ)
        | ref_walk(s, 0, -1, occ)
}

fn ref_bishop(s: usize, occ: u64) -> u64 {
    ref_walk(s, 1, 1, occ) | ref_walk(s, 1, -1, occ) | ref_walk(s, -1, 1, occ)
        | ref_walk(s, -1, -1, occ)
}

fn lcg(x: &mut u64) -> u64 {
    *x = x.wrapping_mul(6364136223846793005).wrapping_add(1442695040888963407);
    *x
}

#[test]
fn test_rook_attacks() {
    let t = Tables::new();
    assert_eq!(
        rook_attacks(&t, Square::from_index(43), Bitboard(0x3f7f28802826f5b9)),
        Bitboard(0x8370808000000)
    );
}

#[test]
fn leaper_attacks_examples() {
    let t = Tables::new();
    // A knight on b1 attacks a3, c3 and d2.
    let n = knight_attacks(&t, sq(1, 0));
    assert_eq!(n.count(), 3);
    assert!(n.contains(sq(0, 2)) && n.contains(sq(2, 2)) && n.contains(sq(3, 1)));
    // A king in the corner has three neighbours.
    let k = king_attacks(&t, sq(7, 7));
    assert_eq!(k.count(), 3);
    // Pawns attack the two forward diagonals of their color.
    let wp = pawn_attacks(&t, Color::White, sq(4, 1));
    assert_eq!(wp.count(), 2);
    assert!(wp.contains(sq(3, 2)) && wp.contains(sq(5, 2)));
    let bp = pawn_attacks(&t, Color::Black, sq(4, 6));
    assert!(bp.contains(sq(3, 5)) && bp.contains(sq(5, 5)));
    // Edge pawns attack a single square.
    assert_eq!(pawn_attacks(&t, Color::White, sq(0, 1)).count(), 1);
}

#[test]
fn mask_sizes() {
    let t = Tables::new();
    for i in 0..64u8 {
        let s = Square::from_index(i);
        assert!(rook_mask(&t, s).count() <= 12);
        assert!(bishop_mask(&t, s).count() <= 9);
    }
    // The documented examples: e8 has 11 relevant rook squares, d5 has 9
    // relevant bishop squares.
    assert_eq!(rook_mask(&t, sq(4, 7)).count(), 11);
    assert_eq!(bishop_mask(&t, sq(3, 4)).count(), 9);
}

fn mask_of(t: &Tables, s: usize, rook: bool) -> u64 {
    let mut m = 0u64;
    for j in 0..64u8 {
        let b = if rook {
            rook_mask(t, Square::from_index(s as u8))
        } else {
            bishop_mask(t, Square::from_index(s as u8))
        };
        if b.contains(Square::from_index(j)) {
            m |= 1u64 << j;
        }
    }
    m
}

#[test]
fn magic_injectivity() {
    let t = Tables::new();
    for s in 0..64usize {
        for &rook in [true, false].iter() {
            let mask = mask_of(&t, s, rook);
            let factor = if rook {
                rook_magic_factor(&t, Square::from_index(s as u8))
            } else {
                bishop_magic_factor(&t, Square::from_index(s as u8))
            };
            let shift = if rook { 52 } else { 55 };
            let size = if rook { 4096 } else { 512 };
            let mut seen: Vec<Option<u64>> = vec![None; size];
            // Carry-rippler enumeration of every subset of the mask.
            let mut sub = 0u64;
            loop {
                let att = if rook { ref_rook(s, sub) } else { ref_bishop(s, sub) };
                let h = (factor.wrapping_mul(sub) >> shift) as usize;
                match seen[h] {
                    Some(prev) => assert_eq!(
                        prev, att,
                        "two occupancy subsets with different attacks share an index"
                    ),
                    None => seen[h] = Some(att),
                }
                sub = sub.wrapping_sub(mask) & mask;
                if sub == 0 {
                    break;
                }
            }
        }
    }
}

#[test]
fn sliding_attacks_match_ray_casting() {
    let t = Tables::new();
    let mut x = 0x123456789abcdefu64;
    for s in 0..64usize {
        let square = Square::from_index(s as u8);
        for k in 0..200 {
            let occ = match k {
                0 => 0,
                1 => u64::MAX,
                _ => lcg(&mut x) & lcg(&mut x),
            };
            assert_eq!(rook_attacks(&t, square, Bitboard(occ)).0, ref_rook(s, occ));
            assert_eq!(bishop_attacks(&t, square, Bitboard(occ)).0, ref_bishop(s, occ));
            assert_eq!(
                queen_attacks(&t, square, Bitboard(occ)).0,
                ref_rook(s, occ) | ref_bishop(s, occ)
            );
        }
    }
}

#[test]
fn attacks_dispatch() {
    let t = Tables::new();
    let occ = Bitboard(0x00ff00000000ff00);
    let s = sq(3, 3);
    let white = Color::White;
    assert_eq!(
        attacks(&t, s, Piece { color: white, role: Role::Rook }, occ),
        rook_attacks(&t, s, occ)
    );
    assert_eq!(
        attacks(&t, s, Piece { color: white, role: Role::Queen }, occ),
        queen_attacks(&t, s, occ)
    );
    assert_eq!(
        attacks(&t, s, Piece { color: white, role: Role::Pawn }, occ),
        pawn_attacks(&t, white, s)
    );
    assert_eq!(
        attacks(&t, s, Piece { color: Color::Black, role: Role::King }, occ),
        king_attacks(&t, s)
    );
}

#[test]
fn ray_and_between_symmetry() {
    let t = Tables::new();
    for a in 0..64u8 {
        for b in 0..64u8 {
            let (sa, sb) = (Square::from_index(a), Square::from_index(b));
            assert_eq!(ray(&t, sa, sb), ray(&t, sb, sa));
            assert_eq!(between(&t, sa, sb), between(&t, sb, sa));
        }
    }
}

#[test]
fn ray_and_between_examples() {
    let t = Tables::new();
    // The a1-h8 diagonal through b2 and c3.
    let r = ray(&t, sq(1, 1), sq(2, 2));
    assert_eq!(r.count(), 8);
    assert!(r.contains(sq(0, 0)) && r.contains(sq(7, 7)));
    // Unaligned or equal squares give the empty set.
    assert_eq!(ray(&t, sq(0, 0), sq(1, 2)).count(), 0);
    assert_eq!(ray(&t, sq(3, 3), sq(3, 3)).count(), 0);
    // The open segment of b1-b7.
    let seg = between(&t, sq(1, 0), sq(1, 6));
    assert_eq!(seg.count(), 5);
    assert!(!seg.contains(sq(1, 0)) && !seg.contains(sq(1, 6)));
    for rank in 1..6u8 {
        assert!(seg.contains(sq(1, rank)));
    }
    // Adjacent squares have nothing between them.
    assert_eq!(between(&t, sq(1, 0), sq(1, 1)).count(), 0);
    assert!(aligned(&t, sq(0, 0), sq(1, 1), sq(2, 2)));
    assert!(!aligned(&t, sq(0, 0), sq(1, 1), sq(2, 3)));
}

#[test]
fn ray_and_between_match_direction_walk() {
    let t = Tables::new();
    for a in 0..64i32 {
        for b in 0..64i32 {
            let (ar, af, br, bf) = (a / 8, a % 8, b / 8, b % 8);
            let mut exp_ray = 0u64;
            let mut exp_between = 0u64;
            if a != b && (ar == br || af == bf || ar - af == br - bf || ar + af == br + bf) {
                let dr = (br - ar).signum();
                let df = (bf - af).signum();
                // The open segment from a to b.
                let (mut r, mut f) = (ar + dr, af + df);
                while (r, f) != (br, bf) {
                    exp_between |= 1u64 << (r * 8 + f);
                    r += dr;
                    f += df;
                }
                // The full line: walk to both edges from a.
                for &sign in [1i32, -1].iter() {
                    let (mut r, mut f) = (ar, af);
                    while (0..8).contains(&r) && (0..8).contains(&f) {
                        exp_ray |= 1u64 << (r * 8 + f);
                        r += sign * dr;
                        f += sign * df;
                    }
                }
            }
            let (sa, sb) = (Square::from_index(a as u8), Square::from_index(b as u8));
            assert_eq!(ray(&t, sa, sb).0, exp_ray);
            assert_eq!(between(&t, sa, sb).0, exp_between);
        }
    }
}

#[test]
fn alignment_self_consistency() {
    let t = Tables::new();
    for a in 0..64u8 {
        for b in 0..64u8 {
            let (sa, sb) = (Square::from_index(a), Square::from_index(b));
            let r = ray(&t, sa, sb);
            let seg = between(&t, sa, sb);
            assert!(!seg.contains(sa) && !seg.contains(sb));
            for c in 0..64u8 {
                let sc = Square::from_index(c);
                assert_eq!(aligned(&t, sa, sb, sc), r.contains(sc));
                if seg.contains(sc) {
                    assert!(r.contains(sc));
                }
            }
        }
    }
}
