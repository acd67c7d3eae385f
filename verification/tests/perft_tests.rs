use shakmaty::perft::{debug_perft, perft, IllegalMoveError, Position};
use shakmaty::square::Square;
use shakmaty::types::{Color, Move, Role};

fn sq(file: usize, rank: usize) -> usize {
    rank * 8 + file
}

fn mv(from: usize, to: usize, promotion: Option<Role>) -> Move {
    Move::Normal {
        from: Square::from_index(from as u8),
        to: Square::from_index(to as u8),
        promotion,
    }
}

/// A position with a fixed number of moves forever: its perft at depth `d`
/// is `width^d`.
#[derive(Clone)]
struct Fanout {
    width: usize,
}

impl Position for Fanout {
    fn legal_moves(&self, moves: &mut Vec<Move>) {
        moves.clear();
        for _ in 0..self.width {
            moves.push(Move::Null);
        }
    }

    fn play_unchecked(&self, _m: &Move) -> Fanout {
        self.clone()
    }

    fn play(&self, _m: &Move) -> Result<Fanout, IllegalMoveError> {
        Ok(self.clone())
    }
}

/// A position whose checked application rejects everything: the generator
/// and the validator disagree.
#[derive(Clone)]
struct Inconsistent;

impl Position for Inconsistent {
    fn legal_moves(&self, moves: &mut Vec<Move>) {
        moves.clear();
        moves.push(Move::Null);
    }

    fn play_unchecked(&self, _m: &Move) -> Inconsistent {
        Inconsistent
    }

    fn play(&self, _m: &Move) -> Result<Inconsistent, IllegalMoveError> {
        Err(IllegalMoveError)
    }
}

#[test]
fn perft_depth_zero_counts_one_path() {
    assert_eq!(perft(&Fanout { width: 0 }, 0), 1);
    assert_eq!(perft(&Fanout { width: 7 }, 0), 1);
    assert_eq!(perft(&chess_start(), 0), 1);
}

#[test]
fn perft_fanout_powers() {
    let p = Fanout { width: 3 };
    assert_eq!(perft(&p, 1), 3);
    assert_eq!(perft(&p, 2), 9);
    assert_eq!(perft(&p, 4), 81);
    assert_eq!(perft(&Fanout { width: 0 }, 5), 0);
}

#[test]
fn debug_perft_matches_perft() {
    let p = Fanout { width: 4 };
    assert_eq!(debug_perft(&p, 2), Some(16));
    assert_eq!(debug_perft(&p, 0), Some(1));
}

#[test]
fn debug_perft_reports_inconsistency() {
    assert_eq!(debug_perft(&Inconsistent, 2), None);
}

// ---------------------------------------------------------------------
// A plain-Rust standard-chess position for the reference perft values.
// ---------------------------------------------------------------------
#[derive(Clone, PartialEq)]
struct Chess {
    board: [Option<(Color, Role)>; 64],
    turn: Color,
    // white short, white long, black short, black long
    castling: [bool; 4],
    ep: Option<usize>,
}

fn chess_start() -> Chess {
    let back = [
        Role::Rook,
        Role::Knight,
        Role::Bishop,
        Role::Queen,
        Role::King,
        Role::Bishop,
        Role::Knight,
        Role::Rook,
    ];
    let mut board: [Option<(Color, Role)>; 64] = [None; 64];
    for f in 0..8 {
        board[sq(f, 0)] = Some((Color::White, back[f]));
        board[sq(f, 1)] = Some((Color::White, Role::Pawn));
        board[sq(f, 6)] = Some((Color::Black, Role::Pawn));
        board[sq(f, 7)] = Some((Color::Black, back[f]));
    }
    Chess { board, turn: Color::White, castling: [true; 4], ep: None }
}

const KNIGHT_D: [(i32, i32); 8] =
    [(1, 2), (2, 1), (2, -1), (1, -2), (-1, -2), (-2, -1), (-2, 1), (-1, 2)];
const ORTH_D: [(i32, i32); 4] = [(1, 0), (-1, 0), (0, 1), (0, -1)];
const DIAG_D: [(i32, i32); 4] = [(1, 1), (1, -1), (-1, 1), (-1, -1)];

fn on(r: i32, f: i32) -> bool {
    (0..8).contains(&r) && (0..8).contains(&f)
}

impl Chess {
    fn attacked(&self, target: usize, by: Color) -> bool {
        let tr = (target / 8) as i32;
        let tf = (target % 8) as i32;
        for &(dr, df) in KNIGHT_D.iter() {
            if on(tr + dr, tf + df)
                && self.board[sq((tf + df) as usize, (tr + dr) as usize)]
                    == Some((by, Role::Knight))
            {
                return true;
            }
        }
        for dr in -1..=1i32 {
            for df in -1..=1i32 {
                if (dr != 0 || df != 0)
                    && on(tr + dr, tf + df)
                    && self.board[sq((tf + df) as usize, (tr + dr) as usize)]
                        == Some((by, Role::King))
                {
                    return true;
                }
            }
        }
        let dir: i32 = if by == Color::White { 1 } else { -1 };
        for &df in [-1i32, 1].iter() {
            if on(tr - dir, tf + df)
                && self.board[sq((tf + df) as usize, (tr - dir) as usize)]
                    == Some((by, Role::Pawn))
            {
                return true;
            }
        }
        for &(dr, df) in ORTH_D.iter() {
            let (mut r, mut f) = (tr + dr, tf + df);
            while on(r, f) {
                if let Some((c, role)) = self.board[sq(f as usize, r as usize)] {
                    if c == by && (role == Role::Rook || role == Role::Queen) {
                        return true;
                    }
                    break;
                }
                r += dr;
                f += df;
            }
        }
        for &(dr, df) in DIAG_D.iter() {
            let (mut r, mut f) = (tr + dr, tf + df);
            while on(r, f) {
                if let Some((c, role)) = self.board[sq(f as usize, r as usize)] {
                    if c == by && (role == Role::Bishop || role == Role::Queen) {
                        return true;
                    }
                    break;
                }
                r += dr;
                f += df;
            }
        }
        false
    }

    fn king_sq(&self, c: Color) -> usize {
        (0..64).find(|&s| self.board[s] == Some((c, Role::King))).unwrap()
    }

    fn push_pawn(&self, out: &mut Vec<Move>, from: usize, to: usize) {
        let last = if self.turn == Color::White { 7 } else { 0 };
        if to / 8 == last {
            for &p in [Role::Queen, Role::Rook, Role::Bishop, Role::Knight].iter() {
                out.push(mv(from, to, Some(p)));
            }
        } else {
            out.push(mv(from, to, None));
        }
    }

    fn pseudo_moves(&self, out: &mut Vec<Move>) {
        let us = self.turn;
        let dir: i32 = if us == Color::White { 1 } else { -1 };
        for s in 0..64 {
            let (c, role) = match self.board[s] {
                Some(p) => p,
                None => continue,
            };
            if c != us {
                continue;
            }
            let sr = (s / 8) as i32;
            let sf = (s % 8) as i32;
            match role {
                Role::Pawn => {
                    if on(sr + dir, sf) && self.board[sq(sf as usize, (sr + dir) as usize)].is_none()
                    {
                        self.push_pawn(out, s, sq(sf as usize, (sr + dir) as usize));
                        let start = if us == Color::White { 1 } else { 6 };
                        if sr == start
                            && self.board[sq(sf as usize, (sr + 2 * dir) as usize)].is_none()
                        {
                            out.push(mv(s, sq(sf as usize, (sr + 2 * dir) as usize), None));
                        }
                    }
                    for &df in [-1i32, 1].iter() {
                        if !on(sr + dir, sf + df) {
                            continue;
                        }
                        let t = sq((sf + df) as usize, (sr + dir) as usize);
                        match self.board[t] {
                            Some((oc, _)) => {
                                if oc != us {
                                    self.push_pawn(out, s, t);
                                }
                            },
                            None => {
                                if self.ep == Some(t) {
                                    out.push(mv(s, t, None));
                                }
                            },
                        }
                    }
                },
                Role::Knight => {
                    for &(dr, df) in KNIGHT_D.iter() {
                        if on(sr + dr, sf + df) {
                            let t = sq((sf + df) as usize, (sr + dr) as usize);
                            if self.board[t].map_or(true, |(oc, _)| oc != us) {
                                out.push(mv(s, t, None));
                            }
                        }
                    }
                },
                Role::King => {
                    for dr in -1..=1i32 {
                        for df in -1..=1i32 {
                            if (dr != 0 || df != 0) && on(sr + dr, sf + df) {
                                let t = sq((sf + df) as usize, (sr + dr) as usize);
                                if self.board[t].map_or(true, |(oc, _)| oc != us) {
                                    out.push(mv(s, t, None));
                                }
                            }
                        }
                    }
                    let them = us.not();
                    let (home, short, long) =
                        if us == Color::White { (4, 0, 1) } else { (60, 2, 3) };
                    if s == home && !self.attacked(home, them) {
                        if self.castling[short]
                            && self.board[home + 1].is_none()
                            && self.board[home + 2].is_none()
                            && self.board[home + 3] == Some((us, Role::Rook))
                            && !self.attacked(home + 1, them)
                            && !self.attacked(home + 2, them)
                        {
                            out.push(mv(home, home + 2, None));
                        }
                        if self.castling[long]
                            && self.board[home - 1].is_none()
                            && self.board[home - 2].is_none()
                            && self.board[home - 3].is_none()
                            && self.board[home - 4] == Some((us, Role::Rook))
                            && !self.attacked(home - 1, them)
                            && !self.attacked(home - 2, them)
                        {
                            out.push(mv(home, home - 2, None));
                        }
                    }
                },
                _ => {
                    let dirs: &[(i32, i32)] = match role {
                        Role::Rook => &ORTH_D,
                        Role::Bishop => &DIAG_D,
                        _ => &[(1, 0), (-1, 0), (0, 1), (0, -1), (1, 1), (1, -1), (-1, 1), (-1, -1)],
                    };
                    for &(dr, df) in dirs.iter() {
                        let (mut r, mut f) = (sr + dr, sf + df);
                        while on(r, f) {
                            let t = sq(f as usize, r as usize);
                            match self.board[t] {
                                Some((oc, _)) => {
                                    if oc != us {
                                        out.push(mv(s, t, None));
                                    }
                                    break;
                                },
                                None => out.push(mv(s, t, None)),
                            }
                            r += dr;
                            f += df;
                        }
                    }
                },
            }
        }
    }

    fn apply(&self, m: &Move) -> Chess {
        let mut p = self.clone();
        p.ep = None;
        let us = self.turn;
        if let Move::Normal { from, to, promotion } = m {
            let f = from.index() as usize;
            let t = to.index() as usize;
            let piece = p.board[f].unwrap();
            if piece.1 == Role::Pawn && f % 8 != t % 8 && self.board[t].is_none() {
                // En passant: the captured pawn stands on the from-rank.
                p.board[sq(t % 8, f / 8)] = None;
            }
            if piece.1 == Role::Pawn && (t as i32 - f as i32).abs() == 16 {
                p.ep = Some((f + t) / 2);
            }
            if piece.1 == Role::King && (t as i32).abs_diff(f as i32) == 2 {
                if t > f {
                    p.board[f + 1] = p.board[f + 3].take();
                } else {
                    p.board[f - 1] = p.board[f - 4].take();
                }
            }
            p.board[t] = match promotion {
                Some(role) => Some((us, *role)),
                None => Some(piece),
            };
            p.board[f] = None;
            for &(side, king, rook) in
                [(0usize, 4usize, 7usize), (1, 4, 0), (2, 60, 63), (3, 60, 56)].iter()
            {
                if f == king || f == rook || t == rook {
                    p.castling[side] = false;
                }
            }
        }
        p.turn = us.not();
        p
    }
}

impl Position for Chess {
    fn legal_moves(&self, moves: &mut Vec<Move>) {
        moves.clear();
        let mut pseudo = Vec::new();
        self.pseudo_moves(&mut pseudo);
        for m in pseudo {
            let next = self.apply(&m);
            if !next.attacked(next.king_sq(self.turn), next.turn) {
                moves.push(m);
            }
        }
    }

    fn play_unchecked(&self, m: &Move) -> Chess {
        self.apply(m)
    }

    fn play(&self, m: &Move) -> Result<Chess, IllegalMoveError> {
        let mut legal = Vec::new();
        self.legal_moves(&mut legal);
        if legal.contains(m) {
            Ok(self.apply(m))
        } else {
            Err(IllegalMoveError)
        }
    }
}

#[test]
fn perft_start_position_shallow() {
    let pos = chess_start();
    assert_eq!(perft(&pos, 1), 20);
    assert_eq!(perft(&pos, 2), 400);
    assert_eq!(perft(&pos, 3), 8902);
}

#[test]
fn perft_start_position_depth_four() {
    assert_eq!(perft(&chess_start(), 4), 197281);
}

#[test]
fn perft_start_position_depth_five() {
    assert_eq!(perft(&chess_start(), 5), 4865609);
}

#[test]
fn debug_perft_start_position() {
    assert_eq!(debug_perft(&chess_start(), 2), Some(400));
}
