use shakmaty::square::Square;
use shakmaty::types::{Color, Move, Piece, Role};

fn sq(file: u8, rank: u8) -> Square {
    Square::from_coords(file, rank)
}

#[test]
fn color_fold_and_not() {
    assert_eq!(Color::White.fold(1, 2), 1);
    assert_eq!(Color::Black.fold(1, 2), 2);
    assert_eq!(Color::White.not(), Color::Black);
    assert_eq!(Color::Black.not(), Color::White);
}

#[test]
fn color_piece_constructors() {
    assert_eq!(Color::White.pawn(), Piece { color: Color::White, role: Role::Pawn });
    assert_eq!(Color::Black.queen(), Piece { color: Color::Black, role: Role::Queen });
    assert_eq!(Color::White.king(), Role::King.of(Color::White));
    assert_eq!(Color::Black.knight().role, Role::Knight);
    assert_eq!(Color::White.bishop().color, Color::White);
    assert_eq!(Color::Black.rook().role, Role::Rook);
}

#[test]
fn role_char_round_trip() {
    let roles = [Role::Pawn, Role::Knight, Role::Bishop, Role::Rook, Role::Queen, Role::King];
    for &r in roles.iter() {
        assert_eq!(Role::from_char(r.char()), Some(r));
    }
    assert_eq!(Role::from_char('q'), Some(Role::Queen));
    assert_eq!(Role::from_char('x'), None);
    assert_eq!(Role::from_char('Q'), None);
}

#[test]
fn piece_char_round_trip() {
    assert_eq!(Piece { color: Color::White, role: Role::Knight }.char(), 'N');
    assert_eq!(Piece { color: Color::Black, role: Role::Knight }.char(), 'n');
    assert_eq!(Piece::from_char('K'), Some(Piece { color: Color::White, role: Role::King }));
    assert_eq!(Piece::from_char('p'), Some(Piece { color: Color::Black, role: Role::Pawn }));
    assert_eq!(Piece::from_char('1'), None);
    let pieces = [
        Piece { color: Color::White, role: Role::Rook },
        Piece { color: Color::Black, role: Role::Bishop },
        Piece { color: Color::White, role: Role::Pawn },
        Piece { color: Color::Black, role: Role::King },
    ];
    for p in pieces.iter() {
        assert_eq!(Piece::from_char(p.clone().char()), Some(p.clone()));
    }
}

#[test]
fn square_coords() {
    let d6 = sq(3, 5);
    assert_eq!(d6.index(), 43);
    assert_eq!(d6.file(), 3);
    assert_eq!(d6.rank(), 5);
    assert_eq!(Square::from_index(43), d6);
}

#[test]
fn from_uci_normal() {
    let m = Move::from_uci("e2e4");
    assert_eq!(m, Some(Move::Normal { from: sq(4, 1), to: sq(4, 3), promotion: None }));
}

#[test]
fn from_uci_promotion() {
    let m = Move::from_uci("e7e8q");
    assert_eq!(
        m,
        Some(Move::Normal { from: sq(4, 6), to: sq(4, 7), promotion: Some(Role::Queen) })
    );
    assert_eq!(Move::from_uci("e7e8x"), None);
}

#[test]
fn from_uci_put() {
    assert_eq!(Move::from_uci("N@e4"), Some(Move::Put { role: Role::Knight, to: sq(4, 3) }));
    assert_eq!(Move::from_uci("n@e4"), Some(Move::Put { role: Role::Knight, to: sq(4, 3) }));
    assert_eq!(Move::from_uci("Z@e4"), None);
}

#[test]
fn from_uci_null() {
    assert_eq!(Move::from_uci("0000"), Some(Move::Null));
}

#[test]
fn from_uci_malformed() {
    assert_eq!(Move::from_uci(""), None);
    assert_eq!(Move::from_uci("e2"), None);
    assert_eq!(Move::from_uci("e2e9"), None);
    assert_eq!(Move::from_uci("zz@e4"), None);
    assert_eq!(Move::from_uci("e2e4e5"), None);
}

#[test]
fn uci_strings() {
    assert_eq!(Move::Normal { from: sq(4, 1), to: sq(4, 3), promotion: None }.uci(), "e2e4");
    assert_eq!(
        Move::Normal { from: sq(0, 6), to: sq(0, 7), promotion: Some(Role::Knight) }.uci(),
        "a7a8n"
    );
    assert_eq!(Move::Put { role: Role::Pawn, to: sq(7, 0) }.uci(), "P@h1");
    assert_eq!(Move::Null.uci(), "0000");
}

#[test]
fn uci_round_trip_all_kinds() {
    let mut moves: Vec<Move> = vec![Move::Null];
    for &(f1, r1, f2, r2) in [(0u8, 0u8, 7u8, 7u8), (4, 1, 4, 3), (6, 7, 5, 5)].iter() {
        moves.push(Move::Normal { from: sq(f1, r1), to: sq(f2, r2), promotion: None });
    }
    let roles = [Role::Pawn, Role::Knight, Role::Bishop, Role::Rook, Role::Queen, Role::King];
    for &r in roles.iter() {
        moves.push(Move::Normal { from: sq(1, 6), to: sq(1, 7), promotion: Some(r) });
        moves.push(Move::Put { role: r, to: sq(2, 2) });
    }
    for m in moves.iter() {
        assert_eq!(Move::from_uci(&m.uci()), Some(*m));
    }
}
