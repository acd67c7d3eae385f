//! Piece types, colors and the move encoding.
//!
//! `Move` is a plain value: a normal move with an optional promotion, a piece
//! drop, or a null move.  `Move::from_uci` parses the UCI-style token and
//! `Move::uci` prints it; `lemma_uci_roundtrip` proves that printing then
//! parsing gives the move back.

use vstd::prelude::*;
use vstd::string::StrSliceExecFns;
use vstd::string::StringExecFns;
use crate::square::{spec_square, Square};
use crate::geometry::{file_of, rank_of, sq_at};

verus! {

#[derive(Copy, Clone, PartialEq, Eq, Structural, Debug)]
pub enum Color {
    Black,
    White,
}

#[derive(Copy, Clone, PartialEq, Eq, Structural, Debug)]
pub enum Role {
    Pawn,
    Knight,
    Bishop,
    Rook,
    Queen,
    King,
}

#[derive(Clone, PartialEq, Eq, Structural, Debug)]
pub struct Piece {
    pub color: Color,
    pub role: Role,
}

impl Color {
    /// Picks the first value for white and the second for black.
    pub fn fold<T>(self, white: T, black: T) -> (r: T)
        ensures
            r == if self == Color::White {
                white
            } else {
                black
            },
    {
        match self {
            Color::Black => black,
            Color::White => white,
        }
    }

    /// The opposite color.
    pub fn not(self) -> (r: Color)
        ensures
            r == if self == Color::White {
                Color::Black
            } else {
                Color::White
            },
    {
        self.fold(Color::Black, Color::White)
    }

    pub fn pawn(self) -> (r: Piece)
        ensures
            r == (Piece { color: self, role: Role::Pawn }),
    {
        Role::Pawn.of(self)
    }

    pub fn knight(self) -> (r: Piece)
        ensures
            r == (Piece { color: self, role: Role::Knight }),
    {
        Role::Knight.of(self)
    }

    pub fn bishop(self) -> (r: Piece)
        ensures
            r == (Piece { color: self, role: Role::Bishop }),
    {
        Role::Bishop.of(self)
    }

    pub fn rook(self) -> (r: Piece)
        ensures
            r == (Piece { color: self, role: Role::Rook }),
    {
        Role::Rook.of(self)
    }

    pub fn queen(self) -> (r: Piece)
        ensures
            r == (Piece { color: self, role: Role::Queen }),
    {
        Role::Queen.of(self)
    }

    pub fn king(self) -> (r: Piece)
        ensures
            r == (Piece { color: self, role: Role::King }),
    {
        Role::King.of(self)
    }
}

/// The lower-case letter of a role.
pub open spec fn role_char(r: Role) -> char {
    match r {
        Role::Pawn => 'p',
        Role::Knight => 'n',
        Role::Bishop => 'b',
        Role::Rook => 'r',
        Role::Queen => 'q',
        Role::King => 'k',
    }
}

/// The upper-case letter of a role.
pub open spec fn role_upper_char(r: Role) -> char {
    match r {
        Role::Pawn => 'P',
        Role::Knight => 'N',
        Role::Bishop => 'B',
        Role::Rook => 'R',
        Role::Queen => 'Q',
        Role::King => 'K',
    }
}

/// The role a lower-case letter stands for.
pub open spec fn role_from_char(c: char) -> Option<Role> {
    if c == 'p' {
        Some(Role::Pawn)
    } else if c == 'n' {
        Some(Role::Knight)
    } else if c == 'b' {
        Some(Role::Bishop)
    } else if c == 'r' {
        Some(Role::Rook)
    } else if c == 'q' {
        Some(Role::Queen)
    } else if c == 'k' {
        Some(Role::King)
    } else {
        None
    }
}

/// Lower-casing restricted to the letters that name a role; other characters
/// pass through unchanged, which leaves the parse result the same as full
/// ASCII lower-casing would.
pub open spec fn lower_role_char(c: char) -> char {
    if c == 'P' {
        'p'
    } else if c == 'N' {
        'n'
    } else if c == 'B' {
        'b'
    } else if c == 'R' {
        'r'
    } else if c == 'Q' {
        'q'
    } else if c == 'K' {
        'k'
    } else {
        c
    }
}

impl Role {
    /// The role named by a lower-case letter.
    pub fn from_char(ch: char) -> (r: Option<Role>)
        ensures
            r == role_from_char(ch),
    {
        match ch {
            'p' => Some(Role::Pawn),
            'n' => Some(Role::Knight),
            'b' => Some(Role::Bishop),
            'r' => Some(Role::Rook),
            'q' => Some(Role::Queen),
            'k' => Some(Role::King),
            _ => None,
        }
    }

    /// The piece of this role in the given color.
    pub fn of(self, color: Color) -> (r: Piece)
        ensures
            r == (Piece { color, role: self }),
    {
        Piece { color, role: self }
    }

    /// The role's lower-case letter.
    pub fn char(self) -> (r: char)
        ensures
            r == role_char(self),
    {
        match self {
            Role::Pawn => 'p',
            Role::Knight => 'n',
            Role::Bishop => 'b',
            Role::Rook => 'r',
            Role::Queen => 'q',
            Role::King => 'k',
        }
    }
}

/// The letter of a piece: upper case for white, lower case for black.
pub open spec fn piece_char(p: Piece) -> char {
    if p.color == Color::White {
        role_upper_char(p.role)
    } else {
        role_char(p.role)
    }
}

/// The piece a letter stands for: upper case is white, lower case black.
pub open spec fn piece_from_char(c: char) -> Option<Piece> {
    match role_from_char(lower_role_char(c)) {
        Some(role) => Some(
            Piece {
                color: if c == lower_role_char(c) {
                    Color::Black
                } else {
                    Color::White
                },
                role,
            },
        ),
        None => None,
    }
}

impl Piece {
    /// The piece's letter.
    pub fn char(self) -> (r: char)
        ensures
            r == piece_char(self),
    {
        match self.color {
            Color::White => match self.role {
                Role::Pawn => 'P',
                Role::Knight => 'N',
                Role::Bishop => 'B',
                Role::Rook => 'R',
                Role::Queen => 'Q',
                Role::King => 'K',
            },
            Color::Black => self.role.char(),
        }
    }

    /// The piece named by a letter.
    pub fn from_char(ch: char) -> (r: Option<Piece>)
        ensures
            r == piece_from_char(ch),
    {
        let lowered = match ch {
            'P' => 'p',
            'N' => 'n',
            'B' => 'b',
            'R' => 'r',
            'Q' => 'q',
            'K' => 'k',
            other => other,
        };
        match Role::from_char(lowered) {
            Some(role) => Some(
                role.of(
                    if lowered == ch {
                        Color::Black
                    } else {
                        Color::White
                    },
                ),
            ),
            None => None,
        }
    }
}

/// A move: a normal from-to move with an optional promotion, a piece drop,
/// or the null move.
#[derive(Clone, Copy, PartialEq, Eq, Structural, Debug)]
pub enum Move {
    Normal { from: Square, to: Square, promotion: Option<Role> },
    Put { role: Role, to: Square },
    Null,
}

/// The file letter `a`..`h`.
pub open spec fn file_char(f: int) -> char {
    if f == 0 {
        'a'
    } else if f == 1 {
        'b'
    } else if f == 2 {
        'c'
    } else if f == 3 {
        'd'
    } else if f == 4 {
        'e'
    } else if f == 5 {
        'f'
    } else if f == 6 {
        'g'
    } else {
        'h'
    }
}

/// The rank digit `1`..`8`.
pub open spec fn rank_char(r: int) -> char {
    if r == 0 {
        '1'
    } else if r == 1 {
        '2'
    } else if r == 2 {
        '3'
    } else if r == 3 {
        '4'
    } else if r == 4 {
        '5'
    } else if r == 5 {
        '6'
    } else if r == 6 {
        '7'
    } else {
        '8'
    }
}

/// The two-character name of a square, file letter then rank digit.
pub open spec fn sq_chars(s: int) -> Seq<char> {
    seq![file_char(file_of(s)), rank_char(rank_of(s))]
}

/// The square named by a file letter and a rank digit.
pub open spec fn parse_sq(c1: char, c2: char) -> Option<int> {
    if 97 <= c1 as int <= 104 && 49 <= c2 as int <= 56 {
        Some(sq_at(c2 as int - 49, c1 as int - 97))
    } else {
        None
    }
}

/// The UCI-style token of a move.
pub open spec fn uci_chars(m: Move) -> Seq<char> {
    match m {
        Move::Normal { from, to, promotion: None } => sq_chars(from@) + sq_chars(to@),
        Move::Normal { from, to, promotion: Some(p) } => sq_chars(from@) + sq_chars(to@) + seq![
            role_char(p),
        ],
        Move::Put { role, to } => seq![role_upper_char(role), '@'] + sq_chars(to@),
        Move::Null => seq!['0', '0', '0', '0'],
    }
}

/// What parsing a UCI-style token yields: a normal move when the token is two
/// square names and an optional promotion letter, a drop when it is a piece
/// letter, `@` and a square name, the null move for `0000`, and nothing for
/// any other token.
pub open spec fn parse_uci(s: Seq<char>) -> Option<Move> {
    if s.len() < 4 || s.len() > 5 {
        None
    } else if parse_sq(s[0], s[1]) is Some && parse_sq(s[2], s[3]) is Some {
        let from = spec_square(parse_sq(s[0], s[1])->0);
        let to = spec_square(parse_sq(s[2], s[3])->0);
        if s.len() == 5 {
            match role_from_char(s[4]) {
                Some(role) => Some(Move::Normal { from, to, promotion: Some(role) }),
                None => None,
            }
        } else {
            Some(Move::Normal { from, to, promotion: None })
        }
    } else if s[1] == '@' && parse_sq(s[2], s[3]) is Some {
        match role_from_char(lower_role_char(s[0])) {
            Some(role) => Some(Move::Put { role, to: spec_square(parse_sq(s[2], s[3])->0) }),
            None => None,
        }
    } else if s.len() == 4 && s[0] == '0' && s[1] == '0' && s[2] == '0' && s[3] == '0' {
        Some(Move::Null)
    } else {
        None
    }
}

/// A move whose squares are on the board.
pub open spec fn move_wf(m: Move) -> bool {
    match m {
        Move::Normal { from, to, promotion } => 0 <= from@ < 64 && 0 <= to@ < 64,
        Move::Put { role, to } => 0 <= to@ < 64,
        Move::Null => true,
    }
}

fn lower_role_letter(c: char) -> (r: char)
    ensures
        r == lower_role_char(c),
{
    match c {
        'P' => 'p',
        'N' => 'n',
        'B' => 'b',
        'R' => 'r',
        'Q' => 'q',
        'K' => 'k',
        other => other,
    }
}

fn parse_square_chars(c1: char, c2: char) -> (r: Option<Square>)
    ensures
        r == match parse_sq(c1, c2) {
            Some(i) => Some(spec_square(i)),
            None => None::<Square>,
        },
{
    let u1 = c1 as u32;
    let u2 = c2 as u32;
    if 97 <= u1 && u1 <= 104 && 49 <= u2 && u2 <= 56 {
        let sq = Square::from_coords((u1 - 97) as u8, (u2 - 49) as u8);
        proof {
            crate::square::lemma_spec_square(parse_sq(c1, c2)->0);
            crate::square::lemma_square_view_injective(sq, spec_square(parse_sq(c1, c2)->0));
        }
        Some(sq)
    } else {
        None
    }
}

fn role_str(r: Role) -> (s: &'static str)
    ensures
        s@ == seq![role_char(r)],
{
    proof {
        reveal_strlit("p");
        reveal_strlit("n");
        reveal_strlit("b");
        reveal_strlit("r");
        reveal_strlit("q");
        reveal_strlit("k");
    }
    let s = match r {
        Role::Pawn => "p",
        Role::Knight => "n",
        Role::Bishop => "b",
        Role::Rook => "r",
        Role::Queen => "q",
        Role::King => "k",
    };
    proof {
        assert(s@ =~= seq![role_char(r)]);
    }
    s
}

fn role_upper_str(r: Role) -> (s: &'static str)
    ensures
        s@ == seq![role_upper_char(r)],
{
    proof {
        reveal_strlit("P");
        reveal_strlit("N");
        reveal_strlit("B");
        reveal_strlit("R");
        reveal_strlit("Q");
        reveal_strlit("K");
    }
    let s = match r {
        Role::Pawn => "P",
        Role::Knight => "N",
        Role::Bishop => "B",
        Role::Rook => "R",
        Role::Queen => "Q",
        Role::King => "K",
    };
    proof {
        assert(s@ =~= seq![role_upper_char(r)]);
    }
    s
}

/// Appends the two-character square name.
fn push_sq(out: &mut String, sq: Square)
    ensures
        final(out)@ == old(out)@ + sq_chars(sq@),
{
    let files = "abcdefgh";
    let ranks = "12345678";
    proof {
        reveal_strlit("abcdefgh");
        reveal_strlit("12345678");
    }
    let f = sq.file();
    let r = sq.rank();
    let fs = files.substring_char(f as usize, f as usize + 1);
    let rs = ranks.substring_char(r as usize, r as usize + 1);
    proof {
        assert(fs@ =~= seq![file_char(sq@ % 8)]);
        assert(rs@ =~= seq![rank_char(sq@ / 8)]);
    }
    out.append(fs);
    out.append(rs);
    proof {
        assert(out@ =~= old(out)@ + sq_chars(sq@));
    }
}

impl Move {
    /// Parses a UCI-style move token.
    pub fn from_uci(uci: &str) -> (r: Option<Move>)
        ensures
            r == parse_uci(uci@),
    {
        let n = uci.unicode_len();
        if n < 4 || n > 5 {
            return None;
        }
        let c0 = uci.get_char(0);
        let c1 = uci.get_char(1);
        let c2 = uci.get_char(2);
        let c3 = uci.get_char(3);
        let sq1 = parse_square_chars(c0, c1);
        let sq2 = parse_square_chars(c2, c3);
        if sq1.is_some() && sq2.is_some() {
            let from = sq1.unwrap();
            let to = sq2.unwrap();
            if n == 5 {
                let c4 = uci.get_char(4);
                match Role::from_char(c4) {
                    Some(role) => Some(Move::Normal { from, to, promotion: Some(role) }),
                    None => None,
                }
            } else {
                Some(Move::Normal { from, to, promotion: None })
            }
        } else if c1 == '@' && sq2.is_some() {
            let to = sq2.unwrap();
            match Role::from_char(lower_role_letter(c0)) {
                Some(role) => Some(Move::Put { role, to }),
                None => None,
            }
        } else if n == 4 && c0 == '0' && c1 == '0' && c2 == '0' && c3 == '0' {
            Some(Move::Null)
        } else {
            None
        }
    }

    /// The move's UCI-style token.
    pub fn uci(&self) -> (r: String)
        ensures
            r@ == uci_chars(*self),
    {
        let mut out = String::new();
        match self {
            Move::Normal { from, to, promotion } => {
                push_sq(&mut out, *from);
                push_sq(&mut out, *to);
                match promotion {
                    Some(p) => {
                        out.append(role_str(*p));
                    },
                    None => {},
                }
            },
            Move::Put { role, to } => {
                out.append(role_upper_str(*role));
                let at = "@";
                proof {
                    reveal_strlit("@");
                    assert(at@ =~= seq!['@']);
                }
                out.append(at);
                push_sq(&mut out, *to);
            },
            Move::Null => {
                let z = "0000";
                proof {
                    reveal_strlit("0000");
                    assert(z@ =~= seq!['0', '0', '0', '0']);
                }
                out.append(z);
            },
        }
        proof {
            assert(out@ =~= uci_chars(*self));
        }
        out
    }
}

/// Parsing the printed name of a square gives the square's index back.
proof fn lemma_sq_chars_parse(s: int)
    requires
        0 <= s < 64,
    ensures
        parse_sq(file_char(file_of(s)), rank_char(rank_of(s))) == Some(s),
{
}

/// Printing any move and parsing the token again yields the same move.
pub proof fn lemma_uci_roundtrip(m: Move)
    requires
        move_wf(m),
    ensures
        parse_uci(uci_chars(m)) == Some(m),
{
    let s = uci_chars(m);
    match m {
        Move::Normal { from, to, promotion } => {
            lemma_sq_chars_parse(from@);
            lemma_sq_chars_parse(to@);
            assert(s[0] == file_char(file_of(from@)));
            assert(s[1] == rank_char(rank_of(from@)));
            assert(s[2] == file_char(file_of(to@)));
            assert(s[3] == rank_char(rank_of(to@)));
            crate::square::lemma_spec_square(from@);
            crate::square::lemma_spec_square(to@);
            crate::square::lemma_square_view_injective(spec_square(from@), from);
            crate::square::lemma_square_view_injective(spec_square(to@), to);
            match promotion {
                Some(p) => {
                    assert(s[4] == role_char(p));
                },
                None => {},
            }
        },
        Move::Put { role, to } => {
            lemma_sq_chars_parse(to@);
            assert(s[0] == role_upper_char(role));
            assert(s[1] == '@');
            assert(s[2] == file_char(file_of(to@)));
            assert(s[3] == rank_char(rank_of(to@)));
            crate::square::lemma_spec_square(to@);
            crate::square::lemma_square_view_injective(spec_square(to@), to);
        },
        Move::Null => {
        },
    }
}

} // verus!
