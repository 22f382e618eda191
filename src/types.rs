use vstd::prelude::*;

verus! {

/// Side to move: Black moves toward lower rank indices, White toward higher ones.
#[derive(Clone, Copy, PartialEq, Eq, Structural, Debug)]
pub enum Color {
    Black,
    White,
}

impl Color {
    pub const BLACK: Color = Color::Black;
    pub const WHITE: Color = Color::White;

    /// The other color.
    pub fn inverse(self) -> (r: Color)
        ensures
            r as u8 == 1 - self as u8,
    {
        match self {
            Color::Black => Color::White,
            Color::White => Color::Black,
        }
    }

    /// The color with index `v` (0 Black, 1 White).
    pub fn from_index(v: u8) -> (r: Color)
        requires
            v <= 1,
        ensures
            r as u8 == v,
    {
        if v == 0 {
            Color::Black
        } else {
            Color::White
        }
    }

    /// The color of a (non-empty) piece.
    pub fn new(pc: Piece) -> (r: Color)
        requires
            pc.wf(),
        ensures
            r == pc.color(),
    {
        Color::from_index(pc.0 / 16)
    }
}

/// Kind of a piece. Code 0 stands for "any occupied square"; promoted kinds
/// carry the promotion bit (8) on top of their unpromoted kind.
#[derive(Clone, Copy, PartialEq, Eq, Structural, Debug)]
pub enum PieceType {
    Occupied,
    Pawn,
    Lance,
    Knight,
    Silver,
    Bishop,
    Rook,
    Gold,
    King,
    ProPawn,
    ProLance,
    ProKnight,
    ProSilver,
    Horse,
    Dragon,
}

pub const PROMOTION_BIT: u8 = 8;

impl PieceType {
    pub const OCCUPIED: PieceType = PieceType::Occupied;
    pub const PAWN: PieceType = PieceType::Pawn;
    pub const LANCE: PieceType = PieceType::Lance;
    pub const KNIGHT: PieceType = PieceType::Knight;
    pub const SILVER: PieceType = PieceType::Silver;
    pub const BISHOP: PieceType = PieceType::Bishop;
    pub const ROOK: PieceType = PieceType::Rook;
    pub const GOLD: PieceType = PieceType::Gold;
    pub const KING: PieceType = PieceType::King;
    pub const PRO_PAWN: PieceType = PieceType::ProPawn;
    pub const PRO_LANCE: PieceType = PieceType::ProLance;
    pub const PRO_KNIGHT: PieceType = PieceType::ProKnight;
    pub const PRO_SILVER: PieceType = PieceType::ProSilver;
    pub const HORSE: PieceType = PieceType::Horse;
    pub const DRAGON: PieceType = PieceType::Dragon;

    /// The kind with a given code.
    pub fn from_code(v: u8) -> (r: PieceType)
        requires
            v <= 14,
        ensures
            r as u8 == v,
    {
        if v == 0 {
            PieceType::Occupied
        }         else if v == 1 {
            PieceType::Pawn
        }         else if v == 2 {
            PieceType::Lance
        }         else if v == 3 {
            PieceType::Knight
        }         else if v == 4 {
            PieceType::Silver
        }         else if v == 5 {
            PieceType::Bishop
        }         else if v == 6 {
            PieceType::Rook
        }         else if v == 7 {
            PieceType::Gold
        }         else if v == 8 {
            PieceType::King
        }         else if v == 9 {
            PieceType::ProPawn
        }         else if v == 10 {
            PieceType::ProLance
        }         else if v == 11 {
            PieceType::ProKnight
        }         else if v == 12 {
            PieceType::ProSilver
        }         else if v == 13 {
            PieceType::Horse
        } else {
            PieceType::Dragon
        }
    }

    /// A kind that a real piece can have.
    pub open spec fn wf(self) -> bool {
        1 <= (self as u8) <= 14
    }

    /// A kind that can be held in hand and dropped.
    pub open spec fn is_hand_type(self) -> bool {
        1 <= (self as u8) <= 7
    }

    pub open spec fn spec_is_promotable(self) -> bool {
        1 <= (self as u8) <= 6
    }

    /// The code of the unpromoted kind: what a captured piece becomes in hand.
    pub open spec fn demoted_code(self) -> u8 {
        if 9 <= (self as u8) <= 14 {
            ((self as u8) - 8) as u8
        } else {
            self as u8
        }
    }

    /// The kind of a piece.
    pub fn new(pc: Piece) -> (r: PieceType)
        requires
            pc.wf(),
        ensures
            r.wf(),
            r as u8 == pc.type_code(),
    {
        PieceType::from_code(pc.0 % 16)
    }

    /// Whether the kind can promote.
    pub fn is_promotable(self) -> (r: bool)
        ensures
            r == self.spec_is_promotable(),
    {
        1 <= (self as u8) && (self as u8) <= 6
    }

    /// The promoted kind.
    pub fn to_promote(self) -> (r: PieceType)
        requires
            self.spec_is_promotable(),
        ensures
            r as u8 == (self as u8) + 8,
            r.wf(),
    {
        PieceType::from_code((self as u8) + PROMOTION_BIT)
    }

    /// The unpromoted kind.
    pub fn to_demote(self) -> (r: PieceType)
        ensures
            r as u8 == self.demoted_code(),
    {
        if 9 <= (self as u8) && (self as u8) <= 14 {
            PieceType::from_code((self as u8) - PROMOTION_BIT)
        } else {
            self
        }
    }
}

/// A piece on the board: its kind in the low four bits, its color in bit 4.
/// Code 0 is the empty square.
#[derive(Clone, Copy, PartialEq, Eq, Structural, Debug)]
pub struct Piece(pub u8);

pub const WHITE_BIT: u8 = 16;

pub open spec fn is_piece_code(v: u8) -> bool {
    (1 <= v <= 14) || (17 <= v <= 30)
}

impl Piece {
    /// A real (non-empty) piece.
    pub open spec fn wf(self) -> bool {
        is_piece_code(self.0)
    }

    pub open spec fn color(self) -> Color {
        if self.0 < 16 {
            Color::Black
        } else {
            Color::White
        }
    }

    /// The code of the piece's kind.
    pub open spec fn type_code(self) -> u8 {
        (self.0 % 16) as u8
    }

    pub open spec fn of(c: Color, pt: PieceType) -> Piece {
        Piece((pt as u8 + 16 * (c as u8)) as u8)
    }

    /// The piece of the same color with kind code `t`.
    pub open spec fn with_type(self, t: u8) -> Piece {
        Piece((t + 16 * (self.0 / 16)) as u8)
    }

    /// The empty square.
    pub fn empty() -> (r: Piece)
        ensures
            r.0 == 0,
    {
        Piece(0)
    }

    /// The piece of color `c` and kind `pt`.
    pub fn new(c: Color, pt: PieceType) -> (r: Piece)
        requires
            pt.wf(),
        ensures
            r == Piece::of(c, pt),
            r.wf(),
            r.color() == c,
            r.type_code() == pt as u8,
    {
        Piece(pt as u8 + WHITE_BIT * (c as u8))
    }

    /// Whether this is the empty square.
    pub fn is_empty(self) -> (r: bool)
        ensures
            r == (self.0 == 0),
    {
        self.0 == 0
    }

    /// The same piece with the promotion bit set.
    pub fn to_promote(self) -> (r: Piece)
        requires
            self.wf(),
            1 <= self.type_code() <= 6,
        ensures
            r.wf(),
            r.0 == self.0 + 8,
            r.color() == self.color(),
            r.type_code() == self.type_code() + 8,
    {
        Piece(self.0 + PROMOTION_BIT)
    }

    /// The same kind in the other color.
    pub fn inverse(self) -> (r: Piece)
        requires
            self.wf(),
        ensures
            r.wf(),
            r.color() != self.color(),
            r.type_code() == self.type_code(),
    {
        if self.0 >= WHITE_BIT {
            Piece(self.0 - WHITE_BIT)
        } else {
            Piece(self.0 + WHITE_BIT)
        }
    }
}

/// A square, numbered file-major: `9 * file + rank`, file 0 being the
/// rightmost file "1" and rank 0 the top rank "a".
#[derive(Clone, Copy, PartialEq, Eq, Structural, Debug)]
pub struct Square(pub u8);

pub const SQUARE_NUM: usize = 81;

impl Square {
    pub open spec fn wf(self) -> bool {
        self.0 < 81
    }

    pub open spec fn file(self) -> int {
        self.0 as int / 9
    }

    pub open spec fn rank(self) -> int {
        self.0 as int % 9
    }

    /// The square at a 0-based file and rank.
    pub fn new(file: u8, rank: u8) -> (r: Square)
        requires
            file < 9,
            rank < 9,
        ensures
            r.wf(),
            r.0 == 9 * file + rank,
            r.file() == file,
            r.rank() == rank,
    {
        Square(9 * file + rank)
    }

    /// The 0-based file.
    pub fn file_index(self) -> (r: u8)
        requires
            self.wf(),
        ensures
            r == self.file(),
            r < 9,
    {
        self.0 / 9
    }

    /// The 0-based rank.
    pub fn rank_index(self) -> (r: u8)
        requires
            self.wf(),
        ensures
            r == self.rank(),
            r < 9,
    {
        self.0 % 9
    }

    /// File and rank as USI writes them: a digit and a letter.
    pub fn to_usi_chars(self) -> (r: (char, char))
        requires
            self.wf(),
        ensures
            r.0 == file_char(self.file()),
            r.1 == rank_char(self.rank()),
    {
        (digit_char(self.0 / 9), letter_char(self.0 % 9))
    }
}

/// The USI digit of a 0-based file.
pub open spec fn file_char(f: int) -> char {
    (f + 49) as char
}

/// The USI letter of a 0-based rank.
pub open spec fn rank_char(r: int) -> char {
    (r + 97) as char
}

/// The USI digit of a 0-based file.
pub fn digit_char(d: u8) -> (c: char)
    requires
        d < 9,
    ensures
        c == file_char(d as int),
{
    (d + 49) as char
}

/// The USI letter of a 0-based rank.
pub fn letter_char(d: u8) -> (c: char)
    requires
        d < 9,
    ensures
        c == rank_char(d as int),
{
    (d + 97) as char
}

/// The 0-based file of a USI digit '1'..'9'.
pub fn file_from_usi_char(c: char) -> (r: Option<u8>)
    ensures
        r matches Some(f) ==> f < 9 && file_char(f as int) == c,
        r is None <==> !('1' <= c && c <= '9'),
{
    if '1' <= c && c <= '9' {
        Some(((c as u32) - 49) as u8)
    } else {
        None
    }
}

/// The 0-based rank of a USI letter 'a'..'i'.
pub fn rank_from_usi_char(c: char) -> (r: Option<u8>)
    ensures
        r matches Some(x) ==> x < 9 && rank_char(x as int) == c,
        r is None <==> !('a' <= c && c <= 'i'),
{
    if 'a' <= c && c <= 'i' {
        Some(((c as u32) - 97) as u8)
    } else {
        None
    }
}

/// The upper-case letter of an unpromoted kind, as SFEN and USI write it.
pub open spec fn type_letter(pt: u8) -> char {
    if pt == 1 {
        'P'
    } else if pt == 2 {
        'L'
    } else if pt == 3 {
        'N'
    } else if pt == 4 {
        'S'
    } else if pt == 5 {
        'B'
    } else if pt == 6 {
        'R'
    } else if pt == 7 {
        'G'
    } else {
        'K'
    }
}

/// The kind that an upper-case letter stands for, 0 for none.
pub open spec fn letter_type(c: char) -> u8 {
    if c == 'P' {
        1
    } else if c == 'L' {
        2
    } else if c == 'N' {
        3
    } else if c == 'S' {
        4
    } else if c == 'B' {
        5
    } else if c == 'R' {
        6
    } else if c == 'G' {
        7
    } else if c == 'K' {
        8
    } else {
        0
    }
}

/// The upper-case letter of an unpromoted kind.
pub fn type_letter_of(pt: u8) -> (c: char)
    requires
        1 <= pt <= 8,
    ensures
        c == type_letter(pt),
        letter_type(c) == pt,
{
    if pt == 1 {
        'P'
    } else if pt == 2 {
        'L'
    } else if pt == 3 {
        'N'
    } else if pt == 4 {
        'S'
    } else if pt == 5 {
        'B'
    } else if pt == 6 {
        'R'
    } else if pt == 7 {
        'G'
    } else {
        'K'
    }
}

/// The kind of an upper-case letter, 0 for none.
pub fn letter_type_of(c: char) -> (pt: u8)
    ensures
        pt == letter_type(c),
        pt <= 8,
        1 <= pt ==> type_letter(pt) == c,
{
    if c == 'P' {
        1
    } else if c == 'L' {
        2
    } else if c == 'N' {
        3
    } else if c == 'S' {
        4
    } else if c == 'B' {
        5
    } else if c == 'R' {
        6
    } else if c == 'G' {
        7
    } else if c == 'K' {
        8
    } else {
        0
    }
}

pub open spec fn to_lower(c: char) -> char {
    (c as u32 + 32) as char
}

pub open spec fn is_upper(c: char) -> bool {
    'A' <= c && c <= 'Z'
}

pub open spec fn is_lower(c: char) -> bool {
    'a' <= c && c <= 'z'
}

/// The lower-case form of an upper-case letter.
pub fn lower_of(c: char) -> (r: char)
    requires
        is_upper(c),
    ensures
        r == to_lower(c),
        is_lower(r),
{
    ((c as u8) + 32) as char
}

} // verus!
