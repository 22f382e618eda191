use vstd::prelude::*;
use crate::text::string_from_chars;
use crate::types::{
    Piece, PieceType, Square, digit_char, letter_char, type_letter_of, is_piece_code, file_char,
    rank_char, type_letter,
};

verus! {

pub const TO_MASK: u32 = 0x7f;
pub const FROM_MASK: u32 = 0xfe00;
pub const PIECE_TYPE_DROPPED_MASK: u32 = 0x1e00;
pub const PIECE_DROPPED_MASK: u32 = 0x3e00;
pub const MOVED_PIECE_MASK: u32 = 0x1f_0000;
pub const PROMOTE_FLAG: u32 = 0x80;
pub const DROP_FLAG: u32 = 0x100;
pub const FROM_SHIFT: u32 = 9;
pub const MOVED_PIECE_SHIFT: u32 = 16;
pub const NULL_CODE: u32 = 0x201;
pub const WIN_CODE: u32 = 0x402;
pub const RESIGN_CODE: u32 = 0x603;

/// Destination square field.
pub open spec fn to_field(v: u32) -> u32 {
    v & 0x7f
}

/// Origin square field (board moves).
pub open spec fn from_field(v: u32) -> u32 {
    (v & 0xfe00) >> 9
}

/// Dropped piece field (drops).
pub open spec fn dropped_field(v: u32) -> u32 {
    (v & 0x3e00) >> 9
}

/// Moved piece field (board moves), the piece before any promotion.
pub open spec fn moved_field(v: u32) -> u32 {
    (v & 0x1f_0000) >> 16
}

pub open spec fn promote_bit(v: u32) -> bool {
    v & 0x80 != 0
}

pub open spec fn drop_bit(v: u32) -> bool {
    v & 0x100 != 0
}

pub open spec fn unpromote_code(from: u8, to: u8, pc: u8) -> u32 {
    ((pc as u32) << 16) | ((from as u32) << 9) | (to as u32)
}

pub open spec fn drop_code(pc: u8, to: u8) -> u32 {
    0x100 | ((pc as u32) << 9) | (to as u32)
}

pub open spec fn is_hand_piece_code(v: u32) -> bool {
    is_piece_code(v as u8) && v < 32 && 1 <= v % 16 <= 7
}

/// A 32-bit move word. It is never zero, so that "no move" can be written as 0.
#[derive(Clone, Copy, PartialEq, Eq, Structural, Debug)]
pub struct Move(pub u32);

impl Move {
    /// One of the three reserved words that are no moves.
    pub open spec fn is_sentinel(self) -> bool {
        self.0 == NULL_CODE || self.0 == WIN_CODE || self.0 == RESIGN_CODE
    }

    /// A board move as built by `new_unpromote` or `new_promote`.
    pub open spec fn is_board_move(self) -> bool {
        &&& !drop_bit(self.0)
        &&& self.0 >> 21 == 0
        &&& to_field(self.0) < 81
        &&& from_field(self.0) < 81
        &&& from_field(self.0) != to_field(self.0)
        &&& is_piece_code(moved_field(self.0) as u8)
    }

    /// A drop as built by `new_drop`.
    pub open spec fn is_drop_move(self) -> bool {
        &&& drop_bit(self.0)
        &&& !promote_bit(self.0)
        &&& self.0 >> 14 == 0
        &&& to_field(self.0) < 81
        &&& is_hand_piece_code(dropped_field(self.0))
    }

    /// A real move: a board move or a drop.
    pub open spec fn is_normal(self) -> bool {
        self.is_board_move() || self.is_drop_move()
    }

    /// A word that this library ever builds.
    pub open spec fn wf(self) -> bool {
        self.is_normal() || self.is_sentinel()
    }

    /// The reserved words are no real moves.
    pub proof fn lemma_sentinel_not_normal(self)
        requires
            self.is_sentinel(),
        ensures
            !self.is_normal(),
    {
        let v = self.0;
        assert(v == 0x201 || v == 0x402 || v == 0x603 ==> v & 0x100 == 0 && (v & 0xfe00) >> 9 == v
            & 0x7f) by (bit_vector);
    }

    pub open spec fn spec_to(self) -> u8 {
        to_field(self.0) as u8
    }

    pub open spec fn spec_from(self) -> u8 {
        from_field(self.0) as u8
    }

    /// The piece that stands on the destination after the move.
    pub open spec fn spec_piece_after(self) -> u8 {
        if drop_bit(self.0) {
            dropped_field(self.0) as u8
        } else if promote_bit(self.0) {
            (moved_field(self.0) + 8) as u8
        } else {
            moved_field(self.0) as u8
        }
    }

    /// The reserved word for a null move.
    pub fn null() -> (r: Move)
        ensures
            r.0 == NULL_CODE,
            r.wf(),
    {
        Move(NULL_CODE)
    }

    /// The reserved word for a win declaration.
    pub fn win() -> (r: Move)
        ensures
            r.0 == WIN_CODE,
            r.wf(),
    {
        Move(WIN_CODE)
    }

    /// The reserved word for resigning.
    pub fn resign() -> (r: Move)
        ensures
            r.0 == RESIGN_CODE,
            r.wf(),
    {
        Move(RESIGN_CODE)
    }

    /// A board move of `pc` from `from` to `to`, without promotion.
    pub fn new_unpromote(from: Square, to: Square, pc: Piece) -> (r: Move)
        requires
            from.wf(),
            to.wf(),
            pc.wf(),
        ensures
            r.0 == unpromote_code(from.0, to.0, pc.0),
            r.0 != 0,
            r.spec_to() == to.0,
            r.spec_from() == from.0,
            moved_field(r.0) == pc.0,
            !promote_bit(r.0),
            !drop_bit(r.0),
            from != to ==> r.is_board_move(),
    {
        let v: u32 = ((pc.0 as u32) << 16u32) | ((from.0 as u32) << 9u32) | (to.0 as u32);
        let p = pc.0 as u32;
        let f = from.0 as u32;
        let t = to.0 as u32;
        assert(v & 0x7f == t && (v & 0xfe00) >> 9 == f && (v & 0x1f_0000) >> 16 == p
            && v & 0x80 == 0 && v & 0x100 == 0 && v >> 21 == 0 && v != 0) by (bit_vector)
            requires
                v == (p << 16) | (f << 9) | t,
                1 <= p < 32,
                f < 81,
                t < 81,
        ;
        Move(v)
    }

    /// A board move of `pc` from `from` to `to` that promotes it.
    pub fn new_promote(from: Square, to: Square, pc: Piece) -> (r: Move)
        requires
            from.wf(),
            to.wf(),
            pc.wf(),
        ensures
            r.0 == 0x80 | unpromote_code(from.0, to.0, pc.0),
            r.0 != 0,
            r.spec_to() == to.0,
            r.spec_from() == from.0,
            moved_field(r.0) == pc.0,
            promote_bit(r.0),
            !drop_bit(r.0),
            from != to ==> r.is_board_move(),
    {
        let u = Move::new_unpromote(from, to, pc).0;
        let v: u32 = PROMOTE_FLAG | u;
        let p = pc.0 as u32;
        let f = from.0 as u32;
        let t = to.0 as u32;
        assert(v & 0x7f == t && (v & 0xfe00) >> 9 == f && (v & 0x1f_0000) >> 16 == p
            && v & 0x80 != 0 && v & 0x100 == 0 && v >> 21 == 0 && v != 0) by (bit_vector)
            requires
                u == (p << 16) | (f << 9) | t,
                v == 0x80 | u,
                1 <= p < 32,
                f < 81,
                t < 81,
        ;
        Move(v)
    }

    /// A drop of `pc` on `to`.
    pub fn new_drop(pc: Piece, to: Square) -> (r: Move)
        requires
            to.wf(),
            pc.wf(),
        ensures
            r.0 == drop_code(pc.0, to.0),
            r.0 != 0,
            r.spec_to() == to.0,
            dropped_field(r.0) == pc.0,
            drop_bit(r.0),
            !promote_bit(r.0),
            1 <= pc.0 % 16 <= 7 ==> r.is_drop_move(),
    {
        let p = pc.0 as u32;
        let t = to.0 as u32;
        let v: u32 = DROP_FLAG | (p << 9u32) | t;
        assert(v & 0x7f == t && (v & 0x3e00) >> 9 == p && v & 0x80 == 0 && v & 0x100 != 0
            && v >> 14 == 0 && v != 0) by (bit_vector)
            requires
                v == 0x100 | (p << 9) | t,
                1 <= p < 32,
                t < 81,
        ;
        Move(v)
    }

    /// The destination square.
    pub fn to(self) -> (r: Square)
        ensures
            r.0 == to_field(self.0),
            r.wf() || !self.is_normal(),
    {
        let v = self.0;
        assert(v & 0x7f < 128) by (bit_vector);
        Square((self.0 & TO_MASK) as u8)
    }

    /// The origin square of a board move.
    pub fn from(self) -> (r: Square)
        ensures
            r.0 == from_field(self.0),
            self.is_board_move() ==> r.wf(),
    {
        let v = self.0;
        assert((v & 0xfe00) >> 9 < 128) by (bit_vector);
        Square(((self.0 & FROM_MASK) >> FROM_SHIFT) as u8)
    }

    /// The dropped piece of a drop.
    pub fn piece_dropped(self) -> (r: Piece)
        ensures
            r.0 == dropped_field(self.0),
            self.is_drop_move() ==> r.wf(),
    {
        let v = self.0;
        assert((v & 0x3e00) >> 9 < 32) by (bit_vector);
        Piece(((self.0 & PIECE_DROPPED_MASK) >> FROM_SHIFT) as u8)
    }

    /// The kind of the dropped piece.
    pub fn piece_type_dropped(self) -> (r: PieceType)
        requires
            self.is_drop_move(),
        ensures
            r as u8 == dropped_field(self.0) % 16,
            r.is_hand_type(),
    {
        let v = self.0;
        assert((v & 0x1e00) >> 9 == ((v & 0x3e00) >> 9) % 16) by (bit_vector);
        PieceType::from_code(((self.0 & PIECE_TYPE_DROPPED_MASK) >> FROM_SHIFT) as u8)
    }

    /// The piece as it stood before the move (the dropped piece for a drop).
    pub fn piece_moved_before_move(self) -> (r: Piece)
        ensures
            r.0 == (if drop_bit(self.0) {
                dropped_field(self.0)
            } else {
                moved_field(self.0)
            }),
            self.is_normal() ==> r.wf(),
    {
        if self.is_drop() {
            self.piece_dropped()
        } else {
            let v = self.0;
            assert((v & 0x1f_0000) >> 16 < 32) by (bit_vector);
            Piece(((self.0 & MOVED_PIECE_MASK) >> MOVED_PIECE_SHIFT) as u8)
        }
    }

    /// The piece as it stands on the destination after the move.
    pub fn piece_moved_after_move(self) -> (r: Piece)
        requires
            self.is_normal(),
        ensures
            r.0 == self.spec_piece_after(),
    {
        if self.is_drop() {
            self.piece_dropped()
        } else {
            let v = self.0;
            let m = (v & MOVED_PIECE_MASK) >> MOVED_PIECE_SHIFT;
            let p = (v & PROMOTE_FLAG) >> 4u32;
            assert(m < 32 && (p == 0 <==> v & 0x80 == 0) && (p == 0 || p == 8)) by (bit_vector)
                requires
                    m == (v & 0x1f_0000) >> 16,
                    p == (v & 0x80) >> 4,
            ;
            Piece((m + p) as u8)
        }
    }

    /// Whether the move is a drop.
    pub fn is_drop(self) -> (r: bool)
        ensures
            r == drop_bit(self.0),
    {
        (self.0 & DROP_FLAG) != 0
    }

    /// Whether the move promotes.
    pub fn is_promotion(self) -> (r: bool)
        ensures
            r == promote_bit(self.0),
    {
        (self.0 & PROMOTE_FLAG) != 0
    }

    /// A promotion of a pawn.
    pub fn is_pawn_promotion(self) -> (r: bool)
        ensures
            r == (promote_bit(self.0) && !drop_bit(self.0) && moved_field(self.0) % 16 == 1),
    {
        let v = self.0;
        if self.is_promotion() && !self.is_drop() {
            let pc = self.piece_moved_before_move();
            pc.0 % 16 == 1
        } else {
            false
        }
    }

    /// The move in USI notation.
    pub open spec fn usi_chars(self) -> Seq<char> {
        let to = self.spec_to() as int;
        if drop_bit(self.0) {
            seq![type_letter((dropped_field(self.0) % 16) as u8), '*', file_char(to / 9), rank_char(to % 9)]
        } else {
            let from = self.spec_from() as int;
            seq![file_char(from / 9), rank_char(from % 9), file_char(to / 9), rank_char(to % 9)]
                + if promote_bit(self.0) {
                seq!['+']
            } else {
                Seq::<char>::empty()
            }
        }
    }

    /// The move in USI notation: `7g7f`, `7d7c+`, `P*7f`.
    pub fn to_usi_string(self) -> (r: String)
        requires
            self.is_normal(),
        ensures
            r@ == self.usi_chars(),
    {
        let mut v: Vec<char> = Vec::new();
        let to = self.to();
        if self.is_drop() {
            let pt = self.piece_type_dropped();
            v.push(type_letter_of(pt as u8));
            v.push('*');
        } else {
            let from = self.from();
            v.push(digit_char(from.0 / 9));
            v.push(letter_char(from.0 % 9));
        }
        v.push(digit_char(to.0 / 9));
        v.push(letter_char(to.0 % 9));
        if self.is_promotion() {
            v.push('+');
        }
        let ghost w = v@;
        assert(w =~= self.usi_chars());
        string_from_chars(&v)
    }
}

/// Reading an optional move word as "no move" when absent.
pub trait UnwrapUnchecked {
    fn unwrap_unchecked(self) -> Move;
}

impl UnwrapUnchecked for Option<Move> {
    /// The move, or the all-zero word when there is none.
    fn unwrap_unchecked(self) -> (r: Move)
        ensures
            self matches Some(m) ==> r == m,
            self is None ==> r.0 == 0,
    {
        match self {
            Some(m) => m,
            None => Move(0),
        }
    }
}

/// Whether an optional move word is a real move.
pub trait IsNormalMove {
    fn is_normal_move(self) -> bool;
}

impl IsNormalMove for Option<Move> {
    /// Some real move: neither absent nor one of the reserved words.
    /// The test is one mask and compare: the low nine bits differ from the rest.
    fn is_normal_move(self) -> (r: bool)
        ensures
            self is Some && self->0.wf() ==> (r <==> !self->0.is_sentinel()),
            self is None ==> !r,
    {
        let val = UnwrapUnchecked::unwrap_unchecked(self).0;
        proof {
            if let Some(m) = self {
                let v = m.0;
                if m.is_board_move() {
                    assert((v & 0x1ff) != (v >> 9) && v != 0x201 && v != 0x402 && v != 0x603)
                        by (bit_vector)
                        requires
                            v & 0x100 == 0,
                            v >> 21 == 0,
                            (v & 0xfe00) >> 9 != v & 0x7f,
                            (v & 0x1f_0000) >> 16 >= 1,
                    ;
                } else if m.is_drop_move() {
                    assert((v & 0x1ff) != (v >> 9) && v != 0x201 && v != 0x402 && v != 0x603)
                        by (bit_vector)
                        requires
                            v & 0x100 != 0,
                            v >> 14 == 0,
                    ;
                } else {
                    assert(v == 0x201 || v == 0x402 || v == 0x603 ==> (v & 0x1ff) == (v >> 9))
                        by (bit_vector);
                }
            } else {
                assert(0u32 & 0x1ff == 0u32 >> 9) by (bit_vector);
            }
        }
        (val & 0x1ff) != (val >> 9)
    }
}

} // verus!
