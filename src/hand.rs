use vstd::prelude::*;
use crate::types::PieceType;

verus! {

/// Bit position of each hand field, by kind code (Pawn..Gold).
pub open spec fn hand_shift(pt: u8) -> u32 {
    if pt == 1 {
        0
    } else if pt == 2 {
        6
    } else if pt == 3 {
        10
    } else if pt == 4 {
        14
    } else if pt == 7 {
        18
    } else if pt == 5 {
        22
    } else {
        25
    }
}

/// The value of one piece in the field of kind `pt`.
pub open spec fn unit(pt: u8) -> u32 {
    if pt == 1 {
        1
    } else if pt == 2 {
        64
    } else if pt == 3 {
        1024
    } else if pt == 4 {
        16384
    } else if pt == 7 {
        262144
    } else if pt == 5 {
        4194304
    } else {
        33554432
    }
}

/// Mask of each hand field once shifted down.
pub open spec fn hand_mask(pt: u8) -> u32 {
    if pt == 1 {
        0x1f
    } else if pt == 5 || pt == 6 {
        3
    } else {
        7
    }
}

/// Most pieces of a kind that exist in the game.
pub open spec fn hand_max(pt: u8) -> u32 {
    if pt == 1 {
        18
    } else if pt == 5 || pt == 6 {
        2
    } else {
        4
    }
}

/// The bit just above each field; zero in every valid hand.
pub const BORROW_MASK: u32 = 0x0922_2220;

pub open spec fn field(h: u32, pt: u8) -> u32 {
    (h >> hand_shift(pt)) & hand_mask(pt)
}

/// Each field of `a` is at least the same field of `b`.
pub open spec fn dominates(a: u32, b: u32) -> bool {
    &&& field(a, 1) >= field(b, 1)
    &&& field(a, 2) >= field(b, 2)
    &&& field(a, 3) >= field(b, 3)
    &&& field(a, 4) >= field(b, 4)
    &&& field(a, 5) >= field(b, 5)
    &&& field(a, 6) >= field(b, 6)
    &&& field(a, 7) >= field(b, 7)
}

/// The pieces that one side holds, packed into seven bit fields of a word.
#[derive(Clone, Copy, PartialEq, Eq, Structural, Debug)]
pub struct Hand(pub u32);

impl Hand {
    /// No bit outside the seven fields, and no field above the number of
    /// such pieces in the game.
    pub open spec fn wf(self) -> bool {
        &&& self.0 & 0xf922_2220 == 0
        &&& forall|pt: u8| 1 <= pt <= 7 ==> #[trigger] field(self.0, pt) <= hand_max(pt)
    }

    pub open spec fn count(self, pt: u8) -> nat {
        field(self.0, pt) as nat
    }

    /// The hand with one more piece of kind `pt`.
    pub open spec fn plus(self, pt: u8) -> Hand {
        Hand((self.0 + unit(pt)) as u32)
    }

    /// The hand with one piece fewer of kind `pt`.
    pub open spec fn minus(self, pt: u8) -> Hand {
        Hand((self.0 - unit(pt)) as u32)
    }

    /// The hand that holds nothing.
    pub fn empty() -> (r: Hand)
        ensures
            r == Hand(0),
            r.wf(),
            forall|pt: u8| 1 <= pt <= 7 ==> #[trigger] r.count(pt) == 0,
    {
        proof {
            assert forall|pt: u8| 1 <= pt <= 7 implies #[trigger] field(0, pt) == 0 by {
                let s = hand_shift(pt);
                let m = hand_mask(pt);
                assert((0u32 >> s) & m == 0) by (bit_vector);
            }
            assert(0u32 & 0xf922_2220 == 0) by (bit_vector);
        }
        Hand(0)
    }

    fn shift_of(pt: PieceType) -> (r: u32)
        requires
            pt.is_hand_type(),
        ensures
            r == hand_shift(pt as u8),
    {
        match pt {
            PieceType::Pawn => 0,
            PieceType::Lance => 6,
            PieceType::Knight => 10,
            PieceType::Silver => 14,
            PieceType::Gold => 18,
            PieceType::Bishop => 22,
            _ => 25,
        }
    }

    fn mask_of(pt: PieceType) -> (r: u32)
        requires
            pt.is_hand_type(),
        ensures
            r == hand_mask(pt as u8),
    {
        match pt {
            PieceType::Pawn => 0x1f,
            PieceType::Bishop | PieceType::Rook => 3,
            _ => 7,
        }
    }

    /// How many pieces of kind `pt` are held.
    pub fn num(self, pt: PieceType) -> (r: u32)
        requires
            pt.is_hand_type(),
        ensures
            r == self.count(pt as u8),
    {
        (self.0 >> Hand::shift_of(pt)) & Hand::mask_of(pt)
    }

    /// Whether at least one piece of kind `pt` is held.
    pub fn exist(self, pt: PieceType) -> (r: bool)
        requires
            pt.is_hand_type(),
        ensures
            r == (self.count(pt as u8) > 0),
    {
        self.num(pt) != 0
    }

    /// Adding one piece of a kind below its maximum keeps the hand valid and
    /// changes that count alone.
    pub proof fn lemma_plus(self, p: u8)
        requires
            self.wf(),
            1 <= p <= 7,
            self.count(p) < hand_max(p),
        ensures
            self.plus(p).wf(),
            self.plus(p).count(p) == self.count(p) + 1,
            self.plus(p).0 == self.0 + unit(p),
            self.plus(p).minus(p) == self,
            forall|q: u8| 1 <= q <= 7 && q != p ==> #[trigger] self.plus(p).count(q) == self.count(q),
    {
        let h = self.0;
        let u = unit(p);
        assert(h < 0x0800_0000 && (u == 1 || u == 64 || u == 1024 || u == 16384 || u == 4194304 || u == 33554432 || u == 262144 ==> h + u < 0x1_0000_0000)) by (bit_vector)
            requires
                h & 0xf922_2220 == 0,
        ;
        let r = (h + u) as u32;
        assert(r & 0xf922_2220 == 0 && (r >> 0) & 31 == ((h >> 0) & 31) + (if u == 1 { 1u32 } else { 0u32 }) && (r >> 6) & 7 == ((h >> 6) & 7) + (if u == 64 { 1u32 } else { 0u32 }) && (r >> 10) & 7 == ((h >> 10) & 7) + (if u == 1024 { 1u32 } else { 0u32 }) && (r >> 14) & 7 == ((h >> 14) & 7) + (if u == 16384 { 1u32 } else { 0u32 }) && (r >> 22) & 3 == ((h >> 22) & 3) + (if u == 4194304 { 1u32 } else { 0u32 }) && (r >> 25) & 3 == ((h >> 25) & 3) + (if u == 33554432 { 1u32 } else { 0u32 }) && (r >> 18) & 7 == ((h >> 18) & 7) + (if u == 262144 { 1u32 } else { 0u32 })) by (bit_vector)
            requires
                h & 0xf922_2220 == 0,
                r == h + u,
                u == 1 || u == 64 || u == 1024 || u == 16384 || u == 4194304 || u == 33554432 || u == 262144,
                u == 1 ==> ((h >> 0) & 31) < 18,
                    u == 64 ==> ((h >> 6) & 7) < 4,
                    u == 1024 ==> ((h >> 10) & 7) < 4,
                    u == 16384 ==> ((h >> 14) & 7) < 4,
                    u == 4194304 ==> ((h >> 22) & 3) < 2,
                    u == 33554432 ==> ((h >> 25) & 3) < 2,
                    u == 262144 ==> ((h >> 18) & 7) < 4,
        ;
        Hand::lemma_fields(h, r, p);
    }

    /// Removing one held piece keeps the hand valid and changes that count alone.
    pub proof fn lemma_minus(self, p: u8)
        requires
            self.wf(),
            1 <= p <= 7,
            self.count(p) >= 1,
        ensures
            self.minus(p).wf(),
            self.minus(p).count(p) == self.count(p) - 1,
            self.minus(p).0 == self.0 - unit(p),
            self.minus(p).plus(p) == self,
            forall|q: u8| 1 <= q <= 7 && q != p ==> #[trigger] self.minus(p).count(q) == self.count(q),
    {
        let h = self.0;
        let u = unit(p);
        assert(h >= u) by (bit_vector)
            requires
                u == 1 || u == 64 || u == 1024 || u == 16384 || u == 4194304 || u == 33554432 || u == 262144,
                u == 1 ==> ((h >> 0) & 31) >= 1,
                    u == 64 ==> ((h >> 6) & 7) >= 1,
                    u == 1024 ==> ((h >> 10) & 7) >= 1,
                    u == 16384 ==> ((h >> 14) & 7) >= 1,
                    u == 4194304 ==> ((h >> 22) & 3) >= 1,
                    u == 33554432 ==> ((h >> 25) & 3) >= 1,
                    u == 262144 ==> ((h >> 18) & 7) >= 1,
        ;
        let r = (h - u) as u32;
        assert(r & 0xf922_2220 == 0 && (r >> 0) & 31 == ((h >> 0) & 31) - (if u == 1 { 1u32 } else { 0u32 }) && (r >> 6) & 7 == ((h >> 6) & 7) - (if u == 64 { 1u32 } else { 0u32 }) && (r >> 10) & 7 == ((h >> 10) & 7) - (if u == 1024 { 1u32 } else { 0u32 }) && (r >> 14) & 7 == ((h >> 14) & 7) - (if u == 16384 { 1u32 } else { 0u32 }) && (r >> 22) & 3 == ((h >> 22) & 3) - (if u == 4194304 { 1u32 } else { 0u32 }) && (r >> 25) & 3 == ((h >> 25) & 3) - (if u == 33554432 { 1u32 } else { 0u32 }) && (r >> 18) & 7 == ((h >> 18) & 7) - (if u == 262144 { 1u32 } else { 0u32 })) by (bit_vector)
            requires
                h & 0xf922_2220 == 0,
                r == h - u,
                h >= u,
                u == 1 || u == 64 || u == 1024 || u == 16384 || u == 4194304 || u == 33554432 || u == 262144,
                u == 1 ==> ((h >> 0) & 31) >= 1,
                    u == 64 ==> ((h >> 6) & 7) >= 1,
                    u == 1024 ==> ((h >> 10) & 7) >= 1,
                    u == 16384 ==> ((h >> 14) & 7) >= 1,
                    u == 4194304 ==> ((h >> 22) & 3) >= 1,
                    u == 33554432 ==> ((h >> 25) & 3) >= 1,
                    u == 262144 ==> ((h >> 18) & 7) >= 1,
        ;
        Hand::lemma_fields(h, r, p);
    }

    /// A word with clear guard bits and every field in range is a valid hand.
    pub proof fn lemma_fields(h: u32, r: u32, p: u8)
        requires
            1 <= p <= 7,
            Hand(h).wf(),
            r & 0xf922_2220 == 0,
            forall|q: u8| 1 <= q <= 7 && q != p ==> #[trigger] field(r, q) == field(h, q),
            field(r, p) <= hand_max(p),
        ensures
            Hand(r).wf(),
    {
    }

    fn unit_of(pt: PieceType) -> (r: u32)
        requires
            pt.is_hand_type(),
        ensures
            r == unit(pt as u8),
    {
        match pt {
            PieceType::Pawn => 1,
            PieceType::Lance => 64,
            PieceType::Knight => 1024,
            PieceType::Silver => 16384,
            PieceType::Gold => 262144,
            PieceType::Bishop => 4194304,
            _ => 33554432,
        }
    }

    /// One more piece of kind `pt`.
    pub fn plus_one(&mut self, pt: PieceType)
        requires
            old(self).wf(),
            pt.is_hand_type(),
            old(self).count(pt as u8) < hand_max(pt as u8),
        ensures
            final(self).wf(),
            *final(self) == old(self).plus(pt as u8),
            final(self).count(pt as u8) == old(self).count(pt as u8) + 1,
            forall|q: u8| 1 <= q <= 7 && q != pt as u8 ==> #[trigger] final(self).count(q) == old(self).count(q),
    {
        proof {
            self.lemma_plus(pt as u8);
        }
        self.0 = self.0 + Hand::unit_of(pt);
    }

    /// One piece fewer of kind `pt`.
    pub fn minus_one(&mut self, pt: PieceType)
        requires
            old(self).wf(),
            pt.is_hand_type(),
            old(self).count(pt as u8) >= 1,
        ensures
            final(self).wf(),
            *final(self) == old(self).minus(pt as u8),
            final(self).count(pt as u8) == old(self).count(pt as u8) - 1,
            forall|q: u8| 1 <= q <= 7 && q != pt as u8 ==> #[trigger] final(self).count(q) == old(self).count(q),
    {
        proof {
            self.lemma_minus(pt as u8);
        }
        self.0 = self.0 - Hand::unit_of(pt);
    }

    /// Each kind is held at least as many times as in `other`: one
    /// subtraction of the packed words, with the bit above each field set in
    /// `self`, then a test that no field borrowed that bit.
    pub fn is_equal_or_superior(self, other: Hand) -> (r: bool)
        requires
            self.wf(),
            other.wf(),
        ensures
            r == (forall|pt: u8| 1 <= pt <= 7 ==> #[trigger] self.count(pt) >= other.count(pt)),
    {
        let a = self.0;
        let b = other.0;
        assert((a | 0x0922_2220) >= b) by (bit_vector)
            requires
                b & 0xf922_2220 == 0,
        ;
        let d = (a | BORROW_MASK) - b;
        proof {
            assert(((d & 0x0922_2220) == 0x0922_2220) == dominates(a, b)) by (bit_vector)
                requires
                    d == (a | 0x0922_2220) - b,
                    a & 0xf922_2220 == 0,
                    b & 0xf922_2220 == 0,
            ;
            if dominates(a, b) {
                assert forall|pt: u8| 1 <= pt <= 7 implies #[trigger] self.count(pt) >= other.count(pt) by {
                    if pt == 1 {} else if pt == 2 {} else if pt == 3 {} else if pt == 4 {}
                    else if pt == 5 {} else if pt == 6 {} else {}
                }
            } else {
                assert(!(self.count(1) >= other.count(1)) || !(self.count(2) >= other.count(2))
                    || !(self.count(3) >= other.count(3)) || !(self.count(4) >= other.count(4))
                    || !(self.count(5) >= other.count(5)) || !(self.count(6) >= other.count(6))
                    || !(self.count(7) >= other.count(7)));
            }
        }
        (d & BORROW_MASK) == BORROW_MASK
    }
}

} // verus!
