use vstd::prelude::*;
use crate::types::Square;

verus! {

/// Bit `k` of `x` is set.
pub open spec fn bit(x: u64, k: u64) -> bool {
    (x >> k) & 1 == 1
}

proof fn lemma_bit_ops(x: u64, y: u64, k: u64)
    requires
        k < 64,
    ensures
        bit(x | y, k) == (bit(x, k) || bit(y, k)),
        bit(x & y, k) == (bit(x, k) && bit(y, k)),
        bit(x ^ y, k) == (bit(x, k) != bit(y, k)),
        bit(!x, k) == !bit(x, k),
        bit(x | (1u64 << k), k),
        bit(0u64, k) == false,
{
    assert((((x | y) >> k) & 1 == 1 <==> ((x >> k) & 1 == 1 || (y >> k) & 1 == 1)) && (((x & y) >> k)
        & 1 == 1 <==> ((x >> k) & 1 == 1 && (y >> k) & 1 == 1)) && (((x ^ y) >> k) & 1 == 1 <==> ((x
        >> k) & 1 == 1) != ((y >> k) & 1 == 1)) && (((!x) >> k) & 1 == 1 <==> !((x >> k) & 1 == 1))
        && (((x | (1u64 << k)) >> k) & 1 == 1) && ((0u64 >> k) & 1 != 1)) by (bit_vector)
        requires
            k < 64,
    ;

}

proof fn lemma_set_other(x: u64, k: u64, j: u64)
    requires
        k < 64,
        j < 64,
        j != k,
    ensures
        bit(x | (1u64 << k), j) == bit(x, j),
{
    assert(((x | (1u64 << k)) >> j) & 1 == 1 <==> (x >> j) & 1 == 1) by (bit_vector)
        requires
            k < 64,
            j < 64,
            j != k,
    ;
}

/// A set of squares: squares 0..62 in the bits of the first word, squares
/// 63..80 in the low bits of the second.
#[derive(Clone, Copy, PartialEq, Eq, Structural, Debug)]
pub struct Bitboard {
    pub lo: u64,
    pub hi: u64,
}

/// Mask of the board's bits in the first word (63 squares).
pub const LO_MASK: u64 = 0x7fff_ffff_ffff_ffff;
/// Mask of the board's bits in the second word (18 squares).
pub const HI_MASK: u64 = 0x3_ffff;

impl Bitboard {
    /// Square `sq` (0..81) is in the set.
    pub open spec fn has(self, sq: int) -> bool {
        if sq < 63 {
            bit(self.lo, sq as u64)
        } else {
            bit(self.hi, (sq - 63) as u64)
        }
    }

    /// The squares of the set.
    pub open spec fn view(self) -> Set<int> {
        Set::new(|sq: int| 0 <= sq < 81 && self.has(sq))
    }

    /// No bit outside the 81 squares.
    pub open spec fn wf(self) -> bool {
        self.lo & !LO_MASK == 0 && self.hi & !HI_MASK == 0
    }

    /// The empty set.
    pub fn zero() -> (r: Bitboard)
        ensures
            r.wf(),
            r.view() == Set::<int>::empty(),
    {
        let r = Bitboard { lo: 0, hi: 0 };
        proof {
            assert(0u64 & !LO_MASK == 0 && 0u64 & !HI_MASK == 0) by (bit_vector);
            assert forall|sq: int| 0 <= sq < 81 implies !r.has(sq) by {
                if sq < 63 {
                    lemma_bit_ops(0, 0, sq as u64);
                } else {
                    lemma_bit_ops(0, 0, (sq - 63) as u64);
                }
            }
            assert(r.view() =~= Set::<int>::empty());
        }
        r
    }

    /// Whether `sq` is in the set.
    pub fn is_set(&self, sq: Square) -> (r: bool)
        requires
            sq.wf(),
        ensures
            r == self.view().contains(sq.0 as int),
    {
        if sq.0 < 63 {
            (self.lo >> (sq.0 as u64)) & 1 == 1
        } else {
            (self.hi >> ((sq.0 - 63) as u64)) & 1 == 1
        }
    }

    /// Adds `sq` to the set.
    pub fn set(&mut self, sq: Square)
        requires
            old(self).wf(),
            sq.wf(),
        ensures
            final(self).wf(),
            final(self).view() == old(self).view().insert(sq.0 as int),
    {
        let ghost o = *self;
        if sq.0 < 63 {
            let k = sq.0 as u64;
            let x = self.lo;
            self.lo = x | (1u64 << k);
            proof {
                assert((x | (1u64 << k)) & !LO_MASK == 0) by (bit_vector)
                    requires
                        x & !LO_MASK == 0,
                        k < 63,
                ;
                lemma_bit_ops(x, x, k);
                assert forall|j: int| 0 <= j < 63 && j != k implies self.has(j) == o.has(j) by {
                    lemma_set_other(x, k, j as u64);
                }
            }
        } else {
            let k = (sq.0 - 63) as u64;
            let x = self.hi;
            self.hi = x | (1u64 << k);
            proof {
                assert((x | (1u64 << k)) & !HI_MASK == 0) by (bit_vector)
                    requires
                        x & !HI_MASK == 0,
                        k < 18,
                ;
                lemma_bit_ops(x, x, k);
                assert forall|j: int| 63 <= j < 81 && j - 63 != k implies self.has(j) == o.has(j) by {
                    lemma_set_other(x, k, (j - 63) as u64);
                }
            }
        }
        assert(self.view() =~= o.view().insert(sq.0 as int));
    }

    /// Union.
    pub fn or(self, other: Bitboard) -> (r: Bitboard)
        requires
            self.wf(),
            other.wf(),
        ensures
            r.wf(),
            r.view() == self.view().union(other.view()),
    {
        let r = Bitboard { lo: self.lo | other.lo, hi: self.hi | other.hi };
        proof {
            let (a, b, c, d) = (self.lo, other.lo, self.hi, other.hi);
            assert((a | b) & !LO_MASK == 0 && (c | d) & !HI_MASK == 0) by (bit_vector)
                requires
                    a & !LO_MASK == 0,
                    b & !LO_MASK == 0,
                    c & !HI_MASK == 0,
                    d & !HI_MASK == 0,
            ;
            assert forall|sq: int| 0 <= sq < 81 implies r.has(sq) == (self.has(sq) || other.has(sq)) by {
                if sq < 63 {
                    lemma_bit_ops(a, b, sq as u64);
                } else {
                    lemma_bit_ops(c, d, (sq - 63) as u64);
                }
            }
            assert(r.view() =~= self.view().union(other.view()));
        }
        r
    }

    /// Intersection.
    pub fn and(self, other: Bitboard) -> (r: Bitboard)
        requires
            self.wf(),
            other.wf(),
        ensures
            r.wf(),
            r.view() == self.view().intersect(other.view()),
    {
        let r = Bitboard { lo: self.lo & other.lo, hi: self.hi & other.hi };
        proof {
            let (a, b, c, d) = (self.lo, other.lo, self.hi, other.hi);
            assert((a & b) & !LO_MASK == 0 && (c & d) & !HI_MASK == 0) by (bit_vector)
                requires
                    a & !LO_MASK == 0,
                    c & !HI_MASK == 0,
            ;
            assert forall|sq: int| 0 <= sq < 81 implies r.has(sq) == (self.has(sq) && other.has(sq)) by {
                if sq < 63 {
                    lemma_bit_ops(a, b, sq as u64);
                } else {
                    lemma_bit_ops(c, d, (sq - 63) as u64);
                }
            }
            assert(r.view() =~= self.view().intersect(other.view()));
        }
        r
    }

    /// Symmetric difference.
    pub fn xor(self, other: Bitboard) -> (r: Bitboard)
        requires
            self.wf(),
            other.wf(),
        ensures
            r.wf(),
            r.view() == self.view().difference(other.view()).union(other.view().difference(self.view())),
    {
        let r = Bitboard { lo: self.lo ^ other.lo, hi: self.hi ^ other.hi };
        proof {
            let (a, b, c, d) = (self.lo, other.lo, self.hi, other.hi);
            assert((a ^ b) & !LO_MASK == 0 && (c ^ d) & !HI_MASK == 0) by (bit_vector)
                requires
                    a & !LO_MASK == 0,
                    b & !LO_MASK == 0,
                    c & !HI_MASK == 0,
                    d & !HI_MASK == 0,
            ;
            assert forall|sq: int| 0 <= sq < 81 implies r.has(sq) == (self.has(sq) != other.has(sq)) by {
                if sq < 63 {
                    lemma_bit_ops(a, b, sq as u64);
                } else {
                    lemma_bit_ops(c, d, (sq - 63) as u64);
                }
            }
            assert(r.view() =~= self.view().difference(other.view()).union(
                other.view().difference(self.view()),
            ));
        }
        r
    }

    /// The squares of the board that are not in the set.
    pub fn not(self) -> (r: Bitboard)
        requires
            self.wf(),
        ensures
            r.wf(),
            r.view() == Set::new(|sq: int| 0 <= sq < 81).difference(self.view()),
    {
        let r = Bitboard { lo: !self.lo & LO_MASK, hi: !self.hi & HI_MASK };
        proof {
            let (a, c) = (self.lo, self.hi);
            assert((!a & LO_MASK) & !LO_MASK == 0 && (!c & HI_MASK) & !HI_MASK == 0) by (bit_vector);
            assert forall|sq: int| 0 <= sq < 81 implies r.has(sq) == !self.has(sq) by {
                if sq < 63 {
                    let k = sq as u64;
                    assert(((!a & LO_MASK) >> k) & 1 == 1 <==> !((a >> k) & 1 == 1)) by (bit_vector)
                        requires
                            k < 63,
                    ;
                } else {
                    let k = (sq - 63) as u64;
                    assert(((!c & HI_MASK) >> k) & 1 == 1 <==> !((c >> k) & 1 == 1)) by (bit_vector)
                        requires
                            k < 18,
                    ;
                }
            }
            assert(r.view() =~= Set::new(|sq: int| 0 <= sq < 81).difference(self.view()));
        }
        r
    }

    /// Whether the set is not empty.
    pub fn to_bool(self) -> (r: bool)
        ensures
            r == (self.view() != Set::<int>::empty()),
    {
        let v = self.squares();
        proof {
            if v@.len() > 0 {
                assert(self.view().contains(v@[0].0 as int));
            } else {
                assert forall|sq: int| !self.view().contains(sq) by {
                    if self.view().contains(sq) {
                        let i = choose|i: int| 0 <= i < v@.len() && v@[i].0 == sq;
                    }
                }
                assert(self.view() =~= Set::<int>::empty());
            }
        }
        v.len() > 0
    }

    /// The squares of the set in ascending order.
    pub fn squares(self) -> (r: Vec<Square>)
        ensures
            forall|i: int| 0 <= i < r@.len() ==> (#[trigger] r@[i]).wf() && self.view().contains(r@[i].0 as int),
            forall|sq: int| #[trigger] self.view().contains(sq) ==> exists|i: int| 0 <= i < r@.len() && r@[i].0 == sq,
            forall|i: int, j: int| 0 <= i < j < r@.len() ==> r@[i].0 < r@[j].0,
    {
        let mut r: Vec<Square> = Vec::new();
        let mut s: u8 = 0;
        while s < 81
            invariant
                s <= 81,
                forall|i: int| 0 <= i < r@.len() ==> (#[trigger] r@[i]).wf() && self.view().contains(r@[i].0 as int)
                    && r@[i].0 < s,
                forall|sq: int| 0 <= sq < s && #[trigger] self.view().contains(sq) ==> exists|i: int|
                    0 <= i < r@.len() && r@[i].0 == sq,
                forall|i: int, j: int| 0 <= i < j < r@.len() ==> r@[i].0 < r@[j].0,
            decreases 81 - s,
        {
            let ghost old_r = r@;
            let here = self.is_set(Square(s));
            if here {
                r.push(Square(s));
                assert(r@[r@.len() - 1].0 == s);
            }
            proof {
                assert forall|sq: int| 0 <= sq < s + 1 && #[trigger] self.view().contains(sq) implies exists|i: int|
                    0 <= i < r@.len() && r@[i].0 == sq by {
                    if sq < s {
                        let i = choose|i: int| 0 <= i < old_r.len() && old_r[i].0 == sq;
                        assert(r@[i] == old_r[i]);
                    } else {
                        assert(here);
                        assert(r@[r@.len() - 1].0 == sq);
                    }
                }
            }
            s += 1;
        }
        r
    }

    /// The number of squares in the set.
    pub fn count_ones(self) -> (r: u32)
        ensures
            r as nat == self.view().len(),
    {
        let v = self.squares();
        proof {
            lemma_seq_set_len(v@, self.view());
        }
        assert(v@.len() <= 81) by {
            if v@.len() > 81 {
                assert forall|i: int| 0 <= i < v@.len() implies v@[i].0 >= i by {
                    lemma_increasing_ge(v@, i);
                }
                assert(v@[81].0 >= 81);
            }
        }
        v.len() as u32
    }

    /// The smallest square of the set; the set must not be empty.
    pub fn lsb(self) -> (r: Square)
        requires
            self.view() != Set::<int>::empty(),
        ensures
            r.wf(),
            self.view().contains(r.0 as int),
            forall|sq: int| #[trigger] self.view().contains(sq) ==> r.0 <= sq,
    {
        let v = self.squares();
        proof {
            let w = choose|sq: int| self.view().contains(sq);
            assert(self.view().contains(w)) by {
                assert(!(self.view() =~= Set::<int>::empty()));
            }
            let i = choose|i: int| 0 <= i < v@.len() && v@[i].0 == w;
            assert forall|sq: int| #[trigger] self.view().contains(sq) implies v@[0].0 <= sq by {
                let j = choose|j: int| 0 <= j < v@.len() && v@[j].0 == sq;
                if j > 0 {
                    assert(v@[0].0 < v@[j].0);
                }
            }
        }
        v[0]
    }
}

proof fn lemma_increasing_ge(v: Seq<Square>, i: int)
    requires
        0 <= i < v.len(),
        forall|a: int, b: int| 0 <= a < b < v.len() ==> v[a].0 < v[b].0,
    ensures
        v[i].0 >= i,
    decreases i,
{
    if i > 0 {
        lemma_increasing_ge(v, i - 1);
    }
}

/// A strictly increasing list of the squares of a set is as long as the set.
proof fn lemma_seq_set_len(v: Seq<Square>, set: Set<int>)
    requires
        forall|i: int| 0 <= i < v.len() ==> set.contains(#[trigger] v[i].0 as int),
        forall|sq: int| #[trigger] set.contains(sq) ==> exists|i: int| 0 <= i < v.len() && v[i].0 == sq,
        forall|i: int, j: int| 0 <= i < j < v.len() ==> v[i].0 < v[j].0,
    ensures
        v.len() == set.len(),
{
    let w = v.map_values(|s: Square| s.0 as int);
    assert(w.no_duplicates()) by {
        assert forall|i: int, j: int| 0 <= i < w.len() && 0 <= j < w.len() && i != j implies w[i] != w[j] by {
            if i < j {
                assert(v[i].0 < v[j].0);
            } else {
                assert(v[j].0 < v[i].0);
            }
        }
    }
    w.unique_seq_to_set();
    assert forall|sq: int| w.to_set().contains(sq) <==> set.contains(sq) by {
        if set.contains(sq) {
            let i = choose|i: int| 0 <= i < v.len() && v[i].0 == sq;
            assert(w[i] == sq);
        }
        if w.to_set().contains(sq) {
            let i = choose|i: int| 0 <= i < w.len() && w[i] == sq;
            assert(set.contains(v[i].0 as int));
        }
    }
    assert(w.to_set() =~= set);
}

} // verus!
