use vstd::prelude::*;
use rand::rngs::StdRng;
use rand::{Rng, SeedableRng};

verus! {

#[verifier::external_type_specification]
#[verifier::external_body]
pub struct ExStdRng(StdRng);

/// Relies on `rand::rngs::StdRng::from_seed`: a generator whose stream is
/// fixed by the seed.
#[verifier::external_body]
fn seeded_rng(seed: [u8; 32]) -> (r: StdRng) {
    StdRng::from_seed(seed)
}

/// Relies on `rand::Rng::gen::<u64>` on a `StdRng`: the next word of its stream.
/// Nothing is promised of the value.
#[verifier::external_body]
fn next_word(rng: &mut StdRng) -> (r: u64) {
    rng.gen::<u64>()
}

/// Number of board keys: kind (15) x square (81) x color (2).
pub const FIELD_KEYS: usize = 2430;
/// Number of hand keys: kind (15) x count (0..=18) x color (2).
pub const HAND_KEYS: usize = 570;
/// The key xor-ed into the board key when White is to move.
pub const SIDE_KEY: u64 = 1;

/// Index of the board key of kind `pt`, square `sq`, color `c`.
pub open spec fn field_index(pt: int, sq: int, c: int) -> int {
    (pt * 81 + sq) * 2 + c
}

/// Index of the hand key of kind `pt`, count `n`, color `c`.
pub open spec fn hand_index(pt: int, n: int, c: int) -> int {
    (pt * 19 + n) * 2 + c
}

/// Random words that hash positions: one per piece on a square and one per
/// count of a kind in hand. The lowest bit of each is clear, so that the
/// side-to-move bit never collides with a piece.
pub struct Zobrist {
    pub field: Vec<u64>,
    pub hand: Vec<u64>,
}

impl Zobrist {
    pub open spec fn wf(&self) -> bool {
        &&& self.field@.len() == FIELD_KEYS
        &&& self.hand@.len() == HAND_KEYS
        &&& forall|i: int| 0 <= i < FIELD_KEYS ==> #[trigger] self.field@[i] & 1 == 0
        &&& forall|i: int| 0 <= i < HAND_KEYS ==> #[trigger] self.hand@[i] & 1 == 0
    }

    /// The tables drawn from a generator seeded with the bytes 1, 2, ..., 32.
    pub fn new() -> (r: Zobrist)
        ensures
            r.wf(),
    {
        let mut seed = [0u8; 32];
        let mut i: usize = 0;
        while i < 32
            invariant
                i <= 32,
            decreases 32 - i,
        {
            seed[i] = (i + 1) as u8;
            i += 1;
        }
        let mut rng = seeded_rng(seed);
        let mut field: Vec<u64> = Vec::new();
        while field.len() < FIELD_KEYS
            invariant
                field@.len() <= FIELD_KEYS,
                forall|j: int| 0 <= j < field@.len() ==> #[trigger] field@[j] & 1 == 0,
            decreases FIELD_KEYS - field@.len(),
        {
            let w = next_word(&mut rng);
            let k = w & !1u64;
            assert(k & 1 == 0) by (bit_vector)
                requires
                    k == w & !1u64,
            ;
            field.push(k);
        }
        let mut hand: Vec<u64> = Vec::new();
        while hand.len() < HAND_KEYS
            invariant
                hand@.len() <= HAND_KEYS,
                forall|j: int| 0 <= j < hand@.len() ==> #[trigger] hand@[j] & 1 == 0,
            decreases HAND_KEYS - hand@.len(),
        {
            let w = next_word(&mut rng);
            let k = w & !1u64;
            assert(k & 1 == 0) by (bit_vector)
                requires
                    k == w & !1u64,
            ;
            hand.push(k);
        }
        Zobrist { field, hand }
    }
}

} // verus!
