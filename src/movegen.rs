use vstd::prelude::*;
use crate::attack::rel_rank;
use crate::legality::{legal_spec, pseudo_legal_spec};
use crate::moves::{
    Move, drop_bit, drop_code, dropped_field, from_field, moved_field, promote_bit, to_field,
};
use crate::position::{PosModel, Position};
use crate::types::{Color, Piece, PieceType, Square};

verus! {

/// A generated move with an ordering score (0 when generated).
#[derive(Clone, Copy, Debug)]
pub struct ExtMove {
    pub mv: Move,
    pub score: i32,
}

impl ExtMove {
    /// One more than the largest number of legal moves in any shogi position.
    pub const MAX_LEGAL_MOVES: usize = 594;
}

/// A growing list of generated moves; `size` is the number of entries.
pub struct MoveList {
    pub ext_moves: Vec<ExtMove>,
    pub size: usize,
}

impl MoveList {
    pub open spec fn wf(&self) -> bool {
        self.size == self.ext_moves@.len()
    }

    /// The moves of the list, in order.
    pub open spec fn moves(&self) -> Seq<Move> {
        self.ext_moves@.map_values(|e: ExtMove| e.mv)
    }

    /// An empty list.
    pub fn new() -> (r: MoveList)
        ensures
            r.wf(),
            r.size == 0,
    {
        MoveList { ext_moves: Vec::new(), size: 0 }
    }

    /// The entries from `begin` to the end.
    pub fn slice(&self, begin: usize) -> (r: &[ExtMove])
        requires
            self.wf(),
            begin <= self.size,
        ensures
            r@ == self.ext_moves@.subrange(begin as int, self.size as int),
    {
        vstd::slice::slice_subrange(self.ext_moves.as_slice(), begin, self.size)
    }

    /// The entries from `begin` to the end, for reordering or rescoring.
    pub fn slice_mut(&mut self, begin: usize) -> (r: &mut [ExtMove])
        requires
            old(self).wf(),
            begin <= old(self).size,
        ensures
            r@ == old(self).ext_moves@.subrange(begin as int, old(self).size as int),
            final(self).size == old(self).size,
            final(self).ext_moves@ == old(self).ext_moves@.subrange(0, begin as int) + final(r)@,
    {
        let s = self.ext_moves.as_mut_slice();
        let (_, tail) = s.split_at_mut(begin);
        tail
    }

    /// Whether `m` is among the entries.
    pub fn contains(&self, m: Move) -> (r: bool)
        requires
            self.wf(),
        ensures
            r == self.moves().contains(m),
    {
        let mut i: usize = 0;
        while i < self.size
            invariant
                self.wf(),
                i <= self.size,
                forall|j: int| 0 <= j < i ==> self.ext_moves@[j].mv != m,
            decreases self.size - i,
        {
            if self.ext_moves[i].mv == m {
                assert(self.moves()[i as int] == m);
                return true;
            }
            i += 1;
        }
        assert forall|j: int| 0 <= j < self.moves().len() implies self.moves()[j] != m by {
            assert(self.moves()[j] == self.ext_moves@[j].mv);
        }
        false
    }

    /// Appends `m` with score 0.
    pub fn push(&mut self, m: Move)
        requires
            old(self).wf(),
        ensures
            final(self).wf(),
            final(self).moves() == old(self).moves().push(m),
    {
        self.ext_moves.push(ExtMove { mv: m, score: 0 });
        assert(self.ext_moves@.len() == old(self).ext_moves@.len() + 1);
        self.size = self.ext_moves.len();
        assert(self.moves() =~= old(self).moves().push(m));
    }
}

/// A legal move in the sense of move generation: pseudo-legal while
/// searching, and leaving the mover's king safe.
pub open spec fn is_legal_move(p: PosModel, m: Move) -> bool {
    pseudo_legal_spec(p, m, true) && legal_spec(p, m)
}

/// Which moves a generation call lists.
#[derive(Clone, Copy, PartialEq, Eq, Structural, Debug)]
pub enum GenType {
    /// Captures, and pawn moves onto empty squares of the promotion zone.
    CaptureOrPawnPromotions,
    /// Every other pseudo-legal move, drops included.
    QuietsWithoutPawnPromotions,
    /// Both of the above.
    NonEvasions,
    /// Pseudo-legal moves while in check (none otherwise): the moves that
    /// answer the check.
    Evasions,
    /// Pseudo-legal moves that leave the mover's king safe.
    Legals,
}

/// A board move that takes a piece, or a pawn move onto an empty square of
/// the promotion zone.
pub open spec fn is_capture_or_pawn_promotion(p: PosModel, m: Move) -> bool {
    let to = to_field(m.0) as int;
    !drop_bit(m.0) && (p.board[to].0 != 0 || (p.board[from_field(m.0) as int].type_code() == 1
        && crate::attack::in_zone(p.side, to)))
}

/// The moves that generation of kind `g` lists.
pub open spec fn selected(p: PosModel, m: Move, g: GenType) -> bool {
    match g {
        GenType::Legals => is_legal_move(p, m),
        GenType::NonEvasions => pseudo_legal_spec(p, m, true),
        GenType::Evasions => p.checked() && pseudo_legal_spec(p, m, true),
        GenType::CaptureOrPawnPromotions => pseudo_legal_spec(p, m, true)
            && is_capture_or_pawn_promotion(p, m),
        GenType::QuietsWithoutPawnPromotions => pseudo_legal_spec(p, m, true)
            && !is_capture_or_pawn_promotion(p, m),
    }
}

/// Number of candidate move words: board moves (from, to, promotion) and drops
/// (kind, to).
pub const CANDIDATES: usize = 13689;

/// The place of a real move among the candidates.
pub open spec fn move_key(m: Move) -> int {
    if drop_bit(m.0) {
        13122 + ((dropped_field(m.0) % 16) as int - 1) * 81 + to_field(m.0) as int
    } else {
        (from_field(m.0) as int * 81 + to_field(m.0) as int) * 2 + (if promote_bit(m.0) {
            1int
        } else {
            0int
        })
    }
}

/// A board move word is made of its fields.
pub proof fn lemma_board_word(v: u32)
    requires
        v & 0x100 == 0,
        v >> 21 == 0,
    ensures
        v == (((v & 0x1f_0000) >> 16) << 16) | (((v & 0xfe00) >> 9) << 9) | (v & 0x80) | (v & 0x7f),
{
    assert(v == (((v & 0x1f_0000) >> 16) << 16) | (((v & 0xfe00) >> 9) << 9) | (v & 0x80) | (v & 0x7f))
        by (bit_vector)
        requires
            v & 0x100 == 0,
            v >> 21 == 0,
    ;
}

/// A drop word is made of its fields.
pub proof fn lemma_drop_word(v: u32)
    requires
        v & 0x100 != 0,
        v & 0x80 == 0,
        v >> 14 == 0,
    ensures
        v == 0x100 | (((v & 0x3e00) >> 9) << 9) | (v & 0x7f),
{
    assert(v == 0x100 | (((v & 0x3e00) >> 9) << 9) | (v & 0x7f)) by (bit_vector)
        requires
            v & 0x100 != 0,
            v & 0x80 == 0,
            v >> 14 == 0,
    ;
}

proof fn lemma_div_board(f: int, t: int, pr: int)
    requires
        0 <= f < 81,
        0 <= t < 81,
        0 <= pr <= 1,
    ensures
        ((f * 81 + t) * 2 + pr) / 162 == f,
        (((f * 81 + t) * 2 + pr) / 2) % 81 == t,
        ((f * 81 + t) * 2 + pr) % 2 == pr,
        (f * 81 + t) * 2 + pr < 13122,
{
    assert(((f * 81 + t) * 2 + pr) / 2 == f * 81 + t) by (nonlinear_arith)
        requires
            0 <= pr <= 1,
            0 <= f,
            0 <= t,
    ;
    assert((f * 81 + t) / 81 == f && (f * 81 + t) % 81 == t) by (nonlinear_arith)
        requires
            0 <= t < 81,
            0 <= f,
    ;
    assert(((f * 81 + t) * 2 + pr) / 162 == (f * 81 + t) / 81) by (nonlinear_arith)
        requires
            0 <= pr <= 1,
            0 <= f,
            0 <= t,
    ;
    assert(((f * 81 + t) * 2 + pr) % 2 == pr) by (nonlinear_arith)
        requires
            0 <= pr <= 1,
            0 <= f,
            0 <= t,
    ;
    assert((f * 81 + t) * 2 + pr < 13122) by (nonlinear_arith)
        requires
            0 <= pr <= 1,
            0 <= f < 81,
            0 <= t < 81,
    ;
}

proof fn lemma_div_drop(t: int, to: int)
    requires
        0 <= t < 7,
        0 <= to < 81,
    ensures
        (t * 81 + to) / 81 == t,
        (t * 81 + to) % 81 == to,
        t * 81 + to < 567,
{
    assert((t * 81 + to) / 81 == t && (t * 81 + to) % 81 == to) by (nonlinear_arith)
        requires
            0 <= to < 81,
            0 <= t,
    ;
}

/// A legal move is the candidate whose place it holds.
proof fn lemma_key_unique(p: PosModel, m: Move, k: int)
    requires
        p.wf(),
        pseudo_legal_spec(p, m, true),
        move_key(m) == k,
    ensures
        k < CANDIDATES,
        k < 13122 ==> {
            let from = k / 162;
            let to = (k / 2) % 81;
            let promo = k % 2 == 1;
            &&& !drop_bit(m.0)
            &&& from_field(m.0) == from
            &&& to_field(m.0) == to
            &&& promote_bit(m.0) == promo
            &&& m.0 == ((p.board[from].0 as u32) << 16) | ((from as u32) << 9) | (if promo {
                0x80u32
            } else {
                0u32
            }) | (to as u32)
        },
        k >= 13122 ==> {
            let t = (k - 13122) / 81 + 1;
            let to = (k - 13122) % 81;
            &&& drop_bit(m.0)
            &&& 1 <= t <= 7
            &&& m.0 == 0x100 | (((t + 16 * (p.side as int)) as u32) << 9) | (to as u32)
        },
{
    let v = m.0;
    if drop_bit(v) {
        let pd = dropped_field(v);
        let t = (pd % 16) as int;
        lemma_div_drop(t - 1, to_field(v) as int);
        lemma_drop_word(v);
        assert(pd == t + 16 * (p.side as int));
    } else {
        let pr: int = if promote_bit(v) {
            1
        } else {
            0
        };
        lemma_div_board(from_field(v) as int, to_field(v) as int, pr);
        lemma_board_word(v);
        assert(v & 0x80 == (if promote_bit(v) {
            0x80u32
        } else {
            0u32
        })) by (bit_vector);
        assert(p.board[from_field(v) as int].0 as u32 == moved_field(v));
    }
}

/// The drops of each piece of `ps` on one square.
pub open spec fn drops_on(ps: Seq<Piece>, to: Square) -> Seq<Move> {
    ps.map_values(|pc: Piece| Move(drop_code(pc.0, to.0)))
}

/// The drops of each piece of `ps` on each square of `ts`, square by square.
pub open spec fn drops_seq(ps: Seq<Piece>, ts: Seq<Square>) -> Seq<Move>
    decreases ts.len(),
{
    if ts.len() == 0 {
        Seq::empty()
    } else {
        drops_seq(ps, ts.drop_last()) + drops_on(ps, ts.last())
    }
}

/// Whether the pseudo-legal move `m` takes a piece or moves a pawn onto an
/// empty square of the promotion zone.
fn capture_or_pawn_promotion(pos: &Position, m: Move) -> (r: bool)
    requires
        pos.wf(),
        pseudo_legal_spec(pos@, m, true),
    ensures
        r == is_capture_or_pawn_promotion(pos@, m),
{
    if m.is_drop() {
        return false;
    }
    let to = m.to().0;
    let from = m.from().0;
    let r = match pos.side_to_move {
        Color::Black => to % 9,
        Color::White => 8 - to % 9,
    };
    assert(r == rel_rank(pos@.side, to as int % 9));
    pos.board[to as usize].0 != 0 || (pos.board[from as usize].0 % 16 == 1 && r < 3)
}

/// The recapture on `to` by the piece on `from`: promoted when the piece
/// can promote and either square lies in the promotion zone.
pub open spec fn recapture_move(p: PosModel, from: int, to: int) -> Move {
    let pc = p.board[from];
    let promote = 1 <= pc.type_code() <= 6 && (crate::attack::in_zone(p.side, from)
        || crate::attack::in_zone(p.side, to));
    Move(
        if promote {
            0x80 | crate::moves::unpromote_code(from as u8, to as u8, pc.0)
        } else {
            crate::moves::unpromote_code(from as u8, to as u8, pc.0)
        },
    )
}

/// The piece on `from` belongs to the side to move and attacks `to`.
pub open spec fn recaptures_from(p: PosModel, from: int, to: int) -> bool {
    0 <= from < 81 && p.board[from].wf() && p.board[from].color() == p.side
        && crate::attack::attacks(p.board, from, to)
}

/// `m` is the recapture on `to` of some piece of the side to move.
pub open spec fn is_recapture(p: PosModel, to: int, m: Move) -> bool {
    exists|from: int| recaptures_from(p, from, to) && m == recapture_move(p, from, to)
}

impl MoveList {
    /// Replaces the list by one move onto `to` for each piece of the side to
    /// move that attacks it, in square order, promoting where it may.
    #[verifier::rlimit(40)]
    pub fn generate_recaptures(&mut self, pos: &Position, to: Square)
        requires
            pos.wf(),
            to.wf(),
        ensures
            final(self).wf(),
            forall|i: int|
                0 <= i < final(self).size ==> is_recapture(pos@, to.0 as int, #[trigger] final(self).moves()[i]),
            forall|from: int|
                recaptures_from(pos@, from, to.0 as int) ==> #[trigger] final(self).moves().contains(
                    recapture_move(pos@, from, to.0 as int),
                ),
    {
        self.ext_moves = Vec::new();
        self.size = 0;
        let ghost mut srcs: Seq<int> = Seq::empty();
        assert(self.moves() =~= Seq::<Move>::empty());
        let us = pos.side_to_move;
        let rt = match us {
            Color::Black => to.0 % 9,
            Color::White => 8 - to.0 % 9,
        };
        let mut from: u8 = 0;
        while from < 81
            invariant
                self.wf(),
                pos.wf(),
                to.wf(),
                us == pos@.side,
                rt == rel_rank(us, to.0 as int % 9),
                from <= 81,
                srcs.len() == self.size,
                forall|i: int|
                    0 <= i < self.size ==> recaptures_from(pos@, #[trigger] srcs[i], to.0 as int) && srcs[i]
                        < from && self.moves()[i] == recapture_move(pos@, srcs[i], to.0 as int),
                forall|f: int|
                    0 <= f < from && recaptures_from(pos@, f, to.0 as int) ==> exists|i: int|
                        0 <= i < self.size && #[trigger] srcs[i] == f,
            decreases 81 - from,
        {
            let pc = pos.board[from as usize];
            let own = pc.0 != 0 && (if pc.0 < 16 {
                Color::Black
            } else {
                Color::White
            }) == us;
            if own && from != to.0 && crate::attack::attacks_exec(&pos.board, from, to.0) {
                let t = pc.0 % 16;
                let rf = match us {
                    Color::Black => from % 9,
                    Color::White => 8 - from % 9,
                };
                assert(rf == rel_rank(us, from as int % 9));
                let m = if 1 <= t && t <= 6 && (rf < 3 || rt < 3) {
                    Move::new_promote(Square(from), to, pc)
                } else {
                    Move::new_unpromote(Square(from), to, pc)
                };
                assert(m == recapture_move(pos@, from as int, to.0 as int));
                let ghost before = self.moves();
                let ghost old_srcs = srcs;
                self.push(m);
                proof {
                    srcs = srcs.push(from as int);
                    assert(self.moves().len() == before.len() + 1);
                    assert(before.len() == self.size - 1);
                    assert(srcs.len() == self.size);
                    assert(before.len() == old_srcs.len());
                    assert forall|i: int| 0 <= i < self.size implies recaptures_from(
                        pos@,
                        #[trigger] srcs[i],
                        to.0 as int,
                    ) && srcs[i] < from + 1 && self.moves()[i] == recapture_move(pos@, srcs[i], to.0 as int) by {
                        if i < before.len() {
                            assert(self.moves()[i] == before[i]);
                            assert(srcs[i] == old_srcs[i]);
                        } else {
                            assert(i == before.len());
                            assert(srcs[i] == from as int);
                            assert(self.moves()[i] == m);
                        }
                    }
                    assert forall|f: int|
                        0 <= f < from + 1 && recaptures_from(pos@, f, to.0 as int) implies exists|i: int|
                            0 <= i < self.size && #[trigger] srcs[i] == f by {
                        if f == from {
                            assert(srcs[old_srcs.len() as int] == f);
                        } else {
                            let i = choose|i: int| 0 <= i < old_srcs.len() && #[trigger] old_srcs[i] == f;
                            assert(srcs[i] == f);
                        }
                    }
                }
            } else {
                proof {
                    if own && from == to.0 {
                        crate::attack::lemma_no_self_attack(pos@.board, from as int);
                    }
                    assert(!recaptures_from(pos@, from as int, to.0 as int));
                }
            }
            from += 1;
        }
        proof {
            assert forall|i: int| 0 <= i < self.size implies is_recapture(
                pos@,
                to.0 as int,
                #[trigger] self.moves()[i],
            ) by {
                assert(recaptures_from(pos@, srcs[i], to.0 as int) && self.moves()[i] == recapture_move(
                    pos@,
                    srcs[i],
                    to.0 as int,
                ));
            }
            assert forall|f: int| recaptures_from(pos@, f, to.0 as int) implies #[trigger] self.moves().contains(
                recapture_move(pos@, f, to.0 as int),
            ) by {
                let i = choose|i: int| 0 <= i < self.size && #[trigger] srcs[i] == f;
                assert(self.moves()[i] == recapture_move(pos@, f, to.0 as int));
            }
        }
    }

    /// Appends, for each square of `to_squares` in turn, a drop of each
    /// piece of `possessions` in turn.
    pub fn generate_drop_for_possessions(&mut self, possessions: &[Piece], to_squares: &[Square])
        requires
            old(self).wf(),
            forall|i: int| 0 <= i < possessions@.len() ==> (#[trigger] possessions@[i]).wf(),
            forall|i: int| 0 <= i < to_squares@.len() ==> (#[trigger] to_squares@[i]).wf(),
        ensures
            final(self).wf(),
            final(self).moves() == old(self).moves() + drops_seq(possessions@, to_squares@),
    {
        let ghost start = self.moves();
        let mut i: usize = 0;
        while i < to_squares.len()
            invariant
                self.wf(),
                i <= to_squares@.len(),
                forall|k: int| 0 <= k < possessions@.len() ==> (#[trigger] possessions@[k]).wf(),
                forall|k: int| 0 <= k < to_squares@.len() ==> (#[trigger] to_squares@[k]).wf(),
                self.moves() == start + drops_seq(possessions@, to_squares@.subrange(0, i as int)),
            decreases to_squares@.len() - i,
        {
            let to = to_squares[i];
            let ghost mid = self.moves();
            let mut j: usize = 0;
            while j < possessions.len()
                invariant
                    self.wf(),
                    j <= possessions@.len(),
                    to.wf(),
                    forall|k: int| 0 <= k < possessions@.len() ==> (#[trigger] possessions@[k]).wf(),
                    self.moves() == mid + drops_on(possessions@.subrange(0, j as int), to),
                decreases possessions@.len() - j,
            {
                let m = Move::new_drop(possessions[j], to);
                self.push(m);
                assert(drops_on(possessions@.subrange(0, j + 1), to) =~= drops_on(
                    possessions@.subrange(0, j as int),
                    to,
                ).push(m));
                j += 1;
            }
            assert(possessions@.subrange(0, j as int) =~= possessions@);
            assert(to_squares@.subrange(0, i + 1).drop_last() =~= to_squares@.subrange(0, i as int));
            assert(self.moves() =~= start + drops_seq(possessions@, to_squares@.subrange(0, i + 1)));
            i += 1;
        }
        assert(to_squares@.subrange(0, i as int) =~= to_squares@);
    }

    /// Replaces the entries from `current_size` on by the moves of kind `g`
    /// of the position, each once: a move is listed exactly when `selected`
    /// holds of it. For `Legals`, these are the moves that are pseudo-legal
    /// (while searching) and leave the mover's king safe.
    #[verifier::rlimit(40)]
    pub fn generate(&mut self, pos: &Position, current_size: usize, g: GenType)
        requires
            old(self).wf(),
            pos.wf(),
            current_size <= old(self).size,
        ensures
            final(self).wf(),
            final(self).size >= current_size,
            final(self).moves().subrange(0, current_size as int) == old(self).moves().subrange(
                0,
                current_size as int,
            ),
            forall|i: int|
                current_size <= i < final(self).size ==> selected(pos@, #[trigger] final(self).moves()[i], g),
            forall|m: Move|
                selected(pos@, m, g) ==> #[trigger] final(self).moves().subrange(
                    current_size as int,
                    final(self).size as int,
                ).contains(m),
            forall|i: int, j: int|
                current_size <= i < j < final(self).size ==> final(self).moves()[i] != final(self).moves()[j],
    {
        self.ext_moves.truncate(current_size);
        self.size = current_size;
        let ghost p = pos@;
        let ghost prefix = self.moves();
        assert(prefix =~= old(self).moves().subrange(0, current_size as int));
        let us = pos.side_to_move;
        let mut k: usize = 0;
        while k < CANDIDATES
            invariant
                self.wf(),
                pos.wf(),
                p == pos@,
                us == p.side,
                k <= CANDIDATES,
                self.size >= current_size,
                self.moves().subrange(0, current_size as int) == prefix,
                forall|i: int| current_size <= i < self.size ==> selected(p, #[trigger] self.moves()[i], g),
                forall|i: int| current_size <= i < self.size ==> move_key(#[trigger] self.moves()[i]) < k,
                forall|i: int, j: int|
                    current_size <= i < j < self.size ==> move_key(self.moves()[i]) < move_key(self.moves()[j]),
                forall|m: Move|
                    selected(p, m, g) && move_key(m) < k ==> #[trigger] self.moves().subrange(
                        current_size as int,
                        self.size as int,
                    ).contains(m),
            decreases CANDIDATES - k,
        {
            let ghost before = self.moves();
            let mut cand: Option<Move> = None;
            if k < 13122 {
                let from = (k / 162) as u8;
                let to = ((k / 2) % 81) as u8;
                let promo = k % 2 == 1;
                let pc = pos.board[from as usize];
                if pc.0 != 0 && from != to {
                    let m = if promo {
                        Move::new_promote(Square(from), Square(to), pc)
                    } else {
                        Move::new_unpromote(Square(from), Square(to), pc)
                    };
                    proof {
                        assert(m.0 == ((pc.0 as u32) << 16) | ((from as u32) << 9) | (if promo {
                            0x80u32
                        } else {
                            0u32
                        }) | (to as u32)) by {
                            let a = (pc.0 as u32) << 16;
                            let b = (from as u32) << 9;
                            let c = to as u32;
                            assert(0x80u32 | (a | b | c) == a | b | 0x80u32 | c) by (bit_vector);
                            assert(a | b | c == a | b | 0u32 | c) by (bit_vector);
                        }
                    }
                    proof {
                        let pr: int = if promo { 1 } else { 0 };
                        let kk = k as int;
                        assert((from as int * 81 + to as int) * 2 + pr == kk) by (nonlinear_arith)
                            requires
                                from as int == kk / 162,
                                to as int == (kk / 2) % 81,
                                pr == kk % 2,
                                0 <= kk,
                        ;
                        assert(move_key(m) == k);
                    }
                    cand = Some(m);
                }
            } else {
                let j = k - 13122;
                let t = (j / 81 + 1) as u8;
                let to = (j % 81) as u8;
                let pc = Piece::new(us, PieceType::from_code(t));
                let m = Move::new_drop(pc, Square(to));
                proof {
                    let jj = j as int;
                    assert((t as int - 1) * 81 + to as int == jj) by (nonlinear_arith)
                        requires
                            t as int == jj / 81 + 1,
                            to as int == jj % 81,
                            0 <= jj,
                    ;
                    assert(dropped_field(m.0) % 16 == t);
                    assert(move_key(m) == k);
                }
                cand = Some(m);
            }
            match cand {
                Some(m) => {
                    if pos.pseudo_legal(m, true) {
                        let keep = match g {
                            GenType::Legals => pos.legal(m),
                            GenType::NonEvasions => true,
                            GenType::Evasions => pos.in_check(),
                            GenType::CaptureOrPawnPromotions => capture_or_pawn_promotion(pos, m),
                            GenType::QuietsWithoutPawnPromotions => !capture_or_pawn_promotion(pos, m),
                        };
                        if keep {
                            self.push(m);
                        }
                    }
                },
                None => {},
            }
            assert(self.moves() == before || self.moves() == before.push(cand->0));
            proof {
                if self.moves() != before {
                    assert(move_key(cand->0) == k);
                    assert forall|i: int| current_size <= i < self.size implies move_key(#[trigger] self.moves()[i]) < k + 1 by {
                        if i < before.len() {
                            assert(self.moves()[i] == before[i]);
                        }
                    }
                    assert forall|i: int, j: int|
                        current_size <= i < j < self.size implies move_key(self.moves()[i]) < move_key(self.moves()[j]) by {
                        assert(self.moves()[i] == before[i]);
                        if j < before.len() {
                            assert(self.moves()[j] == before[j]);
                        }
                    }
                }
                let cur = self.moves();
                assert(cur.subrange(0, current_size as int) =~= prefix) by {
                    assert(cur.subrange(0, current_size as int) =~= before.subrange(0, current_size as int));
                }
                assert forall|m: Move| selected(p, m, g) && move_key(m) < k + 1 implies #[trigger] cur.subrange(
                    current_size as int,
                    self.size as int,
                ).contains(m) by {
                    let bs = before.subrange(current_size as int, before.len() as int);
                    let cs = cur.subrange(current_size as int, self.size as int);
                    if move_key(m) < k {
                        assert(bs.contains(m));
                        let i = choose|i: int| 0 <= i < bs.len() && bs[i] == m;
                        assert(bs[i] == before[current_size + i]);
                        assert(cs[i] == cur[current_size + i]);
                        assert(cur[current_size + i] == before[current_size + i]);
                        assert(cs[i] == m);
                    } else {
                        lemma_key_unique(p, m, k as int);
                        if k < 13122 {
                            assert(m.0 != 0);
                        }
                        assert(cand == Some(m));
                        assert(cs[cs.len() - 1] == m);
                    }
                }
            }
            k += 1;
        }
        proof {
            assert forall|m: Move| selected(p, m, g) implies #[trigger] self.moves().subrange(
                current_size as int,
                self.size as int,
            ).contains(m) by {
                lemma_key_unique(p, m, move_key(m));
            }
            assert forall|i: int, j: int|
                current_size <= i < j < self.size implies self.moves()[i] != self.moves()[j] by {
                assert(move_key(self.moves()[i]) < move_key(self.moves()[j]));
            }
        }
    }
}

} // verus!
