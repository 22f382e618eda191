use vstd::prelude::*;
use crate::attack::{attacked_by, attacked_by_exec, board_ok};
use crate::hand::{Hand, hand_max};
use crate::types::{Color, Piece, PieceType, Square};
use crate::zobrist::{FIELD_KEYS, HAND_KEYS, Zobrist, field_index, hand_index};
use crate::moves::{Move, drop_bit, dropped_field, from_field, moved_field, promote_bit, to_field};

verus! {

/// The family of a piece: its unpromoted kind code (1..7, 8 for a king).
pub open spec fn family(p: Piece) -> u8 {
    if p.type_code() >= 9 {
        (p.type_code() - 8) as u8
    } else {
        p.type_code()
    }
}

/// 1 when `p` is a piece of family `fam`, else 0.
pub open spec fn is_of(p: Piece, fam: u8) -> nat {
    if p.wf() && family(p) == fam {
        1
    } else {
        0
    }
}

/// Number of pieces of family `fam` on the first `n` squares.
pub open spec fn board_count(b: Seq<Piece>, fam: u8, n: int) -> nat
    decreases n,
{
    if n <= 0 {
        0
    } else {
        board_count(b, fam, n - 1) + is_of(b[n - 1], fam)
    }
}

/// Replacing one square changes a family count by what left and what came.
pub proof fn lemma_count_update(b: Seq<Piece>, i: int, p: Piece, fam: u8, n: int)
    requires
        0 <= i < b.len(),
        n <= b.len(),
    ensures
        board_count(b.update(i, p), fam, n) + (if i < n {
            is_of(b[i], fam)
        } else {
            0
        }) == board_count(b, fam, n) + (if i < n {
            is_of(p, fam)
        } else {
            0
        }),
    decreases n,
{
    if n > 0 {
        lemma_count_update(b, i, p, fam, n - 1);
    }
}

/// Xor of the board keys of the pieces on the first `n` squares.
pub open spec fn squares_key(b: Seq<Piece>, z: Seq<u64>, n: int) -> u64
    decreases n,
{
    if n <= 0 {
        0
    } else {
        squares_key(b, z, n - 1) ^ (if b[n - 1].wf() {
            z[field_index(b[n - 1].type_code() as int, n - 1, b[n - 1].color() as int)]
        } else {
            0u64
        })
    }
}

/// Xor of the hand keys of kinds 1..n of one hand.
pub open spec fn kinds_key(h: Hand, c: int, z: Seq<u64>, n: int) -> u64
    decreases n,
{
    if n <= 0 {
        0
    } else {
        kinds_key(h, c, z, n - 1) ^ z[hand_index(n, h.count(n as u8) as int, c)]
    }
}

/// What one ply leaves behind, so that it can be taken back and so that
/// repetitions can be found.
#[derive(Clone, Copy, Debug)]
pub struct StateInfo {
    pub board_key: u64,
    pub hand_key: u64,
    pub hand_of_side_to_move: Hand,
    pub captured_piece: Piece,
    pub plies_from_null: u32,
    pub continuous_check_black: u32,
    pub continuous_check_white: u32,
    pub in_check: bool,
}

impl StateInfo {
    pub open spec fn continuous_check(self, c: Color) -> u32 {
        if c == Color::Black {
            self.continuous_check_black
        } else {
            self.continuous_check_white
        }
    }

    /// The key of the whole position.
    pub fn key(&self) -> (r: u64)
        ensures
            r == self.board_key ^ self.hand_key,
    {
        self.board_key ^ self.hand_key
    }
}

pub open spec fn total_max(fam: u8) -> nat {
    hand_max(fam) as nat
}

pub open spec fn opp(c: Color) -> Color {
    if c == Color::Black {
        Color::White
    } else {
        Color::Black
    }
}

pub open spec fn side_bit(c: Color) -> u64 {
    if c == Color::White {
        1u64
    } else {
        0u64
    }
}

/// The mathematical content of a position: board, hands, side to move, ply,
/// king squares, the state stack and the hashing tables.
pub struct PosModel {
    pub board: Seq<Piece>,
    pub hand_black: Hand,
    pub hand_white: Hand,
    pub side: Color,
    pub game_ply: u32,
    pub king_black: u8,
    pub king_white: u8,
    pub states: Seq<StateInfo>,
    pub zfield: Seq<u64>,
    pub zhand: Seq<u64>,
}

impl PosModel {
    pub open spec fn hand_of(self, c: Color) -> Hand {
        if c == Color::Black {
            self.hand_black
        } else {
            self.hand_white
        }
    }

    pub open spec fn king_of(self, c: Color) -> int {
        if c == Color::Black {
            self.king_black as int
        } else {
            self.king_white as int
        }
    }

    pub open spec fn top(self) -> StateInfo {
        self.states[self.states.len() - 1]
    }

    /// Pieces of family `fam` on the board and in both hands.
    pub open spec fn family_total(self, fam: u8) -> nat {
        board_count(self.board, fam, 81) + self.hand_black.count(fam) + self.hand_white.count(fam)
    }

    /// The board key computed from scratch: every piece, and the side bit.
    pub open spec fn board_key_of(self) -> u64 {
        squares_key(self.board, self.zfield, 81) ^ side_bit(self.side)
    }

    /// The hand key computed from scratch.
    pub open spec fn hand_key_of(self) -> u64 {
        kinds_key(self.hand_black, 0, self.zhand, 7) ^ kinds_key(self.hand_white, 1, self.zhand, 7)
    }

    /// The side to move is in check.
    pub open spec fn checked(self) -> bool {
        attacked_by(self.board, opp(self.side), self.king_of(self.side))
    }

    /// The board, hands and kings are consistent.
    pub open spec fn base_wf(self) -> bool {
        &&& board_ok(self.board)
        &&& self.hand_black.wf()
        &&& self.hand_white.wf()
        &&& self.king_black < 81
        &&& self.king_white < 81
        &&& self.board[self.king_black as int] == Piece(8)
        &&& self.board[self.king_white as int] == Piece(24)
        &&& forall|s: int| 0 <= s < 81 && #[trigger] self.board[s] == Piece(8) ==> s == self.king_black
        &&& forall|s: int| 0 <= s < 81 && #[trigger] self.board[s] == Piece(24) ==> s == self.king_white
        &&& forall|fam: u8| 1 <= fam <= 7 ==> #[trigger] self.family_total(fam) <= total_max(fam)
        &&& 1 <= self.game_ply
        &&& self.zfield.len() == FIELD_KEYS
        &&& self.zhand.len() == HAND_KEYS
    }

    /// The top state agrees with the board.
    pub open spec fn top_wf(self) -> bool {
        &&& self.states.len() >= 1
        &&& self.top().board_key == self.board_key_of()
        &&& self.top().hand_key == self.hand_key_of()
        &&& self.top().hand_of_side_to_move == self.hand_of(self.side)
        &&& self.top().in_check == self.checked()
        &&& forall|i: int| 0 <= i < self.states.len() ==> (#[trigger] self.states[i]).hand_of_side_to_move.wf()
    }

    pub open spec fn wf(self) -> bool {
        self.base_wf() && self.top_wf()
    }

    /// After `m`, the opponent's king is attacked by the mover.
    pub open spec fn gives_check_spec(self, m: Move) -> bool {
        attacked_by(
            board_after(self.board, m),
            self.side,
            (if self.side == Color::Black {
                king_white_after(self, m)
            } else {
                king_black_after(self, m)
            }) as int,
        )
    }

    /// `m` can be played here: a real move of the side to move, from a square
    /// that holds the moved piece (or from the hand), onto a square that is
    /// empty or holds an enemy piece other than the king.
    pub open spec fn can_apply(self, m: Move) -> bool {
        let us = self.side;
        let to = to_field(m.0) as int;
        &&& m.is_normal()
        &&& self.game_ply < 0xffff_ffff
        &&& if drop_bit(m.0) {
            let pc = Piece(dropped_field(m.0) as u8);
            pc.color() == us && self.hand_of(us).count(pc.type_code()) >= 1 && self.board[to].0 == 0
        } else {
            let from = from_field(m.0) as int;
            let pc = self.board[from];
            let cap = self.board[to];
            &&& pc.wf()
            &&& pc.color() == us
            &&& pc.0 as u32 == moved_field(m.0)
            &&& (cap.0 == 0 || (cap.color() != us && cap.type_code() != 8))
            &&& (promote_bit(m.0) ==> 1 <= pc.type_code() <= 6)
        }
    }
}

/// The board after `m`.
pub open spec fn board_after(b: Seq<Piece>, m: Move) -> Seq<Piece> {
    let to = to_field(m.0) as int;
    if drop_bit(m.0) {
        b.update(to, Piece(dropped_field(m.0) as u8))
    } else {
        b.update(from_field(m.0) as int, Piece(0)).update(to, Piece(m.spec_piece_after()))
    }
}

/// The state pushed by a move of `mover` that leads to board `b` with hands
/// `hb`, `hw` and kings `kb`, `kw`, capturing `cap`.
pub open spec fn next_state(
    prev: StateInfo,
    b: Seq<Piece>,
    hb: Hand,
    hw: Hand,
    mover: Color,
    kb: u8,
    kw: u8,
    cap: Piece,
    zf: Seq<u64>,
    zh: Seq<u64>,
) -> StateInfo {
    let side = opp(mover);
    let ksq = if side == Color::Black {
        kb
    } else {
        kw
    };
    let gc = attacked_by(b, mover, ksq as int);
    let cc = prev.continuous_check(mover);
    let cc_new = if gc {
        if cc < 0xffff_fffd {
            (cc + 2) as u32
        } else {
            cc
        }
    } else {
        0u32
    };
    StateInfo {
        board_key: squares_key(b, zf, 81) ^ side_bit(side),
        hand_key: kinds_key(hb, 0, zh, 7) ^ kinds_key(hw, 1, zh, 7),
        hand_of_side_to_move: if side == Color::Black {
            hb
        } else {
            hw
        },
        captured_piece: cap,
        plies_from_null: if prev.plies_from_null < 0xffff_ffff {
            (prev.plies_from_null + 1) as u32
        } else {
            prev.plies_from_null
        },
        continuous_check_black: if mover == Color::Black {
            cc_new
        } else {
            prev.continuous_check_black
        },
        continuous_check_white: if mover == Color::White {
            cc_new
        } else {
            prev.continuous_check_white
        },
        in_check: gc,
    }
}

/// The piece that `m` captures, empty for a drop or a move to an empty square.
pub open spec fn captured_by(p: PosModel, m: Move) -> Piece {
    if drop_bit(m.0) {
        Piece(0)
    } else {
        p.board[to_field(m.0) as int]
    }
}

/// The hand of `c` after `m`.
pub open spec fn hand_after(p: PosModel, m: Move, c: Color) -> Hand {
    let cap = captured_by(p, m);
    let h = p.hand_of(c);
    if c != p.side {
        h
    } else if drop_bit(m.0) {
        h.minus((dropped_field(m.0) % 16) as u8)
    } else if cap.0 != 0 {
        h.plus(family(cap))
    } else {
        h
    }
}

/// The king square of Black after `m`.
pub open spec fn king_black_after(p: PosModel, m: Move) -> u8 {
    if !drop_bit(m.0) && m.spec_piece_after() == 8 {
        to_field(m.0) as u8
    } else {
        p.king_black
    }
}

/// The king square of White after `m`.
pub open spec fn king_white_after(p: PosModel, m: Move) -> u8 {
    if !drop_bit(m.0) && m.spec_piece_after() == 24 {
        to_field(m.0) as u8
    } else {
        p.king_white
    }
}

/// The position after `m`.
#[verifier::opaque]
pub open spec fn do_spec(p: PosModel, m: Move) -> PosModel {
    let us = p.side;
    let b2 = board_after(p.board, m);
    let hb = hand_after(p, m, Color::Black);
    let hw = hand_after(p, m, Color::White);
    let kb = king_black_after(p, m);
    let kw = king_white_after(p, m);
    PosModel {
        board: b2,
        hand_black: hb,
        hand_white: hw,
        side: opp(us),
        game_ply: (p.game_ply + 1) as u32,
        king_black: kb,
        king_white: kw,
        states: p.states.push(
            next_state(p.top(), b2, hb, hw, us, kb, kw, captured_by(p, m), p.zfield, p.zhand),
        ),
        zfield: p.zfield,
        zhand: p.zhand,
    }
}

/// The position before `m`, read off the position after it and the
/// captured piece that its state recorded.
pub open spec fn undo_spec(p: PosModel, m: Move) -> PosModel {
    let us = opp(p.side);
    let to = to_field(m.0) as int;
    let from = from_field(m.0) as int;
    let cap = p.top().captured_piece;
    let t = (dropped_field(m.0) % 16) as u8;
    let b = if drop_bit(m.0) {
        p.board.update(to, Piece(0))
    } else {
        p.board.update(to, cap).update(from, Piece(moved_field(m.0) as u8))
    };
    let hb = if us != Color::Black {
        p.hand_black
    } else if drop_bit(m.0) {
        p.hand_black.plus(t)
    } else if cap.0 != 0 {
        p.hand_black.minus(family(cap))
    } else {
        p.hand_black
    };
    let hw = if us != Color::White {
        p.hand_white
    } else if drop_bit(m.0) {
        p.hand_white.plus(t)
    } else if cap.0 != 0 {
        p.hand_white.minus(family(cap))
    } else {
        p.hand_white
    };
    let mv = moved_field(m.0);
    let kb = if !drop_bit(m.0) && mv == 8 {
        from as u8
    } else {
        p.king_black
    };
    let kw = if !drop_bit(m.0) && mv == 24 {
        from as u8
    } else {
        p.king_white
    };
    PosModel {
        board: b,
        hand_black: hb,
        hand_white: hw,
        side: us,
        game_ply: (p.game_ply - 1) as u32,
        king_black: kb,
        king_white: kw,
        states: p.states.drop_last(),
        zfield: p.zfield,
        zhand: p.zhand,
    }
}

/// The state pushed by a null move: the side to move passes.
pub open spec fn null_state(p: PosModel) -> StateInfo {
    let side = opp(p.side);
    StateInfo {
        board_key: squares_key(p.board, p.zfield, 81) ^ side_bit(side),
        hand_key: p.top().hand_key,
        hand_of_side_to_move: p.hand_of(side),
        captured_piece: Piece(0),
        plies_from_null: 0,
        continuous_check_black: 0,
        continuous_check_white: 0,
        in_check: attacked_by(p.board, p.side, p.king_of(side)),
    }
}

/// The position after a null move: the same board, the other side to move.
pub open spec fn null_spec(p: PosModel) -> PosModel {
    PosModel { side: opp(p.side), states: p.states.push(null_state(p)), ..p }
}

/// One step of play: a null move when `m` is the null word, else the move.
pub open spec fn step_spec(p: PosModel, m: Move) -> PosModel {
    if m.0 == crate::moves::NULL_CODE {
        null_spec(p)
    } else {
        do_spec(p, m)
    }
}

/// The step can be taken: a null move when not in check, else a playable move.
pub open spec fn step_ok(p: PosModel, m: Move) -> bool {
    if m.0 == crate::moves::NULL_CODE {
        !p.checked()
    } else {
        p.can_apply(m)
    }
}

/// A shogi position with the stack of states of the plies played on it.
pub struct Position {
    pub board: Vec<Piece>,
    pub hand_black: Hand,
    pub hand_white: Hand,
    pub side_to_move: Color,
    pub game_ply: u32,
    pub king_black: u8,
    pub king_white: u8,
    pub states: Vec<StateInfo>,
    pub zobrist: Zobrist,
    /// The positions before each move played, oldest first.
    pub history: Ghost<Seq<PosModel>>,
    /// The moves played, oldest first.
    pub played: Ghost<Seq<Move>>,
}

impl View for Position {
    type V = PosModel;

    open spec fn view(&self) -> PosModel {
        PosModel {
            board: self.board@,
            hand_black: self.hand_black,
            hand_white: self.hand_white,
            side: self.side_to_move,
            game_ply: self.game_ply,
            king_black: self.king_black,
            king_white: self.king_white,
            states: self.states@,
            zfield: self.zobrist.field@,
            zhand: self.zobrist.hand@,
        }
    }
}

impl Position {
    /// Each recorded position is consistent, the recorded move could be played
    /// there, and playing it gave the next recorded position (or this one).
    #[verifier::opaque]
    pub open spec fn history_ok(&self) -> bool {
        let h = self.history@;
        let ms = self.played@;
        &&& h.len() == ms.len()
        &&& forall|i: int|
            0 <= i < h.len() ==> (#[trigger] h[i]).wf() && step_ok(h[i], ms[i]) && step_spec(
                h[i],
                ms[i],
            ) == (if i + 1 < h.len() {
                h[i + 1]
            } else {
                self@
            })
    }

    pub open spec fn wf(&self) -> bool {
        &&& self@.wf()
        &&& self.zobrist.wf()
        &&& self.history_ok()
    }

    /// The last move played on this position, if any.
    pub open spec fn last_move(&self) -> Option<Move> {
        if self.played@.len() == 0 {
            None
        } else {
            Some(self.played@.last())
        }
    }

    /// What stands on `sq`.
    pub fn piece_on(&self, sq: Square) -> (r: Piece)
        requires
            self.wf(),
            sq.wf(),
        ensures
            r == self@.board[sq.0 as int],
    {
        self.board[sq.0 as usize]
    }

    /// The hand of `c`.
    pub fn hand(&self, c: Color) -> (r: Hand)
        ensures
            r == self@.hand_of(c),
    {
        match c {
            Color::Black => self.hand_black,
            Color::White => self.hand_white,
        }
    }

    /// The side to move.
    pub fn side_to_move(&self) -> (r: Color)
        ensures
            r == self@.side,
    {
        self.side_to_move
    }

    /// The square of the king of `c`.
    pub fn king_square(&self, c: Color) -> (r: Square)
        requires
            self.wf(),
        ensures
            r.0 == self@.king_of(c),
            r.wf(),
    {
        match c {
            Color::Black => Square(self.king_black),
            Color::White => Square(self.king_white),
        }
    }

    /// The game ply.
    pub fn ply(&self) -> (r: u32)
        ensures
            r == self@.game_ply,
    {
        self.game_ply
    }

    /// The side to move is in check.
    pub fn in_check(&self) -> (r: bool)
        requires
            self.wf(),
        ensures
            r == self@.checked(),
    {
        self.states[self.states.len() - 1].in_check
    }

    /// The hash key of the position: board part xor hand part, each kept
    /// equal to its value computed from scratch.
    pub fn key(&self) -> (r: u64)
        requires
            self.wf(),
        ensures
            r == self@.board_key_of() ^ self@.hand_key_of(),
    {
        self.states[self.states.len() - 1].key()
    }

    /// The piece captured by the last move, empty if none.
    pub fn captured_piece(&self) -> (r: Piece)
        requires
            self.wf(),
        ensures
            r == self@.top().captured_piece,
    {
        self.states[self.states.len() - 1].captured_piece
    }
}

/// The board key computed from scratch.
pub fn compute_board_key(board: &Vec<Piece>, side: Color, z: &Zobrist) -> (r: u64)
    requires
        board_ok(board@),
        z.wf(),
    ensures
        r == squares_key(board@, z.field@, 81) ^ (if side == Color::White {
            1u64
        } else {
            0u64
        }),
{
    let mut k: u64 = 0;
    let mut s: usize = 0;
    while s < 81
        invariant
            board_ok(board@),
            z.wf(),
            s <= 81,
            k == squares_key(board@, z.field@, s as int),
        decreases 81 - s,
    {
        let p = board[s];
        let ghost k0 = k;
        if p.0 != 0 {
            let t = (p.0 % 16) as usize;
            let c = (p.0 / 16) as usize;
            assert(p.wf());
            assert(p.color() as int == c);
            assert(p.type_code() as int == t);
            k = k ^ z.field[(t * 81 + s) * 2 + c];
        }
        assert(squares_key(board@, z.field@, s + 1) == k0 ^ (if board@[s as int].wf() {
            z.field@[field_index(board@[s as int].type_code() as int, s as int, board@[s as int].color() as int)]
        } else {
            0u64
        }));
        if p.0 == 0 {
            assert(k0 ^ 0u64 == k0) by (bit_vector);
        }
        s += 1;
    }
    if side == Color::White {
        k ^ 1
    } else {
        k ^ 0
    }
}

/// The hand key computed from scratch.
pub fn compute_hand_key(hb: Hand, hw: Hand, z: &Zobrist) -> (r: u64)
    requires
        hb.wf(),
        hw.wf(),
        z.wf(),
    ensures
        r == kinds_key(hb, 0, z.hand@, 7) ^ kinds_key(hw, 1, z.hand@, 7),
{
    let mut kb: u64 = 0;
    let mut kw: u64 = 0;
    let mut t: u8 = 1;
    while t <= 7
        invariant
            hb.wf(),
            hw.wf(),
            z.wf(),
            1 <= t <= 8,
            kb == kinds_key(hb, 0, z.hand@, t - 1),
            kw == kinds_key(hw, 1, z.hand@, t - 1),
        decreases 8 - t,
    {
        let pt = PieceType::from_code(t);
        let nb = hb.num(pt) as usize;
        let nw = hw.num(pt) as usize;
        assert(nb <= 18 && nw <= 18);
        kb = kb ^ z.hand[((t as usize) * 19 + nb) * 2];
        kw = kw ^ z.hand[((t as usize) * 19 + nw) * 2 + 1];
        t += 1;
    }
    kb ^ kw
}

/// Number of pieces of family `fam` on the board.
pub fn count_family(board: &Vec<Piece>, fam: u8) -> (r: u32)
    requires
        board@.len() == 81,
    ensures
        r == board_count(board@, fam, 81),
{
    let mut n: u32 = 0;
    let mut s: usize = 0;
    while s < 81
        invariant
            board@.len() == 81,
            s <= 81,
            n == board_count(board@, fam, s as int),
            n <= s,
        decreases 81 - s,
    {
        let p = board[s];
        let is_piece = 1 <= p.0 && p.0 <= 14 || 17 <= p.0 && p.0 <= 30;
        let t = p.0 % 16;
        let f = if t >= 9 {
            t - 8
        } else {
            t
        };
        if is_piece && f == fam {
            n += 1;
        }
        s += 1;
    }
    n
}

/// Whether `c` is in check on this board with its king on `ksq`.
pub fn king_attacked(board: &Vec<Piece>, c: Color, ksq: u8) -> (r: bool)
    requires
        board@.len() == 81,
        ksq < 81,
    ensures
        r == attacked_by(board@, opp(c), ksq as int),
{
    attacked_by_exec(board, c.inverse(), ksq)
}

} // verus!
