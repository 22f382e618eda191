use vstd::prelude::*;
use crate::attack::{attacked_by, board_ok};
use crate::hand::hand_max;
use crate::moves::{Move, drop_bit, dropped_field, from_field, moved_field, promote_bit, to_field};
use crate::position::{
    PosModel, Position, StateInfo, board_after, board_count, captured_by, compute_board_key,
    compute_hand_key, do_spec, family, hand_after, is_of, king_black_after, king_white_after,
    lemma_count_update, next_state, null_spec, null_state, opp, squares_key, step_ok, step_spec,
    total_max, undo_spec,
};
use crate::types::{Color, Piece, PieceType};

verus! {

/// A piece of family `fam` on square `i` makes the board count of `fam` positive.
proof fn lemma_count_pos(b: Seq<Piece>, i: int, fam: u8)
    requires
        b.len() == 81,
        0 <= i < 81,
        is_of(b[i], fam) == 1,
    ensures
        board_count(b, fam, 81) >= 1,
{
    lemma_count_update(b, i, Piece(0), fam, 81);
}

/// Family counts of the board after a move: the moved piece keeps its
/// family, a dropped piece adds one, a captured piece leaves.
proof fn lemma_counts_after(p: PosModel, m: Move, fam: u8)
    requires
        p.board.len() == 81,
        to_field(m.0) < 81,
        drop_bit(m.0) ==> p.board[to_field(m.0) as int].0 == 0,
        !drop_bit(m.0) ==> {
            &&& from_field(m.0) < 81
            &&& from_field(m.0) != to_field(m.0)
            &&& p.board[from_field(m.0) as int].wf()
            &&& p.board[from_field(m.0) as int].0 as u32 == moved_field(m.0)
            &&& (promote_bit(m.0) ==> 1 <= p.board[from_field(m.0) as int].type_code() <= 6)
        },
    ensures
        drop_bit(m.0) ==> board_count(board_after(p.board, m), fam, 81) == board_count(p.board, fam, 81)
            + is_of(Piece(dropped_field(m.0) as u8), fam),
        !drop_bit(m.0) ==> board_count(board_after(p.board, m), fam, 81) + is_of(
            p.board[to_field(m.0) as int],
            fam,
        ) == board_count(p.board, fam, 81),
{
    let b = p.board;
    let to = to_field(m.0) as int;
    if drop_bit(m.0) {
        lemma_count_update(b, to, Piece(dropped_field(m.0) as u8), fam, 81);
        assert(is_of(b[to], fam) == 0);
    } else {
        let from = from_field(m.0) as int;
        let b1 = b.update(from, Piece(0));
        lemma_count_update(b, from, Piece(0), fam, 81);
        lemma_count_update(b1, to, Piece(m.spec_piece_after()), fam, 81);
        let pc = b[from];
        let mv = Piece(m.spec_piece_after());
        assert(b1[to] == b[to]);
        if promote_bit(m.0) {
            assert(mv.0 == pc.0 + 8);
            assert(mv.wf());
            assert(family(mv) == family(pc));
        } else {
            assert(mv == pc);
        }
        assert(is_of(mv, fam) == is_of(pc, fam));
    }
}

/// A move that can be played leads to a consistent position that keeps
/// every family's total.
#[verifier::rlimit(40)]
pub proof fn lemma_do_wf(p: PosModel, m: Move)
    requires
        p.wf(),
        p.can_apply(m),
    ensures
        do_spec(p, m).wf(),
        forall|fam: u8| 1 <= fam <= 7 ==> #[trigger] do_spec(p, m).family_total(fam) == p.family_total(fam),
{
    reveal(do_spec);
    let q = do_spec(p, m);
    let us = p.side;
    let b = p.board;
    let to = to_field(m.0) as int;
    let b2 = q.board;
    if drop_bit(m.0) {
        let pc = Piece(dropped_field(m.0) as u8);
        let t = pc.type_code();
        assert(t == (dropped_field(m.0) % 16) as u8);
        p.hand_of(us).lemma_minus(t);
        assert(m.is_drop_move());
        assert forall|fam: u8| 1 <= fam <= 7 implies #[trigger] q.family_total(fam) == p.family_total(fam) by {
            lemma_counts_after(p, m, fam);
            assert(family(pc) == t);
        }
        assert forall|s: int| 0 <= s < 81 implies (#[trigger] b2[s]).0 == 0 || b2[s].wf() by {
            assert(b2[s] == (if s == to { pc } else { b[s] }));
        }
        assert forall|s: int| 0 <= s < 81 && #[trigger] b2[s] == Piece(8) implies s == q.king_black by {
            assert(s != to);
        }
        assert forall|s: int| 0 <= s < 81 && #[trigger] b2[s] == Piece(24) implies s == q.king_white by {
            assert(s != to);
        }
    } else {
        let from = from_field(m.0) as int;
        let pc = b[from];
        let cap = b[to];
        let mv = Piece(m.spec_piece_after());
        assert(from != to);
        if promote_bit(m.0) {
            assert(mv.0 == pc.0 + 8);
        } else {
            assert(mv == pc);
        }
        assert(mv.wf());
        if cap.0 != 0 {
            let f = family(cap);
            assert(1 <= f <= 7);
            lemma_count_pos(b, to, f);
            assert(p.family_total(f) <= total_max(f));
            assert(p.hand_of(us).count(f) < hand_max(f));
            p.hand_of(us).lemma_plus(f);
        }
        assert forall|fam: u8| 1 <= fam <= 7 implies #[trigger] q.family_total(fam) == p.family_total(fam) by {
            lemma_counts_after(p, m, fam);
        }
        assert forall|s: int| 0 <= s < 81 implies (#[trigger] b2[s]).0 == 0 || b2[s].wf() by {
            assert(b2[s] == (if s == to { mv } else if s == from { Piece(0) } else { b[s] }));
        }
        if pc == Piece(8) {
            assert(from == p.king_black);
        }
        if pc == Piece(24) {
            assert(from == p.king_white);
        }
        assert forall|s: int| 0 <= s < 81 && #[trigger] b2[s] == Piece(8) implies s == q.king_black by {
            assert(b2[s] == (if s == to { mv } else if s == from { Piece(0) } else { b[s] }));
        }
        assert forall|s: int| 0 <= s < 81 && #[trigger] b2[s] == Piece(24) implies s == q.king_white by {
            assert(b2[s] == (if s == to { mv } else if s == from { Piece(0) } else { b[s] }));
        }
        assert(b2[q.king_black as int] == Piece(8));
        assert(b2[q.king_white as int] == Piece(24));
    }
}

/// Taking a move back restores the position exactly: board, hands, kings,
/// side to move, ply and state stack (and so its keys).
#[verifier::rlimit(40)]
pub proof fn lemma_do_undo(p: PosModel, m: Move)
    requires
        p.wf(),
        p.can_apply(m),
    ensures
        undo_spec(do_spec(p, m), m) == p,
{
    reveal(do_spec);
    let q = do_spec(p, m);
    let r = undo_spec(q, m);
    let us = p.side;
    let b = p.board;
    let to = to_field(m.0) as int;
    assert(q.states.drop_last() =~= p.states);
    if drop_bit(m.0) {
        let pc = Piece(dropped_field(m.0) as u8);
        let t = (dropped_field(m.0) % 16) as u8;
        assert(t == pc.type_code());
        p.hand_of(us).lemma_minus(t);
        assert(r.board =~= b);
    } else {
        let from = from_field(m.0) as int;
        let pc = b[from];
        let cap = b[to];
        assert(from != to);
        assert(pc == Piece(moved_field(m.0) as u8));
        assert(r.board =~= b);
        if cap.0 != 0 {
            let f = family(cap);
            assert(1 <= f <= 7);
            lemma_count_pos(b, to, f);
            assert(p.family_total(f) <= total_max(f));
            assert(p.hand_of(us).count(f) < hand_max(f));
            p.hand_of(us).lemma_plus(f);
        }
        if pc == Piece(8) {
            assert(from == p.king_black);
        }
        if pc == Piece(24) {
            assert(from == p.king_white);
        }
        assert(m.spec_piece_after() == 8 <==> moved_field(m.0) == 8);
        assert(m.spec_piece_after() == 24 <==> moved_field(m.0) == 24);
    }
}

/// Recording one more played move keeps the history consistent.
proof fn lemma_history_push(old: &Position, new: &Position, m: Move)
    requires
        old.wf(),
        step_ok(old@, m),
        new@ == step_spec(old@, m),
        new.history@ == old.history@.push(old@),
        new.played@ == old.played@.push(m),
    ensures
        new.history_ok(),
{
    reveal(Position::history_ok);
    let h = new.history@;
    assert forall|i: int| 0 <= i < h.len() implies (#[trigger] h[i]).wf() && step_ok(
        h[i],
        new.played@[i],
    ) && step_spec(h[i], new.played@[i]) == (if i + 1 < h.len() {
        h[i + 1]
    } else {
        new@
    }) by {
        if i + 1 < h.len() {
            assert(h[i] == old.history@[i]);
        }
    }
}

/// Forgetting the last played move keeps the history consistent.
proof fn lemma_history_pop(old: &Position, new: &Position)
    requires
        old.wf(),
        old.history@.len() >= 1,
        new@ == old.history@.last(),
        new.history@ == old.history@.drop_last(),
        new.played@ == old.played@.drop_last(),
    ensures
        new.history_ok(),
        new@.wf(),
{
    reveal(Position::history_ok);
    let h = new.history@;
    let n = old.history@.len();
    assert(old.history@[n - 1].wf());
    assert forall|i: int| 0 <= i < h.len() implies (#[trigger] h[i]).wf() && step_ok(
        h[i],
        new.played@[i],
    ) && step_spec(h[i], new.played@[i]) == (if i + 1 < h.len() {
        h[i + 1]
    } else {
        new@
    }) by {
        assert(h[i] == old.history@[i]);
        assert(old.played@[i] == new.played@[i]);
        assert(old.history@[i].wf() && step_ok(old.history@[i], old.played@[i]));
        assert(step_spec(old.history@[i], old.played@[i]) == old.history@[i + 1]);
        if i + 1 < h.len() {
            assert(h[i + 1] == old.history@[i + 1]);
        } else {
            assert(i + 1 == n - 1);
        }
    }
}

/// What the last move and the state before it say of the current position.
proof fn lemma_history_last(pos: &Position)
    requires
        pos.wf(),
        pos.played@.len() >= 1,
    ensures
        pos.history@.len() == pos.played@.len(),
        pos.history@.last().wf(),
        step_ok(pos.history@.last(), pos.played@.last()),
        step_spec(pos.history@.last(), pos.played@.last()) == pos@,
{
    reveal(Position::history_ok);
    let n = pos.history@.len();
    assert(pos.history@[n - 1].wf());
}

impl Position {
    /// Moves the pieces and updates hands and kings for `m`; returns the
    /// captured piece.
    fn apply_pieces(&mut self, m: Move) -> (cap: Piece)
        requires
            old(self)@.wf(),
            old(self)@.can_apply(m),
        ensures
            cap == captured_by(old(self)@, m),
            final(self).board@ == board_after(old(self)@.board, m),
            final(self).hand_black == hand_after(old(self)@, m, Color::Black),
            final(self).hand_white == hand_after(old(self)@, m, Color::White),
            final(self).king_black == king_black_after(old(self)@, m),
            final(self).king_white == king_white_after(old(self)@, m),
            final(self).side_to_move == old(self).side_to_move,
            final(self).game_ply == old(self).game_ply,
            final(self).states@ == old(self).states@,
            final(self).zobrist == old(self).zobrist,
            final(self).history == old(self).history,
            final(self).played == old(self).played,
    {
        let ghost p = self@;
        let us = self.side_to_move;
        let to = m.to();
        if m.is_drop() {
            let pc = m.piece_dropped();
            let pt = m.piece_type_dropped();
            match us {
                Color::Black => self.hand_black.minus_one(pt),
                Color::White => self.hand_white.minus_one(pt),
            }
            self.board.set(to.0 as usize, pc);
            Piece(0)
        } else {
            let from = m.from();
            let cap = self.board[to.0 as usize];
            let mv = m.piece_moved_after_move();
            if cap.0 != 0 {
                let t = cap.0 % 16;
                let f = if t >= 9 {
                    t - 8
                } else {
                    t
                };
                proof {
                    assert(f == family(cap));
                    lemma_count_pos(p.board, to.0 as int, f);
                    assert(p.family_total(f) <= total_max(f));
                }
                let pt = PieceType::from_code(f);
                match us {
                    Color::Black => self.hand_black.plus_one(pt),
                    Color::White => self.hand_white.plus_one(pt),
                }
            }
            self.board.set(from.0 as usize, Piece(0));
            self.board.set(to.0 as usize, mv);
            if mv.0 == 8 {
                self.king_black = to.0;
            } else if mv.0 == 24 {
                self.king_white = to.0;
            }
            cap
        }
    }

    /// The state that a move of `us` leaves, capturing `cap`.
    fn new_state(&self, us: Color, cap: Piece, gives_check: bool) -> (st: StateInfo)
        requires
            self.states@.len() >= 1,
            board_ok(self.board@),
            self.hand_black.wf(),
            self.hand_white.wf(),
            self.zobrist.wf(),
            gives_check == attacked_by(
                self.board@,
                us,
                (if opp(us) == Color::Black {
                    self.king_black
                } else {
                    self.king_white
                }) as int,
            ),
        ensures
            st == next_state(
                self@.top(),
                self.board@,
                self.hand_black,
                self.hand_white,
                us,
                self.king_black,
                self.king_white,
                cap,
                self.zobrist.field@,
                self.zobrist.hand@,
            ),
    {
        let them = us.inverse();
        let prev = self.states[self.states.len() - 1];
        let board_key = compute_board_key(&self.board, them, &self.zobrist);
        let hand_key = compute_hand_key(self.hand_black, self.hand_white, &self.zobrist);
        let cc = match us {
            Color::Black => prev.continuous_check_black,
            Color::White => prev.continuous_check_white,
        };
        let cc_new: u32 = if gives_check {
            if cc < 0xffff_fffd {
                cc + 2
            } else {
                cc
            }
        } else {
            0
        };
        StateInfo {
            board_key,
            hand_key,
            hand_of_side_to_move: match them {
                Color::Black => self.hand_black,
                Color::White => self.hand_white,
            },
            captured_piece: cap,
            plies_from_null: if prev.plies_from_null < 0xffff_ffff {
                prev.plies_from_null + 1
            } else {
                prev.plies_from_null
            },
            continuous_check_black: match us {
                Color::Black => cc_new,
                Color::White => prev.continuous_check_black,
            },
            continuous_check_white: match us {
                Color::White => cc_new,
                Color::Black => prev.continuous_check_white,
            },
            in_check: gives_check,
        }
    }

    /// Plays `m`. `gives_check` must say whether it checks the opponent.
    /// A new state is pushed whose keys are those of the new position.
    #[verifier::rlimit(40)]
    pub fn do_move(&mut self, m: Move, gives_check: bool)
        requires
            old(self).wf(),
            old(self)@.can_apply(m),
            gives_check == old(self)@.gives_check_spec(m),
        ensures
            final(self).wf(),
            final(self)@ == do_spec(old(self)@, m),
            final(self).history@ == old(self).history@.push(old(self)@),
            final(self).last_move() == Some(m),
            forall|fam: u8|
                1 <= fam <= 7 ==> #[trigger] final(self)@.family_total(fam) == old(self)@.family_total(
                    fam,
                ),
    {
        let ghost p = self@;
        proof {
            reveal(do_spec);
            lemma_do_wf(p, m);
        }
        let us = self.side_to_move;
        let cap = self.apply_pieces(m);
        let st = self.new_state(us, cap, gives_check);
        self.side_to_move = us.inverse();
        self.game_ply = self.game_ply + 1;
        self.states.push(st);
        proof {
            reveal(do_spec);
            self.history = Ghost(self.history@.push(p));
            self.played = Ghost(self.played@.push(m));
            assert(self@.states =~= do_spec(p, m).states);
            assert(self@ == do_spec(p, m));
            assert(m.0 != crate::moves::NULL_CODE) by {
                if m.0 == crate::moves::NULL_CODE {
                    m.lemma_sentinel_not_normal();
                }
            }
            lemma_history_push(old(self), self, m);
        }
    }

    /// Takes back `m`, the last move played: the position is again the one
    /// before it, state stack and keys included.
    #[verifier::rlimit(40)]
    pub fn undo_move(&mut self, m: Move)
        requires
            old(self).wf(),
            old(self).last_move() == Some(m),
            m.is_normal(),
        ensures
            final(self).wf(),
            final(self)@ == old(self).history@.last(),
            final(self).history@ == old(self).history@.drop_last(),
    {
        let ghost p = self.history@.last();
        proof {
            reveal(do_spec);
            lemma_history_last(self);
            if m.0 == crate::moves::NULL_CODE {
                m.lemma_sentinel_not_normal();
            }
            lemma_do_undo(p, m);
        }
        let us = self.side_to_move.inverse();
        let to = m.to();
        let cap = self.states[self.states.len() - 1].captured_piece;
        if m.is_drop() {
            let pt = m.piece_type_dropped();
            proof {
                p.hand_of(us).lemma_minus(pt as u8);
            }
            match us {
                Color::Black => self.hand_black.plus_one(pt),
                Color::White => self.hand_white.plus_one(pt),
            }
            self.board.set(to.0 as usize, Piece(0));
        } else {
            let from = m.from();
            let before = m.piece_moved_before_move();
            if cap.0 != 0 {
                let t = cap.0 % 16;
                let f = if t >= 9 {
                    t - 8
                } else {
                    t
                };
                proof {
                    assert(f == family(cap));
                    lemma_count_pos(p.board, to.0 as int, f);
                    assert(p.family_total(f) <= total_max(f));
                    p.hand_of(us).lemma_plus(f);
                }
                let pt = PieceType::from_code(f);
                match us {
                    Color::Black => self.hand_black.minus_one(pt),
                    Color::White => self.hand_white.minus_one(pt),
                }
            }
            self.board.set(to.0 as usize, cap);
            self.board.set(from.0 as usize, before);
            if before.0 == 8 {
                self.king_black = from.0;
            } else if before.0 == 24 {
                self.king_white = from.0;
            }
        }
        self.side_to_move = us;
        self.game_ply = self.game_ply - 1;
        self.states.pop();
        proof {
            let ghost u = undo_spec(do_spec(p, m), m);
            assert(self@.board =~= u.board);
            assert(self@.states =~= u.states);
            assert(self@ == p);
            self.history = Ghost(self.history@.drop_last());
            self.played = Ghost(self.played@.drop_last());
            lemma_history_pop(old(self), self);
        }
    }
}

/// A null move keeps the position consistent.
pub proof fn lemma_null_wf(p: PosModel)
    requires
        p.wf(),
    ensures
        null_spec(p).wf(),
{
    let q = null_spec(p);
    assert(q.top() == null_state(p));
    assert(opp(opp(p.side)) == p.side);
    assert(q.checked() == q.top().in_check);
    assert(q.hand_key_of() == p.hand_key_of());
    assert(q.top().hand_key == q.hand_key_of());
    assert(q.top().board_key == q.board_key_of());
    assert(q.board == p.board && q.hand_black == p.hand_black && q.hand_white == p.hand_white);
    assert forall|fam: u8| 1 <= fam <= 7 implies #[trigger] q.family_total(fam) <= crate::position::total_max(fam) by {
        assert(q.family_total(fam) == p.family_total(fam));
    }
    assert forall|i: int| 0 <= i < q.states.len() implies (#[trigger] q.states[i]).hand_of_side_to_move.wf() by {
        if i < p.states.len() {
            assert(q.states[i] == p.states[i]);
        }
    }
}

impl Position {
    /// Passes: the other side is to move, on the same board. The state
    /// pushed restarts the count of plies since a null move and of checks.
    pub fn do_null_move(&mut self)
        requires
            old(self).wf(),
            !old(self)@.checked(),
        ensures
            final(self).wf(),
            final(self)@ == null_spec(old(self)@),
            final(self).last_move() == Some(Move(crate::moves::NULL_CODE)),
    {
        let ghost p = self@;
        proof {
            lemma_null_wf(p);
        }
        let prev = self.states[self.states.len() - 1];
        let them = self.side_to_move.inverse();
        let us = self.side_to_move;
        let ksq = match them {
            Color::Black => self.king_black,
            Color::White => self.king_white,
        };
        let bk = prev.board_key ^ 1;
        proof {
            let a = squares_key(p.board, p.zfield, 81);
            assert((a ^ 0u64) ^ 1u64 == a ^ 1u64 && (a ^ 1u64) ^ 1u64 == a ^ 0u64) by (bit_vector);
        }
        let st = StateInfo {
            board_key: bk,
            hand_key: prev.hand_key,
            hand_of_side_to_move: match them {
                Color::Black => self.hand_black,
                Color::White => self.hand_white,
            },
            captured_piece: Piece(0),
            plies_from_null: 0,
            continuous_check_black: 0,
            continuous_check_white: 0,
            in_check: crate::attack::attacked_by_exec(&self.board, us, ksq),
        };
        self.side_to_move = them;
        self.states.push(st);
        proof {
            assert(self@.states =~= null_spec(p).states);
            assert(self@ == null_spec(p));
            self.history = Ghost(self.history@.push(p));
            self.played = Ghost(self.played@.push(Move(crate::moves::NULL_CODE)));
            lemma_history_push(old(self), self, Move(crate::moves::NULL_CODE));
        }
    }

    /// Takes back the null move played last.
    pub fn undo_null_move(&mut self)
        requires
            old(self).wf(),
            old(self).last_move() == Some(Move(crate::moves::NULL_CODE)),
        ensures
            final(self).wf(),
            final(self)@ == old(self).history@.last(),
            final(self).history@ == old(self).history@.drop_last(),
    {
        let ghost p = self.history@.last();
        proof {
            lemma_history_last(self);
            assert(self@ == null_spec(p));
        }
        self.states.pop();
        self.side_to_move = self.side_to_move.inverse();
        proof {
            assert(self@.states =~= p.states);
            assert(self@ == p);
            self.history = Ghost(self.history@.drop_last());
            self.played = Ghost(self.played@.drop_last());
            lemma_history_pop(old(self), self);
        }
    }
}

} // verus!
