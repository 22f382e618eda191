use vstd::prelude::*;
use crate::attack::{
    attacked_by, attacked_by_exec, attacks, attacks_exec, board_ok, rel_rank, step_reach,
};
use crate::moves::{
    IsNormalMove, Move, drop_bit, dropped_field, from_field, moved_field, promote_bit, to_field,
};
use crate::evasion::{blocks, on_walk, walk_len, walk_step};
use crate::attack::{iabs, isgn, step_reach_at};
use crate::position::{PosModel, Position, board_after, king_black_after, king_white_after, opp};
use crate::types::{Color, Piece, Square};

verus! {

/// Color `c` has an unpromoted pawn on file `f`.
pub open spec fn pawn_on_file(b: Seq<Piece>, c: Color, f: int) -> bool {
    exists|r: int| 0 <= r < 9 && #[trigger] b[9 * f + r] == Piece::of(c, crate::types::PieceType::Pawn)
}

/// The board after moving the piece on `from` to `to` unchanged.
pub open spec fn shift_piece(b: Seq<Piece>, from: int, to: int) -> Seq<Piece> {
    b.update(from, Piece(0)).update(to, b[from])
}

/// Side `c`, whose king stands on `kc`, has a board move that leaves its
/// king unattacked.
pub open spec fn board_escape(b: Seq<Piece>, c: Color, kc: int) -> bool {
    exists|from: int, to: int|
        0 <= from < 81 && 0 <= to < 81 && #[trigger] escape_at(b, c, kc, from, to)
}

pub open spec fn escape_at(b: Seq<Piece>, c: Color, kc: int, from: int, to: int) -> bool {
    &&& b[from].wf()
    &&& b[from].color() == c
    &&& (b[to].0 == 0 || b[to].color() != c)
    &&& attacks(b, from, to)
    &&& !attacked_by(
        shift_piece(b, from, to),
        opp(c),
        if from == kc {
            to
        } else {
            kc
        },
    )
}

/// Square in front of `sq` for a pawn of `c`.
pub open spec fn front(c: Color, sq: int) -> int {
    if c == Color::Black {
        sq - 1
    } else {
        sq + 1
    }
}

/// Dropping a pawn of the side to move on `to` checks the enemy king and
/// leaves it no board move out of check (a drop cannot answer a pawn's check).
pub open spec fn pawn_drop_mates(p: PosModel, to: int) -> bool {
    let us = p.side;
    let them = opp(us);
    let b2 = p.board.update(to, Piece::of(us, crate::types::PieceType::Pawn));
    &&& to % 9 != (if us == Color::Black {
        0int
    } else {
        8int
    })
    &&& front(us, to) == p.king_of(them)
    &&& !board_escape(b2, them, p.king_of(them))
}

/// `m` could be played here as far as the pieces go: a real move of the side
/// to move that answers any check (see `evasion_ok`), onto a square where the piece can still move afterwards, a drop
/// of a held piece onto an empty square that breaks neither pawn rule, or a
/// board move that the piece's movement allows, promoting only where it may.
/// With `searching`, moves that a promotion always dominates are refused too:
/// unpromoted pawn moves into the zone, unpromoted bishop and rook moves into,
/// out of or within it, and unpromoted lance moves to the second rank, or
/// to the third without a capture.
pub open spec fn pseudo_legal_spec(p: PosModel, m: Move, searching: bool) -> bool {
    let us = p.side;
    let to = to_field(m.0) as int;
    let rt = rel_rank(us, to % 9);
    &&& m.is_normal()
    &&& evasion_ok(p, m)
    &&& if drop_bit(m.0) {
        let pc = Piece(dropped_field(m.0) as u8);
        let t = pc.type_code();
        &&& pc.color() == us
        &&& p.hand_of(us).count(t) >= 1
        &&& p.board[to].0 == 0
        &&& !(t == 1 && rt == 0)
        &&& !(t == 2 && rt == 0)
        &&& !(t == 3 && rt <= 1)
        &&& (t == 1 ==> !pawn_on_file(p.board, us, to / 9) && !pawn_drop_mates(p, to))
    } else {
        let from = from_field(m.0) as int;
        let pc = p.board[from];
        let t = pc.type_code();
        let cap = p.board[to];
        let rf = rel_rank(us, from % 9);
        &&& pc.wf()
        &&& pc.color() == us
        &&& pc.0 as u32 == moved_field(m.0)
        &&& (cap.0 == 0 || (cap.color() != us && cap.type_code() != 8))
        &&& attacks(p.board, from, to)
        &&& if promote_bit(m.0) {
            1 <= t <= 6 && (rf < 3 || rt < 3)
        } else {
            &&& (t == 1 ==> if searching {
                rt >= 3
            } else {
                rt >= 1
            })
            &&& (t == 2 ==> if searching {
                rt >= 3 || (rt == 2 && cap.0 != 0)
            } else {
                rt >= 1
            })
            &&& (t == 3 ==> rt >= 2)
            &&& ((t == 5 || t == 6) && searching ==> rf >= 3 && rt >= 3)
        }
    }
}

/// An enemy piece on `s` attacks the king of the side to move.
pub open spec fn is_checker(p: PosModel, s: int) -> bool {
    0 <= s < 81 && p.board[s].wf() && p.board[s].color() == opp(p.side) && attacks(
        p.board,
        s,
        p.king_of(p.side),
    )
}

/// `c` is the one piece giving check.
pub open spec fn single_checker(p: PosModel, c: int) -> bool {
    is_checker(p, c) && forall|s: int| #[trigger] is_checker(p, s) ==> s == c
}

/// What check asks of a move: nothing when not in check; a king move must
/// go to a square that no enemy piece attacks once the king has left its
/// square; any other move or drop needs a single checker and must take it
/// (drops cannot) or stand between it and the king.
#[verifier::opaque]
pub open spec fn evasion_ok(p: PosModel, m: Move) -> bool {
    let to = to_field(m.0) as int;
    let from = from_field(m.0) as int;
    if !p.checked() {
        true
    } else if !drop_bit(m.0) && p.board[from].type_code() == 8 {
        !attacked_by(p.board.update(from, Piece(0)), opp(p.side), to)
    } else {
        exists|c: int|
            single_checker(p, c) && ((!drop_bit(m.0) && to == c) || blocks(
                p.board,
                c,
                p.king_of(p.side),
                to,
            ))
    }
}

/// The square of the mover's king after `m`.
pub open spec fn own_king_after(p: PosModel, m: Move) -> int {
    if p.side == Color::Black {
        king_black_after(p, m) as int
    } else {
        king_white_after(p, m) as int
    }
}

/// After `m`, the mover's king is not attacked.
pub open spec fn legal_spec(p: PosModel, m: Move) -> bool {
    !attacked_by(board_after(p.board, m), opp(p.side), own_king_after(p, m))
}

/// A copy of a board.
pub fn copy_board(b: &Vec<Piece>) -> (r: Vec<Piece>)
    ensures
        r@ == b@,
{
    let mut r: Vec<Piece> = Vec::new();
    let mut i: usize = 0;
    while i < b.len()
        invariant
            i <= b@.len(),
            r@ == b@.subrange(0, i as int),
        decreases b@.len() - i,
    {
        r.push(b[i]);
        i += 1;
        assert(r@ =~= b@.subrange(0, i as int));
    }
    assert(r@ =~= b@);
    r
}

/// The board after a real move `m` whose squares are on the board.
pub fn apply_to_board(b: &Vec<Piece>, m: Move) -> (r: Vec<Piece>)
    requires
        b@.len() == 81,
        m.is_normal(),
    ensures
        r@ == board_after(b@, m),
{
    let mut r = copy_board(b);
    let to = m.to();
    if m.is_drop() {
        r.set(to.0 as usize, m.piece_dropped());
    } else {
        let from = m.from();
        r.set(from.0 as usize, Piece(0));
        r.set(to.0 as usize, m.piece_moved_after_move());
    }
    r
}

/// Whether `c` has an unpromoted pawn on file `f`.
fn pawn_on_file_exec(b: &Vec<Piece>, c: Color, f: u8) -> (r: bool)
    requires
        b@.len() == 81,
        f < 9,
    ensures
        r == pawn_on_file(b@, c, f as int),
{
    let pawn = Piece::new(c, crate::types::PieceType::Pawn);
    let mut r: u8 = 0;
    while r < 9
        invariant
            b@.len() == 81,
            f < 9,
            r <= 9,
            pawn == Piece::of(c, crate::types::PieceType::Pawn),
            forall|j: int| 0 <= j < r ==> #[trigger] b@[9 * f + j] != pawn,
        decreases 9 - r,
    {
        if b[(9 * f + r) as usize] == pawn {
            return true;
        }
        r += 1;
    }
    false
}

/// Whether side `c`, king on `kc`, has a board move out of check.
fn board_escape_exec(b: &Vec<Piece>, c: Color, kc: u8) -> (r: bool)
    requires
        board_ok(b@),
        kc < 81,
    ensures
        r == board_escape(b@, c, kc as int),
{
    let mut from: u8 = 0;
    while from < 81
        invariant
            board_ok(b@),
            kc < 81,
            from <= 81,
            forall|f: int, t: int| 0 <= f < from && 0 <= t < 81 ==> !#[trigger] escape_at(b@, c, kc as int, f, t),
        decreases 81 - from,
    {
        let p = b[from as usize];
        let own = p.0 != 0 && (if p.0 < 16 {
            Color::Black
        } else {
            Color::White
        }) == c;
        let mut to: u8 = 0;
        while to < 81
            invariant
                board_ok(b@),
                kc < 81,
                from < 81,
                to <= 81,
                p == b@[from as int],
                own == (p.wf() && p.color() == c),
                forall|f: int, t: int| 0 <= f < from && 0 <= t < 81 ==> !#[trigger] escape_at(b@, c, kc as int, f, t),
                forall|t: int| 0 <= t < to ==> !#[trigger] escape_at(b@, c, kc as int, from as int, t),
            decreases 81 - to,
        {
            if own {
                let q = b[to as usize];
                let free = q.0 == 0 || (if q.0 < 16 {
                    Color::Black
                } else {
                    Color::White
                }) != c;
                if free && attacks_exec(b, from, to) {
                    let mut b2 = copy_board(b);
                    b2.set(from as usize, Piece(0));
                    b2.set(to as usize, p);
                    let ksq = if from == kc {
                        to
                    } else {
                        kc
                    };
                    assert(b2@ == shift_piece(b@, from as int, to as int));
                    if !attacked_by_exec(&b2, c.inverse(), ksq) {
                        assert(escape_at(b@, c, kc as int, from as int, to as int));
                        return true;
                    }
                }
            }
            to += 1;
        }
        from += 1;
    }
    false
}

/// Whether `x` lies on the walk from the slider on `c` toward `k`, which it
/// does not reach by a single step.
fn blocks_exec(b: &Vec<Piece>, c: u8, k: u8, x: u8) -> (r: bool)
    requires
        b@.len() == 81,
        c < 81,
        k < 81,
    ensures
        r == blocks(b@, c as int, k as int, x as int),
{
    if step_reach_at(b, c, k) {
        return false;
    }
    let t = b[c as usize].0 % 16;
    let df = (k / 9) as i32 - (c / 9) as i32;
    let dr = (k % 9) as i32 - (c % 9) as i32;
    let n: i32 = if t == 2 {
        iabs(dr)
    } else if t == 5 || t == 13 {
        iabs(df)
    } else {
        iabs(df) + iabs(dr)
    };
    let step: i32 = 9 * isgn(df) + isgn(dr);
    assert(0 <= n <= 16);
    assert(n == walk_len(b@, c as int, k as int));
    assert(step == walk_step(c as int, k as int));
    let mut cur: i32 = c as i32;
    let mut rem: i32 = n;
    while rem > 1
        invariant
            n <= 16,
            n == walk_len(b@, c as int, k as int),
            step == walk_step(c as int, k as int),
            !step_reach(b@[c as int].type_code(), b@[c as int].color(), k / 9 - c / 9, k % 9 - c % 9),
            0 <= n - rem <= 16,
            -10 * (n - rem) <= cur - c <= 10 * (n - rem),
            -10 <= step <= 10,
            on_walk(c as int, step as int, n as int, x as int) == on_walk(cur as int, step as int, rem as int, x as int),
        decreases rem,
    {
        if cur + step == x as i32 {
            return true;
        }
        cur = cur + step;
        rem = rem - 1;
    }
    false
}

impl Position {
    /// Whether `m` answers check as `evasion_ok` asks.
    fn evasion_check(&self, m: Move) -> (r: bool)
        requires
            self.wf(),
            m.is_normal(),
        ensures
            r == evasion_ok(self@, m),
    {
        reveal(evasion_ok);
        let ghost p = self@;
        if !self.in_check() {
            return true;
        }
        let us = self.side_to_move;
        let to = m.to().0;
        if !m.is_drop() {
            let from = m.from().0;
            if self.board[from as usize].0 % 16 == 8 {
                let mut b2 = copy_board(&self.board);
                b2.set(from as usize, Piece(0));
                return !attacked_by_exec(&b2, us.inverse(), to);
            }
        }
        let k = self.king_square(us).0;
        let mut n: u32 = 0;
        let mut c: u8 = 0;
        let mut s: u8 = 0;
        while s < 81
            invariant
                self.wf(),
                p == self@,
                k == p.king_of(p.side),
                us == p.side,
                s <= 81,
                n <= 2,
                n == 0 ==> forall|j: int| 0 <= j < s ==> !is_checker(p, j),
                n == 1 ==> c < s && is_checker(p, c as int) && forall|j: int| 0 <= j < s && is_checker(p, j) ==> j == c,
                n == 2 ==> exists|a: int, b: int| a != b && is_checker(p, a) && is_checker(p, b),
            decreases 81 - s,
        {
            let q = self.board[s as usize];
            let enemy = q.0 != 0 && (if q.0 < 16 {
                Color::Black
            } else {
                Color::White
            }) != us;
            if enemy && attacks_exec(&self.board, s, k) {
                assert(is_checker(p, s as int));
                if n == 0 {
                    c = s;
                    n = 1;
                } else if n == 1 {
                    assert(c != s && is_checker(p, c as int) && is_checker(p, s as int));
                    n = 2;
                }
            } else {
                assert(!is_checker(p, s as int));
            }
            s += 1;
        }
        if n != 1 {
            proof {
                if n == 2 {
                    let (a, b) = choose|a: int, b: int| a != b && is_checker(p, a) && is_checker(p, b);
                    assert forall|x: int| !single_checker(p, x) by {
                        if single_checker(p, x) {
                            assert(a == x && b == x);
                        }
                    }
                } else {
                    assert forall|x: int| !single_checker(p, x) by {}
                }
            }
            return false;
        }
        proof {
            assert(single_checker(p, c as int));
            assert forall|x: int| single_checker(p, x) implies x == c by {}
        }
        (!m.is_drop() && to == c) || blocks_exec(&self.board, c, k, to)
    }

    /// Whether dropping a pawn of `color_of_pawn` (the side to move) on
    /// `sq_of_pawn` would mate: it checks the enemy king, which has no board
    /// move out of that check.
    pub fn is_drop_pawn_mate(&self, color_of_pawn: Color, sq_of_pawn: Square) -> (r: bool)
        requires
            self.wf(),
            sq_of_pawn.wf(),
            color_of_pawn == self@.side,
            self@.board[sq_of_pawn.0 as int].0 == 0,
        ensures
            r == pawn_drop_mates(self@, sq_of_pawn.0 as int),
    {
        let us = color_of_pawn;
        let them = us.inverse();
        let to = sq_of_pawn.0;
        let ksq = self.king_square(them).0;
        let last = match us {
            Color::Black => 0u8,
            Color::White => 8u8,
        };
        if to % 9 == last {
            return false;
        }
        let in_front = match us {
            Color::Black => to - 1 == ksq,
            Color::White => to + 1 == ksq,
        };
        if !in_front {
            return false;
        }
        let mut b2 = copy_board(&self.board);
        b2.set(to as usize, Piece::new(us, crate::types::PieceType::Pawn));
        proof {
            assert forall|s: int| 0 <= s < 81 implies (#[trigger] b2@[s]).0 == 0 || b2@[s].wf() by {
                assert(b2@[s] == (if s == to { Piece::of(us, crate::types::PieceType::Pawn) } else { self@.board[s] }));
            }
        }
        !board_escape_exec(&b2, them, ksq)
    }

    /// Whether `m` is pseudo-legal here (see `pseudo_legal_spec`).
    #[verifier::rlimit(40)]
    pub fn pseudo_legal(&self, m: Move, searching: bool) -> (r: bool)
        requires
            self.wf(),
            m.wf(),
        ensures
            r == pseudo_legal_spec(self@, m, searching),
    {
        let ghost p = self@;
        let us = self.side_to_move;
        if !Some(m).is_normal_move() {
            proof {
                m.lemma_sentinel_not_normal();
            }
            return false;
        }
        if !self.evasion_check(m) {
            return false;
        }
        let to = m.to();
        let rt = match us {
            Color::Black => to.0 % 9,
            Color::White => 8 - to.0 % 9,
        };
        assert(rt == rel_rank(us, (to.0 % 9) as int));
        if m.is_drop() {
            let pc = m.piece_dropped();
            let t = pc.0 % 16;
            let pc_color = if pc.0 < 16 {
                Color::Black
            } else {
                Color::White
            };
            if pc_color != us {
                return false;
            }
            let pt = m.piece_type_dropped();
            if !self.hand(us).exist(pt) {
                return false;
            }
            if self.board[to.0 as usize].0 != 0 {
                return false;
            }
            if (t == 1 && rt == 0) || (t == 2 && rt == 0) || (t == 3 && rt <= 1) {
                return false;
            }
            if t == 1 {
                if pawn_on_file_exec(&self.board, us, to.0 / 9) {
                    return false;
                }
                if self.is_drop_pawn_mate(us, to) {
                    return false;
                }
            }
            true
        } else {
            let from = m.from();
            let pc = self.board[from.0 as usize];
            let t = pc.0 % 16;
            if pc.0 == 0 || pc != m.piece_moved_before_move() {
                return false;
            }
            let pc_color = if pc.0 < 16 {
                Color::Black
            } else {
                Color::White
            };
            if pc_color != us {
                return false;
            }
            let cap = self.board[to.0 as usize];
            if cap.0 != 0 && ((if cap.0 < 16 {
                Color::Black
            } else {
                Color::White
            }) == us || cap.0 % 16 == 8) {
                return false;
            }
            if !attacks_exec(&self.board, from.0, to.0) {
                return false;
            }
            let rf = match us {
                Color::Black => from.0 % 9,
                Color::White => 8 - from.0 % 9,
            };
            assert(rf == rel_rank(us, (from.0 % 9) as int));
            if m.is_promotion() {
                1 <= t && t <= 6 && (rf < 3 || rt < 3)
            } else {
                if t == 1 && (if searching {
                    rt < 3
                } else {
                    rt < 1
                }) {
                    return false;
                }
                if t == 2 && (if searching {
                    !(rt >= 3 || (rt == 2 && cap.0 != 0))
                } else {
                    rt < 1
                }) {
                    return false;
                }
                if t == 3 && rt < 2 {
                    return false;
                }
                if (t == 5 || t == 6) && searching && (rf < 3 || rt < 3) {
                    return false;
                }
                true
            }
        }
    }

    /// Whether the mover's king is safe after `m`.
    pub fn legal(&self, m: Move) -> (r: bool)
        requires
            self.wf(),
            m.is_normal(),
        ensures
            r == legal_spec(self@, m),
    {
        let b2 = apply_to_board(&self.board, m);
        let us = self.side_to_move;
        let mut ksq = self.king_square(us).0;
        if !m.is_drop() {
            let mv = m.piece_moved_after_move();
            if (us == Color::Black && mv.0 == 8) || (us == Color::White && mv.0 == 24) {
                ksq = m.to().0;
            }
        }
        proof {
            let kb = king_black_after(self@, m);
            let kw = king_white_after(self@, m);
        }
        !attacked_by_exec(&b2, us.inverse(), ksq)
    }

    /// Whether `m` checks the opponent's king.
    pub fn gives_check(&self, m: Move) -> (r: bool)
        requires
            self.wf(),
            m.is_normal(),
        ensures
            r == self@.gives_check_spec(m),
    {
        let b2 = apply_to_board(&self.board, m);
        let us = self.side_to_move;
        let them = us.inverse();
        let mut ksq = self.king_square(them).0;
        if !m.is_drop() {
            let mv = m.piece_moved_after_move();
            if (them == Color::Black && mv.0 == 8) || (them == Color::White && mv.0 == 24) {
                ksq = m.to().0;
            }
        }
        attacked_by_exec(&b2, us, ksq)
    }
}

} // verus!
