use vstd::prelude::*;
use crate::attack::{attacked_by, attacked_by_exec, attacks, attacks_exec, board_ok};
use crate::legality::{apply_to_board, copy_board, pseudo_legal_spec};
use crate::moves::{Move, drop_bit, dropped_field, from_field, promote_bit, to_field};
use crate::position::Position;
use crate::types::{Color, Piece};

verus! {

/// Material value of a piece kind (code 1..14).
pub open spec fn type_value(t: u8) -> int {
    if t == 1 {
        90
    } else if t == 2 {
        315
    } else if t == 3 {
        405
    } else if t == 4 {
        495
    } else if t == 5 {
        855
    } else if t == 6 {
        990
    } else if t == 7 || (9 <= t <= 12) {
        540
    } else if t == 13 {
        945
    } else if t == 14 {
        1395
    } else if t == 8 {
        15000
    } else {
        0
    }
}

/// What taking a piece of kind `t` gains: its value on the board plus the
/// value of what goes to the hand; nothing for a king or an empty square.
pub open spec fn capture_type_value(t: u8) -> int {
    if 1 <= t <= 7 {
        2 * type_value(t)
    } else if 9 <= t <= 14 {
        type_value(t) + type_value((t - 8) as u8)
    } else {
        0
    }
}

/// What taking a piece of kind `t` gains (see `capture_type_value`).
pub fn capture_type_value_exec(t: u8) -> (r: i64)
    ensures
        r == capture_type_value(t),
        0 <= r <= 2400,
{
    let v: i64 = if t == 1 {
        90
    } else if t == 2 {
        315
    } else if t == 3 {
        405
    } else if t == 4 {
        495
    } else if t == 5 {
        855
    } else if t == 6 {
        990
    } else if t == 7 || (9 <= t && t <= 12) {
        540
    } else if t == 13 {
        945
    } else if t == 14 {
        1395
    } else {
        0
    };
    if 1 <= t && t <= 7 {
        2 * v
    } else if 9 <= t && t <= 14 {
        let d: i64 = if t == 9 {
            90
        } else if t == 10 {
            315
        } else if t == 11 {
            405
        } else if t == 12 {
            495
        } else if t == 13 {
            855
        } else {
            990
        };
        v + d
    } else {
        0
    }
}

/// Signed material of the first `n` squares: Black's pieces count for, White's
/// against; kings count for nothing.
pub open spec fn board_material(b: Seq<Piece>, n: int) -> int
    decreases n,
{
    if n <= 0 {
        0
    } else {
        let p = b[n - 1];
        let v = if p.wf() && p.type_code() != 8 {
            type_value(p.type_code())
        } else {
            0
        };
        board_material(b, n - 1) + if p.color() == Color::Black {
            v
        } else {
            -v
        }
    }
}

/// Value of the pieces of a hand, kinds 1..n.
pub open spec fn hand_material(h: crate::hand::Hand, n: int) -> int
    decreases n,
{
    if n <= 0 {
        0
    } else {
        hand_material(h, n - 1) + h.count(n as u8) * type_value(n as u8)
    }
}

/// Material balance, Black positive.
pub open spec fn material_spec(p: crate::position::PosModel) -> int {
    board_material(p.board, 81) + hand_material(p.hand_black, 7) - hand_material(p.hand_white, 7)
}

fn type_value_exec(t: u8) -> (r: i64)
    ensures
        r == (if t == 8 {
            0
        } else {
            type_value(t)
        }),
        0 <= r <= 1395,
{
    if t == 1 {
        90
    } else if t == 2 {
        315
    } else if t == 3 {
        405
    } else if t == 4 {
        495
    } else if t == 5 {
        855
    } else if t == 6 {
        990
    } else if t == 7 || (9 <= t && t <= 12) {
        540
    } else if t == 13 {
        945
    } else if t == 14 {
        1395
    } else {
        0
    }
}

fn hand_value(h: crate::hand::Hand) -> (r: i64)
    requires
        h.wf(),
    ensures
        r == hand_material(h, 7),
        0 <= r <= 210_000,
{
    let mut v: i64 = 0;
    let mut t: u8 = 1;
    while t <= 7
        invariant
            h.wf(),
            1 <= t <= 8,
            v == hand_material(h, t - 1),
            0 <= v <= 30_000 * (t - 1),
        decreases 8 - t,
    {
        let n = h.num(crate::types::PieceType::from_code(t)) as i64;
        assert(n <= 18);
        let tv = type_value_exec(t);
        assert(n * tv <= 18 * 1395) by (nonlinear_arith)
            requires
                0 <= n <= 18,
                0 <= tv <= 1395,
        ;
        assert(n * tv >= 0) by (nonlinear_arith)
            requires
                0 <= n,
                0 <= tv,
        ;
        v = v + n * tv;
        t += 1;
    }
    v
}

/// Place of a kind in the order in which attackers are tried, cheapest
/// first: pawn, lance, knight, promoted pawn, lance and knight, silver,
/// promoted silver, gold, bishop, horse, rook, dragon, king.
pub open spec fn attacker_order(t: u8) -> int {
    if t == 1 {
        0
    } else if t == 2 {
        1
    } else if t == 3 {
        2
    } else if t == 9 {
        3
    } else if t == 10 {
        4
    } else if t == 11 {
        5
    } else if t == 4 {
        6
    } else if t == 12 {
        7
    } else if t == 7 {
        8
    } else if t == 5 {
        9
    } else if t == 13 {
        10
    } else if t == 6 {
        11
    } else if t == 14 {
        12
    } else {
        13
    }
}

/// The piece of `c` on `s` attacks `to` and can take there without leaving
/// its king (on `ksq`, or on `to` when it is the king) attacked.
pub open spec fn can_take(b: Seq<Piece>, c: Color, to: int, ksq: int, s: int) -> bool {
    &&& 0 <= s < 81
    &&& s != to
    &&& b[s].wf()
    &&& b[s].color() == c
    &&& attacks(b, s, to)
    &&& !attacked_by(
        b.update(s, Piece(0)).update(to, b[s]),
        crate::position::opp(c),
        if s == ksq {
            to
        } else {
            ksq
        },
    )
}

/// The cheapest piece of `c` that attacks `to` on `b` and may take there
/// without exposing its own king (on `ksq`): its square, the lowest among
/// pieces of its kind, or 81 when there is none.
pub fn min_attacker(b: &Vec<Piece>, c: Color, to: u8, ksq: u8) -> (r: u8)
    requires
        board_ok(b@),
        to < 81,
        ksq < 81,
    ensures
        r <= 81,
        r == 81 <==> forall|s: int| !can_take(b@, c, to as int, ksq as int, s),
        r < 81 ==> can_take(b@, c, to as int, ksq as int, r as int),
        r < 81 ==> forall|s: int|
            #[trigger] can_take(b@, c, to as int, ksq as int, s) ==> attacker_order(b@[r as int].type_code())
                < attacker_order(b@[s].type_code()) || (b@[s].type_code() == b@[r as int].type_code() && r
                <= s),
{
    let order: [u8; 14] = [1, 2, 3, 9, 10, 11, 4, 12, 7, 5, 13, 6, 14, 8];
    let mut k: usize = 0;
    while k < 14
        invariant
            board_ok(b@),
            to < 81,
            ksq < 81,
            k <= 14,
            order@ == seq![1u8, 2, 3, 9, 10, 11, 4, 12, 7, 5, 13, 6, 14, 8],
            forall|s: int| #[trigger] can_take(b@, c, to as int, ksq as int, s) ==> attacker_order(
                b@[s].type_code(),
            ) >= k,
        decreases 14 - k,
    {
        let want = order[k];
        assert(attacker_order(want) == k);
        let mut s: u8 = 0;
        while s < 81
            invariant
                board_ok(b@),
                to < 81,
                ksq < 81,
                s <= 81,
                k < 14,
                attacker_order(want) == k,
                1 <= want <= 14,
                forall|s2: int| #[trigger] can_take(b@, c, to as int, ksq as int, s2) ==> attacker_order(
                    b@[s2].type_code(),
                ) >= k,
                forall|s2: int|
                    0 <= s2 < s && b@[s2].type_code() == want ==> !#[trigger] can_take(
                        b@,
                        c,
                        to as int,
                        ksq as int,
                        s2,
                    ),
            decreases 81 - s,
        {
            let p = b[s as usize];
            let pc = if p.0 < 16 {
                Color::Black
            } else {
                Color::White
            };
            if p.0 != 0 && p.0 % 16 == want && pc == c && s != to && attacks_exec(b, s, to) {
                let mut b2 = copy_board(b);
                b2.set(s as usize, Piece(0));
                b2.set(to as usize, p);
                let k2 = if s == ksq {
                    to
                } else {
                    ksq
                };
                let them = c.inverse();
                assert(them == crate::position::opp(c));
                if !attacked_by_exec(&b2, them, k2) {
                    assert(can_take(b@, c, to as int, ksq as int, s as int));
                    return s;
                }
            }
            s += 1;
        }
        proof {
            assert forall|s2: int| #[trigger] can_take(b@, c, to as int, ksq as int, s2) implies attacker_order(
                b@[s2].type_code(),
            ) >= k + 1 by {
                if attacker_order(b@[s2].type_code()) == k {
                    assert(b@[s2].type_code() == want);
                }
            }
        }
        k += 1;
    }
    81
}

/// The square `r` holds an attacker at least as cheap as the one on `s`:
/// earlier in the value order, or of the same kind on a lower square.
pub open spec fn no_dearer(b: Seq<Piece>, r: int, s: int) -> bool {
    attacker_order(b[r].type_code()) < attacker_order(b[s].type_code()) || (b[s].type_code()
        == b[r].type_code() && r <= s)
}

/// The cheapest piece of `c` that can take on `to` (see `min_attacker`), or 81.
#[verifier::opaque]
pub open spec fn cheapest(b: Seq<Piece>, c: Color, to: int, ksq: int) -> int {
    if exists|s: int| can_take(b, c, to, ksq, s) && forall|s2: int| #[trigger]
        can_take(b, c, to, ksq, s2) ==> no_dearer(b, s, s2) {
        choose|s: int| can_take(b, c, to, ksq, s) && forall|s2: int| #[trigger]
            can_take(b, c, to, ksq, s2) ==> no_dearer(b, s, s2)
    } else {
        81
    }
}

/// What `min_attacker` returns is `cheapest`.
proof fn lemma_cheapest(b: Seq<Piece>, c: Color, to: int, ksq: int, r: int)
    requires
        r <= 81,
        r == 81 <==> forall|s: int| !can_take(b, c, to, ksq, s),
        r < 81 ==> can_take(b, c, to, ksq, r),
        r < 81 ==> forall|s: int| #[trigger] can_take(b, c, to, ksq, s) ==> no_dearer(b, r, s),
    ensures
        cheapest(b, c, to, ksq) == r,
{
    reveal(cheapest);
    if r < 81 {
        let w = choose|s: int| can_take(b, c, to, ksq, s) && forall|s2: int| #[trigger]
            can_take(b, c, to, ksq, s2) ==> no_dearer(b, s, s2);
        assert(no_dearer(b, w, r) && no_dearer(b, r, w));
    } else {
        assert(!exists|s: int| can_take(b, c, to, ksq, s) && forall|s2: int| #[trigger]
            can_take(b, c, to, ksq, s2) ==> no_dearer(b, s, s2));
    }
}

/// The exchange on `to` from the point where `stm` is to recapture with
/// `balance` (always below 0 while it goes on): each side takes with its
/// cheapest attacker; it stops when a side has none, or when a capture
/// brings the balance to 0 or more (a king's capture counting only if the
/// other side cannot take back). The result is the side to move at the end.
pub open spec fn see_loop(b: Seq<Piece>, to: int, stm: Color, balance: int, kb: int, kw: int, rounds: int) -> Color
    decreases 81 - rounds,
{
    if rounds >= 81 || balance >= 0 {
        stm
    } else {
        let ksq = if stm == Color::Black {
            kb
        } else {
            kw
        };
        let s = cheapest(b, stm, to, ksq);
        if s >= 81 || s < 0 {
            stm
        } else {
            let attacker = b[s];
            let a = attacker.type_code();
            let stm2 = crate::position::opp(stm);
            let bal2 = -balance - 1 - capture_type_value(a);
            let b2 = b.update(s, Piece(0)).update(to, attacker);
            if bal2 >= 0 {
                if a == 8 && cheapest(
                    b2,
                    stm2,
                    to,
                    if stm2 == Color::Black {
                        kb
                    } else {
                        kw
                    },
                ) < 81 {
                    crate::position::opp(stm2)
                } else {
                    stm2
                }
            } else {
                see_loop(
                    b2,
                    to,
                    stm2,
                    bal2,
                    if attacker.0 == 8 {
                        to
                    } else {
                        kb
                    },
                    if attacker.0 == 24 {
                        to
                    } else {
                        kw
                    },
                    rounds + 1,
                )
            }
        }
    }
}

/// Static exchange evaluation of `m` against `threshold` (see `see_ge`).
pub open spec fn see_spec(p: crate::position::PosModel, m: Move, threshold: int) -> bool {
    let to = to_field(m.0) as int;
    let bal0 = capture_type_value(p.board[to].type_code()) - threshold;
    let moved = if drop_bit(m.0) {
        (dropped_field(m.0) % 16) as u8
    } else {
        p.board[from_field(m.0) as int].type_code()
    };
    let bal1 = bal0 - capture_type_value(moved);
    if bal0 < 0 {
        false
    } else if bal1 >= 0 {
        true
    } else {
        p.side != see_loop(
            crate::position::board_after(p.board, m),
            to,
            crate::position::opp(p.side),
            bal1,
            p.king_black as int,
            p.king_white as int,
            0,
        )
    }
}

impl Position {
    /// Material balance of the position, Black positive: board pieces (kings
    /// excepted) and pieces in hand at their values.
    pub fn material(&self) -> (r: i64)
        requires
            self.wf(),
        ensures
            r == material_spec(self@),
    {
        let mut v: i64 = 0;
        let mut s: usize = 0;
        while s < 81
            invariant
                self.wf(),
                s <= 81,
                v == board_material(self@.board, s as int),
                -1395 * s <= v <= 1395 * s,
            decreases 81 - s,
        {
            let p = self.board[s];
            let t = p.0 % 16;
            let pv = if p.0 != 0 {
                type_value_exec(t)
            } else {
                0
            };
            if p.0 < 16 {
                v = v + pv;
            } else {
                v = v - pv;
            }
            s += 1;
        }
        v + hand_value(self.hand_black) - hand_value(self.hand_white)
    }

    /// Static exchange evaluation: whether `m`, followed by the best series
    /// of recaptures on its destination, each side taking with its cheapest
    /// attacker, gains at least `threshold`. It is false at once when the
    /// captured piece is worth less than `threshold`, and true at once when
    /// losing the moved piece still leaves `threshold`.
    #[verifier::rlimit(100)]
    pub fn see_ge(&self, m: Move, threshold: i32) -> (r: bool)
        requires
            self.wf(),
            pseudo_legal_spec(self@, m, false),
        ensures
            r == see_spec(self@, m, threshold as int),
    {
        let to = m.to().0;
        let captured = self.board[to as usize];
        let mut balance: i64 = capture_type_value_exec(captured.0 % 16) - threshold as i64;
        if balance < 0 {
            return false;
        }
        let moved = if m.is_drop() {
            m.piece_dropped().0 % 16
        } else {
            self.board[m.from().0 as usize].0 % 16
        };
        balance = balance - capture_type_value_exec(moved);
        if balance >= 0 {
            return true;
        }
        let us = self.side_to_move;
        let mut b = apply_to_board(&self.board, m);
        proof {
            let b0 = self@.board;
            assert forall|s: int| 0 <= s < 81 implies (#[trigger] b@[s]).0 == 0 || b@[s].wf() by {
                if drop_bit(m.0) {
                    assert(b@[s] == (if s == to { Piece(dropped_field(m.0) as u8) } else { b0[s] }));
                } else {
                    let pc = b0[from_field(m.0) as int];
                    if promote_bit(m.0) {
                        assert(m.spec_piece_after() == pc.0 + 8);
                    } else {
                        assert(m.spec_piece_after() == pc.0);
                    }
                    assert(Piece(m.spec_piece_after()).wf());
                    assert(b@[s] == (if s == to { Piece(m.spec_piece_after()) } else if s
                        == from_field(m.0) { Piece(0) } else { b0[s] }));
                }
            }
        }
        let mut kb = self.king_black;
        let mut kw = self.king_white;
        let mut stm = us.inverse();
        let mut rounds: u32 = 0;
        assert(see_spec(self@, m, threshold as int) == (us != see_loop(
            b@,
            to as int,
            stm,
            balance as int,
            kb as int,
            kw as int,
            0,
        )));
        while rounds < 81
            invariant
                board_ok(b@),
                to < 81,
                kb < 81,
                kw < 81,
                -100_000 <= balance <= 100_000,
                balance >= 0 ==> rounds >= 1,
                see_spec(self@, m, threshold as int) == (us != see_loop(
                    b@,
                    to as int,
                    stm,
                    balance as int,
                    kb as int,
                    kw as int,
                    rounds as int,
                )),
            ensures
                see_spec(self@, m, threshold as int) == (us != stm),
            decreases 81 - rounds,
        {
            if balance >= 0 {
                break;
            }
            let ghost b_old = b@;
            let ghost stm_old = stm;
            let ghost bal_old = balance as int;
            let ghost kb_old = kb as int;
            let ghost kw_old = kw as int;
            let ghost rounds_old = rounds as int;
            rounds += 1;
            let ksq = match stm {
                Color::Black => kb,
                Color::White => kw,
            };
            let s = min_attacker(&b, stm, to, ksq);
            proof {
                lemma_cheapest(b@, stm, to as int, ksq as int, s as int);
            }
            if s >= 81 {
                assert(see_loop(b_old, to as int, stm_old, bal_old, kb_old, kw_old, rounds_old) == stm);
                break;
            }
            let attacker = b[s as usize];
            let a = attacker.0 % 16;
            stm = stm.inverse();
            balance = -balance - 1 - capture_type_value_exec(a);
            let ghost b2s = b_old.update(s as int, Piece(0)).update(to as int, attacker);
            if balance >= 0 {
                if a == 8 {
                    let other_k = match stm {
                        Color::Black => kb,
                        Color::White => kw,
                    };
                    let mut b2 = copy_board(&b);
                    b2.set(s as usize, Piece(0));
                    b2.set(to as usize, attacker);
                    let s2 = min_attacker(&b2, stm, to, other_k);
                    proof {
                        lemma_cheapest(b2@, stm, to as int, other_k as int, s2 as int);
                    }
                    assert(b2@ == b2s);
                    if s2 < 81 {
                        stm = stm.inverse();
                    }
                }
                assert(see_loop(b_old, to as int, stm_old, bal_old, kb_old, kw_old, rounds_old) == stm);
                break;
            }
            b.set(s as usize, Piece(0));
            b.set(to as usize, attacker);
            if attacker.0 == 8 {
                kb = to;
            } else if attacker.0 == 24 {
                kw = to;
            }
            assert(b@ == b2s);
            assert(see_loop(b_old, to as int, stm_old, bal_old, kb_old, kw_old, rounds_old) == see_loop(
                b@,
                to as int,
                stm,
                balance as int,
                kb as int,
                kw as int,
                rounds as int,
            ));
        }
        us != stm
    }
}

} // verus!
