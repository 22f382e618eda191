use vstd::prelude::*;
use crate::attack::{abs, attacked_by, attacks, clear, sgn, slide_reach, step_reach};
use crate::legality::{is_checker, legal_spec, own_king_after, pseudo_legal_spec, single_checker};
use crate::moves::{Move, drop_bit, dropped_field, from_field, promote_bit, to_field};
use crate::position::{PosModel, board_after, opp};
use crate::types::Piece;

verus! {

/// `x` is one of the `n - 1` squares after `sq` along `step`.
pub open spec fn on_walk(sq: int, step: int, n: int, x: int) -> bool
    decreases n,
{
    n > 1 && (sq + step == x || on_walk(sq + step, step, n - 1, x))
}

/// A clear walk has nothing on it.
pub proof fn lemma_clear_empty(b: Seq<Piece>, sq: int, step: int, n: int, x: int)
    requires
        clear(b, sq, step, n),
        on_walk(sq, step, n, x),
    ensures
        b[x].0 == 0,
    decreases n,
{
    if sq + step != x {
        lemma_clear_empty(b, sq + step, step, n - 1, x);
    }
}

/// Emptying one square and filling one that is off the walk keeps it clear.
proof fn lemma_clear_kept(b: Seq<Piece>, sq: int, step: int, n: int, f: int, t: int, y: Piece)
    requires
        clear(b, sq, step, n),
        !on_walk(sq, step, n, t),
        0 <= f < b.len(),
        0 <= t < b.len(),
        forall|x: int| #[trigger] on_walk(sq, step, n, x) ==> 0 <= x < b.len(),
    ensures
        clear(b.update(f, Piece(0)).update(t, y), sq, step, n),
    decreases n,
{
    if n > 1 {
        assert(on_walk(sq, step, n, sq + step));
        assert forall|x: int| #[trigger] on_walk(sq + step, step, n - 1, x) implies 0 <= x < b.len() by {
            assert(on_walk(sq, step, n, x));
        }
        lemma_clear_kept(b, sq + step, step, n - 1, f, t, y);
    }
}

/// The squares of a walk, in closed form.
proof fn lemma_walk_closed(sq: int, step: int, n: int, x: int) -> (j: int)
    requires
        on_walk(sq, step, n, x),
    ensures
        1 <= j < n,
        x == sq + j * step,
    decreases n,
{
    if sq + step == x {
        assert(x == sq + 1 * step);
        1
    } else {
        let j0 = lemma_walk_closed(sq + step, step, n - 1, x);
        assert(sq + step + j0 * step == sq + (j0 + 1) * step) by (nonlinear_arith);
        j0 + 1
    }
}

/// The closed form gives back a walk square.
proof fn lemma_walk_open(sq: int, step: int, n: int, j: int)
    requires
        1 <= j < n,
    ensures
        on_walk(sq, step, n, sq + j * step),
    decreases n,
{
    if j > 1 {
        assert(sq + j * step == (sq + step) + (j - 1) * step) by (nonlinear_arith);
        lemma_walk_open(sq + step, step, n - 1, j - 1);
    } else {
        assert(sq + j * step == sq + step);
    }
}

/// Number of steps of a slide of kind code `t` over `df` files and `dr` ranks.
pub open spec fn slide_len(t: u8, df: int, dr: int) -> int {
    if t == 2 {
        abs(dr)
    } else if t == 5 || t == 13 {
        abs(df)
    } else {
        abs(df) + abs(dr)
    }
}

/// A slide from `c` reaching `k` goes `n` steps in a fixed direction
/// (`sf` files, `sr` ranks per step) without leaving the board.
proof fn lemma_slide_geometry(b: Seq<Piece>, c: int, k: int)
    requires
        0 <= c < 81,
        0 <= k < 81,
        b[c].wf(),
        slide_reach(b, c, b[c].type_code(), b[c].color(), k / 9 - c / 9, k % 9 - c % 9),
    ensures
        ({
            let df = k / 9 - c / 9;
            let dr = k % 9 - c % 9;
            let sf = sgn(df);
            let sr = sgn(dr);
            let n = slide_len(b[c].type_code(), df, dr);
            &&& -1 <= sf <= 1
            &&& -1 <= sr <= 1
            &&& (sf != 0 || sr != 0)
            &&& n >= 1
            &&& df == n * sf
            &&& dr == n * sr
            &&& clear(b, c, 9 * sf + sr, n)
        }),
{
    let df = k / 9 - c / 9;
    let dr = k % 9 - c % 9;
    let n = slide_len(b[c].type_code(), df, dr);
    let sf = sgn(df);
    let sr = sgn(dr);
    assert(df == abs(df) * sf) by {
        if df > 0 {
            assert(abs(df) * 1 == df);
        } else if df < 0 {
            assert(abs(df) * (-1) == df) by (nonlinear_arith)
                requires
                    abs(df) == -df,
            ;
        } else {
            assert(abs(df) * 0 == 0);
        }
    }
    assert(dr == abs(dr) * sr) by {
        if dr > 0 {
            assert(abs(dr) * 1 == dr);
        } else if dr < 0 {
            assert(abs(dr) * (-1) == dr) by (nonlinear_arith)
                requires
                    abs(dr) == -dr,
            ;
        } else {
            assert(abs(dr) * 0 == 0);
        }
    }
    let t = b[c].type_code();
    if t == 2 {
        assert(sf == 0);
        assert(n * sf == 0);
    } else if t == 5 || t == 13 {
        assert(abs(df) == abs(dr));
    } else {
        if df == 0 {
            assert(n == abs(dr));
            assert(n * sf == 0);
        } else {
            assert(dr == 0);
            assert(n == abs(df));
            assert(n * sr == 0);
        }
    }
}

/// Square `c + j * step` of a slide has file `cf + j * sf` and rank
/// `cr + j * sr`, both on the board.
proof fn lemma_walk_coords(c: int, sf: int, sr: int, n: int, j: int)
    requires
        0 <= c < 81,
        -1 <= sf <= 1,
        -1 <= sr <= 1,
        0 <= j <= n,
        0 <= c / 9 + n * sf < 9,
        0 <= c % 9 + n * sr < 9,
    ensures
        0 <= c / 9 + j * sf < 9,
        0 <= c % 9 + j * sr < 9,
        c + j * (9 * sf + sr) == 9 * (c / 9 + j * sf) + (c % 9 + j * sr),
        0 <= c + j * (9 * sf + sr) < 81,
        (c + j * (9 * sf + sr)) / 9 == c / 9 + j * sf,
        (c + j * (9 * sf + sr)) % 9 == c % 9 + j * sr,
{
    assert(c + j * (9 * sf + sr) == 9 * (c / 9 + j * sf) + (c % 9 + j * sr)) by (nonlinear_arith)
        requires
            c == 9 * (c / 9) + c % 9,
    ;
    if sf == 1 {
        assert(j * sf == j && n * sf == n);
    } else if sf == -1 {
        assert(j * sf == -j && n * sf == -n) by (nonlinear_arith)
            requires
                sf == -1,
        ;
    } else {
        assert(j * sf == 0);
    }
    if sr == 1 {
        assert(j * sr == j && n * sr == n);
    } else if sr == -1 {
        assert(j * sr == -j && n * sr == -n) by (nonlinear_arith)
            requires
                sr == -1,
        ;
    } else {
        assert(j * sr == 0);
    }
    let x = c + j * (9 * sf + sr);
    let xf = c / 9 + j * sf;
    let xr = c % 9 + j * sr;
    assert(x / 9 == xf && x % 9 == xr) by (nonlinear_arith)
        requires
            x == 9 * xf + xr,
            0 <= xr < 9,
            0 <= xf,
    ;
}

/// Two slides onto `k` whose walks share a square come from the same side
/// along one line, so the nearer slider stands on the walk of the farther.
#[verifier::rlimit(40)]
proof fn lemma_two_walks(c1: int, sf1: int, sr1: int, n1: int, c2: int, sf2: int, sr2: int, n2: int, k: int, t: int)
    requires
        0 <= c1 < 81,
        0 <= c2 < 81,
        c1 != c2,
        -1 <= sf1 <= 1,
        -1 <= sr1 <= 1,
        -1 <= sf2 <= 1,
        -1 <= sr2 <= 1,
        sf1 != 0 || sr1 != 0,
        sf2 != 0 || sr2 != 0,
        n1 >= 1,
        n2 >= 1,
        k / 9 == c1 / 9 + n1 * sf1,
        k % 9 == c1 % 9 + n1 * sr1,
        k / 9 == c2 / 9 + n2 * sf2,
        k % 9 == c2 % 9 + n2 * sr2,
        0 <= k < 81,
        on_walk(c1, 9 * sf1 + sr1, n1, t),
        on_walk(c2, 9 * sf2 + sr2, n2, t),
    ensures
        on_walk(c1, 9 * sf1 + sr1, n1, c2) || on_walk(c2, 9 * sf2 + sr2, n2, c1),
{
    let j1 = lemma_walk_closed(c1, 9 * sf1 + sr1, n1, t);
    let j2 = lemma_walk_closed(c2, 9 * sf2 + sr2, n2, t);
    lemma_walk_coords(c1, sf1, sr1, n1, j1);
    lemma_walk_coords(c2, sf2, sr2, n2, j2);
    let a1 = n1 - j1;
    let a2 = n2 - j2;
    assert(a1 * sf1 == a2 * sf2 && a1 * sr1 == a2 * sr2) by (nonlinear_arith)
        requires
            t / 9 == c1 / 9 + j1 * sf1,
            t % 9 == c1 % 9 + j1 * sr1,
            t / 9 == c2 / 9 + j2 * sf2,
            t % 9 == c2 % 9 + j2 * sr2,
            k / 9 == c1 / 9 + n1 * sf1,
            k % 9 == c1 % 9 + n1 * sr1,
            k / 9 == c2 / 9 + n2 * sf2,
            k % 9 == c2 % 9 + n2 * sr2,
            a1 == n1 - j1,
            a2 == n2 - j2,
    ;
    assert(sf1 == sf2 && sr1 == sr2) by (nonlinear_arith)
        requires
            a1 * sf1 == a2 * sf2,
            a1 * sr1 == a2 * sr2,
            a1 >= 1,
            a2 >= 1,
            -1 <= sf1 <= 1,
            -1 <= sr1 <= 1,
            -1 <= sf2 <= 1,
            -1 <= sr2 <= 1,
            sf1 != 0 || sr1 != 0,
            sf2 != 0 || sr2 != 0,
    ;
    let sf = sf1;
    let sr = sr1;
    let step = 9 * sf + sr;
    assert(n1 != n2) by {
        if n1 == n2 {
            assert(c1 / 9 == c2 / 9 && c1 % 9 == c2 % 9);
            assert(c1 == 9 * (c1 / 9) + c1 % 9);
            assert(c2 == 9 * (c2 / 9) + c2 % 9);
        }
    }
    if n1 < n2 {
        let d = n2 - n1;
        assert(c1 == c2 + d * step) by (nonlinear_arith)
            requires
                c1 / 9 + n1 * sf == c2 / 9 + n2 * sf,
                c1 % 9 + n1 * sr == c2 % 9 + n2 * sr,
                c1 == 9 * (c1 / 9) + c1 % 9,
                c2 == 9 * (c2 / 9) + c2 % 9,
                d == n2 - n1,
                step == 9 * sf + sr,
        ;
        lemma_walk_open(c2, step, n2, d);
    } else {
        let d = n1 - n2;
        assert(c2 == c1 + d * step) by (nonlinear_arith)
            requires
                c1 / 9 + n1 * sf == c2 / 9 + n2 * sf,
                c1 % 9 + n1 * sr == c2 % 9 + n2 * sr,
                c1 == 9 * (c1 / 9) + c1 % 9,
                c2 == 9 * (c2 / 9) + c2 % 9,
                d == n1 - n2,
                step == 9 * sf + sr,
        ;
        lemma_walk_open(c1, step, n1, d);
    }
}

/// The step of the walk from `c` toward `k`.
pub open spec fn walk_step(c: int, k: int) -> int {
    9 * sgn(k / 9 - c / 9) + sgn(k % 9 - c % 9)
}

/// The number of steps of the walk of the slider on `c` toward `k`.
pub open spec fn walk_len(b: Seq<Piece>, c: int, k: int) -> int {
    slide_len(b[c].type_code(), k / 9 - c / 9, k % 9 - c % 9)
}

/// Square `t` stands between the piece on `c` and `k`, which it attacks by
/// sliding only.
pub open spec fn blocks(b: Seq<Piece>, c: int, k: int, t: int) -> bool {
    !step_reach(b[c].type_code(), b[c].color(), k / 9 - c / 9, k % 9 - c % 9) && on_walk(
        c,
        walk_step(c, k),
        walk_len(b, c, k),
        t,
    )
}

/// An attack survives emptying `f` and filling `t`, when the attacker
/// stands on neither and `t` does not lie between it and its target.
proof fn lemma_attack_kept(b: Seq<Piece>, c: int, k: int, f: int, t: int, y: Piece)
    requires
        b.len() == 81,
        0 <= c < 81,
        0 <= k < 81,
        0 <= f < 81,
        0 <= t < 81,
        c != f,
        c != t,
        attacks(b, c, k),
        !blocks(b, c, k, t),
    ensures
        attacks(b.update(f, Piece(0)).update(t, y), c, k),
{
    let b2 = b.update(f, Piece(0)).update(t, y);
    assert(b2[c] == b[c]);
    let df = k / 9 - c / 9;
    let dr = k % 9 - c % 9;
    if !step_reach(b[c].type_code(), b[c].color(), df, dr) {
        lemma_slide_geometry(b, c, k);
        let sf = sgn(df);
        let sr = sgn(dr);
        let n = walk_len(b, c, k);
        assert forall|x: int| #[trigger] on_walk(c, 9 * sf + sr, n, x) implies 0 <= x < b.len() by {
            let j = lemma_walk_closed(c, 9 * sf + sr, n, x);
            lemma_walk_coords(c, sf, sr, n, j);
        }
        lemma_clear_kept(b, c, 9 * sf + sr, n, f, t, y);
    }
}

/// A slider's walk to `k`, in coordinates.
pub proof fn lemma_walk_facts(b: Seq<Piece>, c: int, k: int)
    requires
        0 <= c < 81,
        0 <= k < 81,
        b[c].wf(),
        attacks(b, c, k),
        !step_reach(b[c].type_code(), b[c].color(), k / 9 - c / 9, k % 9 - c % 9),
    ensures
        -1 <= sgn(k / 9 - c / 9) <= 1,
        -1 <= sgn(k % 9 - c % 9) <= 1,
        sgn(k / 9 - c / 9) != 0 || sgn(k % 9 - c % 9) != 0,
        walk_len(b, c, k) >= 1,
        k / 9 == c / 9 + walk_len(b, c, k) * sgn(k / 9 - c / 9),
        k % 9 == c % 9 + walk_len(b, c, k) * sgn(k % 9 - c % 9),
        clear(b, c, walk_step(c, k), walk_len(b, c, k)),
{
    lemma_slide_geometry(b, c, k);
}

/// In double check only the king can move: when two different enemy
/// pieces attack the king of the side to move, every pseudo-legal move that
/// leaves that king safe is a move of the king itself.
#[verifier::rlimit(40)]
pub proof fn lemma_double_check(p: PosModel, m: Move, searching: bool, c1: int, c2: int)
    requires
        p.wf(),
        pseudo_legal_spec(p, m, searching),
        legal_spec(p, m),
        0 <= c1 < 81,
        0 <= c2 < 81,
        c1 != c2,
        p.board[c1].wf(),
        p.board[c1].color() == opp(p.side),
        attacks(p.board, c1, p.king_of(p.side)),
        p.board[c2].wf(),
        p.board[c2].color() == opp(p.side),
        attacks(p.board, c2, p.king_of(p.side)),
    ensures
        !drop_bit(m.0),
        from_field(m.0) == p.king_of(p.side),
{
    let b = p.board;
    let k = p.king_of(p.side);
    let t = to_field(m.0) as int;
    if drop_bit(m.0) || from_field(m.0) != k {
        let f = if drop_bit(m.0) {
            t
        } else {
            from_field(m.0) as int
        };
        let y = if drop_bit(m.0) {
            Piece(dropped_field(m.0) as u8)
        } else {
            Piece(m.spec_piece_after())
        };
        let b2 = board_after(b, m);
        assert(b2 =~= b.update(f, Piece(0)).update(t, y));
        if !drop_bit(m.0) {
            let pc = b[f];
            if promote_bit(m.0) {
                assert(m.spec_piece_after() == pc.0 + 8);
            } else {
                assert(m.spec_piece_after() == pc.0);
                if pc == Piece(8) {
                    assert(f == p.king_black);
                }
                if pc == Piece(24) {
                    assert(f == p.king_white);
                }
            }
        }
        assert(own_king_after(p, m) == k);
        assert(c1 != f && c2 != f);
        let survivor = if c1 != t && !blocks(b, c1, k, t) {
            c1
        } else if c2 != t && !blocks(b, c2, k, t) {
            c2
        } else {
            if c1 == t {
                lemma_walk_facts(b, c2, k);
                lemma_clear_empty(b, c2, walk_step(c2, k), walk_len(b, c2, k), t);
            } else if c2 == t {
                lemma_walk_facts(b, c1, k);
                lemma_clear_empty(b, c1, walk_step(c1, k), walk_len(b, c1, k), t);
            } else {
                lemma_walk_facts(b, c1, k);
                lemma_walk_facts(b, c2, k);
                lemma_two_walks(
                    c1,
                    sgn(k / 9 - c1 / 9),
                    sgn(k % 9 - c1 % 9),
                    walk_len(b, c1, k),
                    c2,
                    sgn(k / 9 - c2 / 9),
                    sgn(k % 9 - c2 % 9),
                    walk_len(b, c2, k),
                    k,
                    t,
                );
                if on_walk(c1, walk_step(c1, k), walk_len(b, c1, k), c2) {
                    lemma_clear_empty(b, c1, walk_step(c1, k), walk_len(b, c1, k), c2);
                } else {
                    lemma_clear_empty(b, c2, walk_step(c2, k), walk_len(b, c2, k), c1);
                }
            }
            c1
        };
        lemma_attack_kept(b, survivor, k, f, t, y);
        assert(b2[survivor] == b[survivor]);
        assert(b2[survivor].wf() && b2[survivor].color() == opp(p.side) && attacks(b2, survivor, k));
        assert(attacked_by(b2, opp(p.side), k));
    }
}

/// Filling an empty square never clears a walk that was blocked.
proof fn lemma_clear_fill(b: Seq<Piece>, sq: int, step: int, n: int, t: int, y: Piece)
    requires
        clear(b.update(t, y), sq, step, n),
        0 <= t < b.len(),
        b[t].0 == 0,
        forall|x: int| #[trigger] on_walk(sq, step, n, x) ==> 0 <= x < b.len(),
    ensures
        clear(b, sq, step, n),
    decreases n,
{
    if n > 1 {
        assert(on_walk(sq, step, n, sq + step));
        assert forall|x: int| #[trigger] on_walk(sq + step, step, n - 1, x) implies 0 <= x < b.len() by {
            assert(on_walk(sq, step, n, x));
        }
        lemma_clear_fill(b, sq + step, step, n - 1, t, y);
    }
}

/// In double check a pseudo-legal move is a king move.
pub proof fn lemma_double_check_pseudo(p: PosModel, m: Move, searching: bool, c1: int, c2: int)
    requires
        p.wf(),
        pseudo_legal_spec(p, m, searching),
        c1 != c2,
        is_checker(p, c1),
        is_checker(p, c2),
    ensures
        !drop_bit(m.0),
        p.board[from_field(m.0) as int].type_code() == 8,
{
    reveal(crate::legality::evasion_ok);
    assert(p.checked());
    if drop_bit(m.0) || p.board[from_field(m.0) as int].type_code() != 8 {
        let c = choose|c: int|
            single_checker(p, c) && ((!drop_bit(m.0) && to_field(m.0) as int == c) || blocks(
                p.board,
                c,
                p.king_of(p.side),
                to_field(m.0) as int,
            ));
        assert(c1 == c && c2 == c);
    }
}

/// A pseudo-legal drop never leaves the king attacked: out of check, a new
/// piece only closes lines; in check, it stands between the one checker and
/// the king.
pub proof fn lemma_drop_legal(p: PosModel, m: Move, searching: bool)
    requires
        p.wf(),
        pseudo_legal_spec(p, m, searching),
        drop_bit(m.0),
    ensures
        legal_spec(p, m),
{
    reveal(crate::legality::evasion_ok);
    let b = p.board;
    let k = p.king_of(p.side);
    let t = to_field(m.0) as int;
    let y = Piece(dropped_field(m.0) as u8);
    let b2 = board_after(b, m);
    assert(b2 == b.update(t, y));
    assert(own_king_after(p, m) == k);
    if attacked_by(b2, opp(p.side), k) {
        let s = choose|s: int| 0 <= s < 81 && #[trigger] b2[s].wf() && b2[s].color() == opp(p.side) && attacks(
            b2,
            s,
            k,
        );
        assert(s != t);
        assert(b2[s] == b[s]);
        let df = k / 9 - s / 9;
        let dr = k % 9 - s % 9;
        let stepping = step_reach(b[s].type_code(), b[s].color(), df, dr);
        if !stepping {
            lemma_walk_facts(b2, s, k);
            let sf = sgn(df);
            let sr = sgn(dr);
            let n = walk_len(b2, s, k);
            assert forall|x: int| #[trigger] on_walk(s, 9 * sf + sr, n, x) implies 0 <= x < b.len() by {
                let j = lemma_walk_closed(s, 9 * sf + sr, n, x);
                lemma_walk_coords(s, sf, sr, n, j);
            }
            lemma_clear_fill(b, s, walk_step(s, k), walk_len(b2, s, k), t, y);
            assert(walk_len(b2, s, k) == walk_len(b, s, k));
        }
        assert(attacks(b, s, k));
        assert(is_checker(p, s));
        let c = choose|c: int| single_checker(p, c) && blocks(b, c, k, t);
        assert(s == c);
        lemma_walk_facts(b2, s, k);
        lemma_clear_empty(b2, s, walk_step(s, k), walk_len(b2, s, k), t);
    }
}

} // verus!
