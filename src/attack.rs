use vstd::prelude::*;
use crate::types::{Color, Piece};

verus! {

pub open spec fn sgn(x: int) -> int {
    if x > 0 {
        1
    } else if x < 0 {
        -1
    } else {
        0
    }
}

pub open spec fn abs(x: int) -> int {
    if x < 0 {
        -x
    } else {
        x
    }
}

/// A rank difference as seen by color `c`: negative means toward the opponent.
pub open spec fn forward(c: Color, dr: int) -> int {
    if c == Color::Black {
        dr
    } else {
        -dr
    }
}

/// Rank index as seen by color `c`: 0 is the opponent's back rank.
pub open spec fn rel_rank(c: Color, rank: int) -> int {
    if c == Color::Black {
        rank
    } else {
        8 - rank
    }
}

/// The square lies in the three ranks where pieces of `c` promote.
pub open spec fn in_zone(c: Color, sq: int) -> bool {
    rel_rank(c, sq % 9) < 3
}

/// The `rem - 1` squares after `sq` along `step` are all empty.
pub open spec fn clear(b: Seq<Piece>, sq: int, step: int, rem: int) -> bool
    decreases rem,
{
    if rem <= 1 {
        true
    } else {
        b[sq + step].0 == 0 && clear(b, sq + step, step, rem - 1)
    }
}

/// A one-step piece of kind code `t` and color `c` reaches a square that is
/// `df` files and `dr` ranks away.
pub open spec fn step_reach(t: u8, c: Color, df: int, dr: int) -> bool {
    let f = forward(c, dr);
    let king = abs(df) <= 1 && abs(dr) <= 1 && (df != 0 || dr != 0);
    if t == 1 {
        df == 0 && f == -1
    } else if t == 3 {
        abs(df) == 1 && f == -2
    } else if t == 4 {
        (abs(df) <= 1 && f == -1) || (abs(df) == 1 && f == 1)
    } else if t == 7 || (9 <= t <= 12) {
        (abs(df) <= 1 && f == -1) || (abs(df) == 1 && f == 0) || (df == 0 && f == 1)
    } else if t == 8 || t == 13 || t == 14 {
        king
    } else {
        false
    }
}

/// A sliding piece of kind code `t` on `from` reaches a square that is `df`
/// files and `dr` ranks away, through empty squares only.
pub open spec fn slide_reach(b: Seq<Piece>, from: int, t: u8, c: Color, df: int, dr: int) -> bool {
    if t == 2 {
        df == 0 && forward(c, dr) < 0 && clear(b, from, sgn(dr), abs(dr))
    } else if t == 5 || t == 13 {
        abs(df) == abs(dr) && df != 0 && clear(b, from, 9 * sgn(df) + sgn(dr), abs(df))
    } else if t == 6 || t == 14 {
        (df == 0 || dr == 0) && (df != 0 || dr != 0) && clear(
            b,
            from,
            9 * sgn(df) + sgn(dr),
            abs(df) + abs(dr),
        )
    } else {
        false
    }
}

/// The piece on `from` attacks `to` on board `b`.
pub open spec fn attacks(b: Seq<Piece>, from: int, to: int) -> bool {
    let p = b[from];
    let df = to / 9 - from / 9;
    let dr = to % 9 - from % 9;
    p.wf() && (step_reach(p.type_code(), p.color(), df, dr) || slide_reach(
        b,
        from,
        p.type_code(),
        p.color(),
        df,
        dr,
    ))
}

/// No piece attacks its own square.
pub proof fn lemma_no_self_attack(b: Seq<Piece>, s: int)
    ensures
        !attacks(b, s, s),
{
}

/// Some piece of color `c` attacks `sq`.
pub open spec fn attacked_by(b: Seq<Piece>, c: Color, sq: int) -> bool {
    exists|s: int| 0 <= s < 81 && #[trigger] b[s].wf() && b[s].color() == c && attacks(b, s, sq)
}

/// A board of 81 squares, each empty or holding a piece.
pub open spec fn board_ok(b: Seq<Piece>) -> bool {
    b.len() == 81 && forall|s: int| 0 <= s < 81 ==> (#[trigger] b[s]).0 == 0 || b[s].wf()
}

pub(crate) fn iabs(x: i32) -> (r: i32)
    requires
        -100 < x < 100,
    ensures
        r == abs(x as int),
{
    if x < 0 {
        -x
    } else {
        x
    }
}

pub(crate) fn isgn(x: i32) -> (r: i32)
    ensures
        r == sgn(x as int),
{
    if x > 0 {
        1
    } else if x < 0 {
        -1
    } else {
        0
    }
}

/// Whether the squares strictly between (`ff`, `fr`) and (`tf`, `tr`) along
/// the file step `sf` and rank step `sr` are empty; `n` steps separate them.
fn clear_exec(board: &Vec<Piece>, ff: i32, fr: i32, tf: i32, tr: i32, sf: i32, sr: i32, n: i32) -> (r: bool)
    requires
        board@.len() == 81,
        0 <= ff < 9,
        0 <= fr < 9,
        0 <= tf < 9,
        0 <= tr < 9,
        -1 <= sf <= 1,
        -1 <= sr <= 1,
        n >= 1,
        sf == 1 ==> tf - ff == n,
        sf == -1 ==> ff - tf == n,
        sf == 0 ==> tf == ff,
        sr == 1 ==> tr - fr == n,
        sr == -1 ==> fr - tr == n,
        sr == 0 ==> tr == fr,
    ensures
        r == clear(board@, 9 * ff + fr, 9 * sf + sr, n as int),
{
    let mut cf = ff;
    let mut cr = fr;
    let mut rem = n;
    while rem > 1
        invariant
            board@.len() == 81,
            0 <= cf < 9,
            0 <= cr < 9,
            0 <= tf < 9,
            0 <= tr < 9,
            -1 <= sf <= 1,
            -1 <= sr <= 1,
            rem >= 1,
            sf == 1 ==> tf - cf == rem,
            sf == -1 ==> cf - tf == rem,
            sf == 0 ==> tf == cf,
            sr == 1 ==> tr - cr == rem,
            sr == -1 ==> cr - tr == rem,
            sr == 0 ==> tr == cr,
            clear(board@, 9 * ff + fr, 9 * sf + sr, n as int) == clear(
                board@,
                9 * cf + cr,
                9 * sf + sr,
                rem as int,
            ),
        decreases rem,
    {
        let nf = cf + sf;
        let nr = cr + sr;
        let idx = (9 * nf + nr) as usize;
        assert(9 * cf + cr + 9 * sf + sr == 9 * nf + nr);
        if board[idx].0 != 0 {
            return false;
        }
        cf = nf;
        cr = nr;
        rem = rem - 1;
    }
    true
}

/// Whether the piece on `from` reaches `to` by a single step.
pub fn step_reach_at(board: &Vec<Piece>, from: u8, to: u8) -> (r: bool)
    requires
        board@.len() == 81,
        from < 81,
        to < 81,
    ensures
        r == step_reach(
            board@[from as int].type_code(),
            board@[from as int].color(),
            to / 9 - from / 9,
            to % 9 - from % 9,
        ),
{
    let p = board[from as usize];
    let t = p.0 % 16;
    let black = p.0 < 16;
    let df = (to / 9) as i32 - (from / 9) as i32;
    let dr = (to % 9) as i32 - (from % 9) as i32;
    let f = if black {
        dr
    } else {
        -dr
    };
    let adf = iabs(df);
    let king = adf <= 1 && iabs(dr) <= 1 && (df != 0 || dr != 0);
    let step = if t == 1 {
        df == 0 && f == -1
    } else if t == 3 {
        adf == 1 && f == -2
    } else if t == 4 {
        (adf <= 1 && f == -1) || (adf == 1 && f == 1)
    } else if t == 7 || (9 <= t && t <= 12) {
        (adf <= 1 && f == -1) || (adf == 1 && f == 0) || (df == 0 && f == 1)
    } else if t == 8 || t == 13 || t == 14 {
        king
    } else {
        false
    };
    proof {
        let c = p.color();
        assert(black == (c == Color::Black));
        assert(f == forward(c, dr as int));
    }
    step
}

/// Whether the piece on `from` attacks `to`.
pub fn attacks_exec(board: &Vec<Piece>, from: u8, to: u8) -> (r: bool)
    requires
        board@.len() == 81,
        from < 81,
        to < 81,
    ensures
        r == attacks(board@, from as int, to as int),
{
    let p = board[from as usize];
    if !(1 <= p.0 && p.0 <= 14 || 17 <= p.0 && p.0 <= 30) {
        return false;
    }
    let t = p.0 % 16;
    let black = p.0 < 16;
    let ff = (from / 9) as i32;
    let fr = (from % 9) as i32;
    let tf = (to / 9) as i32;
    let tr = (to % 9) as i32;
    let df = tf - ff;
    let dr = tr - fr;
    let f = if black {
        dr
    } else {
        -dr
    };
    let adf = iabs(df);
    let adr = iabs(dr);
    let king = adf <= 1 && adr <= 1 && (df != 0 || dr != 0);
    let step = if t == 1 {
        df == 0 && f == -1
    } else if t == 3 {
        adf == 1 && f == -2
    } else if t == 4 {
        (adf <= 1 && f == -1) || (adf == 1 && f == 1)
    } else if t == 7 || (9 <= t && t <= 12) {
        (adf <= 1 && f == -1) || (adf == 1 && f == 0) || (df == 0 && f == 1)
    } else if t == 8 || t == 13 || t == 14 {
        king
    } else {
        false
    };
    proof {
        let c = p.color();
        assert(black == (c == Color::Black));
        assert(f == forward(c, dr as int));
        assert(step == step_reach(t, c, df as int, dr as int));
    }
    if step {
        return true;
    }
    let sf = isgn(df);
    let sr = isgn(dr);
    if t == 2 {
        df == 0 && f < 0 && clear_exec(board, ff, fr, tf, tr, 0, sr, adr)
    } else if t == 5 || t == 13 {
        adf == adr && df != 0 && clear_exec(board, ff, fr, tf, tr, sf, sr, adf)
    } else if t == 6 || t == 14 {
        (df == 0 || dr == 0) && (df != 0 || dr != 0) && clear_exec(
            board,
            ff,
            fr,
            tf,
            tr,
            sf,
            sr,
            adf + adr,
        )
    } else {
        false
    }
}

/// Whether some piece of color `c` attacks `sq`.
pub fn attacked_by_exec(board: &Vec<Piece>, c: Color, sq: u8) -> (r: bool)
    requires
        board@.len() == 81,
        sq < 81,
    ensures
        r == attacked_by(board@, c, sq as int),
{
    let mut s: u8 = 0;
    while s < 81
        invariant
            board@.len() == 81,
            s <= 81,
            sq < 81,
            forall|j: int|
                0 <= j < s ==> !(#[trigger] board@[j].wf() && board@[j].color() == c && attacks(
                    board@,
                    j,
                    sq as int,
                )),
        decreases 81 - s,
    {
        let p = board[s as usize];
        let pc = if p.0 < 16 {
            Color::Black
        } else {
            Color::White
        };
        if pc == c && attacks_exec(board, s, sq) {
            assert(board@[s as int].wf() && board@[s as int].color() == c);
            return true;
        }
        s += 1;
    }
    false
}

} // verus!
