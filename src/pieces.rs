use vstd::prelude::*;
use crate::attack::{attacks, attacks_exec};
use crate::bitboard::Bitboard;
use crate::position::{PosModel, Position};
use crate::types::{Color, Piece, PieceType, Square};

verus! {

/// Which squares a board query selects.
#[derive(Clone, Copy, PartialEq, Eq, Structural, Debug)]
pub enum Selector {
    /// Pieces of a color.
    OfColor(Color),
    /// Pieces of a kind (code 1..14).
    OfType(u8),
    /// Pieces of a color and kind.
    OfColorType(Color, u8),
    /// Occupied squares.
    Occupied,
    /// Empty squares.
    Empty,
    /// Golds and the pieces that move like one.
    Golds,
}

/// Whether a square holding `p` is selected.
pub open spec fn selects(sel: Selector, p: Piece) -> bool {
    match sel {
        Selector::OfColor(c) => p.wf() && p.color() == c,
        Selector::OfType(t) => p.wf() && p.type_code() == t,
        Selector::OfColorType(c, t) => p.wf() && p.color() == c && p.type_code() == t,
        Selector::Occupied => p.0 != 0,
        Selector::Empty => p.0 == 0,
        Selector::Golds => p.wf() && (p.type_code() == 7 || (9 <= p.type_code() <= 12)),
    }
}

/// The squares of the board that `sel` selects.
pub open spec fn selected_set(b: Seq<Piece>, sel: Selector) -> Set<int> {
    Set::new(|s: int| 0 <= s < 81 && selects(sel, b[s]))
}

/// The squares holding a piece of color `c` that attacks `sq`.
pub open spec fn attackers_set(b: Seq<Piece>, c: Color, sq: int) -> Set<int> {
    Set::new(|s: int| 0 <= s < 81 && b[s].wf() && b[s].color() == c && attacks(b, s, sq))
}

fn selects_exec(sel: Selector, p: Piece) -> (r: bool)
    ensures
        r == selects(sel, p),
{
    let is_piece = (1 <= p.0 && p.0 <= 14) || (17 <= p.0 && p.0 <= 30);
    let pc = if p.0 < 16 {
        Color::Black
    } else {
        Color::White
    };
    let t = p.0 % 16;
    match sel {
        Selector::OfColor(c) => is_piece && pc == c,
        Selector::OfType(want) => is_piece && t == want,
        Selector::OfColorType(c, want) => is_piece && pc == c && t == want,
        Selector::Occupied => p.0 != 0,
        Selector::Empty => p.0 == 0,
        Selector::Golds => is_piece && (t == 7 || (9 <= t && t <= 12)),
    }
}

/// Every square holds one piece at most: the two colors split the occupied
/// squares between them.
pub proof fn lemma_colors_partition(p: PosModel)
    requires
        p.wf(),
    ensures
        selected_set(p.board, Selector::OfColor(Color::Black)).union(
            selected_set(p.board, Selector::OfColor(Color::White)),
        ) == selected_set(p.board, Selector::Occupied),
        selected_set(p.board, Selector::OfColor(Color::Black)).disjoint(
            selected_set(p.board, Selector::OfColor(Color::White)),
        ),
{
    assert(selected_set(p.board, Selector::OfColor(Color::Black)).union(
        selected_set(p.board, Selector::OfColor(Color::White)),
    ) =~= selected_set(p.board, Selector::Occupied));
}

/// The kinds split the occupied squares: two kinds share no square, and a
/// square is occupied exactly when it holds some kind.
pub proof fn lemma_types_partition(p: PosModel, t1: u8, t2: u8)
    requires
        p.wf(),
        t1 != t2,
    ensures
        selected_set(p.board, Selector::OfType(t1)).disjoint(selected_set(p.board, Selector::OfType(t2))),
        forall|s: int|
            #[trigger] selected_set(p.board, Selector::Occupied).contains(s) <==> exists|t: u8|
                1 <= t <= 14 && selected_set(p.board, Selector::OfType(t)).contains(s),
{
    assert forall|s: int|
        #[trigger] selected_set(p.board, Selector::Occupied).contains(s) <==> exists|t: u8|
            1 <= t <= 14 && selected_set(p.board, Selector::OfType(t)).contains(s) by {
        if selected_set(p.board, Selector::Occupied).contains(s) {
            let t = p.board[s].type_code();
            assert(1 <= t <= 14 && selected_set(p.board, Selector::OfType(t)).contains(s));
        }
    }
}

impl Position {
    /// The squares that `sel` selects.
    pub fn pieces(&self, sel: Selector) -> (r: Bitboard)
        requires
            self.wf(),
        ensures
            r.wf(),
            r.view() == selected_set(self@.board, sel),
    {
        let mut bb = Bitboard::zero();
        let mut s: u8 = 0;
        while s < 81
            invariant
                self.wf(),
                s <= 81,
                bb.wf(),
                bb.view() == Set::new(|x: int| 0 <= x < s && selects(sel, self@.board[x])),
            decreases 81 - s,
        {
            let ghost before = bb.view();
            if selects_exec(sel, self.board[s as usize]) {
                bb.set(Square(s));
            }
            assert(bb.view() =~= Set::new(|x: int| 0 <= x < s + 1 && selects(sel, self@.board[x])));
            s += 1;
        }
        assert(bb.view() =~= selected_set(self@.board, sel));
        bb
    }

    /// Pieces of color `c`.
    pub fn pieces_c(&self, c: Color) -> (r: Bitboard)
        requires
            self.wf(),
        ensures
            r.wf(),
            r.view() == selected_set(self@.board, Selector::OfColor(c)),
    {
        self.pieces(Selector::OfColor(c))
    }

    /// Pieces of kind `pt`.
    pub fn pieces_p(&self, pt: PieceType) -> (r: Bitboard)
        requires
            self.wf(),
        ensures
            r.wf(),
            r.view() == selected_set(self@.board, Selector::OfType(pt as u8)),
    {
        self.pieces(Selector::OfType(pt as u8))
    }

    /// Pieces of color `c` and kind `pt`.
    pub fn pieces_cp(&self, c: Color, pt: PieceType) -> (r: Bitboard)
        requires
            self.wf(),
        ensures
            r.wf(),
            r.view() == selected_set(self@.board, Selector::OfColorType(c, pt as u8)),
    {
        self.pieces(Selector::OfColorType(c, pt as u8))
    }

    /// Golds, promoted pawns, lances, knights and silvers.
    pub fn pieces_golds(&self) -> (r: Bitboard)
        requires
            self.wf(),
        ensures
            r.wf(),
            r.view() == selected_set(self@.board, Selector::Golds),
    {
        self.pieces(Selector::Golds)
    }

    /// Occupied squares.
    pub fn occupied_bb(&self) -> (r: Bitboard)
        requires
            self.wf(),
        ensures
            r.wf(),
            r.view() == selected_set(self@.board, Selector::Occupied),
    {
        self.pieces(Selector::Occupied)
    }

    /// Empty squares.
    pub fn empty_bb(&self) -> (r: Bitboard)
        requires
            self.wf(),
        ensures
            r.wf(),
            r.view() == selected_set(self@.board, Selector::Empty),
    {
        self.pieces(Selector::Empty)
    }

    /// Pieces of color `c` that attack `sq`.
    pub fn attackers_to(&self, c: Color, sq: Square) -> (r: Bitboard)
        requires
            self.wf(),
            sq.wf(),
        ensures
            r.wf(),
            r.view() == attackers_set(self@.board, c, sq.0 as int),
    {
        let mut bb = Bitboard::zero();
        let mut s: u8 = 0;
        while s < 81
            invariant
                self.wf(),
                sq.wf(),
                s <= 81,
                bb.wf(),
                bb.view() == Set::new(|x: int| 0 <= x < s && self@.board[x].wf() && self@.board[x].color() == c
                    && attacks(self@.board, x, sq.0 as int)),
            decreases 81 - s,
        {
            let p = self.board[s as usize];
            let own = selects_exec(Selector::OfColor(c), p);
            if own && attacks_exec(&self.board, s, sq.0) {
                bb.set(Square(s));
            }
            assert(bb.view() =~= Set::new(|x: int| 0 <= x < s + 1 && self@.board[x].wf() && self@.board[x].color()
                == c && attacks(self@.board, x, sq.0 as int)));
            s += 1;
        }
        assert(bb.view() =~= attackers_set(self@.board, c, sq.0 as int));
        bb
    }

    /// Pieces of color `c` other than kings, and, when `no_lance_pawn`, other
    /// than lances and pawns, that attack `sq`.
    fn attackers_to_without(&self, c: Color, sq: Square, no_lance_pawn: bool) -> (r: Bitboard)
        requires
            self.wf(),
            sq.wf(),
        ensures
            r.wf(),
            r.view() == attackers_set(self@.board, c, sq.0 as int).filter(
                |x: int| self@.board[x].type_code() != 8 && !(no_lance_pawn && (self@.board[x].type_code() == 1
                    || self@.board[x].type_code() == 2)),
            ),
    {
        let mut bb = Bitboard::zero();
        let mut s: u8 = 0;
        while s < 81
            invariant
                self.wf(),
                sq.wf(),
                s <= 81,
                bb.wf(),
                bb.view() == Set::new(|x: int| 0 <= x < s && self@.board[x].wf() && self@.board[x].color() == c
                    && attacks(self@.board, x, sq.0 as int) && self@.board[x].type_code() != 8 && !(
                no_lance_pawn && (self@.board[x].type_code() == 1 || self@.board[x].type_code() == 2))),
            decreases 81 - s,
        {
            let p = self.board[s as usize];
            let t = p.0 % 16;
            let own = selects_exec(Selector::OfColor(c), p);
            if own && t != 8 && !(no_lance_pawn && (t == 1 || t == 2)) && attacks_exec(&self.board, s, sq.0) {
                bb.set(Square(s));
            }
            assert(bb.view() =~= Set::new(|x: int| 0 <= x < s + 1 && self@.board[x].wf() && self@.board[x].color()
                == c && attacks(self@.board, x, sq.0 as int) && self@.board[x].type_code() != 8 && !(
            no_lance_pawn && (self@.board[x].type_code() == 1 || self@.board[x].type_code() == 2))));
            s += 1;
        }
        assert(bb.view() =~= attackers_set(self@.board, c, sq.0 as int).filter(
            |x: int| self@.board[x].type_code() != 8 && !(no_lance_pawn && (self@.board[x].type_code() == 1
                || self@.board[x].type_code() == 2)),
        ));
        bb
    }

    /// Pieces of color `c` other than kings that attack `sq`.
    pub fn attackers_to_except_king(&self, c: Color, sq: Square) -> (r: Bitboard)
        requires
            self.wf(),
            sq.wf(),
        ensures
            r.wf(),
            r.view() == attackers_set(self@.board, c, sq.0 as int).filter(
                |x: int| self@.board[x].type_code() != 8,
            ),
    {
        let r = self.attackers_to_without(c, sq, false);
        assert(r.view() =~= attackers_set(self@.board, c, sq.0 as int).filter(
            |x: int| self@.board[x].type_code() != 8,
        ));
        r
    }

    /// Pieces of color `c` other than kings, lances and pawns that attack `sq`.
    pub fn attackers_to_except_king_lance_pawn(&self, c: Color, sq: Square) -> (r: Bitboard)
        requires
            self.wf(),
            sq.wf(),
        ensures
            r.wf(),
            r.view() == attackers_set(self@.board, c, sq.0 as int).filter(
                |x: int| self@.board[x].type_code() != 8 && self@.board[x].type_code() != 1
                    && self@.board[x].type_code() != 2,
            ),
    {
        let r = self.attackers_to_without(c, sq, true);
        assert(r.view() =~= attackers_set(self@.board, c, sq.0 as int).filter(
            |x: int| self@.board[x].type_code() != 8 && self@.board[x].type_code() != 1
                && self@.board[x].type_code() != 2,
        ));
        r
    }

    /// The squares from which a piece of kind `pt` of the side to move
    /// would attack the enemy king, the rest of the board as it stands.
    pub fn check_squares(&self, pt: PieceType) -> (r: Bitboard)
        requires
            self.wf(),
            pt.wf(),
        ensures
            r.wf(),
            r.view() == Set::new(
                |s: int|
                    0 <= s < 81 && attacks(
                        self@.board.update(s, Piece::of(self@.side, pt)),
                        s,
                        self@.king_of(crate::position::opp(self@.side)),
                    ),
            ),
    {
        let us = self.side_to_move;
        let them = us.inverse();
        assert(them == crate::position::opp(us));
        let k = self.king_square(them).0;
        let pc = Piece::new(us, pt);
        let mut bb = Bitboard::zero();
        let mut s: u8 = 0;
        while s < 81
            invariant
                self.wf(),
                s <= 81,
                bb.wf(),
                k == self@.king_of(crate::position::opp(self@.side)),
                pc == Piece::of(self@.side, pt),
                bb.view() == Set::new(
                    |x: int|
                        0 <= x < s && attacks(self@.board.update(x, Piece::of(self@.side, pt)), x, k as int),
                ),
            decreases 81 - s,
        {
            let mut b2 = crate::legality::copy_board(&self.board);
            b2.set(s as usize, pc);
            if attacks_exec(&b2, s, k) {
                bb.set(Square(s));
            }
            assert(bb.view() =~= Set::new(
                |x: int|
                    0 <= x < s + 1 && attacks(self@.board.update(x, Piece::of(self@.side, pt)), x, k as int),
            ));
            s += 1;
        }
        bb
    }

    /// Pieces of either color that attack `sq`.
    pub fn attackers_to_both_color(&self, sq: Square) -> (r: Bitboard)
        requires
            self.wf(),
            sq.wf(),
        ensures
            r.wf(),
            r.view() == attackers_set(self@.board, Color::Black, sq.0 as int).union(
                attackers_set(self@.board, Color::White, sq.0 as int),
            ),
    {
        let b = self.attackers_to(Color::Black, sq);
        let w = self.attackers_to(Color::White, sq);
        b.or(w)
    }

    /// The pieces of the side to move that give check: attackers of its
    /// king, of the other color.
    pub fn checkers(&self) -> (r: Bitboard)
        requires
            self.wf(),
        ensures
            r.wf(),
            r.view() == attackers_set(
                self@.board,
                crate::position::opp(self@.side),
                self@.king_of(self@.side),
            ),
    {
        let us = self.side_to_move;
        let k = self.king_square(us);
        self.attackers_to(us.inverse(), k)
    }
}

/// The squares strictly between `sq` and the square `n` steps of `step`
/// away that hold a piece, nearest first.
pub open spec fn occupied_between(b: Seq<Piece>, sq: int, step: int, n: int) -> Seq<int>
    decreases n,
{
    if n <= 1 {
        Seq::empty()
    } else {
        let next = sq + step;
        (if b[next].0 != 0 {
            seq![next]
        } else {
            Seq::empty()
        }) + occupied_between(b, next, step, n - 1)
    }
}

/// The ray from `from` to `to` that a slider of kind code `t` and color `c`
/// would follow on an empty board: its step and number of steps.
pub open spec fn slider_ray(t: u8, c: Color, from: int, to: int) -> Option<(int, int)> {
    let df = to / 9 - from / 9;
    let dr = to % 9 - from % 9;
    let step = 9 * crate::attack::sgn(df) + crate::attack::sgn(dr);
    if (t == 2) && df == 0 && crate::attack::forward(c, dr) < 0 {
        Some((step, crate::attack::abs(dr)))
    } else if (t == 5 || t == 13) && crate::attack::abs(df) == crate::attack::abs(dr) && df != 0 {
        Some((step, crate::attack::abs(df)))
    } else if (t == 6 || t == 14) && (df == 0 || dr == 0) && (df != 0 || dr != 0) {
        Some((step, crate::attack::abs(df) + crate::attack::abs(dr)))
    } else {
        None
    }
}

/// The single piece between the slider on `s` and `target`, if exactly one
/// lies on the ray between them.
pub open spec fn lone_blocker(b: Seq<Piece>, s: int, target: int) -> Option<int> {
    match slider_ray(b[s].type_code(), b[s].color(), s, target) {
        Some(ray) => {
            let between = occupied_between(b, s, ray.0, ray.1);
            if between.len() == 1 {
                Some(between[0])
            } else {
                None
            }
        },
        None => None,
    }
}

/// Walks the ray of `step` from (`ff`, `fr`) toward (`tf`, `tr`), `n` steps
/// away, and returns the occupied squares strictly between, nearest first.
fn occupied_between_exec(board: &Vec<Piece>, ff: i32, fr: i32, tf: i32, tr: i32, sf: i32, sr: i32, n: i32) -> (r: Vec<u8>)
    requires
        board@.len() == 81,
        0 <= ff < 9,
        0 <= fr < 9,
        0 <= tf < 9,
        0 <= tr < 9,
        -1 <= sf <= 1,
        -1 <= sr <= 1,
        n >= 1,
        sf == 1 ==> tf - ff == n,
        sf == -1 ==> ff - tf == n,
        sf == 0 ==> tf == ff,
        sr == 1 ==> tr - fr == n,
        sr == -1 ==> fr - tr == n,
        sr == 0 ==> tr == fr,
    ensures
        r@.map_values(|x: u8| x as int) == occupied_between(board@, 9 * ff + fr, 9 * sf + sr, n as int),
        forall|i: int| 0 <= i < r@.len() ==> #[trigger] r@[i] < 81,
{
    let mut out: Vec<u8> = Vec::new();
    let mut cf = ff;
    let mut cr = fr;
    let mut rem = n;
    while rem > 1
        invariant
            board@.len() == 81,
            0 <= cf < 9,
            0 <= cr < 9,
            0 <= tf < 9,
            0 <= tr < 9,
            -1 <= sf <= 1,
            -1 <= sr <= 1,
            rem >= 1,
            sf == 1 ==> tf - cf == rem,
            sf == -1 ==> cf - tf == rem,
            sf == 0 ==> tf == cf,
            sr == 1 ==> tr - cr == rem,
            sr == -1 ==> cr - tr == rem,
            sr == 0 ==> tr == cr,
            out@.map_values(|x: u8| x as int) + occupied_between(board@, 9 * cf + cr, 9 * sf + sr, rem as int)
                == occupied_between(board@, 9 * ff + fr, 9 * sf + sr, n as int),
            forall|i: int| 0 <= i < out@.len() ==> #[trigger] out@[i] < 81,
        decreases rem,
    {
        let nf = cf + sf;
        let nr = cr + sr;
        let idx = 9 * nf + nr;
        assert(9 * cf + cr + 9 * sf + sr == idx);
        let ghost before = out@;
        if board[idx as usize].0 != 0 {
            out.push(idx as u8);
        }
        assert(out@.map_values(|x: u8| x as int) + occupied_between(board@, idx as int, 9 * sf + sr, rem - 1)
            =~= before.map_values(|x: u8| x as int) + occupied_between(board@, 9 * cf + cr, 9 * sf + sr,
            rem as int));
        cf = nf;
        cr = nr;
        rem = rem - 1;
    }
    assert(out@.map_values(|x: u8| x as int) =~= out@.map_values(|x: u8| x as int) + Seq::<int>::empty());
    out
}

impl Position {
    /// The square of the lone piece between the slider on `s` and `target`,
    /// or 81 when there is no such slider ray or not exactly one piece on it.
    fn lone_blocker_exec(&self, s: u8, target: u8) -> (r: u8)
        requires
            self.wf(),
            s < 81,
            target < 81,
        ensures
            r < 81 ==> lone_blocker(self@.board, s as int, target as int) == Some(r as int),
            r >= 81 ==> lone_blocker(self@.board, s as int, target as int) is None,
    {
        let p = self.board[s as usize];
        let t = p.0 % 16;
        let black = p.0 < 16;
        let ff = (s / 9) as i32;
        let fr = (s % 9) as i32;
        let tf = (target / 9) as i32;
        let tr = (target % 9) as i32;
        let df = tf - ff;
        let dr = tr - fr;
        let sf: i32 = if df > 0 {
            1
        } else if df < 0 {
            -1
        } else {
            0
        };
        let sr: i32 = if dr > 0 {
            1
        } else if dr < 0 {
            -1
        } else {
            0
        };
        let adf = if df < 0 {
            -df
        } else {
            df
        };
        let adr = if dr < 0 {
            -dr
        } else {
            dr
        };
        let fwd = if black {
            dr
        } else {
            -dr
        };
        proof {
            assert(black == (p.color() == Color::Black));
        }
        let n: i32 = if t == 2 && df == 0 && fwd < 0 {
            adr
        } else if (t == 5 || t == 13) && adf == adr && df != 0 {
            adf
        } else if (t == 6 || t == 14) && (df == 0 || dr == 0) && (df != 0 || dr != 0) {
            adf + adr
        } else {
            0
        };
        if n == 0 {
            return 81;
        }
        let between = occupied_between_exec(&self.board, ff, fr, tf, tr, sf, sr, n);
        proof {
            assert(between@.map_values(|x: u8| x as int).len() == between@.len());
        }
        if between.len() == 1 {
            assert(between@.map_values(|x: u8| x as int)[0] == between@[0] as int);
            between[0]
        } else {
            81
        }
    }

    /// The pieces (of either color) that stand alone between an enemy
    /// slider and the king of `c`.
    pub fn blockers_for_king(&self, c: Color) -> (r: Bitboard)
        requires
            self.wf(),
        ensures
            r.wf(),
            forall|x: int|
                #[trigger] r.view().contains(x) <==> exists|s: int|
                    0 <= s < 81 && selects(Selector::OfColor(crate::position::opp(c)), self@.board[s])
                        && lone_blocker(self@.board, s, self@.king_of(c)) == Some(x),
    {
        let them = c.inverse();
        let sliders = self.pieces_c(them);
        let k = self.king_square(c);
        let (b, _) = self.slider_blockers_and_pinners(&sliders, them, k);
        proof {
            assert(them == crate::position::opp(c));
            assert forall|x: int|
                #[trigger] b.view().contains(x) <==> exists|s: int|
                    0 <= s < 81 && selects(Selector::OfColor(crate::position::opp(c)), self@.board[s])
                        && lone_blocker(self@.board, s, self@.king_of(c)) == Some(x) by {
                if b.view().contains(x) {
                    let s = choose|s: int|
                        sliders.view().contains(s) && selects(Selector::OfColor(them), self@.board[s])
                            && lone_blocker(self@.board, s, k.0 as int) == Some(x);
                }
                if exists|s: int|
                    0 <= s < 81 && selects(Selector::OfColor(crate::position::opp(c)), self@.board[s])
                        && lone_blocker(self@.board, s, self@.king_of(c)) == Some(x) {
                    let s = choose|s: int|
                        0 <= s < 81 && selects(Selector::OfColor(crate::position::opp(c)), self@.board[s])
                            && lone_blocker(self@.board, s, self@.king_of(c)) == Some(x);
                    assert(sliders.view().contains(s));
                }
            }
        }
        b
    }

    /// The enemy sliders with exactly one piece between them and the king of `c`.
    pub fn pinners_for_king(&self, c: Color) -> (r: Bitboard)
        requires
            self.wf(),
        ensures
            r.wf(),
            forall|s: int|
                #[trigger] r.view().contains(s) <==> 0 <= s < 81 && selects(
                    Selector::OfColor(crate::position::opp(c)),
                    self@.board[s],
                ) && lone_blocker(self@.board, s, self@.king_of(c)) is Some,
    {
        let them = c.inverse();
        let sliders = self.pieces_c(them);
        let k = self.king_square(c);
        let (_, p) = self.slider_blockers_and_pinners(&sliders, them, k);
        p
    }

    /// For the sliders in `sliders` of color `c`, the pieces (of either
    /// color) that stand alone between one of them and `target`, and the
    /// sliders that have such a piece.
    pub fn slider_blockers_and_pinners(&self, sliders: &Bitboard, c: Color, target: Square) -> (r: (
        Bitboard,
        Bitboard,
    ))
        requires
            self.wf(),
            sliders.wf(),
            target.wf(),
        ensures
            r.0.wf(),
            r.1.wf(),
            forall|x: int|
                #[trigger] r.0.view().contains(x) <==> exists|s: int|
                    sliders.view().contains(s) && selects(Selector::OfColor(c), self@.board[s]) && lone_blocker(
                        self@.board,
                        s,
                        target.0 as int,
                    ) == Some(x),
            forall|s: int|
                #[trigger] r.1.view().contains(s) <==> sliders.view().contains(s) && selects(
                    Selector::OfColor(c),
                    self@.board[s],
                ) && lone_blocker(self@.board, s, target.0 as int) is Some,
    {
        let mut blockers = Bitboard::zero();
        let mut pinners = Bitboard::zero();
        let mut s: u8 = 0;
        while s < 81
            invariant
                self.wf(),
                sliders.wf(),
                target.wf(),
                s <= 81,
                blockers.wf(),
                pinners.wf(),
                forall|x: int|
                    #[trigger] blockers.view().contains(x) <==> exists|s2: int|
                        0 <= s2 < s && sliders.view().contains(s2) && selects(Selector::OfColor(c), self@.board[s2])
                            && lone_blocker(self@.board, s2, target.0 as int) == Some(x),
                forall|s2: int|
                    #[trigger] pinners.view().contains(s2) <==> 0 <= s2 < s && sliders.view().contains(s2)
                        && selects(Selector::OfColor(c), self@.board[s2]) && lone_blocker(
                        self@.board,
                        s2,
                        target.0 as int,
                    ) is Some,
            decreases 81 - s,
        {
            if sliders.is_set(Square(s)) && selects_exec(Selector::OfColor(c), self.board[s as usize]) {
                let x = self.lone_blocker_exec(s, target.0);
                if x < 81 {
                    let ghost b0 = blockers.view();
                    blockers.set(Square(x));
                    pinners.set(Square(s));
                    proof {
                        assert forall|y: int| #[trigger] blockers.view().contains(y) <==> exists|s2: int|
                            0 <= s2 < s + 1 && sliders.view().contains(s2) && selects(
                                Selector::OfColor(c),
                                self@.board[s2],
                            ) && lone_blocker(self@.board, s2, target.0 as int) == Some(y) by {
                            if y == x {
                                assert(lone_blocker(self@.board, s as int, target.0 as int) == Some(y));
                            }
                            if b0.contains(y) {
                                let s2 = choose|s2: int| 0 <= s2 < s && sliders.view().contains(s2) && selects(
                                    Selector::OfColor(c),
                                    self@.board[s2],
                                ) && lone_blocker(self@.board, s2, target.0 as int) == Some(y);
                            }
                        }
                    }
                }
            }
            proof {
                assert forall|y: int| #[trigger] blockers.view().contains(y) <==> exists|s2: int|
                    0 <= s2 < s + 1 && sliders.view().contains(s2) && selects(
                        Selector::OfColor(c),
                        self@.board[s2],
                    ) && lone_blocker(self@.board, s2, target.0 as int) == Some(y) by {
                    if exists|s2: int|
                        0 <= s2 < s + 1 && sliders.view().contains(s2) && selects(
                            Selector::OfColor(c),
                            self@.board[s2],
                        ) && lone_blocker(self@.board, s2, target.0 as int) == Some(y) {
                        let s2 = choose|s2: int|
                            0 <= s2 < s + 1 && sliders.view().contains(s2) && selects(
                                Selector::OfColor(c),
                                self@.board[s2],
                            ) && lone_blocker(self@.board, s2, target.0 as int) == Some(y);
                        if s2 < s {
                            assert(blockers.view().contains(y));
                        }
                    }
                }
            }
            s += 1;
        }
        (blockers, pinners)
    }
}

} // verus!
