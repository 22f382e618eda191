use vstd::prelude::*;
use crate::attack::{in_zone, rel_rank};
use crate::hand::Hand;
use crate::legality::{legal_spec, pseudo_legal_spec};
use crate::movegen::{GenType, MoveList, is_legal_move};
use crate::moves::{
    Move, drop_bit, drop_code, dropped_field, from_field, moved_field, promote_bit, to_field,
    unpromote_code,
};
use crate::movegen::{lemma_board_word, lemma_drop_word};
use crate::position::{PosModel, Position, do_spec, opp};
use crate::text::chars_of;
use crate::types::{
    Color, Piece, PieceType, Square, file_from_usi_char, letter_type, letter_type_of,
    rank_from_usi_char, type_letter,
};
use crate::zobrist::Zobrist;

verus! {

/// How the current position repeats an earlier one.
#[derive(Clone, Copy, PartialEq, Eq, Structural, Debug)]
pub enum Repetition {
    Not,
    Draw,
    Win,
    Lose,
    Superior,
    Inferior,
}

/// Farthest look back for a repetition, in plies.
pub const MAX_REPETITION_PLY: u32 = 16;

/// The classification against the states `i`, `i + 2`, ... `end` plies back,
/// the first match deciding.
pub open spec fn rep_scan(p: PosModel, i: int, end: int) -> Repetition
    decreases (if end >= i {
        end - i + 1
    } else {
        0
    }),
{
    let n = p.states.len();
    if i > end || i >= n || i < 4 {
        Repetition::Not
    } else {
        let cur = p.top();
        let st = p.states[n - 1 - i];
        let us = p.side;
        if cur.board_key ^ cur.hand_key == st.board_key ^ st.hand_key {
            if i <= cur.continuous_check(us) {
                Repetition::Lose
            } else if i <= cur.continuous_check(opp(us)) {
                Repetition::Win
            } else {
                Repetition::Draw
            }
        } else if cur.board_key == st.board_key && dominates_hand(
            cur.hand_of_side_to_move,
            st.hand_of_side_to_move,
        ) {
            Repetition::Superior
        } else if cur.board_key == st.board_key && dominates_hand(
            st.hand_of_side_to_move,
            cur.hand_of_side_to_move,
        ) {
            Repetition::Inferior
        } else {
            rep_scan(p, i + 2, end)
        }
    }
}

pub open spec fn dominates_hand(a: Hand, b: Hand) -> bool {
    forall|pt: u8| 1 <= pt <= 7 ==> #[trigger] a.count(pt) >= b.count(pt)
}

/// The repetition classification of the position (see `rep_scan`): the
/// states 4, 6, ... plies back, as far as 16 and as far as the last null move.
pub open spec fn repetition_spec(p: PosModel) -> Repetition {
    let pf = p.top().plies_from_null as int;
    rep_scan(p, 4, if pf < 16 {
        pf
    } else {
        16
    })
}

/// Number of pieces of `c` in its promotion zone on the first `n` squares,
/// and how many of them are big (bishop, rook, horse, dragon); kings excluded.
pub open spec fn zone_pieces(b: Seq<Piece>, c: Color, n: int) -> (int, int)
    decreases n,
{
    if n <= 0 {
        (0, 0)
    } else {
        let prev = zone_pieces(b, c, n - 1);
        let p = b[n - 1];
        let t = p.type_code();
        if p.wf() && p.color() == c && in_zone(c, n - 1) && t != 8 {
            let big = t == 5 || t == 6 || t == 13 || t == 14;
            (prev.0 + 1, prev.1 + if big {
                1int
            } else {
                0int
            })
        } else {
            prev
        }
    }
}

/// The entering-king declaration wins: not in check, king in the zone, ten or
/// more other own pieces there, and 28 points for Black, 27 for White,
/// counting 5 for each big piece and 1 for each other piece in the zone or in
/// hand.
pub open spec fn entering_king_spec(p: PosModel) -> bool {
    let us = p.side;
    let z = zone_pieces(p.board, us, 81);
    let h = p.hand_of(us);
    let small = z.0 - z.1 + h.count(1) + h.count(2) + h.count(3) + h.count(4) + h.count(7);
    let big = z.1 + h.count(5) + h.count(6);
    &&& !p.checked()
    &&& in_zone(us, p.king_of(us))
    &&& z.0 >= 10
    &&& small + 5 * big >= (if us == Color::Black {
        28int
    } else {
        27int
    })
}

/// The move `m` mates: it checks, and after it the opponent has no legal move.
pub open spec fn mates(p: PosModel, m: Move) -> bool {
    p.gives_check_spec(m) && forall|m2: Move| !is_legal_move(do_spec(p, m), m2)
}

/// Place of a move class in the order of the mate search: gold, rook,
/// lance, bishop, silver, knight and pawn drops, then board moves.
pub open spec fn class_rank(c: u8) -> int {
    if c == 7 {
        0
    } else if c == 6 {
        1
    } else if c == 2 {
        2
    } else if c == 5 {
        3
    } else if c == 4 {
        4
    } else if c == 3 {
        5
    } else if c == 1 {
        6
    } else {
        7
    }
}

proof fn lemma_class_rank(c: u8)
    requires
        c <= 7,
    ensures
        0 <= class_rank(c) < 8,
        seq![7u8, 6, 2, 5, 4, 3, 1, 0][class_rank(c)] == c,
{
}

/// The kind of a dropped piece, 0 for a board move.
pub open spec fn move_class(m: Move) -> u8 {
    if drop_bit(m.0) {
        (dropped_field(m.0) % 16) as u8
    } else {
        0
    }
}

fn copy_vec<T: Copy>(v: &Vec<T>) -> (r: Vec<T>)
    ensures
        r@ == v@,
{
    let mut r: Vec<T> = Vec::new();
    let mut i: usize = 0;
    while i < v.len()
        invariant
            i <= v@.len(),
            r@ == v@.subrange(0, i as int),
        decreases v@.len() - i,
    {
        r.push(v[i]);
        i += 1;
        assert(r@ =~= v@.subrange(0, i as int));
    }
    assert(r@ =~= v@);
    r
}

impl Position {
    /// A copy of this position, history included.
    pub fn new_from_position(pos: &Position) -> (r: Position)
        requires
            pos.wf(),
        ensures
            r.wf(),
            r@ == pos@,
            r.history == pos.history,
            r.played == pos.played,
    {
        let r = Position {
            board: copy_vec(&pos.board),
            hand_black: pos.hand_black,
            hand_white: pos.hand_white,
            side_to_move: pos.side_to_move,
            game_ply: pos.game_ply,
            king_black: pos.king_black,
            king_white: pos.king_white,
            states: copy_vec(&pos.states),
            zobrist: Zobrist { field: copy_vec(&pos.zobrist.field), hand: copy_vec(&pos.zobrist.hand) },
            history: pos.history,
            played: pos.played,
        };
        proof {
            reveal(Position::history_ok);
            assert(r@ == pos@);
        }
        r
    }

    /// Whether the position repeats an earlier one, and how (see `rep_scan`).
    pub fn is_repetition(&self) -> (r: Repetition)
        requires
            self.wf(),
        ensures
            r == repetition_spec(self@),
    {
        let ghost p = self@;
        let n = self.states.len();
        let cur = self.states[n - 1];
        let end: u32 = if cur.plies_from_null < MAX_REPETITION_PLY {
            cur.plies_from_null
        } else {
            MAX_REPETITION_PLY
        };
        let us = self.side_to_move;
        let cc_us = match us {
            Color::Black => cur.continuous_check_black,
            Color::White => cur.continuous_check_white,
        };
        let cc_them = match us {
            Color::Black => cur.continuous_check_white,
            Color::White => cur.continuous_check_black,
        };
        let mut i: u32 = 4;
        while i <= end && (i as usize) < n
            invariant
                p == self@,
                self.wf(),
                n == p.states.len(),
                n >= 1,
                cur == p.top(),
                end <= 16,
                4 <= i <= 18,
                i % 2 == 0,
                cc_us == cur.continuous_check(us),
                cc_them == cur.continuous_check(opp(us)),
                us == p.side,
                end == (if cur.plies_from_null < 16 {
                    cur.plies_from_null
                } else {
                    16
                }),
                rep_scan(p, 4, end as int) == rep_scan(p, i as int, end as int),
            decreases 18 - i,
        {
            let st = self.states[n - 1 - i as usize];
            if cur.key() == st.key() {
                if i <= cc_us {
                    return Repetition::Lose;
                }
                if i <= cc_them {
                    return Repetition::Win;
                }
                return Repetition::Draw;
            } else if cur.board_key == st.board_key {
                if cur.hand_of_side_to_move.is_equal_or_superior(st.hand_of_side_to_move) {
                    return Repetition::Superior;
                }
                if st.hand_of_side_to_move.is_equal_or_superior(cur.hand_of_side_to_move) {
                    return Repetition::Inferior;
                }
            }
            i += 2;
        }
        Repetition::Not
    }

    /// Whether the side to move wins by the entering-king declaration.
    pub fn is_entering_king_win(&self) -> (r: bool)
        requires
            self.wf(),
        ensures
            r == entering_king_spec(self@),
    {
        let ghost p = self@;
        if self.in_check() {
            return false;
        }
        let us = self.side_to_move;
        let ksq = self.king_square(us).0;
        let kr = match us {
            Color::Black => ksq % 9,
            Color::White => 8 - ksq % 9,
        };
        if kr >= 3 {
            return false;
        }
        let mut total: u32 = 0;
        let mut big: u32 = 0;
        let mut s: usize = 0;
        while s < 81
            invariant
                p == self@,
                self.wf(),
                us == p.side,
                s <= 81,
                total <= s,
                big <= total,
                zone_pieces(p.board, us, s as int) == (total as int, big as int),
            decreases 81 - s,
        {
            let pc = self.board[s];
            let t = pc.0 % 16;
            let own = pc.0 != 0 && (if pc.0 < 16 {
                Color::Black
            } else {
                Color::White
            }) == us;
            let r = match us {
                Color::Black => (s % 9) as u8,
                Color::White => (8 - s % 9) as u8,
            };
            proof {
                assert(own == (pc.wf() && pc.color() == us));
                assert(r == rel_rank(us, s as int % 9));
            }
            if own && r < 3 && t != 8 {
                total += 1;
                if t == 5 || t == 6 || t == 13 || t == 14 {
                    big += 1;
                }
            }
            s += 1;
        }
        if total < 10 {
            return false;
        }
        let h = self.hand(us);
        let small = (total - big) + h.num(PieceType::Pawn) + h.num(PieceType::Lance) + h.num(
            PieceType::Knight,
        ) + h.num(PieceType::Silver) + h.num(PieceType::Gold);
        let bigs = big + h.num(PieceType::Bishop) + h.num(PieceType::Rook);
        let thresh: u32 = match us {
            Color::Black => 28,
            Color::White => 27,
        };
        small + 5 * bigs >= thresh
    }
}

pub open spec fn is_file_char(c: char) -> bool {
    '1' <= c && c <= '9'
}

pub open spec fn is_rank_char(c: char) -> bool {
    'a' <= c && c <= 'i'
}

/// The square named by a USI file digit and rank letter.
pub open spec fn usi_square(f: char, r: char) -> int {
    9 * (f as int - 49) + (r as int - 97)
}

/// The move word that a USI text names on `p`, if it names one: a drop
/// `<kind>*<file><rank>` of the side to move, or a board move
/// `<file><rank><file><rank>[+]` of the piece on the origin square.
pub open spec fn usi_parse(p: PosModel, v: Seq<char>) -> Option<Move> {
    if v.len() < 4 {
        None
    } else if 1 <= letter_type(v[0]) <= 7 {
        if v[1] != '*' || v.len() != 4 || !is_file_char(v[2]) || !is_rank_char(v[3]) {
            None
        } else {
            Some(
                Move(
                    drop_code(
                        (letter_type(v[0]) + 16 * (p.side as int)) as u8,
                        usi_square(v[2], v[3]) as u8,
                    ),
                ),
            )
        }
    } else if !(is_file_char(v[0]) && is_rank_char(v[1]) && is_file_char(v[2]) && is_rank_char(v[3])) {
        None
    } else {
        let from = usi_square(v[0], v[1]);
        let to = usi_square(v[2], v[3]);
        let pc = p.board[from];
        if pc.0 == 0 || from == to {
            None
        } else if v.len() == 4 {
            Some(Move(unpromote_code(from as u8, to as u8, pc.0)))
        } else if v.len() == 5 && v[4] == '+' {
            Some(Move(0x80 | unpromote_code(from as u8, to as u8, pc.0)))
        } else {
            None
        }
    }
}

/// A pseudo-legal move reads back from its USI text.
#[verifier::rlimit(50)]
pub proof fn lemma_usi_parse(p: PosModel, m: Move)
    requires
        p.wf(),
        pseudo_legal_spec(p, m, false),
    ensures
        usi_parse(p, m.usi_chars()) == Some(m),
{
    let v = m.usi_chars();
    let to = to_field(m.0) as int;
    if drop_bit(m.0) {
        let pd = dropped_field(m.0);
        let t = (pd % 16) as u8;
        assert(letter_type(type_letter(t)) == t);
        assert(usi_square(v[2], v[3]) == to);
        assert(pd == t + 16 * (p.side as int));
        lemma_drop_word(m.0);
    } else {
        let from = from_field(m.0) as int;
        assert(letter_type(v[0]) == 0);
        assert(usi_square(v[0], v[1]) == from);
        assert(usi_square(v[2], v[3]) == to);
        lemma_board_word(m.0);
        let w = m.0;
        assert(w & 0x80 == (if w & 0x80 != 0 {
            0x80u32
        } else {
            0u32
        })) by (bit_vector);
        let a = (moved_field(m.0)) << 16;
        let b = (from as u32) << 9;
        let c = to as u32;
        assert(0x80u32 | (a | b | c) == a | b | 0x80u32 | c && a | b | c == a | b | 0u32 | c) by (bit_vector);
    }
}

impl Move {
    /// Reads a USI move (`7g7f`, `8h2b+`, `P*5e`) on `pos`: the move it
    /// names (see `usi_parse`) when that move is pseudo-legal and legal
    /// there, else `None`. Every such move is read back from its own text.
    #[verifier::rlimit(40)]
    pub fn new_from_usi_str(s: &str, pos: &Position) -> (r: Option<Move>)
        requires
            pos.wf(),
        ensures
            r == (match usi_parse(pos@, s@) {
                Some(m) => if m.wf() && pseudo_legal_spec(pos@, m, false) && legal_spec(pos@, m) {
                    Some(m)
                } else {
                    None
                },
                None => None,
            }),
            forall|m: Move|
                pseudo_legal_spec(pos@, m, false) && legal_spec(pos@, m) && m.usi_chars() == s@ ==> r == Some(
                    m,
                ),
    {
        proof {
            assert forall|m: Move|
                pseudo_legal_spec(pos@, m, false) && legal_spec(pos@, m) && m.usi_chars() == s@ implies usi_parse(
                pos@,
                s@,
            ) == Some(m) by {
                lemma_usi_parse(pos@, m);
            }
        }
        let v = chars_of(s);
        if v.len() < 4 {
            return None;
        }
        let us = pos.side_to_move;
        let m: Move;
        let dt = letter_type_of(v[0]);
        if 1 <= dt && dt <= 7 {
            if v[1] != '*' || v.len() != 4 {
                return None;
            }
            let f = match file_from_usi_char(v[2]) {
                Some(f) => f,
                None => return None,
            };
            let rk = match rank_from_usi_char(v[3]) {
                Some(x) => x,
                None => return None,
            };
            let to = Square::new(f, rk);
            m = Move::new_drop(Piece::new(us, PieceType::from_code(dt)), to);
            assert(usi_parse(pos@, v@) == Some(m));
        } else {
            let ff = match file_from_usi_char(v[0]) {
                Some(f) => f,
                None => return None,
            };
            let fr = match rank_from_usi_char(v[1]) {
                Some(x) => x,
                None => return None,
            };
            let tf = match file_from_usi_char(v[2]) {
                Some(f) => f,
                None => return None,
            };
            let tr = match rank_from_usi_char(v[3]) {
                Some(x) => x,
                None => return None,
            };
            let from = Square::new(ff, fr);
            let to = Square::new(tf, tr);
            let pc = pos.board[from.0 as usize];
            if pc.0 == 0 || from == to {
                return None;
            }
            if v.len() == 4 {
                m = Move::new_unpromote(from, to, pc);
            } else if v.len() == 5 && v[4] == '+' {
                m = Move::new_promote(from, to, pc);
            } else {
                return None;
            }
            assert(usi_parse(pos@, v@) == Some(m));
        }
        assert(m.is_normal());
        if !pos.pseudo_legal(m, false) || !pos.legal(m) {
            return None;
        }
        Some(m)
    }
}

/// The two CSA letters of a kind code (1..14).
pub open spec fn csa_type_chars(t: u8) -> Seq<char> {
    if t == 1 {
        seq!['F', 'U']
    } else if t == 2 {
        seq!['K', 'Y']
    } else if t == 3 {
        seq!['K', 'E']
    } else if t == 4 {
        seq!['G', 'I']
    } else if t == 5 {
        seq!['K', 'A']
    } else if t == 6 {
        seq!['H', 'I']
    } else if t == 7 {
        seq!['K', 'I']
    } else if t == 8 {
        seq!['O', 'U']
    } else if t == 9 {
        seq!['T', 'O']
    } else if t == 10 {
        seq!['N', 'Y']
    } else if t == 11 {
        seq!['N', 'K']
    } else if t == 12 {
        seq!['N', 'G']
    } else if t == 13 {
        seq!['U', 'M']
    } else {
        seq!['R', 'Y']
    }
}

fn csa_type_of(t: u8) -> (r: (char, char))
    ensures
        seq![r.0, r.1] == csa_type_chars(t),
{
    if t == 1 {
        ('F', 'U')
    } else if t == 2 {
        ('K', 'Y')
    } else if t == 3 {
        ('K', 'E')
    } else if t == 4 {
        ('G', 'I')
    } else if t == 5 {
        ('K', 'A')
    } else if t == 6 {
        ('H', 'I')
    } else if t == 7 {
        ('K', 'I')
    } else if t == 8 {
        ('O', 'U')
    } else if t == 9 {
        ('T', 'O')
    } else if t == 10 {
        ('N', 'Y')
    } else if t == 11 {
        ('N', 'K')
    } else if t == 12 {
        ('N', 'G')
    } else if t == 13 {
        ('U', 'M')
    } else {
        ('R', 'Y')
    }
}

fn type_of_csa(a: char, b: char) -> (r: u8)
    ensures
        r == csa_type_of_chars(a, b),
{
    let mut t: u8 = 1;
    while t <= 14
        invariant
            1 <= t <= 15,
            forall|u: u8| 1 <= u < t ==> #[trigger] csa_type_chars(u) != seq![a, b],
        decreases 15 - t,
    {
        let (x, y) = csa_type_of(t);
        if x == a && y == b {
            assert(seq![x, y] == seq![a, b]);
            proof {
                lemma_csa_type_unique(t, a, b);
            }
            return t;
        }
        assert(csa_type_chars(t) != seq![a, b]) by {
            if csa_type_chars(t) == seq![a, b] {
                assert(csa_type_chars(t)[0] == a && csa_type_chars(t)[1] == b);
            }
        }
        t += 1;
    }
    0
}

/// The kind code whose CSA letters are `a`, `b`; 0 for none.
pub open spec fn csa_type_of_chars(a: char, b: char) -> u8 {
    if exists|t: u8| 1 <= t <= 14 && #[trigger] csa_type_chars(t) == seq![a, b] {
        choose|t: u8| 1 <= t <= 14 && #[trigger] csa_type_chars(t) == seq![a, b]
    } else {
        0
    }
}

/// Distinct kinds have distinct CSA letters.
proof fn lemma_csa_type_unique(t: u8, a: char, b: char)
    requires
        1 <= t <= 14,
        csa_type_chars(t) == seq![a, b],
    ensures
        csa_type_of_chars(a, b) == t,
{
    let u = csa_type_of_chars(a, b);
    assert(csa_type_chars(u) == seq![a, b]);
    assert(csa_type_chars(u)[0] == a && csa_type_chars(u)[1] == b);
    assert(csa_type_chars(t)[0] == a && csa_type_chars(t)[1] == b);
}

/// A CSA square: file digit then rank digit, both from 1.
pub open spec fn csa_square_chars(sq: int) -> Seq<char> {
    seq![((sq / 9) + 49) as char, ((sq % 9) + 49) as char]
}

pub open spec fn csa_digit_of(c: char) -> int {
    c as int - 49
}

pub open spec fn is_csa_digit(c: char) -> bool {
    '1' <= c && c <= '9'
}

/// The move word that a CSA text names on `p`, if it names one.
pub open spec fn csa_parse(p: PosModel, v: Seq<char>) -> Option<Move> {
    let t = csa_type_of_chars(v[4], v[5]);
    if v.len() < 6 || t == 0 || !is_csa_digit(v[2]) || !is_csa_digit(v[3]) {
        None
    } else {
        let to = 9 * csa_digit_of(v[2]) + csa_digit_of(v[3]);
        if v[0] == '0' && v[1] == '0' {
            if t > 7 {
                None
            } else {
                Some(Move(drop_code((t + 16 * (p.side as int)) as u8, to as u8)))
            }
        } else if !is_csa_digit(v[0]) || !is_csa_digit(v[1]) {
            None
        } else {
            let from = 9 * csa_digit_of(v[0]) + csa_digit_of(v[1]);
            let pc = p.board[from];
            let t0 = pc.type_code();
            if pc.0 == 0 || from == to {
                None
            } else if t0 == t {
                Some(Move(unpromote_code(from as u8, to as u8, pc.0)))
            } else if 1 <= t0 <= 6 && t0 + 8 == t {
                Some(Move(0x80 | unpromote_code(from as u8, to as u8, pc.0)))
            } else {
                None
            }
        }
    }
}

/// A pseudo-legal move reads back from its CSA text.
#[verifier::rlimit(50)]
pub proof fn lemma_csa_parse(p: PosModel, m: Move)
    requires
        p.wf(),
        pseudo_legal_spec(p, m, false),
    ensures
        csa_parse(p, csa_chars(p, m)) == Some(m),
{
    let v = csa_chars(p, m);
    let to = to_field(m.0) as int;
    if drop_bit(m.0) {
        let pd = dropped_field(m.0);
        let t = (pd % 16) as u8;
        lemma_csa_type_unique(t, v[4], v[5]);
        assert(pd == t + 16 * (p.side as int));
        lemma_drop_word(m.0);
    } else {
        let from = from_field(m.0) as int;
        let t0 = p.board[from].type_code();
        let t = if promote_bit(m.0) {
            (t0 + 8) as u8
        } else {
            t0
        };
        lemma_csa_type_unique(t, v[4], v[5]);
        lemma_board_word(m.0);
        let w = m.0;
        assert(w & 0x80 == (if w & 0x80 != 0 {
            0x80u32
        } else {
            0u32
        })) by (bit_vector);
        let a = (moved_field(m.0)) << 16;
        let b = (from as u32) << 9;
        let c = to as u32;
        assert(0x80u32 | (a | b | c) == a | b | 0x80u32 | c && a | b | c == a | b | 0u32 | c) by (bit_vector);
    }
}

/// The move in CSA notation: origin (`00` for a drop), destination, and the
/// kind of the piece after the move.
pub open spec fn csa_chars(p: PosModel, m: Move) -> Seq<char> {
    let to = to_field(m.0) as int;
    if drop_bit(m.0) {
        seq!['0', '0'] + csa_square_chars(to) + csa_type_chars((dropped_field(m.0) % 16) as u8)
    } else {
        let from = from_field(m.0) as int;
        let t = p.board[from].type_code();
        csa_square_chars(from) + csa_square_chars(to) + csa_type_chars(
            if promote_bit(m.0) {
                (t + 8) as u8
            } else {
                t
            },
        )
    }
}

fn csa_digit(c: char) -> (r: Option<u8>)
    ensures
        r matches Some(d) ==> d < 9 && (d + 49) as char == c && d as int == c as int - 49,
        r is None <==> !('1' <= c && c <= '9'),
{
    if '1' <= c && c <= '9' {
        Some(((c as u32) - 49) as u8)
    } else {
        None
    }
}

impl Move {
    /// Whether the move takes a piece; read before the move is played.
    pub fn is_capture(self, pos: &Position) -> (r: bool)
        requires
            pos.wf(),
            self.is_normal(),
        ensures
            r == (pos@.board[to_field(self.0) as int].0 != 0),
    {
        let to = self.to().0;
        pos.board[to as usize].0 != 0
    }

    /// Whether the move takes a piece or promotes a pawn.
    pub fn is_capture_or_pawn_promotion(self, pos: &Position) -> (r: bool)
        requires
            pos.wf(),
            self.is_normal(),
        ensures
            r == (pos@.board[to_field(self.0) as int].0 != 0 || (promote_bit(self.0) && !drop_bit(self.0)
                && crate::moves::moved_field(self.0) % 16 == 1)),
    {
        self.is_capture(pos) || self.is_pawn_promotion()
    }

    /// The move in CSA notation, read against the position it is played in.
    pub fn to_csa_string(self, pos: &Position) -> (r: String)
        requires
            pos.wf(),
            pseudo_legal_spec(pos@, self, false),
        ensures
            r@ == csa_chars(pos@, self),
    {
        let mut v: Vec<char> = Vec::new();
        let to = self.to().0;
        let t: u8;
        if self.is_drop() {
            v.push('0');
            v.push('0');
            t = self.piece_dropped().0 % 16;
        } else {
            let from = self.from().0;
            v.push(((from / 9) + 49) as char);
            v.push(((from % 9) + 49) as char);
            let t0 = pos.board[from as usize].0 % 16;
            t = if self.is_promotion() {
                t0 + 8
            } else {
                t0
            };
        }
        v.push(((to / 9) + 49) as char);
        v.push(((to % 9) + 49) as char);
        let (a, b) = csa_type_of(t);
        v.push(a);
        v.push(b);
        assert(v@ =~= csa_chars(pos@, self));
        crate::text::string_from_chars(&v)
    }

    /// Reads a CSA move (`7776FU`; characters past the sixth are ignored) on
    /// `pos`: the move it names if that move is pseudo-legal and legal there.
    #[verifier::rlimit(40)]
    pub fn new_from_csa_str(s: &str, pos: &Position) -> (r: Option<Move>)
        requires
            pos.wf(),
        ensures
            r == (match csa_parse(pos@, s@) {
                Some(m) => if m.wf() && pseudo_legal_spec(pos@, m, false) && legal_spec(pos@, m) {
                    Some(m)
                } else {
                    None
                },
                None => None,
            }),
            forall|m: Move|
                pseudo_legal_spec(pos@, m, false) && legal_spec(pos@, m) && s@.len() >= 6 && csa_chars(pos@, m)
                    == s@.subrange(0, 6) ==> r == Some(m),
    {
        proof {
            assert forall|m: Move|
                pseudo_legal_spec(pos@, m, false) && legal_spec(pos@, m) && s@.len() >= 6 && csa_chars(pos@, m)
                    == s@.subrange(0, 6) implies csa_parse(pos@, s@) == Some(m) by {
                lemma_csa_parse(pos@, m);
                let v = csa_chars(pos@, m);
                assert(v.len() == 6);
                assert forall|i: int| 0 <= i < 6 implies v[i] == s@[i] by {
                    assert(s@.subrange(0, 6)[i] == s@[i]);
                }
            }
        }
        let v = chars_of(s);
        if v.len() < 6 {
            return None;
        }
        let t = type_of_csa(v[4], v[5]);
        if t == 0 {
            return None;
        }
        let tf = match csa_digit(v[2]) {
            Some(d) => d,
            None => return None,
        };
        let tr = match csa_digit(v[3]) {
            Some(d) => d,
            None => return None,
        };
        let to = Square::new(tf, tr);
        let us = pos.side_to_move;
        let m: Move;
        if v[0] == '0' && v[1] == '0' {
            if t > 7 {
                return None;
            }
            m = Move::new_drop(Piece::new(us, PieceType::from_code(t)), to);
        } else {
            let ff = match csa_digit(v[0]) {
                Some(d) => d,
                None => return None,
            };
            let fr = match csa_digit(v[1]) {
                Some(d) => d,
                None => return None,
            };
            let from = Square::new(ff, fr);
            let pc = pos.board[from.0 as usize];
            if pc.0 == 0 || from == to {
                return None;
            }
            let t0 = pc.0 % 16;
            if t0 == t {
                m = Move::new_unpromote(from, to, pc);
            } else if 1 <= t0 && t0 <= 6 && t0 + 8 == t {
                m = Move::new_promote(from, to, pc);
            } else {
                return None;
            }
        }
        assert(csa_parse(pos@, v@) == Some(m));
        if !pos.pseudo_legal(m, false) || !pos.legal(m) {
            return None;
        }
        Some(m)
    }
}

impl Position {
    /// A move that mates at once, if there is one: drops first, by kind in
    /// the order gold, rook, lance, bishop, silver, knight, then board moves.
    /// `None` only when no legal move mates.
    #[verifier::rlimit(40)]
    pub fn mate_move_in_1ply(&self) -> (r: Option<Move>)
        requires
            self.wf(),
            self.game_ply < 0xffff_ffff,
        ensures
            r matches Some(m) ==> is_legal_move(self@, m) && mates(self@, m),
            r matches Some(m) ==> forall|m2: Move|
                is_legal_move(self@, m2) && mates(self@, m2) ==> class_rank(move_class(m)) <= class_rank(
                    #[trigger] move_class(m2),
                ),
            r is None ==> forall|m: Move| is_legal_move(self@, m) ==> !mates(self@, m),
    {
        let ghost p = self@;
        let mut list = MoveList::new();
        list.generate(self, 0, GenType::Legals);
        assert(list.moves().subrange(0, list.size as int) =~= list.moves());
        let order: [u8; 8] = [7, 6, 2, 5, 4, 3, 1, 0];
        let mut k: usize = 0;
        while k < 8
            invariant
                self.wf(),
                p == self@,
                list.wf(),
                self.game_ply < 0xffff_ffff,
                order@ == seq![7u8, 6, 2, 5, 4, 3, 1, 0],
                forall|i: int| 0 <= i < list.size ==> is_legal_move(p, #[trigger] list.moves()[i]),
                forall|m: Move| is_legal_move(p, m) ==> #[trigger] list.moves().contains(m),
                k <= 8,
                forall|i: int, j: int|
                    #![trigger list.moves()[i], order@[j]]
                    0 <= i < list.size && 0 <= j < k && move_class(list.moves()[i]) == order@[j]
                        ==> !mates(p, list.moves()[i]),
            decreases 8 - k,
        {
            let want = order[k];
            let mut i: usize = 0;
            while i < list.size
                invariant
                    self.wf(),
                    p == self@,
                    list.wf(),
                    self.game_ply < 0xffff_ffff,
                    order@ == seq![7u8, 6, 2, 5, 4, 3, 1, 0],
                    k < 8,
                    want == order@[k as int],
                    forall|i: int| 0 <= i < list.size ==> is_legal_move(p, #[trigger] list.moves()[i]),
                    forall|m: Move| is_legal_move(p, m) ==> #[trigger] list.moves().contains(m),
                    i <= list.size,
                    forall|i2: int, j: int|
                        #![trigger list.moves()[i2], order@[j]]
                        0 <= i2 < list.size && 0 <= j < k && move_class(list.moves()[i2]) == order@[j]
                            ==> !mates(p, list.moves()[i2]),
                    forall|i2: int|
                        0 <= i2 < i && move_class(#[trigger] list.moves()[i2]) == want ==> !mates(
                            p,
                            list.moves()[i2],
                        ),
                decreases list.size - i,
            {
                let m = list.ext_moves[i].mv;
                assert(m == list.moves()[i as int]);
                let kind = if m.is_drop() {
                    m.piece_dropped().0 % 16
                } else {
                    0
                };
                assert(kind == move_class(m));
                if kind == want {
                    if self.gives_check(m) {
                        let mut q = Position::new_from_position(self);
                        q.do_move(m, true);
                        let mut replies = MoveList::new();
                        replies.generate(&q, 0, GenType::Legals);
                        if replies.size == 0 {
                            proof {
                                assert forall|m2: Move| !is_legal_move(do_spec(p, m), m2) by {
                                    if is_legal_move(do_spec(p, m), m2) {
                                        assert(replies.moves().subrange(0, 0).contains(m2));
                                    }
                                }
                                assert(class_rank(move_class(m)) == k);
                                assert forall|m2: Move|
                                    is_legal_move(p, m2) && mates(p, m2) implies class_rank(move_class(m))
                                    <= class_rank(#[trigger] move_class(m2)) by {
                                    assert(list.moves().contains(m2));
                                    let i2 = choose|i2: int| 0 <= i2 < list.moves().len() && list.moves()[i2] == m2;
                                    let c2 = move_class(m2);
                                    lemma_class_rank(c2);
                                    if class_rank(c2) < k {
                                        assert(order@[class_rank(c2)] == c2);
                                    }
                                }
                            }
                            return Some(m);
                        }
                        proof {
                            assert(is_legal_move(do_spec(p, m), replies.moves()[0]));
                        }
                    }
                }
                i += 1;
            }
            k += 1;
        }
        proof {
            assert forall|m: Move| is_legal_move(p, m) implies !mates(p, m) by {
                assert(list.moves().contains(m));
                let i = choose|i: int| 0 <= i < list.moves().len() && list.moves()[i] == m;
                let c = move_class(m);
                if c == 7 {
                    assert(order@[0] == c);
                } else if c == 6 {
                    assert(order@[1] == c);
                } else if c == 2 {
                    assert(order@[2] == c);
                } else if c == 5 {
                    assert(order@[3] == c);
                } else if c == 4 {
                    assert(order@[4] == c);
                } else if c == 3 {
                    assert(order@[5] == c);
                } else if c == 1 {
                    assert(order@[6] == c);
                } else {
                    assert(c == 0);
                    assert(order@[7] == c);
                }
            }
        }
        None
    }
}

} // verus!
