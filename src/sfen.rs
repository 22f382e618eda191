use vstd::prelude::*;
use crate::attack::board_ok;
use crate::hand::{Hand, hand_max};
use crate::position::{
    PosModel, Position, StateInfo, board_count, compute_board_key, compute_hand_key, count_family,
    king_attacked, total_max,
};
use crate::text::{chars_of, string_from_chars};
use crate::types::{
    Color, Piece, PieceType, letter_type, letter_type_of, lower_of, to_lower, type_letter,
    type_letter_of,
};
use crate::zobrist::Zobrist;

verus! {

/// Why a SFEN text was refused.
#[derive(Debug)]
pub enum SfenError {
    InvalidNumberOfSections { sections: usize },
    InvalidNumberOfRanks { ranks: usize },
    InvalidNumberOfFiles { files: usize },
    InvalidNumberOfEmptySquares { empty_squares: i64 },
    InvalidPieceCharactors { chars: String },
    InvalidSideToMoveCharactors { chars: String },
    InvalidNumberOfHandPieces { number: i64 },
    InvalidHandPieceCharactors { chars: String },
    SameHandPieceTwice { pt: PieceType },
    InvalidNumberOfPawns { number: i64 },
    InvalidNumberOfLances { number: i64 },
    InvalidNumberOfKnights { number: i64 },
    InvalidNumberOfSilvers { number: i64 },
    InvalidNumberOfGolds { number: i64 },
    InvalidNumberOfBishops { number: i64 },
    InvalidNumberOfRooks { number: i64 },
    KingIsNothing { c: Color },
    KingIsNotUnique { c: Color },
    InvalidGamePly { chars: String },
}

/// A refusal as the contracts speak of it: the text fields as characters,
/// the count errors by family code.
pub enum SfenErr {
    Sections(int),
    Ranks(int),
    Files(int),
    EmptySquares(int),
    PieceChars(Seq<char>),
    SideChars(Seq<char>),
    HandPieces(int),
    HandChars(Seq<char>),
    Twice(u8),
    Count(u8, int),
    KingNothing(Color),
    KingNotUnique(Color),
    GamePly(Seq<char>),
}

impl View for SfenError {
    type V = SfenErr;

    open spec fn view(&self) -> SfenErr {
        match self {
            SfenError::InvalidNumberOfSections { sections } => SfenErr::Sections(*sections as int),
            SfenError::InvalidNumberOfRanks { ranks } => SfenErr::Ranks(*ranks as int),
            SfenError::InvalidNumberOfFiles { files } => SfenErr::Files(*files as int),
            SfenError::InvalidNumberOfEmptySquares { empty_squares } => SfenErr::EmptySquares(
                *empty_squares as int,
            ),
            SfenError::InvalidPieceCharactors { chars } => SfenErr::PieceChars(chars@),
            SfenError::InvalidSideToMoveCharactors { chars } => SfenErr::SideChars(chars@),
            SfenError::InvalidNumberOfHandPieces { number } => SfenErr::HandPieces(*number as int),
            SfenError::InvalidHandPieceCharactors { chars } => SfenErr::HandChars(chars@),
            SfenError::SameHandPieceTwice { pt } => SfenErr::Twice(*pt as u8),
            SfenError::InvalidNumberOfPawns { number } => SfenErr::Count(1, *number as int),
            SfenError::InvalidNumberOfLances { number } => SfenErr::Count(2, *number as int),
            SfenError::InvalidNumberOfKnights { number } => SfenErr::Count(3, *number as int),
            SfenError::InvalidNumberOfSilvers { number } => SfenErr::Count(4, *number as int),
            SfenError::InvalidNumberOfGolds { number } => SfenErr::Count(7, *number as int),
            SfenError::InvalidNumberOfBishops { number } => SfenErr::Count(5, *number as int),
            SfenError::InvalidNumberOfRooks { number } => SfenErr::Count(6, *number as int),
            SfenError::KingIsNothing { c } => SfenErr::KingNothing(*c),
            SfenError::KingIsNotUnique { c } => SfenErr::KingNotUnique(*c),
            SfenError::InvalidGamePly { chars } => SfenErr::GamePly(chars@),
        }
    }
}

pub open spec fn is_dig(c: char) -> bool {
    '0' <= c && c <= '9'
}

pub open spec fn is_alpha(c: char) -> bool {
    ('a' <= c && c <= 'z') || ('A' <= c && c <= 'Z')
}

/// Splitting at `sep`, character by character: the pieces finished so far
/// and the piece being read.
pub open spec fn split_state(v: Seq<char>, sep: char, skip: bool) -> (Seq<Seq<char>>, Seq<char>)
    decreases v.len(),
{
    if v.len() == 0 {
        (Seq::empty(), Seq::empty())
    } else {
        let st = split_state(v.drop_last(), sep, skip);
        if v.last() == sep {
            (if !skip || st.1.len() > 0 {
                st.0.push(st.1)
            } else {
                st.0
            }, Seq::empty())
        } else {
            (st.0, st.1.push(v.last()))
        }
    }
}

/// The pieces of `v` between the separators `sep`; empty pieces are left
/// out when `skip`.
pub open spec fn split_spec(v: Seq<char>, sep: char, skip: bool) -> Seq<Seq<char>> {
    let st = split_state(v, sep, skip);
    if !skip || st.1.len() > 0 {
        st.0.push(st.1)
    } else {
        st.0
    }
}

/// Splits `v` at each `sep`; empty pieces are dropped when `skip_empty`.
fn split_on(v: &Vec<char>, sep: char, skip_empty: bool) -> (r: Vec<Vec<char>>)
    ensures
        r@.map_values(|w: Vec<char>| w@) == split_spec(v@, sep, skip_empty),
{
    let mut out: Vec<Vec<char>> = Vec::new();
    let mut cur: Vec<char> = Vec::new();
    let mut i: usize = 0;
    while i < v.len()
        invariant
            i <= v@.len(),
            (out@.map_values(|w: Vec<char>| w@), cur@) == split_state(v@.subrange(0, i as int), sep, skip_empty),
        decreases v@.len() - i,
    {
        let c = v[i];
        assert(v@.subrange(0, i + 1).drop_last() =~= v@.subrange(0, i as int));
        let ghost o = out@;
        if c == sep {
            if !skip_empty || cur.len() > 0 {
                out.push(cur);
                assert(out@.map_values(|w: Vec<char>| w@) =~= o.map_values(|w: Vec<char>| w@).push(
                    split_state(v@.subrange(0, i as int), sep, skip_empty).1,
                ));
            }
            cur = Vec::new();
        } else {
            cur.push(c);
        }
        i += 1;
    }
    assert(v@.subrange(0, i as int) =~= v@);
    let ghost o = out@;
    if !skip_empty || cur.len() > 0 {
        out.push(cur);
        assert(out@.map_values(|w: Vec<char>| w@) =~= o.map_values(|w: Vec<char>| w@).push(
            split_state(v@, sep, skip_empty).1,
        ));
    }
    out
}

/// The run of digits from `j` on, read onto `n`, capped at 1000: the value
/// and the index after the run.
pub open spec fn number_from(v: Seq<char>, j: int, n: int) -> (int, int)
    decreases v.len() - j,
{
    if 0 <= j < v.len() && is_dig(v[j]) {
        let m = n * 10 + (v[j] as int - 48);
        number_from(v, j + 1, if m > 1000 {
            1000
        } else {
            m
        })
    } else {
        (n, j)
    }
}

/// The number that starts at `i` and the index after it (at least `i + 1`).
pub open spec fn read_number_spec(v: Seq<char>, i: int) -> (int, int) {
    let r = number_from(v, i, 0);
    (r.0, if r.1 == i {
        i + 1
    } else {
        r.1
    })
}

/// Reads the run of decimal digits that starts at `i`; returns its value,
/// capped at 1000, and the index after it.
fn read_number(v: &Vec<char>, i: usize) -> (r: (i64, usize))
    requires
        i < v@.len(),
    ensures
        i < r.1 <= v@.len(),
        0 <= r.0 <= 1000,
        (r.0 as int, r.1 as int) == read_number_spec(v@, i as int),
{
    let mut n: i64 = 0;
    let mut j: usize = i;
    while j < v.len() && '0' <= v[j] && v[j] <= '9'
        invariant
            i <= j <= v@.len(),
            0 <= n <= 1000,
            number_from(v@, i as int, 0) == number_from(v@, j as int, n as int),
            j == i ==> n == 0,
        decreases v@.len() - j,
    {
        let d = ((v[j] as u32) - 48) as i64;
        n = if n * 10 + d > 1000 {
            1000
        } else {
            n * 10 + d
        };
        j += 1;
    }
    if j == i {
        j = i + 1;
    }
    (n, j)
}

fn text_of(v: &Vec<char>) -> (r: String)
    ensures
        r@ == v@,
{
    string_from_chars(v)
}

/// The piece that a SFEN letter stands for (upper case Black, lower case
/// White), promoted when `promoted`; `None` for any other letter.
pub open spec fn letter_piece(c: char, promoted: bool) -> Option<Piece> {
    let upper = 'A' <= c && c <= 'Z';
    let lower = 'a' <= c && c <= 'z';
    let u = if upper {
        c
    } else {
        (((c as u8) - 32) as u8) as char
    };
    let t = letter_type(u);
    if !upper && !lower {
        None
    } else if t == 0 {
        None
    } else if promoted && !(1 <= t <= 6) {
        None
    } else {
        let code = if promoted {
            (t + 8) as u8
        } else {
            t
        };
        Some(Piece(if upper {
            code
        } else {
            (code + 16) as u8
        }))
    }
}

fn piece_from_letter(c: char, promoted: bool) -> (r: Option<Piece>)
    ensures
        r == letter_piece(c, promoted),
        r matches Some(p) ==> p.wf() && (promoted ==> 9 <= p.type_code() <= 14) && (!promoted ==> 1
            <= p.type_code() <= 8),
{
    let upper = 'A' <= c && c <= 'Z';
    let lower = 'a' <= c && c <= 'z';
    if !upper && !lower {
        return None;
    }
    let u = if upper {
        c
    } else {
        ((c as u8) - 32) as char
    };
    let t = letter_type_of(u);
    if t == 0 {
        return None;
    }
    if promoted && !(1 <= t && t <= 6) {
        return None;
    }
    let code = if promoted {
        t + 8
    } else {
        t
    };
    if upper {
        Some(Piece(code))
    } else {
        Some(Piece(code + 16))
    }
}

/// No square holds `pc`.
pub open spec fn no_piece(b: Seq<Piece>, pc: Piece) -> bool {
    forall|s: int| 0 <= s < 81 ==> b[s] != pc
}

/// Two squares hold `pc`.
pub open spec fn two_pieces(b: Seq<Piece>, pc: Piece) -> bool {
    exists|s1: int, s2: int| 0 <= s1 < s2 < 81 && b[s1] == pc && b[s2] == pc
}

/// Finds the squares holding `pc`: how many there are (0, 1, or 2 for
/// "more than one") and, when there is one, where.
fn find_piece(board: &Vec<Piece>, pc: Piece) -> (r: (u32, u8))
    requires
        board@.len() == 81,
    ensures
        r.0 == 0 <==> no_piece(board@, pc),
        r.0 == 2 <==> two_pieces(board@, pc),
        r.0 == 1 ==> r.1 < 81 && board@[r.1 as int] == pc && forall|s: int|
            0 <= s < 81 && board@[s] == pc ==> s == r.1,
        r.0 <= 2,
{
    let mut n: u32 = 0;
    let mut at: u8 = 0;
    let mut s: u8 = 0;
    while s < 81
        invariant
            board@.len() == 81,
            s <= 81,
            n <= 2,
            n == 0 ==> forall|j: int| 0 <= j < s ==> board@[j] != pc,
            n == 1 ==> at < s && board@[at as int] == pc && forall|j: int|
                0 <= j < s && board@[j] == pc ==> j == at,
            n == 2 ==> two_pieces(board@, pc),
        decreases 81 - s,
    {
        if board[s as usize] == pc {
            if n == 0 {
                at = s;
                n = 1;
            } else if n == 1 {
                assert(0 <= at < s < 81 && board@[at as int] == pc && board@[s as int] == pc);
                n = 2;
            }
        }
        s += 1;
    }
    if n == 1 {
        assert(!two_pieces(board@, pc));
    }
    (n, at)
}

fn count_error(fam: u8, number: i64) -> (r: SfenError)
    ensures
        r@ == SfenErr::Count(if fam == 1 || fam == 2 || fam == 3 || fam == 4 || fam == 7 || fam == 5 {
            fam
        } else {
            6
        }, number as int),
{
    if fam == 1 {
        SfenError::InvalidNumberOfPawns { number }
    } else if fam == 2 {
        SfenError::InvalidNumberOfLances { number }
    } else if fam == 3 {
        SfenError::InvalidNumberOfKnights { number }
    } else if fam == 4 {
        SfenError::InvalidNumberOfSilvers { number }
    } else if fam == 7 {
        SfenError::InvalidNumberOfGolds { number }
    } else if fam == 5 {
        SfenError::InvalidNumberOfBishops { number }
    } else {
        SfenError::InvalidNumberOfRooks { number }
    }
}

fn max_of(fam: u8) -> (r: i64)
    ensures
        r == hand_max(fam),
{
    if fam == 1 {
        18
    } else if fam == 5 || fam == 6 {
        2
    } else {
        4
    }
}

/// Reading rank `r` of the board from character `i` on, at file index `f`
/// (0 the leftmost file), onto board `b`: digits skip that many files,
/// letters (after `+` for a promoted piece) place pieces; other characters
/// are passed over.
pub open spec fn rank_from(rank: Seq<char>, i: int, f: int, b: Seq<Piece>, r: int) -> Result<Seq<Piece>, SfenErr>
    decreases rank.len() - i,
{
    if i < 0 || i >= rank.len() {
        Ok(b)
    } else {
        let c = rank[i];
        let promoted = c == '+' && i + 1 < rank.len() && is_alpha(rank[i + 1]);
        if !promoted && !is_alpha(c) && !is_dig(c) {
            rank_from(rank, i + 1, f, b, r)
        } else if f >= 9 {
            Err(SfenErr::Files(f))
        } else if is_dig(c) {
            let nj = read_number_spec(rank, i);
            let d = nj.0;
            let j = nj.1;
            if d <= 0 || 9 < d || 9 < f + d {
                Err(SfenErr::EmptySquares(d))
            } else if j <= i || j > rank.len() {
                Ok(b)
            } else {
                rank_from(rank, j, f + d, b, r)
            }
        } else {
            let letter = if promoted {
                rank[i + 1]
            } else {
                c
            };
            match letter_piece(letter, promoted) {
                Some(pc) => rank_from(
                    rank,
                    if promoted {
                        i + 2
                    } else {
                        i + 1
                    },
                    f + 1,
                    b.update(9 * (8 - f) + r, pc),
                    r,
                ),
                None => Err(SfenErr::PieceChars(if promoted {
                    seq!['+', letter]
                } else {
                    seq![letter]
                })),
            }
        }
    }
}

/// Reading ranks `r` and below onto board `b`.
pub open spec fn ranks_from(ranks: Seq<Seq<char>>, r: int, b: Seq<Piece>) -> Result<Seq<Piece>, SfenErr>
    decreases 9 - r,
{
    if r < 0 || r >= 9 || r >= ranks.len() {
        Ok(b)
    } else {
        match rank_from(ranks[r], 0, 0, b, r) {
            Ok(b2) => ranks_from(ranks, r + 1, b2),
            Err(e) => Err(e),
        }
    }
}

pub open spec fn empty_board() -> Seq<Piece> {
    Seq::new(81, |i: int| Piece(0))
}

/// The board that the board field of a SFEN text names: nine ranks
/// separated by `/`, top rank first.
pub open spec fn board_spec(s: Seq<char>) -> Result<Seq<Piece>, SfenErr> {
    let ranks = split_spec(s, '/', false);
    if ranks.len() != 9 {
        Err(SfenErr::Ranks(ranks.len() as int))
    } else {
        ranks_from(ranks, 0, empty_board())
    }
}

/// Parses the board field of a SFEN text.
fn parse_board(s: &Vec<char>) -> (r: Result<Vec<Piece>, SfenError>)
    ensures
        match board_spec(s@) {
            Ok(b) => r matches Ok(v) && v@ == b,
            Err(e) => r matches Err(x) && x@ == e,
        },
        r matches Ok(b) ==> board_ok(b@),
{
    let ranks = split_on(s, '/', false);
    let ghost rs = ranks@.map_values(|w: Vec<char>| w@);
    if ranks.len() != 9 {
        return Err(SfenError::InvalidNumberOfRanks { ranks: ranks.len() });
    }
    let mut board: Vec<Piece> = Vec::new();
    while board.len() < 81
        invariant
            board@.len() <= 81,
            forall|j: int| 0 <= j < board@.len() ==> (#[trigger] board@[j]) == Piece(0),
        decreases 81 - board@.len(),
    {
        board.push(Piece(0));
    }
    assert(board@ =~= empty_board());
    let mut r: usize = 0;
    while r < 9
        invariant
            ranks@.len() == 9,
            rs == ranks@.map_values(|w: Vec<char>| w@),
            rs == split_spec(s@, '/', false),
            board_ok(board@),
            r <= 9,
            board_spec(s@) == ranks_from(rs, r as int, board@),
        decreases 9 - r,
    {
        let rank = &ranks[r];
        assert(rank@ == rs[r as int]);
        let mut file_idx: usize = 0;
        let mut i: usize = 0;
        while i < rank.len()
            invariant
                board_ok(board@),
                i <= rank@.len(),
                r < 9,
                file_idx <= 9,
                rank@ == rs[r as int],
                board_spec(s@) == (match rank_from(rank@, i as int, file_idx as int, board@, r as int) {
                    Ok(b2) => ranks_from(rs, r + 1, b2),
                    Err(e) => Err(e),
                }),
            decreases rank@.len() - i,
        {
            let c = rank[i];
            let promoted = c == '+' && i + 1 < rank.len() && (('a' <= rank[i + 1] && rank[i + 1] <= 'z')
                || ('A' <= rank[i + 1] && rank[i + 1] <= 'Z'));
            let alpha = ('a' <= c && c <= 'z') || ('A' <= c && c <= 'Z');
            let digit = '0' <= c && c <= '9';
            if !promoted && !alpha && !digit {
                i += 1;
            } else {
                if file_idx >= 9 {
                    return Err(SfenError::InvalidNumberOfFiles { files: file_idx });
                }
                if digit {
                    let (d, j) = read_number(rank, i);
                    if d <= 0 || 9 < d || 9 < (file_idx as i64) + d {
                        return Err(SfenError::InvalidNumberOfEmptySquares { empty_squares: d });
                    }
                    file_idx += d as usize;
                    i = j;
                } else {
                    let letter = if promoted {
                        rank[i + 1]
                    } else {
                        c
                    };
                    match piece_from_letter(letter, promoted) {
                        Some(pc) => {
                            let sq = 9 * (8 - file_idx) + r;
                            board.set(sq, pc);
                            file_idx += 1;
                        },
                        None => {
                            let mut t: Vec<char> = Vec::new();
                            if promoted {
                                t.push('+');
                            }
                            t.push(letter);
                            assert(t@ =~= (if promoted {
                                seq!['+', letter]
                            } else {
                                seq![letter]
                            }));
                            return Err(SfenError::InvalidPieceCharactors { chars: text_of(&t) });
                        },
                    }
                    i = if promoted {
                        i + 2
                    } else {
                        i + 1
                    };
                }
            }
        }
        r += 1;
    }
    Ok(board)
}

/// The hand `h` with `n` more pieces of kind `t`.
pub open spec fn add_n(h: Hand, t: u8, n: int) -> Hand
    decreases n,
{
    if n <= 0 {
        h
    } else {
        add_n(h, t, n - 1).plus(t)
    }
}

/// Reading the hands field from character `i` on, with hands `hb`, `hw`
/// so far and the count `hand_num` that applies to the next letter.
pub open spec fn hands_from(s: Seq<char>, i: int, hb: Hand, hw: Hand, hand_num: int) -> Result<(Hand, Hand), SfenErr>
    decreases s.len() - i,
{
    if i < 0 || i >= s.len() {
        if hand_num != 1 {
            Err(SfenErr::HandChars(Seq::empty()))
        } else {
            Ok((hb, hw))
        }
    } else {
        let c = s[i];
        if is_dig(c) {
            let nj = read_number_spec(s, i);
            if nj.0 <= 0 {
                Err(SfenErr::HandPieces(nj.0))
            } else if nj.1 <= i || nj.1 > s.len() {
                Ok((hb, hw))
            } else {
                hands_from(s, nj.1, hb, hw, nj.0)
            }
        } else if is_alpha(c) {
            let t = match letter_piece(c, false) {
                Some(p) => p.type_code(),
                None => 0u8,
            };
            let black = 'A' <= c && c <= 'Z';
            if t == 0 || t == 8 {
                Err(SfenErr::HandChars(seq![c]))
            } else if hand_num > hand_max(t) {
                Err(SfenErr::Count(t, hand_num))
            } else if (black && hb.count(t) > 0) || (!black && hw.count(t) > 0) {
                Err(SfenErr::Twice(t))
            } else {
                hands_from(
                    s,
                    i + 1,
                    if black {
                        add_n(hb, t, hand_num)
                    } else {
                        hb
                    },
                    if black {
                        hw
                    } else {
                        add_n(hw, t, hand_num)
                    },
                    1,
                )
            }
        } else {
            hands_from(s, i + 1, hb, hw, hand_num)
        }
    }
}

/// The hands that the hands field names: `-`, or counts and letters (upper
/// case Black, lower case White).
pub open spec fn hands_spec(s: Seq<char>) -> Result<(Hand, Hand), SfenErr> {
    if s.len() == 1 && s[0] == '-' {
        Ok((Hand(0), Hand(0)))
    } else {
        hands_from(s, 0, Hand(0), Hand(0), 1)
    }
}

/// Parses the hands field of a SFEN text.
fn parse_hands(s: &Vec<char>) -> (r: Result<(Hand, Hand), SfenError>)
    ensures
        match hands_spec(s@) {
            Ok(h) => r matches Ok(x) && x == h,
            Err(e) => r matches Err(x) && x@ == e,
        },
        r matches Ok(h) ==> h.0.wf() && h.1.wf(),
{
    let mut hb = Hand::empty();
    let mut hw = Hand::empty();
    if s.len() == 1 && s[0] == '-' {
        return Ok((hb, hw));
    }
    let mut hand_num: i64 = 1;
    let mut i: usize = 0;
    while i < s.len()
        invariant
            hb.wf(),
            hw.wf(),
            i <= s@.len(),
            1 <= hand_num <= 1000,
            hands_spec(s@) == hands_from(s@, i as int, hb, hw, hand_num as int),
        decreases s@.len() - i,
    {
        let c = s[i];
        if '0' <= c && c <= '9' {
            let (n, j) = read_number(s, i);
            if n <= 0 {
                return Err(SfenError::InvalidNumberOfHandPieces { number: n });
            }
            hand_num = n;
            i = j;
        } else if ('a' <= c && c <= 'z') || ('A' <= c && c <= 'Z') {
            let pc = piece_from_letter(c, false);
            let t = match pc {
                Some(p) => p.0 % 16,
                None => 0,
            };
            if t == 0 || t == 8 {
                let mut v: Vec<char> = Vec::new();
                v.push(c);
                assert(v@ =~= seq![c]);
                return Err(SfenError::InvalidHandPieceCharactors { chars: text_of(&v) });
            }
            let black = 'A' <= c && c <= 'Z';
            if hand_num > max_of(t) {
                return Err(count_error(t, hand_num));
            }
            let pt = PieceType::from_code(t);
            let held = if black {
                hb.exist(pt)
            } else {
                hw.exist(pt)
            };
            if held {
                return Err(SfenError::SameHandPieceTwice { pt });
            }
            let ghost hb0 = hb;
            let ghost hw0 = hw;
            let mut k: i64 = 0;
            while k < hand_num
                invariant
                    hb.wf(),
                    hw.wf(),
                    0 <= k <= hand_num,
                    hand_num <= hand_max(t),
                    1 <= t <= 7,
                    pt as u8 == t,
                    black ==> hb.count(t) == k && hb == add_n(hb0, t, k as int) && hw == hw0,
                    !black ==> hw.count(t) == k && hw == add_n(hw0, t, k as int) && hb == hb0,
                decreases hand_num - k,
            {
                if black {
                    hb.plus_one(pt);
                } else {
                    hw.plus_one(pt);
                }
                k += 1;
            }
            hand_num = 1;
            i += 1;
        } else {
            i += 1;
        }
    }
    if hand_num != 1 {
        let e = SfenError::InvalidHandPieceCharactors { chars: String::new() };
        assert(e@ == SfenErr::HandChars(Seq::empty()));
        return Err(e);
    }
    Ok((hb, hw))
}

/// The decimal digits from `i` on, read onto `n`; `None` at a non-digit or
/// above 2^31 - 1, and for a result below 1.
pub open spec fn ply_from(s: Seq<char>, i: int, n: int) -> Option<int>
    decreases s.len() - i,
{
    if i < 0 || i >= s.len() {
        if n < 1 {
            None
        } else {
            Some(n)
        }
    } else if !is_dig(s[i]) {
        None
    } else {
        let m = n * 10 + (s[i] as int - 48);
        if m > 0x7fff_ffff {
            None
        } else {
            ply_from(s, i + 1, m)
        }
    }
}

/// The ply that the ply field names: a positive decimal number below 2^31,
/// with an optional leading `+`.
pub open spec fn ply_spec(s: Seq<char>) -> Option<int> {
    let i = if s.len() > 0 && s[0] == '+' {
        1int
    } else {
        0int
    };
    if i >= s.len() {
        None
    } else {
        ply_from(s, i, 0)
    }
}

/// Parses a positive decimal ply.
fn parse_ply(s: &Vec<char>) -> (r: Option<u32>)
    ensures
        r matches Some(n) ==> 1 <= n <= 0x7fff_ffff,
        match ply_spec(s@) {
            Some(n) => r matches Some(x) && x as int == n,
            None => r is None,
        },
{
    let mut i: usize = 0;
    if s.len() > 0 && s[0] == '+' {
        i = 1;
    }
    if i >= s.len() {
        return None;
    }
    let mut n: u64 = 0;
    while i < s.len()
        invariant
            n <= 0x7fff_ffff,
            i <= s@.len(),
            ply_spec(s@) == ply_from(s@, i as int, n as int),
        decreases s@.len() - i,
    {
        let c = s[i];
        if !('0' <= c && c <= '9') {
            return None;
        }
        n = n * 10 + ((c as u32) - 48) as u64;
        if n > 0x7fff_ffff {
            return None;
        }
        i += 1;
    }
    if n < 1 {
        None
    } else {
        Some(n as u32)
    }
}

/// The families in the order their totals are checked.
pub open spec fn fam_order(k: int) -> u8 {
    if k == 0 {
        1
    } else if k == 1 {
        2
    } else if k == 2 {
        3
    } else if k == 3 {
        4
    } else if k == 4 {
        7
    } else if k == 5 {
        5
    } else {
        6
    }
}

/// The first family, from the `k`-th in `fam_order` on, with more pieces on
/// the board and in hand than the game has, and that number.
pub open spec fn count_check(b: Seq<Piece>, hb: Hand, hw: Hand, k: int) -> Option<(u8, int)>
    decreases 7 - k,
{
    if k < 0 || k >= 7 {
        None
    } else {
        let fam = fam_order(k);
        let number = board_count(b, fam, 81) + hb.count(fam) + hw.count(fam);
        if number > hand_max(fam) {
            Some((fam, number as int))
        } else {
            count_check(b, hb, hw, k + 1)
        }
    }
}

/// What a SFEN text names.
pub struct SfenModel {
    pub board: Seq<Piece>,
    pub side: Color,
    pub hand_black: Hand,
    pub hand_white: Hand,
    pub ply: int,
}

/// The reading of a SFEN text `<board> <side> <hands> <ply>` (fields
/// separated by spaces; more fields are ignored): the position it names, or
/// the first refusal, checked in this order: number of fields, board,
/// Black's king, White's king, side, hands, ply, and the totals of each family.
pub open spec fn sfen_spec(s: Seq<char>) -> Result<SfenModel, SfenErr> {
    let ws = split_spec(s, ' ', true);
    if ws.len() < 4 {
        Err(SfenErr::Sections(ws.len() as int))
    } else {
        match board_spec(ws[0]) {
            Err(e) => Err(e),
            Ok(b) => if no_piece(b, Piece(8)) {
                Err(SfenErr::KingNothing(Color::Black))
            } else if two_pieces(b, Piece(8)) {
                Err(SfenErr::KingNotUnique(Color::Black))
            } else if no_piece(b, Piece(24)) {
                Err(SfenErr::KingNothing(Color::White))
            } else if two_pieces(b, Piece(24)) {
                Err(SfenErr::KingNotUnique(Color::White))
            } else if ws[1] != seq!['b'] && ws[1] != seq!['w'] {
                Err(SfenErr::SideChars(ws[1]))
            } else {
                match hands_spec(ws[2]) {
                    Err(e) => Err(e),
                    Ok(h) => match ply_spec(ws[3]) {
                        None => Err(SfenErr::GamePly(ws[3])),
                        Some(ply) => match count_check(b, h.0, h.1, 0) {
                            Some(x) => Err(SfenErr::Count(x.0, x.1)),
                            None => Ok(
                                SfenModel {
                                    board: b,
                                    side: if ws[1] == seq!['b'] {
                                        Color::Black
                                    } else {
                                        Color::White
                                    },
                                    hand_black: h.0,
                                    hand_white: h.1,
                                    ply,
                                },
                            ),
                        },
                    },
                }
            },
        }
    }
}

/// The digit of a number below ten.
pub open spec fn digit_of(n: int) -> char {
    (n + 48) as char
}

/// The decimal digits of `n`.
pub open spec fn number_chars(n: nat) -> Seq<char>
    decreases n,
{
    if n < 10 {
        seq![digit_of(n as int)]
    } else {
        number_chars(n / 10) + seq![digit_of((n % 10) as int)]
    }
}

/// How SFEN writes a piece: its letter, lower case for White, after `+` when
/// promoted.
pub open spec fn piece_chars(p: Piece) -> Seq<char> {
    let t = p.type_code();
    let base = if t >= 9 {
        (t - 8) as u8
    } else {
        t
    };
    let l = type_letter(base);
    let l2 = if p.color() == Color::White {
        to_lower(l)
    } else {
        l
    };
    if t >= 9 {
        seq!['+', l2]
    } else {
        seq![l2]
    }
}

pub open spec fn run_chars(empties: int) -> Seq<char> {
    if empties > 0 {
        seq![digit_of(empties)]
    } else {
        Seq::empty()
    }
}

/// Rank `r` from the `f`-th square from the left on, after `empties` empty
/// squares not yet written.
pub open spec fn rank_chars(b: Seq<Piece>, r: int, f: int, empties: int) -> Seq<char>
    decreases 9 - f,
{
    if f >= 9 {
        run_chars(empties)
    } else {
        let p = b[9 * (8 - f) + r];
        if p.0 == 0 {
            rank_chars(b, r, f + 1, empties + 1)
        } else {
            run_chars(empties) + piece_chars(p) + rank_chars(b, r, f + 1, 0)
        }
    }
}

/// Ranks `r` and below, separated by `/`.
pub open spec fn board_chars(b: Seq<Piece>, r: int) -> Seq<char>
    decreases 9 - r,
{
    if r >= 9 {
        Seq::empty()
    } else {
        rank_chars(b, r, 0, 0) + if r < 8 {
            seq!['/'] + board_chars(b, r + 1)
        } else {
            Seq::empty()
        }
    }
}

/// Order in which SFEN lists hand pieces: rook, bishop, gold, silver,
/// knight, lance, pawn.
pub open spec fn hand_order(i: int) -> u8 {
    if i == 0 {
        6
    } else if i == 1 {
        5
    } else if i == 2 {
        7
    } else if i == 3 {
        4
    } else if i == 4 {
        3
    } else if i == 5 {
        2
    } else {
        1
    }
}

/// The pieces of one hand from the `i`-th kind of `hand_order` on.
pub open spec fn hand_chars(h: Hand, c: Color, i: int) -> Seq<char>
    decreases 7 - i,
{
    if i >= 7 || i < 0 {
        Seq::empty()
    } else {
        let pt = hand_order(i);
        let n = h.count(pt);
        (if n >= 2 {
            number_chars(n)
        } else {
            Seq::empty()
        }) + (if n != 0 {
            piece_chars(Piece::of(c, PieceType::Pawn).with_type(pt))
        } else {
            Seq::empty()
        }) + hand_chars(h, c, i + 1)
    }
}

/// The SFEN text of a position.
pub open spec fn sfen_chars(p: PosModel) -> Seq<char> {
    board_chars(p.board, 0) + seq![' ', if p.side == Color::Black {
        'b'
    } else {
        'w'
    }, ' '] + (if p.hand_black.0 == 0 && p.hand_white.0 == 0 {
        seq!['-']
    } else {
        hand_chars(p.hand_black, Color::Black, 0) + hand_chars(p.hand_white, Color::White, 0)
    }) + seq![' '] + number_chars(p.game_ply as nat)
}

fn push_number(out: &mut Vec<char>, n: u32)
    ensures
        final(out)@ == old(out)@ + number_chars(n as nat),
    decreases n,
{
    if n >= 10 {
        push_number(out, n / 10);
    }
    out.push(((n % 10) as u8 + 48) as char);
}

fn push_piece(out: &mut Vec<char>, p: Piece)
    requires
        p.wf(),
    ensures
        final(out)@ == old(out)@ + piece_chars(p),
{
    let t = p.0 % 16;
    let base = if t >= 9 {
        t - 8
    } else {
        t
    };
    let l = type_letter_of(base);
    let l2 = if p.0 >= 16 {
        lower_of(l)
    } else {
        l
    };
    if t >= 9 {
        out.push('+');
    }
    out.push(l2);
    assert(final(out)@ =~= old(out)@ + piece_chars(p));
}

fn push_hand(out: &mut Vec<char>, h: Hand, color: Color)
    requires
        h.wf(),
    ensures
        final(out)@ == old(out)@ + hand_chars(h, color, 0),
{
    let ghost before = out@;
    let order: [u8; 7] = [6, 5, 7, 4, 3, 2, 1];
    let mut i: usize = 0;
    while i < 7
        invariant
            h.wf(),
            i <= 7,
            order@ == seq![6u8, 5, 7, 4, 3, 2, 1],
            out@ + hand_chars(h, color, i as int) == before + hand_chars(h, color, 0),
        decreases 7 - i,
    {
        let pt = PieceType::from_code(order[i]);
        assert(order[i as int] == hand_order(i as int));
        let n = h.num(pt);
        let ghost o = out@;
        if n >= 2 {
            push_number(out, n);
        }
        if n != 0 {
            let pc = Piece::new(color, pt);
            assert(pc == Piece::of(color, PieceType::Pawn).with_type(order[i as int]));
            push_piece(out, pc);
        }
        assert(o + hand_chars(h, color, i as int) =~= out@ + hand_chars(h, color, i + 1));
        i += 1;
    }
    assert(out@ =~= before + hand_chars(h, color, 0));
}

impl Position {
    /// The position as SFEN text.
    #[verifier::rlimit(40)]
    pub fn to_sfen(&self) -> (r: String)
        requires
            self.wf(),
        ensures
            r@ == sfen_chars(self@),
    {
        let ghost b = self.board@;
        let mut out: Vec<char> = Vec::new();
        let mut r: usize = 0;
        while r < 9
            invariant
                self.wf(),
                b == self.board@,
                r <= 9,
                out@ + board_chars(b, r as int) == board_chars(b, 0),
            decreases 9 - r,
        {
            let mut f: usize = 0;
            let mut empties: u8 = 0;
            let ghost start = out@;
            while f < 9
                invariant
                    self.wf(),
                    b == self.board@,
                    r < 9,
                    f <= 9,
                    empties <= f,
                    out@ + rank_chars(b, r as int, f as int, empties as int) == start + rank_chars(
                        b,
                        r as int,
                        0,
                        0,
                    ),
                decreases 9 - f,
            {
                let p = self.board[9 * (8 - f) + r];
                if p.0 == 0 {
                    empties += 1;
                } else {
                    let ghost o = out@;
                    if empties > 0 {
                        out.push((empties + 48) as char);
                    }
                    assert(out@ =~= o + run_chars(empties as int));
                    push_piece(&mut out, p);
                    assert(o + rank_chars(b, r as int, f as int, empties as int) =~= out@
                        + rank_chars(b, r as int, f as int + 1, 0));
                    empties = 0;
                }
                f += 1;
            }
            let ghost o = out@;
            if empties > 0 {
                out.push((empties + 48) as char);
            }
            assert(out@ =~= o + run_chars(empties as int));
            assert(out@ =~= start + rank_chars(b, r as int, 0, 0));
            let ghost o2 = out@;
            if r < 8 {
                out.push('/');
            }
            assert(start + board_chars(b, r as int) =~= out@ + board_chars(b, r as int + 1));
            r += 1;
        }
        assert(out@ =~= board_chars(b, 0));
        out.push(' ');
        out.push(match self.side_to_move {
            Color::Black => 'b',
            Color::White => 'w',
        });
        out.push(' ');
        let ghost head = out@;
        if self.hand_black.0 == 0 && self.hand_white.0 == 0 {
            out.push('-');
        } else {
            let mut c: u8 = 0;
            while c < 2
                invariant
                    self.wf(),
                    c <= 2,
                    out@ == head + (if c == 0 {
                        Seq::empty()
                    } else if c == 1 {
                        hand_chars(self.hand_black, Color::Black, 0)
                    } else {
                        hand_chars(self.hand_black, Color::Black, 0) + hand_chars(
                            self.hand_white,
                            Color::White,
                            0,
                        )
                    }),
                decreases 2 - c,
            {
                let color = Color::from_index(c);
                let h = self.hand(color);
                push_hand(&mut out, h, color);
                c += 1;
            }
        }
        out.push(' ');
        push_number(&mut out, self.game_ply);
        let ghost all = out@;
        assert(all =~= sfen_chars(self@));
        string_from_chars(&out)
    }

    /// A position from a SFEN text `<board> <side> <hands> <ply>`. On
    /// success the position is consistent and no move has been played on it.
    #[verifier::rlimit(40)]
    pub fn new_from_sfen(sfen: &str) -> (r: Result<Position, SfenError>)
        ensures
            match sfen_spec(sfen@) {
                Ok(m) => r matches Ok(p) && p@.board == m.board && p@.side == m.side && p@.hand_black
                    == m.hand_black && p@.hand_white == m.hand_white && p@.game_ply as int == m.ply,
                Err(e) => r matches Err(x) && x@ == e,
            },
            r matches Ok(p) ==> p.wf() && p.history@.len() == 0 && p.played@.len() == 0,
    {
        let text = chars_of(sfen);
        let mut ws = split_on(&text, ' ', true);
        let ghost wsv = ws@.map_values(|w: Vec<char>| w@);
        if ws.len() < 4 {
            return Err(SfenError::InvalidNumberOfSections { sections: ws.len() });
        }
        assert(ws[0]@ == wsv[0] && ws[1]@ == wsv[1] && ws[2]@ == wsv[2] && ws[3]@ == wsv[3]);
        let board = match parse_board(&ws[0]) {
            Ok(b) => b,
            Err(e) => return Err(e),
        };
        let (nb, kb) = find_piece(&board, Piece(8));
        if nb == 0 {
            return Err(SfenError::KingIsNothing { c: Color::Black });
        }
        if nb > 1 {
            return Err(SfenError::KingIsNotUnique { c: Color::Black });
        }
        let (nw, kw) = find_piece(&board, Piece(24));
        if nw == 0 {
            return Err(SfenError::KingIsNothing { c: Color::White });
        }
        if nw > 1 {
            return Err(SfenError::KingIsNotUnique { c: Color::White });
        }
        let side_text = &ws[1];
        proof {
            if side_text@.len() == 1 && side_text@[0] == 'b' {
                assert(side_text@ =~= seq!['b']);
            }
            if side_text@.len() == 1 && side_text@[0] == 'w' {
                assert(side_text@ =~= seq!['w']);
            }
            if side_text@ == seq!['b'] {
                assert(side_text@[0] == 'b');
            }
            if side_text@ == seq!['w'] {
                assert(side_text@[0] == 'w');
            }
        }
        let side = if side_text.len() == 1 && side_text[0] == 'b' {
            Color::Black
        } else if side_text.len() == 1 && side_text[0] == 'w' {
            Color::White
        } else {
            return Err(SfenError::InvalidSideToMoveCharactors { chars: text_of(side_text) });
        };
        let (hb, hw) = match parse_hands(&ws[2]) {
            Ok(h) => h,
            Err(e) => return Err(e),
        };
        let ply = match parse_ply(&ws[3]) {
            Some(n) => n,
            None => return Err(SfenError::InvalidGamePly { chars: text_of(&ws[3]) }),
        };
        let ghost done = match count_check(board@, hb, hw, 0) {
            Some(x) => Err::<SfenModel, SfenErr>(SfenErr::Count(x.0, x.1)),
            None => Ok(SfenModel { board: board@, side, hand_black: hb, hand_white: hw, ply: ply as int }),
        };
        assert(sfen_spec(sfen@) == done);
        let order: [u8; 7] = [1, 2, 3, 4, 7, 5, 6];
        let mut k: usize = 0;
        while k < 7
            invariant
                board@.len() == 81,
                k <= 7,
                order@ == seq![1u8, 2, 3, 4, 7, 5, 6],
                forall|j: int|
                    0 <= j < k ==> board_count(board@, order@[j], 81) + hb.count(order@[j]) + hw.count(
                        order@[j],
                    ) <= total_max(order@[j]),
                forall|j: int| 0 <= j < 7 ==> order@[j] == fam_order(j),
                count_check(board@, hb, hw, 0) == count_check(board@, hb, hw, k as int),
                sfen_spec(sfen@) == done,
                done == match count_check(board@, hb, hw, 0) {
                    Some(x) => Err::<SfenModel, SfenErr>(SfenErr::Count(x.0, x.1)),
                    None => Ok(SfenModel { board: board@, side, hand_black: hb, hand_white: hw, ply: ply as int }),
                },
            decreases 7 - k,
        {
            let fam = order[k];
            let pt = PieceType::from_code(fam);
            let number = count_family(&board, fam) as i64 + hb.num(pt) as i64 + hw.num(pt) as i64;
            assert(fam == fam_order(k as int));
            assert(number as int == board_count(board@, fam, 81) + hb.count(fam) + hw.count(fam));
            if number > max_of(fam) {
                assert(count_check(board@, hb, hw, k as int) == Some((fam, number as int)));
                let e = count_error(fam, number);
                assert(e@ == SfenErr::Count(fam, number as int));
                return Err(e);
            }
            k += 1;
        }
        let zobrist = Zobrist::new();
        let board_key = compute_board_key(&board, side, &zobrist);
        let hand_key = compute_hand_key(hb, hw, &zobrist);
        let ksq = match side {
            Color::Black => kb,
            Color::White => kw,
        };
        let in_check = king_attacked(&board, side, ksq);
        let st = StateInfo {
            board_key,
            hand_key,
            hand_of_side_to_move: match side {
                Color::Black => hb,
                Color::White => hw,
            },
            captured_piece: Piece(0),
            plies_from_null: 0,
            continuous_check_black: 0,
            continuous_check_white: 0,
            in_check,
        };
        let mut states: Vec<StateInfo> = Vec::new();
        states.push(st);
        let pos = Position {
            board,
            hand_black: hb,
            hand_white: hw,
            side_to_move: side,
            game_ply: ply,
            king_black: kb,
            king_white: kw,
            states,
            zobrist,
            history: Ghost(Seq::empty()),
            played: Ghost(Seq::empty()),
        };
        proof {
            reveal(Position::history_ok);
            assert forall|fam: u8| 1 <= fam <= 7 implies #[trigger] pos@.family_total(fam) <= total_max(
                fam,
            ) by {
                if fam == 1 {
                    assert(order@[0] == 1);
                } else if fam == 2 {
                    assert(order@[1] == 2);
                } else if fam == 3 {
                    assert(order@[2] == 3);
                } else if fam == 4 {
                    assert(order@[3] == 4);
                } else if fam == 7 {
                    assert(order@[4] == 7);
                } else if fam == 5 {
                    assert(order@[5] == 5);
                } else {
                    assert(order@[6] == 6);
                }
            }
        }
        Ok(pos)
    }
}

} // verus!
