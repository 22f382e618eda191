use vstd::prelude::*;
use crate::attack::board_ok;
use crate::hand::{Hand, hand_max};
use crate::position::{
    PosModel, Position, StateInfo, board_count, compute_board_key, compute_hand_key, count_family,
    king_attacked, total_max,
};
use crate::types::{Color, Piece, PieceType};
use crate::sfen::{count_check, fam_order};
use crate::zobrist::Zobrist;

verus! {

/// A position packed into 256 bits and a ply: side to move (1 bit), the two
/// king squares (7 bits each), a prefix code for each other square in
/// order, then a prefix code for each piece in hand, bits taken from the
/// least significant end of each byte.
#[derive(Debug)]
pub struct HuffmanCodedPosition {
    pub buf: [u8; 32],
    pub ply: i16,
}

/// The code of what stands on a square: (bits, length), least significant
/// bit first.
pub open spec fn board_code_spec(pc: Piece) -> (u8, u8) {
    let t = (pc.0 % 16) as u8;
    let white = pc.0 >= 16;
    let v: u8 = if pc.0 == 0 {
        0
    } else if t == 1 {
        0b1
    } else if t == 2 {
        0b11
    } else if t == 3 {
        0b111
    } else if t == 4 {
        0b1011
    } else if t == 5 {
        0b1_1111
    } else if t == 6 {
        0b11_1111
    } else if t == 7 {
        0b1111
    } else if t == 9 {
        0b1001
    } else if t == 10 {
        0b10_0011
    } else if t == 11 {
        0b10_0111
    } else if t == 12 {
        0b10_1011
    } else if t == 13 {
        0b1001_1111
    } else {
        0b1011_1111
    };
    let len: u8 = if pc.0 == 0 {
        1
    } else if t == 1 || t == 9 {
        4
    } else if t == 5 || t == 6 || t == 13 || t == 14 {
        8
    } else {
        6
    };
    if pc.0 == 0 {
        (v, len)
    } else if white {
        let bit: u8 = if len == 4 {
            0b100
        } else if t == 7 {
            0b10_0000
        } else if len == 6 {
            0b1_0000
        } else {
            0b100_0000
        };
        ((v | bit) as u8, len)
    } else {
        (v, len)
    }
}


/// The code of what stands on a square: (bits, length).
fn board_code(pc: Piece) -> (r: (u8, u8))
    ensures
        1 <= r.1 <= 8,
        r == board_code_spec(pc),
{
    let t = pc.0 % 16;
    let white = pc.0 >= 16;
    let v: u8 = if pc.0 == 0 {
        0
    } else if t == 1 {
        0b1
    } else if t == 2 {
        0b11
    } else if t == 3 {
        0b111
    } else if t == 4 {
        0b1011
    } else if t == 5 {
        0b1_1111
    } else if t == 6 {
        0b11_1111
    } else if t == 7 {
        0b1111
    } else if t == 9 {
        0b1001
    } else if t == 10 {
        0b10_0011
    } else if t == 11 {
        0b10_0111
    } else if t == 12 {
        0b10_1011
    } else if t == 13 {
        0b1001_1111
    } else {
        0b1011_1111
    };
    let len: u8 = if pc.0 == 0 {
        1
    } else if t == 1 || t == 9 {
        4
    } else if t == 5 || t == 6 || t == 13 || t == 14 {
        8
    } else {
        6
    };
    if pc.0 == 0 {
        (v, len)
    } else if white {
        let bit: u8 = if len == 4 {
            0b100
        } else if t == 7 {
            0b10_0000
        } else if len == 6 {
            0b1_0000
        } else {
            0b100_0000
        };
        (v | bit, len)
    } else {
        (v, len)
    }
}

/// The code of a piece in hand of color `c` and kind code `t`.
pub open spec fn hand_code_spec(c: Color, t: u8) -> (u8, u8) {
    let v: u8 = if t == 1 {
        0
    } else if t == 2 {
        0b1
    } else if t == 3 {
        0b11
    } else if t == 4 {
        0b101
    } else if t == 7 {
        0b111
    } else if t == 5 {
        0b1_1111
    } else {
        0b11_1111
    };
    let len: u8 = if t == 1 {
        3
    } else if t == 5 || t == 6 {
        7
    } else {
        5
    };
    match c {
        Color::Black => (v, len),
        Color::White => {
            let bit: u8 = if len == 3 {
                0b100
            } else if len == 5 {
                0b1_0000
            } else {
                0b100_0000
            };
            ((v | bit) as u8, len)
        },
    }
}


/// The code of a piece in hand of color `c` and kind code `t`: (bits, length).
fn hand_code(c: Color, t: u8) -> (r: (u8, u8))
    ensures
        1 <= r.1 <= 7,
        r == hand_code_spec(c, t),
{
    let v: u8 = if t == 1 {
        0
    } else if t == 2 {
        0b1
    } else if t == 3 {
        0b11
    } else if t == 4 {
        0b101
    } else if t == 7 {
        0b111
    } else if t == 5 {
        0b1_1111
    } else {
        0b11_1111
    };
    let len: u8 = if t == 1 {
        3
    } else if t == 5 || t == 6 {
        7
    } else {
        5
    };
    match c {
        Color::Black => (v, len),
        Color::White => {
            let bit: u8 = if len == 3 {
                0b100
            } else if len == 5 {
                0b1_0000
            } else {
                0b100_0000
            };
            (v | bit, len)
        },
    }
}

/// A code that may stand on a non-king square: empty or a piece other than a king.
pub open spec fn square_code(code: int) -> bool {
    code == 0 || (1 <= code <= 14 && code != 8) || (17 <= code <= 30 && code != 24)
}

/// The first piece code from `code` on whose square code is (`v`, `len`).
pub open spec fn board_code_from(v: u8, len: u8, code: int) -> Option<Piece>
    decreases 31 - code,
{
    if code < 0 || code >= 31 {
        None
    } else if square_code(code) && board_code_spec(Piece(code as u8)) == (v, len) {
        Some(Piece(code as u8))
    } else {
        board_code_from(v, len, code + 1)
    }
}

/// What a square code stands for, if (`v`, `len`) is one.
fn piece_of_board_code(v: u8, len: u8) -> (r: Option<Piece>)
    ensures
        r == board_code_from(v, len, 0),
        r matches Some(p) ==> p.0 == 0 || (p.wf() && p.type_code() != 8),
{
    let mut code: u8 = 0;
    while code < 31
        invariant
            code <= 31,
            board_code_from(v, len, 0) == board_code_from(v, len, code as int),
        decreases 31 - code,
    {
        let pc = Piece(code);
        if code == 0 || (1 <= code && code <= 14 && code != 8) || (17 <= code && code <= 30 && code
            != 24) {
            let (cv, cl) = board_code(pc);
            if cv == v && cl == len {
                return Some(pc);
            }
        }
        code += 1;
    }
    None
}

/// The first hand piece, kinds `t` to 7 and Black before White, whose hand
/// code is (`v`, `len`).
pub open spec fn hand_code_from(v: u8, len: u8, t: int) -> Option<(Color, u8)>
    decreases 8 - t,
{
    if t < 1 || t > 7 {
        None
    } else if hand_code_spec(Color::Black, t as u8) == (v, len) {
        Some((Color::Black, t as u8))
    } else if hand_code_spec(Color::White, t as u8) == (v, len) {
        Some((Color::White, t as u8))
    } else {
        hand_code_from(v, len, t + 1)
    }
}

/// What a hand code stands for, if (`v`, `len`) is one: color and kind code.
fn piece_of_hand_code(v: u8, len: u8) -> (r: Option<(Color, u8)>)
    ensures
        r == hand_code_from(v, len, 1),
        r matches Some(x) ==> 1 <= x.1 <= 7,
{
    let mut t: u8 = 1;
    while t <= 7
        invariant
            1 <= t <= 8,
            hand_code_from(v, len, 1) == hand_code_from(v, len, t as int),
        decreases 8 - t,
    {
        let (bv, bl) = hand_code(Color::Black, t);
        if bv == v && bl == len {
            return Some((Color::Black, t));
        }
        let (wv, wl) = hand_code(Color::White, t);
        if wv == v && wl == len {
            return Some((Color::White, t));
        }
        t += 1;
    }
    None
}

/// The low `len` bits of `v`, least significant first.
pub open spec fn code_bits(v: u8, len: u8) -> Seq<bool> {
    Seq::new(len as nat, |i: int| (v >> (i as u8)) & 1 == 1)
}

/// `s` repeated `n` times.
pub open spec fn repeat(s: Seq<bool>, n: int) -> Seq<bool>
    decreases n,
{
    if n <= 0 {
        Seq::empty()
    } else {
        repeat(s, n - 1) + s
    }
}

/// The codes of squares 0 to `n - 1`; king squares have none.
pub open spec fn squares_bits(b: Seq<Piece>, n: int) -> Seq<bool>
    decreases n,
{
    if n <= 0 {
        Seq::empty()
    } else {
        squares_bits(b, n - 1) + if b[n - 1].0 == 8 || b[n - 1].0 == 24 {
            Seq::empty()
        } else {
            code_bits(board_code_spec(b[n - 1]).0, board_code_spec(b[n - 1]).1)
        }
    }
}

/// The codes of the pieces of kinds 1 to `t` in hand `h` of color `c`.
pub open spec fn hand_bits(h: Hand, c: Color, t: int) -> Seq<bool>
    decreases t,
{
    if t <= 0 {
        Seq::empty()
    } else {
        hand_bits(h, c, t - 1) + repeat(
            code_bits(hand_code_spec(c, t as u8).0, hand_code_spec(c, t as u8).1),
            h.count(t as u8) as int,
        )
    }
}

/// The bit stream of a position: side to move, Black's and White's king
/// squares in 7 bits each, the square codes, Black's then White's hand codes.
pub open spec fn hcp_bits(p: PosModel) -> Seq<bool> {
    seq![p.side == Color::White] + code_bits(p.king_black, 7) + code_bits(p.king_white, 7)
        + squares_bits(p.board, 81) + hand_bits(p.hand_black, Color::Black, 7) + hand_bits(
        p.hand_white,
        Color::White,
        7,
    )
}

/// Appends the low `len` bits of `v`, least significant first.
fn put_bits(bits: &mut Vec<bool>, v: u8, len: u8)
    requires
        len <= 8,
    ensures
        final(bits)@ == old(bits)@ + code_bits(v, len),
{
    let mut i: u8 = 0;
    while i < len
        invariant
            i <= len <= 8,
            bits@ == old(bits)@ + code_bits(v, i),
        decreases len - i,
    {
        bits.push((v >> i) & 1 == 1);
        assert(old(bits)@ + code_bits(v, (i + 1) as u8) =~= old(bits)@ + code_bits(v, i) + seq![(v >> i) & 1 == 1]);
        i += 1;
    }
}

impl HuffmanCodedPosition {
    /// The packed form of `pos`. Bits past the 256th, which a position with
    /// no more pieces than the game has never needs, are left out.
    pub fn from(pos: &Position) -> (r: HuffmanCodedPosition)
        requires
            pos.wf(),
        ensures
            r.ply == pos@.game_ply as i16,
            forall|i: int|
                0 <= i < 256 ==> buf_bit(r.buf@, i) == (i < hcp_bits(pos@).len() && hcp_bits(pos@)[i]),
    {
        let ghost p = pos@;
        let mut bits: Vec<bool> = Vec::new();
        bits.push(pos.side_to_move == Color::White);
        put_bits(&mut bits, pos.king_black, 7);
        put_bits(&mut bits, pos.king_white, 7);
        let ghost head = bits@;
        assert(head =~= seq![p.side == Color::White] + code_bits(p.king_black, 7) + code_bits(p.king_white, 7));
        let mut s: usize = 0;
        while s < 81
            invariant
                pos.wf(),
                p == pos@,
                s <= 81,
                bits@ == head + squares_bits(p.board, s as int),
            decreases 81 - s,
        {
            let pc = pos.board[s];
            let ghost before = bits@;
            if pc.0 != 8 && pc.0 != 24 {
                let (v, len) = board_code(pc);
                put_bits(&mut bits, v, len);
            }
            assert(bits@ =~= head + squares_bits(p.board, s as int + 1));
            s += 1;
        }
        let ghost mid = bits@;
        let mut c: u8 = 0;
        while c < 2
            invariant
                pos.wf(),
                p == pos@,
                c <= 2,
                mid == head + squares_bits(p.board, 81),
                bits@ == mid + (if c == 0 {
                    Seq::empty()
                } else if c == 1 {
                    hand_bits(p.hand_black, Color::Black, 7)
                } else {
                    hand_bits(p.hand_black, Color::Black, 7) + hand_bits(p.hand_white, Color::White, 7)
                }),
            decreases 2 - c,
        {
            let color = Color::from_index(c);
            let h = pos.hand(color);
            let ghost start = bits@;
            let mut t: u8 = 1;
            while t <= 7
                invariant
                    pos.wf(),
                    h.wf(),
                    1 <= t <= 8,
                    bits@ == start + hand_bits(h, color, t - 1),
                decreases 8 - t,
            {
                let (v, len) = hand_code(color, t);
                let n = h.num(PieceType::from_code(t));
                let ghost kind_start = bits@;
                let mut k: u32 = 0;
                while k < n
                    invariant
                        k <= n,
                        1 <= len <= 7,
                        bits@ == kind_start + repeat(code_bits(v, len), k as int),
                    decreases n - k,
                {
                    put_bits(&mut bits, v, len);
                    assert(kind_start + repeat(code_bits(v, len), k + 1) =~= kind_start + repeat(
                        code_bits(v, len),
                        k as int,
                    ) + code_bits(v, len));
                    k += 1;
                }
                assert(bits@ =~= start + hand_bits(h, color, t as int));
                t += 1;
            }
            assert(bits@ =~= mid + (if c + 1 == 1 {
                hand_bits(p.hand_black, Color::Black, 7)
            } else {
                hand_bits(p.hand_black, Color::Black, 7) + hand_bits(p.hand_white, Color::White, 7)
            }));
            c += 1;
        }
        assert(bits@ =~= hcp_bits(p));
        let mut buf = [0u8; 32];
        proof {
            assert forall|j: int| 0 <= j < 256 implies !buf_bit(buf@, j) by {
                let q = (j % 8) as u8;
                assert((0u8 >> q) & 1 != 1) by (bit_vector);
            }
        }
        let mut i: usize = 0;
        while i < 256 && i < bits.len()
            invariant
                i <= 256,
                i <= bits@.len(),
                buf@.len() == 32,
                forall|j: int| 0 <= j < 256 ==> buf_bit(buf@, j) == (j < i && bits@[j]),
            decreases 256 - i,
        {
            if bits[i] {
                let byte = buf[i / 8];
                let q = (i % 8) as u8;
                let ghost ob = buf@;
                buf[i / 8] = byte | (1u8 << q);
                proof {
                    assert(buf@ == ob.update((i / 8) as int, (byte | (1u8 << q)) as u8));
                    assert forall|j: int| 0 <= j < 256 implies buf_bit(buf@, j) == (j < i + 1 && bits@[j]) by {
                        assert(buf_bit(ob, j) == (j < i && bits@[j]));
                        if j / 8 == i / 8 {
                            assert(j % 8 == i % 8 <==> j == i);
                            let jq = (j % 8) as u8;
                            assert((((byte | (1u8 << q)) >> jq) & 1 == 1) == (jq == q || (byte >> jq) & 1 == 1))
                                by (bit_vector)
                                requires
                                    q < 8,
                                    jq < 8,
                            ;
                        }
                    }
                }
            }
            i += 1;
        }
        #[verifier::truncate]
        let ply = pos.game_ply as i16;
        HuffmanCodedPosition { buf, ply }
    }
}

/// Bit `i` of the packed bytes, least significant bit of each byte first.
pub open spec fn buf_bit(buf: Seq<u8>, i: int) -> bool {
    (buf[i / 8] >> ((i % 8) as u8)) & 1 == 1
}

/// Reads bit `i` of the packed bytes.
fn bit_at(buf: &[u8; 32], i: usize) -> (r: bool)
    requires
        i < 256,
    ensures
        r == buf_bit(buf@, i as int),
{
    (buf[i / 8] >> ((i % 8) as u8)) & 1 == 1
}

/// Reading a square code bit by bit from bit `i`, with `len` bits `v` read:
/// the piece and the index after its code, or `None` past the end or after
/// 8 bits that match no code.
pub open spec fn read_board_from(buf: Seq<u8>, i: int, v: u8, len: u8) -> Option<(Piece, int)>
    decreases 8 - len,
{
    if len >= 8 || i < 0 || i >= 256 {
        None
    } else {
        let v2 = if buf_bit(buf, i) {
            (v | (1u8 << len)) as u8
        } else {
            v
        };
        match board_code_from(v2, (len + 1) as u8, 0) {
            Some(pc) => Some((pc, i + 1)),
            None => read_board_from(buf, i + 1, v2, (len + 1) as u8),
        }
    }
}

/// Reads one square code starting at bit `at`.
fn read_board_piece(buf: &[u8; 32], at: usize) -> (r: Option<(Piece, usize)>)
    ensures
        r matches Some(x) ==> (x.0.0 == 0 || (x.0.wf() && x.0.type_code() != 8)) && at < x.1 <= 256,
        match read_board_from(buf@, at as int, 0, 0) {
            Some(x) => r matches Some(y) && y.0 == x.0 && y.1 as int == x.1,
            None => r is None,
        },
{
    let mut v: u8 = 0;
    let mut len: u8 = 0;
    let mut i = at;
    while len < 8
        invariant
            len <= 8,
            i == at + len,
            read_board_from(buf@, at as int, 0, 0) == read_board_from(buf@, i as int, v, len),
        decreases 8 - len,
    {
        if i >= 256 {
            return None;
        }
        if bit_at(buf, i) {
            v = v | (1u8 << len);
        }
        len += 1;
        i += 1;
        match piece_of_board_code(v, len) {
            Some(pc) => return Some((pc, i)),
            None => {},
        }
    }
    None
}

/// Reading a hand code bit by bit, as `read_board_from` for squares (at
/// most 7 bits).
pub open spec fn read_hand_from(buf: Seq<u8>, i: int, v: u8, len: u8) -> Option<(Color, u8, int)>
    decreases 7 - len,
{
    if len >= 7 || i < 0 || i >= 256 {
        None
    } else {
        let v2 = if buf_bit(buf, i) {
            (v | (1u8 << len)) as u8
        } else {
            v
        };
        match hand_code_from(v2, (len + 1) as u8, 1) {
            Some(x) => Some((x.0, x.1, i + 1)),
            None => read_hand_from(buf, i + 1, v2, (len + 1) as u8),
        }
    }
}

/// Reads one hand code starting at bit `at`.
fn read_hand_piece(buf: &[u8; 32], at: usize) -> (r: Option<(Color, u8, usize)>)
    ensures
        r matches Some(x) ==> 1 <= x.1 <= 7 && at < x.2 <= 256,
        match read_hand_from(buf@, at as int, 0, 0) {
            Some(x) => r matches Some(y) && y.0 == x.0 && y.1 == x.1 && y.2 as int == x.2,
            None => r is None,
        },
{
    let mut v: u8 = 0;
    let mut len: u8 = 0;
    let mut i = at;
    while len < 7
        invariant
            len <= 7,
            i == at + len,
            read_hand_from(buf@, at as int, 0, 0) == read_hand_from(buf@, i as int, v, len),
        decreases 7 - len,
    {
        if i >= 256 {
            return None;
        }
        if bit_at(buf, i) {
            v = v | (1u8 << len);
        }
        len += 1;
        i += 1;
        match piece_of_hand_code(v, len) {
            Some((c, t)) => return Some((c, t, i)),
            None => {},
        }
    }
    None
}

/// The number whose bits, least significant first, are bits `at + i` to
/// `at + len - 1`, on top of `v`.
pub open spec fn bits_from(buf: Seq<u8>, at: int, i: int, len: int, v: u8) -> u8
    decreases len - i,
{
    if i < 0 || i >= len {
        v
    } else {
        bits_from(buf, at, i + 1, len, if buf_bit(buf, at + i) {
            (v | (1u8 << (i as u8))) as u8
        } else {
            v
        })
    }
}

fn read_bits(buf: &[u8; 32], at: usize, len: usize) -> (r: u8)
    requires
        at + len <= 256,
        len <= 7,
    ensures
        r == bits_from(buf@, at as int, 0, len as int, 0),
{
    let mut v: u8 = 0;
    let mut i: usize = 0;
    while i < len
        invariant
            i <= len <= 7,
            at + len <= 256,
            bits_from(buf@, at as int, 0, len as int, 0) == bits_from(buf@, at as int, i as int, len as int, v),
        decreases len - i,
    {
        if bit_at(buf, at + i) {
            v = v | (1u8 << (i as u8));
        }
        i += 1;
    }
    v
}

/// What a packed position names.
pub struct HcpModel {
    pub board: Seq<Piece>,
    pub side: Color,
    pub hand_black: Hand,
    pub hand_white: Hand,
    pub ply: int,
}

/// Reading the square codes of squares `s` and on (the king squares `kb`,
/// `kw` have none) from bit `at`, onto board `b`: the board and the bit
/// after the last code, or the bit where a code could not be read.
pub open spec fn squares_from(buf: Seq<u8>, s: int, at: int, kb: int, kw: int, b: Seq<Piece>) -> Result<(Seq<Piece>, int), int>
    decreases 81 - s,
{
    if s < 0 || s >= 81 {
        Ok((b, at))
    } else if s == kb || s == kw {
        squares_from(buf, s + 1, at, kb, kw, b)
    } else {
        match read_board_from(buf, at, 0, 0) {
            Some(x) => squares_from(buf, s + 1, x.1, kb, kw, b.update(s, x.0)),
            None => Err(at),
        }
    }
}

/// Reading hand codes from bit `at` to the end, onto hands `hb`, `hw`; a
/// code that would exceed the number of such pieces in the game, or that
/// cannot be read, refuses at its bit.
pub open spec fn hand_bits_from(buf: Seq<u8>, at: int, hb: Hand, hw: Hand) -> Result<(Hand, Hand), int>
    decreases 256 - at,
{
    if at < 0 || at >= 256 {
        Ok((hb, hw))
    } else {
        match read_hand_from(buf, at, 0, 0) {
            None => Err(at),
            Some(x) => if (if x.0 == Color::Black {
                hb
            } else {
                hw
            }).count(x.1) >= hand_max(x.1) {
                Err(at)
            } else if x.2 <= at || x.2 > 256 {
                Ok((hb, hw))
            } else {
                hand_bits_from(
                    buf,
                    x.2,
                    if x.0 == Color::Black {
                        hb.plus(x.1)
                    } else {
                        hb
                    },
                    if x.0 == Color::White {
                        hw.plus(x.1)
                    } else {
                        hw
                    },
                )
            },
        }
    }
}

/// The reading of a packed position: side bit, the two 7-bit king squares,
/// the square codes, then hand codes to the end of the 256 bits; refused
/// (with a bit index, or 256) on an unknown code, overlapping kings, a kind
/// beyond its number in the game, or a ply below 1.
pub open spec fn hcp_spec(buf: Seq<u8>, ply: int) -> Result<HcpModel, int> {
    let side = if buf_bit(buf, 0) {
        Color::White
    } else {
        Color::Black
    };
    let kb = bits_from(buf, 1, 0, 7, 0) as int;
    let kw = bits_from(buf, 8, 0, 7, 0) as int;
    if kb >= 81 || kw >= 81 || kb == kw {
        Err(1)
    } else {
        after_squares(
            buf,
            squares_from(
                buf,
                0,
                15,
                kb,
                kw,
                crate::sfen::empty_board().update(kb, Piece(8)).update(kw, Piece(24)),
            ),
            ply,
            side,
        )
    }
}

/// The rest of the reading once the squares are read.
pub open spec fn after_squares(buf: Seq<u8>, sq: Result<(Seq<Piece>, int), int>, ply: int, side: Color) -> Result<HcpModel, int> {
    match sq {
        Err(e) => Err(e),
        Ok(x) => after_hands(x.0, hand_bits_from(buf, x.1, Hand(0), Hand(0)), ply, side),
    }
}

/// The rest of the reading once the hands are read.
pub open spec fn after_hands(b: Seq<Piece>, hands: Result<(Hand, Hand), int>, ply: int, side: Color) -> Result<HcpModel, int> {
    match hands {
        Err(e) => Err(e),
        Ok(h) => if count_check(b, h.0, h.1, 0) is Some {
            Err(256)
        } else if ply < 1 {
            Err(256)
        } else {
            Ok(HcpModel { board: b, side, hand_black: h.0, hand_white: h.1, ply })
        },
    }
}

impl Position {
    /// The position packed in `hcp`. Refused (with the bit index where
    /// reading stopped) when a code is unknown, the kings overlap, a kind
    /// exceeds its number in the game, or the ply is not positive. On
    /// success the position is consistent and no move has been played on it.
    #[verifier::rlimit(40)]
    pub fn new_from_huffman_coded_position(hcp: &HuffmanCodedPosition) -> (r: Result<Position, u32>)
        ensures
            match hcp_spec(hcp.buf@, hcp.ply as int) {
                Ok(m) => r matches Ok(p) && p@.board == m.board && p@.side == m.side && p@.hand_black
                    == m.hand_black && p@.hand_white == m.hand_white && p@.game_ply as int == m.ply,
                Err(e) => r matches Err(x) && x as int == e,
            },
            r matches Ok(p) ==> p.wf() && p.history@.len() == 0 && p.played@.len() == 0,
    {
        let buf = &hcp.buf;
        assert(buf@ == hcp.buf@);
        let side = if bit_at(buf, 0) {
            Color::White
        } else {
            Color::Black
        };
        let kb = read_bits(buf, 1, 7);
        let kw = read_bits(buf, 8, 7);
        if kb >= 81 || kw >= 81 || kb == kw {
            return Err(1);
        }
        let mut board: Vec<Piece> = Vec::new();
        while board.len() < 81
            invariant
                board@.len() <= 81,
                forall|j: int| 0 <= j < board@.len() ==> (#[trigger] board@[j]).0 == 0,
            decreases 81 - board@.len(),
        {
            board.push(Piece(0));
        }
        board.set(kb as usize, Piece(8));
        board.set(kw as usize, Piece(24));
        let ghost b0 = board@;
        assert(b0 =~= crate::sfen::empty_board().update(kb as int, Piece(8)).update(kw as int, Piece(24)));
        let mut at: usize = 15;
        let mut s: u8 = 0;
        while s < 81
            invariant
                board@.len() == 81,
                board_ok(board@),
                kb < 81,
                kw < 81,
                kb != kw,
                board@[kb as int] == Piece(8),
                board@[kw as int] == Piece(24),
                forall|j: int| 0 <= j < 81 && #[trigger] board@[j] == Piece(8) ==> j == kb,
                forall|j: int| 0 <= j < 81 && #[trigger] board@[j] == Piece(24) ==> j == kw,
                s <= 81,
                at <= 256,
                buf@ == hcp.buf@,
                hcp_spec(buf@, hcp.ply as int) == after_squares(
                    buf@,
                    squares_from(buf@, s as int, at as int, kb as int, kw as int, board@),
                    hcp.ply as int,
                    side,
                ),
            decreases 81 - s,
        {
            if s != kb && s != kw {
                match read_board_piece(buf, at) {
                    Some((pc, next)) => {
                        board.set(s as usize, pc);
                        at = next;
                    },
                    None => {
                        assert(read_board_from(buf@, at as int, 0, 0) is None);
                        assert(squares_from(buf@, s as int, at as int, kb as int, kw as int, board@) == Err::<
                            (Seq<Piece>, int),
                            int,
                        >(at as int));
                        assert(hcp_spec(buf@, hcp.ply as int) == Err::<HcpModel, int>(at as int));
                        assert(hcp_spec(hcp.buf@, hcp.ply as int) == Err::<HcpModel, int>(at as int));
                        let e: u32 = at as u32;
                        assert(e as int == at as int);
                        return Err(e);
                    },
                }
            }
            s += 1;
        }
        let mut hb = Hand::empty();
        let mut hw = Hand::empty();
        while at < 256
            invariant
                buf@ == hcp.buf@,
                hcp_spec(buf@, hcp.ply as int) == after_hands(
                    board@,
                    hand_bits_from(buf@, at as int, hb, hw),
                    hcp.ply as int,
                    side,
                ),
                hb.wf(),
                hw.wf(),
                at <= 256,
                board@.len() == 81,
                board_ok(board@),
                kb < 81,
                kw < 81,
                board@[kb as int] == Piece(8),
                board@[kw as int] == Piece(24),
                forall|j: int| 0 <= j < 81 && #[trigger] board@[j] == Piece(8) ==> j == kb,
                forall|j: int| 0 <= j < 81 && #[trigger] board@[j] == Piece(24) ==> j == kw,
            decreases 256 - at,
        {
            match read_hand_piece(buf, at) {
                Some((c, t, next)) => {
                    let pt = PieceType::from_code(t);
                    let full = match c {
                        Color::Black => hb.num(pt) as i64 >= max_in_game(t),
                        Color::White => hw.num(pt) as i64 >= max_in_game(t),
                    };
                    if full {
                        assert(hand_bits_from(buf@, at as int, hb, hw) == Err::<(Hand, Hand), int>(at as int));
                        assert(hcp_spec(hcp.buf@, hcp.ply as int) == Err::<HcpModel, int>(at as int));
                        return Err(at as u32);
                    }
                    match c {
                        Color::Black => hb.plus_one(pt),
                        Color::White => hw.plus_one(pt),
                    }
                    at = next;
                },
                None => {
                    assert(read_hand_from(buf@, at as int, 0, 0) is None);
                    assert(hand_bits_from(buf@, at as int, hb, hw) == Err::<(Hand, Hand), int>(at as int));
                    assert(hcp_spec(hcp.buf@, hcp.ply as int) == Err::<HcpModel, int>(at as int));
                    return Err(at as u32);
                },
            }
        }
        let order: [u8; 7] = [1, 2, 3, 4, 7, 5, 6];
        let mut k: usize = 0;
        while k < 7
            invariant
                board@.len() == 81,
                k <= 7,
                order@ == seq![1u8, 2, 3, 4, 7, 5, 6],
                forall|j: int|
                    0 <= j < k ==> board_count(board@, order@[j], 81) + hb.count(order@[j]) + hw.count(
                        order@[j],
                    ) <= total_max(order@[j]),
                forall|j: int| 0 <= j < 7 ==> order@[j] == fam_order(j),
                count_check(board@, hb, hw, 0) == count_check(board@, hb, hw, k as int),
                buf@ == hcp.buf@,
                hcp_spec(buf@, hcp.ply as int) == after_hands(
                    board@,
                    Ok::<(Hand, Hand), int>((hb, hw)),
                    hcp.ply as int,
                    side,
                ),
            decreases 7 - k,
        {
            let fam = order[k];
            let pt = PieceType::from_code(fam);
            let number = count_family(&board, fam) as i64 + hb.num(pt) as i64 + hw.num(pt) as i64;
            assert(fam == fam_order(k as int));
            if number > max_in_game(fam) {
                assert(count_check(board@, hb, hw, k as int) is Some);
                assert(hcp_spec(hcp.buf@, hcp.ply as int) == Err::<HcpModel, int>(256));
                return Err(256);
            }
            k += 1;
        }
        if hcp.ply < 1 {
            return Err(256);
        }
        let ply = hcp.ply as u32;
        let zobrist = Zobrist::new();
        let board_key = compute_board_key(&board, side, &zobrist);
        let hand_key = compute_hand_key(hb, hw, &zobrist);
        let ksq = match side {
            Color::Black => kb,
            Color::White => kw,
        };
        let in_check = king_attacked(&board, side, ksq);
        let st = StateInfo {
            board_key,
            hand_key,
            hand_of_side_to_move: match side {
                Color::Black => hb,
                Color::White => hw,
            },
            captured_piece: Piece(0),
            plies_from_null: 0,
            continuous_check_black: 0,
            continuous_check_white: 0,
            in_check,
        };
        let mut states: Vec<StateInfo> = Vec::new();
        states.push(st);
        let pos = Position {
            board,
            hand_black: hb,
            hand_white: hw,
            side_to_move: side,
            game_ply: ply,
            king_black: kb,
            king_white: kw,
            states,
            zobrist,
            history: Ghost(Seq::empty()),
            played: Ghost(Seq::empty()),
        };
        proof {
            reveal(Position::history_ok);
            assert forall|fam: u8| 1 <= fam <= 7 implies #[trigger] pos@.family_total(fam) <= total_max(
                fam,
            ) by {
                if fam == 1 {
                    assert(order@[0] == 1);
                } else if fam == 2 {
                    assert(order@[1] == 2);
                } else if fam == 3 {
                    assert(order@[2] == 3);
                } else if fam == 4 {
                    assert(order@[3] == 4);
                } else if fam == 7 {
                    assert(order@[4] == 7);
                } else if fam == 5 {
                    assert(order@[5] == 5);
                } else {
                    assert(order@[6] == 6);
                }
            }
        }
        Ok(pos)
    }
}

fn max_in_game(fam: u8) -> (r: i64)
    ensures
        r == hand_max(fam),
{
    if fam == 1 {
        18
    } else if fam == 5 || fam == 6 {
        2
    } else {
        4
    }
}

} // verus!
