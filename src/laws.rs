use vstd::prelude::*;
use crate::attack::rel_rank;
use crate::legality::{pawn_drop_mates, pawn_on_file, pseudo_legal_spec};
use crate::moves::{Move, drop_bit, dropped_field, from_field, promote_bit, to_field};
use crate::position::PosModel;
use crate::types::{Color, Piece, PieceType};

verus! {

/// Each side has exactly one king, on the square the position records.
pub proof fn lemma_one_king(p: PosModel, c: Color)
    requires
        p.wf(),
    ensures
        0 <= p.king_of(c) < 81,
        p.board[p.king_of(c)] == Piece::of(c, PieceType::King),
        forall|s: int| 0 <= s < 81 && #[trigger] p.board[s] == Piece::of(c, PieceType::King) ==> s == p.king_of(c),
{
}

/// A pawn is never dropped on a file that holds a pawn of the same side.
pub proof fn lemma_no_two_pawns(p: PosModel, m: Move, searching: bool)
    requires
        pseudo_legal_spec(p, m, searching),
        drop_bit(m.0),
        dropped_field(m.0) % 16 == 1,
    ensures
        !pawn_on_file(p.board, p.side, to_field(m.0) as int / 9),
{
}

/// A pawn is never dropped where it would mate at once.
pub proof fn lemma_no_pawn_drop_mate(p: PosModel, m: Move, searching: bool)
    requires
        pseudo_legal_spec(p, m, searching),
        drop_bit(m.0),
        dropped_field(m.0) % 16 == 1,
    ensures
        !pawn_drop_mates(p, to_field(m.0) as int),
{
}

/// No pawn, lance or knight ends a move or a drop unpromoted on a rank from
/// which it could never move again: pawns and lances not on the last rank,
/// knights not on the last two.
pub proof fn lemma_no_dead_piece(p: PosModel, m: Move, searching: bool)
    requires
        pseudo_legal_spec(p, m, searching),
        !promote_bit(m.0),
    ensures
        ({
            let t = if drop_bit(m.0) {
                (dropped_field(m.0) % 16) as u8
            } else {
                p.board[from_field(m.0) as int].type_code()
            };
            let rt = rel_rank(p.side, to_field(m.0) as int % 9);
            &&& (t == 1 || t == 2) ==> rt >= 1
            &&& t == 3 ==> rt >= 2
        }),
{
}

} // verus!
