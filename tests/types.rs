use shogi_core::types::{Color, Piece, PieceType, Square};

#[test]
fn piece_codes_and_conversions() {
    let p = Piece::new(Color::WHITE, PieceType::SILVER);
    assert_eq!(p.0, 20);
    assert_eq!(Color::new(p), Color::WHITE);
    assert_eq!(PieceType::new(p), PieceType::SILVER);
    assert_eq!(p.inverse(), Piece::new(Color::BLACK, PieceType::SILVER));
    assert_eq!(p.to_promote(), Piece::new(Color::WHITE, PieceType::PRO_SILVER));
    assert!(PieceType::ROOK.is_promotable());
    assert!(!PieceType::GOLD.is_promotable());
    assert_eq!(PieceType::ROOK.to_promote(), PieceType::DRAGON);
    assert_eq!(PieceType::HORSE.to_demote(), PieceType::BISHOP);
    assert_eq!(PieceType::KING.to_demote(), PieceType::KING);
    assert!(Piece::empty().is_empty());
    assert!(!p.is_empty());
    assert_eq!(Color::BLACK.inverse(), Color::WHITE);
}

#[test]
fn square_coordinates() {
    let sq = Square::new(6, 5);
    assert_eq!(sq.0, 59);
    assert_eq!(sq.file_index(), 6);
    assert_eq!(sq.rank_index(), 5);
    assert_eq!(sq.to_usi_chars(), ('7', 'f'));
}
