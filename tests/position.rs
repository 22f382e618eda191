use shogi_core::bitboard::Bitboard;
use shogi_core::hand::Hand;
use shogi_core::moves::Move;
use shogi_core::position::Position;
use shogi_core::rules::Repetition;
use shogi_core::sfen::SfenError;
use shogi_core::types::{Color, PieceType, Square};

#[test]
fn test_position_set() {
    let sfens = [
        "lnsgkgsnl/1r5b1/ppppppppp/9/9/9/PPPPPPPPP/1B5R1/LNSGKGSNL b - 1",
        "l6nl/5+P1gk/2np1S3/p1p4Pp/3P2Sp1/1PPb2P1P/P5GS1/R8/LN4bKL w RGgsn5p 1",
        "l4S2l/4g1gs1/5p1p1/pr2N1pkp/4Gn3/PP3PPPP/2GPP4/1K7/L3r+s2L w BS2N5Pb 20",
        "6n1l/2+S1k4/2lp4p/1np1B2b1/3PP4/1N1S3rP/1P2+pPP+p1/1p1G5/3KG2r1 b GSN2L4Pgs2p 399",
    ];
    for sfen in sfens.iter() {
        match Position::new_from_sfen(sfen) {
            Ok(pos) => assert_eq!(pos.to_sfen(), sfen.to_string()),
            Err(_) => assert_eq!("".to_string(), sfen.to_string()),
        }
    }

    let sfens = [
        (
            "l6nl/5+P1gk/2np1S3/p1p4Pp/3P2Sp1/1PPb2P1P/P5GS1/R8/LN4bKL w RRGgsn5p 1",
            PieceType::ROOK,
        ),
        (
            "l4S2l/4g1gs1/5p1p1/pr2N1pkp/4Gn3/PP3PPPP/2GPP4/1K7/L3r+s2L w BS2S2N5Pb 20",
            PieceType::SILVER,
        ),
        (
            "6n1l/2+S1k4/2lp4p/1np1B2b1/3PP4/1N1S3rP/1P2+pPP+p1/1p1G5/3KG2r1 b GSN2L4Pgss2p 399",
            PieceType::SILVER,
        ),
    ];
    for &(sfen, pt_twice) in sfens.iter() {
        match Position::new_from_sfen(sfen) {
            Ok(_) => assert_eq!("".to_string(), sfen.to_string()),
            Err(err) => match err {
                SfenError::SameHandPieceTwice { pt } => {
                    assert_eq!(pt, pt_twice);
                }
                _ => assert!(false),
            },
        }
    }

    let sfens = [
        (
            "lnsgkgsnl/1r5b1/ppppppppp/9/9/9/PPPPPPPPP/1B5R1/LNSG1GSNL b - 1",
            Color::BLACK,
        ),
        (
            "lnsg1gsnl/1r5b1/ppppppppp/9/9/9/PPPPPPPPP/1B5R1/LNSGKGSNL b - 1",
            Color::WHITE,
        ),
    ];
    for &(sfen, color_of_king_nothing) in sfens.iter() {
        match Position::new_from_sfen(sfen) {
            Ok(_) => assert_eq!("".to_string(), sfen.to_string()),
            Err(err) => match err {
                SfenError::KingIsNothing { c } => {
                    assert_eq!(c, color_of_king_nothing);
                }
                _ => assert!(false),
            },
        }
    }
}

#[test]
fn sfen_errors_by_kind() {
    assert!(matches!(
        Position::new_from_sfen("4k4/9/9 b -"),
        Err(SfenError::InvalidNumberOfSections { sections: 3 })
    ));
    assert!(matches!(
        Position::new_from_sfen("4k4/9/9/9/9/9/9/4K4 b - 1"),
        Err(SfenError::InvalidNumberOfRanks { ranks: 8 })
    ));
    assert!(matches!(
        Position::new_from_sfen("4k4/9/9/9/9/9/9/9/4K4 x - 1"),
        Err(SfenError::InvalidSideToMoveCharactors { .. })
    ));
    assert!(matches!(
        Position::new_from_sfen("4k4/9/9/9/9/9/9/9/4K4 b - 0"),
        Err(SfenError::InvalidGamePly { .. })
    ));
    assert!(matches!(
        Position::new_from_sfen("4k4/9/9/9/9/9/9/9/4K4 b 19P 1"),
        Err(SfenError::InvalidNumberOfPawns { number: 19 })
    ));
    assert!(matches!(
        Position::new_from_sfen("4k4/9/9/9/9/9/9/9/4K4 b 3B 1"),
        Err(SfenError::InvalidNumberOfBishops { number: 3 })
    ));
    assert!(matches!(
        Position::new_from_sfen("4k4/9/9/9/9/9/9/9/4K4 b 2Bb 1"),
        Err(SfenError::InvalidNumberOfBishops { number: 3 })
    ));
    assert!(matches!(
        Position::new_from_sfen("4k4/9/9/9/9/9/9/9/4KX3 b - 1"),
        Err(SfenError::InvalidPieceCharactors { .. })
    ));
    assert!(matches!(
        Position::new_from_sfen("4k4/9/9/9/9/9/9/9/4K3 b - 1").map(|p| p.ply()),
        Ok(1)
    ));
    assert!(matches!(
        Position::new_from_sfen("4k4/9/9/9/9/9/9/9/4K4P b - 1"),
        Err(SfenError::InvalidNumberOfFiles { files: 9 })
    ));
    assert!(matches!(
        Position::new_from_sfen("4k4/9/9/9/9/9/9/9/4K5 b - 1"),
        Err(SfenError::InvalidNumberOfEmptySquares { empty_squares: 5 })
    ));
    assert!(matches!(
        Position::new_from_sfen("4k4/9/9/9/9/9/9/9/4K4 b 0P 1"),
        Err(SfenError::InvalidNumberOfHandPieces { number: 0 })
    ));
    assert!(matches!(
        Position::new_from_sfen("4k4/9/9/9/9/9/9/9/4K4 b K 1"),
        Err(SfenError::InvalidHandPieceCharactors { .. })
    ));
    assert!(matches!(
        Position::new_from_sfen("4k4/9/9/9/9/9/9/9/3KK4 b - 1"),
        Err(SfenError::KingIsNotUnique { c: Color::BLACK })
    ));
}

#[test]
fn test_position_do_move() {
    let sfen_and_moves_array = [
        ("4k4/9/9/9/9/9/9/9/4K4 b Bb 1", vec!["B*5g", "B*5c"]),
        (
            "lnsgkgsnl/1r5b1/ppppppppp/9/9/9/PPPPPPPPP/1B5R1/LNSGKGSNL b - 1",
            vec![
                "7g7f", "3c3d", "2g2f", "5c5d", "5g5f", "2b8h+", "7i8h", "B*5g", "B*5c", "8b5b",
                "5c8f+", "5a6b", "3i4h", "5g2d+", "8h7g", "5d5e", "2f2e", "2d3e", "5f5e", "5b5e",
                "P*5g", "7a7b", "7g6f", "5e5a", "3g3f", "3e4d", "2e2d", "2c2d", "2h2d", "3a3b",
                "5i6h", "6b7a", "4g4f", "P*5f", "5g5f", "5a5f", "4i5h", "P*2c", "2d2g", "5f5h+",
                "6i5h", "G*8h", "8i7g", "8h9i", "7g6e", "L*5a", "P*5e", "5a5e", "5h4g", "P*5f",
                "P*5h", "9i9h", "2g2h", "4a5b", "R*3a",
            ],
        ),
    ];
    for (sfen, moves) in sfen_and_moves_array.iter() {
        let mut pos = Position::new_from_sfen(sfen).unwrap();
        for move_str in moves {
            let m = Move::new_from_usi_str(move_str, &pos);
            assert!(m.is_some());
            let m = m.unwrap();
            let gives_check = pos.gives_check(m);
            {
                let before = pos.to_sfen();
                let key = pos.key();
                pos.do_move(m, gives_check);
                pos.undo_move(m);
                assert_eq!(pos.to_sfen(), before);
                assert_eq!(pos.key(), key);
            }
            pos.do_move(m, gives_check);
            assert!(pos.is_repetition() == Repetition::Not);
        }
    }
}

#[test]
fn drops_then_both_bishops_on_board() {
    let mut pos = Position::new_from_sfen("4k4/9/9/9/9/9/9/9/4K4 b Bb 1").unwrap();
    for s in ["B*5g", "B*5c"] {
        let m = Move::new_from_usi_str(s, &pos).unwrap();
        assert!(pos.legal(m));
        let gc = pos.gives_check(m);
        pos.do_move(m, gc);
    }
    assert_eq!(pos.hand(Color::BLACK).num(PieceType::BISHOP), 0);
    assert_eq!(pos.hand(Color::WHITE).num(PieceType::BISHOP), 0);
    assert_eq!(pos.piece_on(Square::new(4, 6)).0, 5);
    assert_eq!(pos.piece_on(Square::new(4, 2)).0, 21);
    assert_eq!(pos.to_sfen(), "4k4/9/4b4/9/9/9/4B4/9/4K4 b - 3".to_string());
}

#[test]
fn capture_goes_to_hand_and_comes_back() {
    let mut pos = Position::new_from_sfen("4k4/9/9/9/4p4/4P4/9/9/4K4 b - 1").unwrap();
    let m = Move::new_from_usi_str("5f5e", &pos).unwrap();
    let key = pos.key();
    let gc = pos.gives_check(m);
    pos.do_move(m, gc);
    assert_eq!(pos.hand(Color::BLACK).num(PieceType::PAWN), 1);
    assert_eq!(pos.captured_piece().0, 17);
    assert_eq!(pos.side_to_move(), Color::WHITE);
    assert_ne!(pos.key(), key);
    pos.undo_move(m);
    assert_eq!(pos.key(), key);
    assert_eq!(pos.to_sfen(), "4k4/9/9/9/4p4/4P4/9/9/4K4 b - 1".to_string());
}

#[test]
fn sfen_round_trip_examples() {
    for s in [
        "8k/9/9/9/9/9/9/9/8K b R2P 1",
        "4k4/9/9/9/9/9/9/9/4K4 w 2b18p 12",
        "+L7R/3pp4/1bSk5/+B2+n3n1/1K1L1s3/1PG6/2+ng1+n2P/2+p6/1+pL2+p1+p1 b R3P2g2sl7p 1",
    ] {
        assert_eq!(Position::new_from_sfen(s).unwrap().to_sfen(), s.to_string());
    }
}

#[test]
fn test_pseudo_legal() {
    let pos = Position::new_from_sfen("4k4/4l4/9/9/4K4/9/9/9/9 b - 1").unwrap();
    let m = Move::new_unpromote(
        Square::new(4, 4),
        Square::new(4, 5),
        shogi_core::types::Piece::new(Color::BLACK, PieceType::KING),
    );
    assert!(!pos.pseudo_legal(m, true));
}

#[test]
fn test_is_repetition() {
    let sfen = "8k/9/9/9/9/9/9/9/8K b R2P 1";
    let moves = [
        ("P*1b", Repetition::Not),
        ("1a2a", Repetition::Not),
        ("1b1a+", Repetition::Not),
        ("2a1a", Repetition::Inferior),
        ("P*1b", Repetition::Superior),
        ("1a2a", Repetition::Inferior),
        ("R*2b", Repetition::Not),
        ("2a3a", Repetition::Not),
        ("2b3b", Repetition::Not),
        ("3a2a", Repetition::Not),
        ("3b2b", Repetition::Win),
        ("2a3a", Repetition::Lose),
    ];
    let mut pos = Position::new_from_sfen(sfen).unwrap();
    for (m, r) in &moves {
        let m = Move::new_from_usi_str(m, &pos).unwrap();
        let gc = pos.gives_check(m);
        pos.do_move(m, gc);
        assert_eq!(pos.is_repetition(), *r);
    }
}

#[test]
fn hand_counts_and_superiority() {
    let mut a = Hand::empty();
    a.plus_one(PieceType::PAWN);
    a.plus_one(PieceType::PAWN);
    a.plus_one(PieceType::ROOK);
    let mut b = Hand::empty();
    b.plus_one(PieceType::PAWN);
    assert_eq!(a.num(PieceType::PAWN), 2);
    assert_eq!(a.num(PieceType::ROOK), 1);
    assert!(a.exist(PieceType::ROOK));
    assert!(!a.exist(PieceType::GOLD));
    assert!(a.is_equal_or_superior(b));
    assert!(!b.is_equal_or_superior(a));
    b.plus_one(PieceType::GOLD);
    assert!(!a.is_equal_or_superior(b));
    assert!(!b.is_equal_or_superior(a));
    b.minus_one(PieceType::GOLD);
    assert!(a.is_equal_or_superior(b));
    assert!(a.is_equal_or_superior(a));
}

#[test]
fn test_huffman_code() {
    let start = "lnsgkgsnl/1r5b1/ppppppppp/9/9/9/PPPPPPPPP/1B5R1/LNSGKGSNL b - 1";
    let pos = Position::new_from_sfen(start).unwrap();
    let hcp = shogi_core::hcp::HuffmanCodedPosition::from(&pos);
    match Position::new_from_huffman_coded_position(&hcp) {
        Ok(pos_from_hcp) => {
            let sfen = pos_from_hcp.to_sfen();
            assert_eq!(start, &sfen);
        }
        Err(_err) => {
            assert!(false);
        }
    }
}

#[test]
fn huffman_round_trip_with_hands() {
    for s in [
        "l6nl/5+P1gk/2np1S3/p1p4Pp/3P2Sp1/1PPb2P1P/P5GS1/R8/LN4bKL w RGgsn5p 1",
        "l4S2l/4g1gs1/5p1p1/pr2N1pkp/4Gn3/PP3PPPP/2GPP4/1K7/L3r+s2L w BS2N5Pb 20",
        "6n1l/2+S1k4/2lp4p/1np1B2b1/3PP4/1N1S3rP/1P2+pPP+p1/1p1G5/3KG2r1 b GSN2L4Pgs2p 399",
    ] {
        let pos = Position::new_from_sfen(s).unwrap();
        let hcp = shogi_core::hcp::HuffmanCodedPosition::from(&pos);
        let back = Position::new_from_huffman_coded_position(&hcp).unwrap();
        assert_eq!(back.to_sfen(), s.to_string());
    }
}

#[test]
fn huffman_refuses_overlapping_kings() {
    let hcp = shogi_core::hcp::HuffmanCodedPosition { buf: [0u8; 32], ply: 1 };
    assert!(Position::new_from_huffman_coded_position(&hcp).is_err());
}

#[test]
fn drop_for_possessions_in_order() {
    let mut l = shogi_core::movegen::MoveList::new();
    let ps = [
        shogi_core::types::Piece::new(Color::BLACK, PieceType::ROOK),
        shogi_core::types::Piece::new(Color::BLACK, PieceType::GOLD),
    ];
    let ts = [Square::new(0, 0), Square::new(3, 4)];
    l.generate_drop_for_possessions(&ps, &ts);
    let names: Vec<String> = l.slice(0).iter().map(|e| e.mv.to_usi_string()).collect();
    assert_eq!(names, vec!["R*1a", "G*1a", "R*4e", "G*4e"]);
}

#[test]
fn test_position_see_ge() {
    let sfen = "k8/5+R3/3b1l3/4s4/6g1+r/4GP3/5LN2/9/K4L3 b - 1";
    let pos = Position::new_from_sfen(sfen).unwrap();
    let to = Square::new(3, 4);
    let m = Move::new_unpromote(
        Square::new(3, 5),
        to,
        shogi_core::types::Piece::new(Color::BLACK, PieceType::PAWN),
    );
    assert_eq!(pos.see_ge(m, 0), true);
}

#[test]
fn see_early_answers() {
    let pos = Position::new_from_sfen("4k4/9/9/4p4/4R4/9/9/9/4K4 b - 1").unwrap();
    let m = Move::new_from_usi_str("5e5d", &pos).unwrap();
    assert!(pos.see_ge(m, 0));
    assert!(!pos.see_ge(m, 1000));
    let pos = Position::new_from_sfen("4k4/9/4g4/4p4/4R4/9/9/9/4K4 b - 1").unwrap();
    let m = Move::new_from_usi_str("5e5d", &pos).unwrap();
    assert!(!pos.see_ge(m, 0));
}

#[test]
fn null_move_passes_and_comes_back() {
    let mut pos =
        Position::new_from_sfen("lnsgkgsnl/1r5b1/ppppppppp/9/9/9/PPPPPPPPP/1B5R1/LNSGKGSNL b - 1").unwrap();
    let key = pos.key();
    pos.do_null_move();
    assert_eq!(pos.side_to_move(), Color::WHITE);
    assert_eq!(pos.key(), key ^ 1);
    assert_eq!(pos.is_repetition(), Repetition::Not);
    pos.undo_null_move();
    assert_eq!(pos.side_to_move(), Color::BLACK);
    assert_eq!(pos.key(), key);
}

#[test]
fn test_position_attackers_to() {
    let sfen = "lnsgkgsnl/1r5b1/ppppppppp/9/9/9/PPPPPPPPP/1B5R1/LNSGKGSNL b - 1";
    let pos = Position::new_from_sfen(sfen).unwrap();
    assert_eq!(pos.to_sfen(), sfen.to_string());
    let attackers = pos.attackers_to(Color::WHITE, Square::new(4, 1));
    assert_eq!(attackers.count_ones(), 4);
    assert!(attackers.is_set(Square::new(3, 0)));
    assert!(attackers.is_set(Square::new(4, 0)));
    assert!(attackers.is_set(Square::new(5, 0)));
    assert!(attackers.is_set(Square::new(7, 1)));

    let sfen = "k8/5+R3/3b1l3/4s4/5pg1+r/4GP3/5LN2/9/K4L3 b - 1";
    let pos = Position::new_from_sfen(sfen).unwrap();
    let to = Square::new(3, 4);
    let attackers = pos.attackers_to_both_color(to);
    assert_eq!(attackers.count_ones(), 6);
    assert!(attackers.is_set(Square::new(2, 4)));
    assert!(attackers.is_set(Square::new(2, 6)));
    assert!(attackers.is_set(Square::new(3, 2)));
    assert!(attackers.is_set(Square::new(3, 5)));
    assert!(attackers.is_set(Square::new(4, 3)));
    assert!(attackers.is_set(Square::new(4, 5)));
}

#[test]
fn colors_and_kinds_split_the_occupied_squares() {
    let pos = Position::new_from_sfen(
        "l6nl/5+P1gk/2np1S3/p1p4Pp/3P2Sp1/1PPb2P1P/P5GS1/R8/LN4bKL w RGgsn5p 1",
    )
    .unwrap();
    let occ = pos.occupied_bb();
    let b = pos.pieces_c(Color::BLACK);
    let w = pos.pieces_c(Color::WHITE);
    assert_eq!(b.or(w), occ);
    assert!(!b.and(w).to_bool());
    assert_eq!(occ.count_ones() + pos.empty_bb().count_ones(), 81);
    let mut all = Bitboard::zero();
    let kinds = [
        PieceType::PAWN, PieceType::LANCE, PieceType::KNIGHT, PieceType::SILVER, PieceType::BISHOP,
        PieceType::ROOK, PieceType::GOLD, PieceType::KING, PieceType::PRO_PAWN, PieceType::PRO_LANCE,
        PieceType::PRO_KNIGHT, PieceType::PRO_SILVER, PieceType::HORSE, PieceType::DRAGON,
    ];
    for (i, &a) in kinds.iter().enumerate() {
        for &c in &kinds[i + 1..] {
            assert!(!pos.pieces_p(a).and(pos.pieces_p(c)).to_bool());
        }
        all = all.or(pos.pieces_p(a));
    }
    assert_eq!(all, occ);
    assert_eq!(pos.pieces_cp(Color::BLACK, PieceType::KING).count_ones(), 1);
    assert_eq!(pos.pieces_cp(Color::WHITE, PieceType::KING).count_ones(), 1);
    assert_eq!(pos.pieces_golds().count_ones(), 3);
    assert!(!pos.checkers().to_bool());
}

#[test]
fn bitboard_set_operations() {
    let mut a = Bitboard::zero();
    a.set(Square::new(0, 0));
    a.set(Square::new(8, 8));
    a.set(Square::new(7, 0));
    let mut b = Bitboard::zero();
    b.set(Square::new(8, 8));
    b.set(Square::new(4, 4));
    assert_eq!(a.count_ones(), 3);
    assert_eq!(a.and(b).count_ones(), 1);
    assert_eq!(a.or(b).count_ones(), 4);
    assert_eq!(a.xor(b).count_ones(), 3);
    assert_eq!(a.not().count_ones(), 78);
    assert_eq!(a.lsb(), Square::new(0, 0));
    let sq: Vec<u8> = a.squares().iter().map(|s| s.0).collect();
    assert_eq!(sq, vec![0, 63, 80]);
    assert!(a.is_set(Square::new(7, 0)));
    assert!(!a.is_set(Square::new(7, 1)));
    assert!(!Bitboard::zero().to_bool());
}

#[test]
fn test_position_slider_blockers() {
    let sfen = "4k4/4l4/4P4/9/4K4/9/9/9/9 b - 1";
    let pos = Position::new_from_sfen(sfen).unwrap();
    assert_eq!(pos.to_sfen(), sfen.to_string());
    let (blockers, pinners) = pos.slider_blockers_and_pinners(
        &pos.pieces_c(Color::WHITE),
        Color::WHITE,
        pos.king_square(Color::BLACK),
    );
    let mut b = Bitboard::zero();
    b.set(Square::new(4, 2));
    let mut p = Bitboard::zero();
    p.set(Square::new(4, 1));
    assert_eq!(blockers, b);
    assert_eq!(pinners, p);
    assert_eq!(pos.blockers_for_king(Color::BLACK), b);
    assert_eq!(pos.pinners_for_king(Color::BLACK), p);
    assert!(!pos.blockers_for_king(Color::WHITE).to_bool());
}

#[test]
fn capture_predicates() {
    let pos = Position::new_from_sfen("4k4/9/9/4p4/4P4/9/2P6/9/4K4 b - 1").unwrap();
    let take = Move::new_from_usi_str("5e5d", &pos).unwrap();
    assert!(take.is_capture(&pos));
    assert!(take.is_capture_or_pawn_promotion(&pos));
    let quiet = Move::new_from_usi_str("7g7f", &pos).unwrap();
    assert!(!quiet.is_capture(&pos));
    assert!(!quiet.is_capture_or_pawn_promotion(&pos));
}

#[test]
fn material_counts_board_and_hands() {
    let mut pos =
        Position::new_from_sfen("lnsgkgsnl/1r5b1/ppppppppp/9/9/9/PPPPPPPPP/1B5R1/LNSGKGSNL b - 1").unwrap();
    assert_eq!(pos.material(), 0);
    for s in ["7g7f", "3c3d", "8h2b+"] {
        let m = Move::new_from_usi_str(s, &pos).unwrap();
        let gc = pos.gives_check(m);
        pos.do_move(m, gc);
    }
    // Black's bishop became a horse (945 - 855) and took White's bishop
    // (855 off White's board, 855 into Black's hand).
    assert_eq!(pos.material(), 90 + 855 + 855);
    let pos = Position::new_from_sfen("4k4/9/9/9/9/9/9/9/4K4 b 2P 1").unwrap();
    assert_eq!(pos.material(), 180);
}

#[test]
fn test_position_gives_check() {
    const CHECK: bool = true;
    const NOT_CHECK: bool = false;
    let array = [
        (
            "8k/9/9/9/9/9/9/9/K8 b Rr 1",
            vec![("R*1b", CHECK), ("R*1h", CHECK), ("R*2b", NOT_CHECK)],
        ),
        (
            "8k/9/9/9/9/9/9/9/K8 w Rr 1",
            vec![("R*9h", CHECK), ("R*9b", CHECK), ("R*8h", NOT_CHECK)],
        ),
        (
            "8k/9/9/9/9/9/9/8G/K7L b Rr 1",
            vec![("1h2h", CHECK), ("1h1g", NOT_CHECK)],
        ),
    ];
    for (sfen, move_candidates) in array.iter() {
        let pos = Position::new_from_sfen(sfen).unwrap();
        for &(move_str, is_check) in move_candidates {
            let m = Move::new_from_usi_str(move_str, &pos);
            assert!(m.is_some());
            assert_eq!(pos.gives_check(m.unwrap()), is_check);
        }
    }
}

#[test]
fn test_position_min_attacker() {
    let sfen = "k8/9/3b1l3/4s4/5pg1+r/4GP3/5RN2/5L3/K4L3 b - 1";
    let pos = Position::new_from_sfen(sfen).unwrap();
    let to = Square::new(3, 4);
    let mut board = pos.board.clone();
    let mut us = pos.side_to_move();
    let expected = [
        Some(PieceType::PAWN),
        Some(PieceType::LANCE),
        Some(PieceType::KNIGHT),
        Some(PieceType::SILVER),
        Some(PieceType::GOLD),
        Some(PieceType::GOLD),
        Some(PieceType::ROOK),
        Some(PieceType::BISHOP),
        Some(PieceType::LANCE),
        Some(PieceType::DRAGON),
        Some(PieceType::LANCE),
        None,
    ];
    for want in expected.iter() {
        let ksq = pos.king_square(us).0;
        let s = shogi_core::see::min_attacker(&board, us, to.0, ksq);
        match want {
            Some(pt) => {
                assert!(s < 81);
                assert_eq!(PieceType::new(board[s as usize]), *pt);
                board[s as usize] = shogi_core::types::Piece::empty();
            }
            None => assert_eq!(s, 81),
        }
        us = us.inverse();
    }
}

#[test]
fn attackers_except_king_variants() {
    let pos = Position::new_from_sfen("4k4/9/9/9/4p4/3GKL3/9/9/9 w - 1").unwrap();
    let sq = Square::new(4, 4);
    assert_eq!(pos.attackers_to(Color::BLACK, sq).count_ones(), 2);
    assert_eq!(pos.attackers_to_except_king(Color::BLACK, sq).count_ones(), 1);
    let pos = Position::new_from_sfen("4k4/9/9/9/4p4/3GPL3/9/9/4K4 w - 1").unwrap();
    assert_eq!(pos.attackers_to_except_king_lance_pawn(Color::BLACK, sq).count_ones(), 1);
    assert_eq!(pos.attackers_to_except_king(Color::BLACK, sq).count_ones(), 2);
}

#[test]
fn check_squares_of_a_gold() {
    let pos = Position::new_from_sfen("4k4/9/9/9/9/9/9/9/4K4 b G 1").unwrap();
    let bb = pos.check_squares(PieceType::GOLD);
    assert_eq!(bb.count_ones(), 5);
    assert!(bb.is_set(Square::new(4, 1)));
    assert!(bb.is_set(Square::new(3, 0)));
    assert!(!bb.is_set(Square::new(4, 2)));
}
