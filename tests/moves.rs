use shogi_core::movegen::{GenType, MoveList};
use shogi_core::moves::{IsNormalMove, Move};
use shogi_core::position::Position;
use shogi_core::types::{Color, Piece, PieceType, Square};

fn pc(c: Color, pt: PieceType) -> Piece {
    Piece::new(c, pt)
}

// Squares are written by 0-based file and rank: "7g" is Square::new(6, 6).
#[test]
fn test_move_new() {
    assert_eq!(
        Move::new_unpromote(Square::new(6, 6), Square::new(6, 5), pc(Color::BLACK, PieceType::PAWN))
            .to_usi_string(),
        "7g7f".to_string()
    );
    assert_eq!(
        Move::new_promote(Square::new(6, 3), Square::new(6, 2), pc(Color::BLACK, PieceType::PAWN))
            .to_usi_string(),
        "7d7c+".to_string()
    );
    assert_eq!(
        Move::new_drop(pc(Color::BLACK, PieceType::PAWN), Square::new(6, 5)).to_usi_string(),
        "P*7f".to_string()
    );
    assert_eq!(
        Move::new_drop(pc(Color::WHITE, PieceType::PAWN), Square::new(6, 5)).to_usi_string(),
        "P*7f".to_string()
    );
}

#[test]
fn test_move_null() {
    assert!(!Move::null().is_promotion());
    assert!(Move::null().from() == Move::null().to());
}

#[test]
fn test_move_piece_moved() {
    for &p in &[
        pc(Color::BLACK, PieceType::PAWN),
        pc(Color::BLACK, PieceType::SILVER),
        pc(Color::WHITE, PieceType::ROOK),
    ] {
        let (from, to) = if Color::new(p) == Color::BLACK {
            (Square::new(1, 3), Square::new(1, 2))
        } else {
            (Square::new(1, 5), Square::new(1, 6))
        };
        assert_eq!(Move::new_promote(from, to, p).piece_moved_before_move(), p);
        assert_eq!(Move::new_promote(from, to, p).piece_moved_after_move(), p.to_promote());
        assert_eq!(Move::new_unpromote(from, to, p).piece_moved_before_move(), p);
        assert_eq!(Move::new_unpromote(from, to, p).piece_moved_after_move(), p);
        assert_eq!(Move::new_drop(p, to).piece_moved_before_move(), p);
        assert_eq!(Move::new_drop(p, to).piece_moved_after_move(), p);
    }
}

#[test]
fn test_is_normal_move() {
    assert!(!None.is_normal_move());
    assert!(!Some(Move::null()).is_normal_move());
    assert!(!Some(Move::win()).is_normal_move());
    assert!(!Some(Move::resign()).is_normal_move());
    assert!(Some(Move::new_unpromote(
        Square::new(0, 0),
        Square::new(0, 1),
        pc(Color::WHITE, PieceType::PAWN)
    ))
    .is_normal_move());
    assert!(Some(Move::new_drop(pc(Color::BLACK, PieceType::PAWN), Square::new(0, 1))).is_normal_move());
}

#[test]
fn move_fields_read_back() {
    let m = Move::new_promote(Square::new(7, 7), Square::new(1, 1), pc(Color::BLACK, PieceType::BISHOP));
    assert_eq!(m.from(), Square::new(7, 7));
    assert_eq!(m.to(), Square::new(1, 1));
    assert!(m.is_promotion());
    assert!(!m.is_drop());
    assert!(!m.is_pawn_promotion());
    assert_eq!(m.to_usi_string(), "8h2b+".to_string());
    let d = Move::new_drop(pc(Color::WHITE, PieceType::GOLD), Square::new(4, 4));
    assert!(d.is_drop());
    assert_eq!(d.piece_type_dropped(), PieceType::GOLD);
    assert_eq!(d.piece_dropped(), pc(Color::WHITE, PieceType::GOLD));
    let p = Move::new_promote(Square::new(2, 3), Square::new(2, 2), pc(Color::BLACK, PieceType::PAWN));
    assert!(p.is_pawn_promotion());
}

#[test]
fn move_list_push_contains_slice() {
    let mut l = MoveList::new();
    let a = Move::new_drop(pc(Color::BLACK, PieceType::PAWN), Square::new(4, 4));
    let b = Move::new_unpromote(Square::new(6, 6), Square::new(6, 5), pc(Color::BLACK, PieceType::PAWN));
    l.push(a);
    l.push(b);
    assert_eq!(l.size, 2);
    assert!(l.contains(a));
    assert!(l.contains(b));
    assert!(!l.contains(Move::null()));
    assert_eq!(l.slice(1).len(), 1);
    assert_eq!(l.slice(1)[0].mv, b);
    l.slice_mut(0)[0].score = 7;
    assert_eq!(l.slice(0)[0].score, 7);
}

#[test]
fn test_pawn_drop_mate() {
    let pos = Position::new_from_sfen("kl7/1n7/K8/9/9/9/9/9/9 b P 1").unwrap();
    let mut mlist = MoveList::new();
    mlist.generate(&pos, 0, GenType::Legals);
    assert!(mlist
        .slice(0)
        .iter()
        .find(|x| x.mv.to_csa_string(&pos) == "0092FU")
        .is_none());
}

#[test]
fn start_position_has_thirty_legal_moves() {
    let pos =
        Position::new_from_sfen("lnsgkgsnl/1r5b1/ppppppppp/9/9/9/PPPPPPPPP/1B5R1/LNSGKGSNL b - 1").unwrap();
    let mut mlist = MoveList::new();
    mlist.generate(&pos, 0, GenType::Legals);
    assert_eq!(mlist.size, 30);
}

#[test]
fn generated_moves_are_pseudo_legal_and_legal() {
    let pos = Position::new_from_sfen(
        "l6nl/5+P1gk/2np1S3/p1p4Pp/3P2Sp1/1PPb2P1P/P5GS1/R8/LN4bKL w GR5pnsg 1",
    )
    .unwrap();
    let mut mlist = MoveList::new();
    mlist.generate(&pos, 0, GenType::Legals);
    assert!(mlist.size > 0);
    for e in mlist.slice(0) {
        assert!(pos.pseudo_legal(e.mv, true));
        assert!(pos.legal(e.mv));
    }
}

#[test]
fn no_pawn_drop_on_file_with_own_pawn() {
    let pos = Position::new_from_sfen("4k4/9/9/9/9/9/4P4/9/4K4 b P 1").unwrap();
    let mut mlist = MoveList::new();
    mlist.generate(&pos, 0, GenType::Legals);
    for e in mlist.slice(0) {
        if e.mv.is_drop() {
            assert_ne!(e.mv.to().file_index(), 4);
        }
    }
    assert!(mlist.slice(0).iter().any(|e| e.mv.to_usi_string() == "P*4e"));
}

#[test]
fn no_unpromoted_move_to_dead_rank() {
    let pos = Position::new_from_sfen("4k4/L1N6/1P7/9/9/9/9/9/4K4 b - 1").unwrap();
    let mut mlist = MoveList::new();
    mlist.generate(&pos, 0, GenType::Legals);
    let names: Vec<String> = mlist.slice(0).iter().map(|e| e.mv.to_usi_string()).collect();
    assert!(names.contains(&"9b9a+".to_string()));
    assert!(!names.contains(&"9b9a".to_string()));
    assert!(!names.contains(&"8c8b".to_string()));
    assert!(names.contains(&"8c8b+".to_string()));
    assert!(!names.iter().any(|n| n.starts_with("7b") && !n.ends_with('+')));
}

#[test]
fn double_check_leaves_only_king_moves() {
    let pos = Position::new_from_sfen("4k4/9/9/9/4r3b/9/9/9/4K4 b G 1").unwrap();
    assert!(pos.in_check());
    let mut mlist = MoveList::new();
    mlist.generate(&pos, 0, GenType::Legals);
    assert!(mlist.size > 0);
    for e in mlist.slice(0) {
        assert!(!e.mv.is_drop());
        assert_eq!(e.mv.from(), pos.king_square(Color::BLACK));
    }
}

#[test]
fn test_generate_all() {
    let sfen = "l6nl/5+P1gk/2np1S3/p1p4Pp/3P2Sp1/1PPb2P1P/P5GS1/R8/LN4bKL w GR5pnsg 1";
    let pos = Position::new_from_sfen(sfen).unwrap();

    let mut mlist = MoveList::new();
    mlist.generate(&pos, 0, GenType::NonEvasions);
    assert_eq!(mlist.size, 199);

    let mut mlist = MoveList::new();
    mlist.generate(&pos, 0, GenType::CaptureOrPawnPromotions);
    assert_eq!(mlist.size, 2);

    let mut mlist = MoveList::new();
    mlist.generate(&pos, 0, GenType::QuietsWithoutPawnPromotions);
    assert_eq!(mlist.size, 197);
}

#[test]
fn generation_keeps_the_prefix() {
    let pos = Position::new_from_sfen("4k4/9/9/9/9/9/9/9/4K4 b - 1").unwrap();
    let mut mlist = MoveList::new();
    let extra = Move::null();
    mlist.push(extra);
    mlist.generate(&pos, 1, GenType::Legals);
    assert_eq!(mlist.slice(0)[0].mv, extra);
    assert_eq!(mlist.size, 1 + 5);
}

#[test]
fn test_move_new_from_csa_str() {
    let sfen = "lnsgkgsnl/1r5b1/ppppppppp/9/9/9/PPPPPPPPP/1B5R1/LNSGKGSNL b - 1";
    let pos = Position::new_from_sfen(sfen).unwrap();

    let m_str = "7776FU";
    if let Some(m) = Move::new_from_csa_str(m_str, &pos) {
        assert_eq!(m.to_csa_string(&pos), m_str);
    } else {
        assert!(false);
    }
    let m_str_illegal = "7775FU";
    assert!(Move::new_from_csa_str(m_str_illegal, &pos).is_none());
}

#[test]
fn csa_promotion_and_drop() {
    let pos = Position::new_from_sfen("4k4/9/9/9/9/9/9/1B7/4K4 b G 1").unwrap();
    let m = Move::new_from_csa_str("8822UM", &pos).unwrap();
    assert!(m.is_promotion());
    assert_eq!(m.to_usi_string(), "8h2b+".to_string());
    let d = Move::new_from_csa_str("0052KI", &pos).unwrap();
    assert!(d.is_drop());
    assert_eq!(d.to_csa_string(&pos), "0052KI".to_string());
    assert!(Move::new_from_csa_str("8822KA", &pos).is_some());
    assert!(Move::new_from_csa_str("0052HI", &pos).is_none());
}

#[test]
fn test_generate_drop() {
    let sfen = "l6nl/5+P1gk/2np1S3/p1p4Pp/3P2Sp1/1PPb2P1P/P5GS1/R8/LN4bKL w GR5pnsg 1";
    let pos = Position::new_from_sfen(sfen).unwrap();
    let mut mlist = MoveList::new();
    mlist.generate(&pos, 0, GenType::QuietsWithoutPawnPromotions);
    assert_eq!(mlist.slice(0).iter().filter(|x| x.mv.is_drop()).count(), 167);

    let sfen = "l5+R2/1k2r2p1/1sngn4/l1ppp2P1/5pp2/lPPPP4/1KSG4P/1SSB5/1N1G4+b w GLPn5p 130";
    let pos = Position::new_from_sfen(sfen).unwrap();
    let mut mlist = MoveList::new();
    mlist.generate(&pos, 0, GenType::QuietsWithoutPawnPromotions);
    assert!(mlist
        .slice(0)
        .iter()
        .find(|&x| x.mv.is_drop() && x.mv.to_csa_string(&pos) == "0081FU")
        .is_some());
    assert!(Move::new_from_csa_str(&"0081FU", &pos).is_some());

    let sfen = "ln3G2l/7k1/3pgsn2/2p2bpp1/p4p3/3sSbn1P/P2P1GPP1/2+r3S1K/L3RG1NL w P6p 106";
    let pos = Position::new_from_sfen(sfen).unwrap();
    let mut mlist = MoveList::new();
    mlist.generate(&pos, 0, GenType::QuietsWithoutPawnPromotions);
    assert!(mlist
        .slice(0)
        .iter()
        .find(|&x| x.mv.is_drop() && x.mv.to_csa_string(&pos) == "0017FU")
        .is_some());
    assert!(Move::new_from_csa_str(&"0017FU", &pos).is_some());
}

#[test]
fn test_generate_evasion() {
    let sfen = "9/4k4/r8/3b5/4L4/9/9/9/4K4 w pnsg 1";
    let pos = Position::new_from_sfen(sfen).unwrap();

    let mut mlist = MoveList::new();
    mlist.generate(&pos, 0, GenType::Evasions);
    assert_eq!(mlist.size, 17);
    assert_eq!(
        mlist
            .slice(0)
            .iter()
            .filter(|&x| x.mv.piece_moved_before_move() == pc(Color::WHITE, PieceType::ROOK))
            .count(),
        1
    );
    assert_eq!(
        mlist
            .slice(0)
            .iter()
            .filter(|&x| x.mv.piece_moved_before_move() == pc(Color::WHITE, PieceType::BISHOP))
            .count(),
        2
    );
    assert_eq!(
        mlist
            .slice(0)
            .iter()
            .filter(|&x| x.mv.piece_moved_before_move() == pc(Color::WHITE, PieceType::KING))
            .count(),
        6
    );
    assert_eq!(mlist.slice(0).iter().filter(|&x| x.mv.is_drop()).count(), 8);
}

#[test]
fn test_generate_recaptures() {
    let sfen = "k1B1R1+B2/9/4p+R3/3SPG3/3N5/9/9/9/K8 b p 1";
    let pos = Position::new_from_sfen(sfen).unwrap();
    let mut mlist = MoveList::new();
    let capture_square = Square::new(4, 2);
    mlist.generate_recaptures(&pos, capture_square);
    let names: Vec<String> = mlist.slice(0).iter().map(|x| x.mv.to_csa_string(&pos)).collect();
    for m in ["4453KI", "5453TO", "6453NG", "6553NK", "7153UM", "5153RY", "4353RY", "3153UM"] {
        assert!(names.iter().any(|n| n == m), "{}", m);
    }
    for m in ["7153KA", "6553KE", "5453FU", "6453GI"] {
        assert!(!names.iter().any(|n| n == m), "{}", m);
    }
}

#[test]
fn evasions_only_in_check() {
    let pos = Position::new_from_sfen("4k4/9/9/9/9/9/9/9/4K4 b G 1").unwrap();
    let mut mlist = MoveList::new();
    mlist.generate(&pos, 0, GenType::Evasions);
    assert_eq!(mlist.size, 0);
}
