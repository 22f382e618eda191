use shogi_core::position::Position;

fn mate(sfen: &str) -> Option<String> {
    let pos = Position::new_from_sfen(sfen).unwrap();
    pos.mate_move_in_1ply().map(|m| m.to_usi_string())
}

#[test]
fn test_mate_move_in_1ply() {
    assert_eq!(mate("8k/9/8P/9/9/9/9/9/8K b G 1"), Some("G*1b".to_string()));
    assert_eq!(mate("8k/9/9/9/9/9/9/9/8K b G 1"), None);
    assert_eq!(mate("7bk/9/8P/9/9/9/9/9/8K b G 1"), None);
    assert_eq!(mate("6Rbk/9/8P/9/9/9/9/9/8K b G 1"), Some("G*1b".to_string()));
    assert_eq!(mate("8k/9/8P/9/9/9/9/9/8K b L 1"), None);
    assert_eq!(mate("7nk/7n1/8P/9/9/9/9/9/8K b L 1"), Some("L*1b".to_string()));
    assert_eq!(mate("7nk/7n1/8P/9/9/9/9/9/8K b RL 1"), Some("R*1b".to_string()));
    assert_eq!(mate("7k1/R8/9/9/9/9/9/9/8K b S 1"), None);
    assert_eq!(mate("7pk/7bp/9/9/9/9/9/9/8K b N 1"), Some("N*2c".to_string()));
    assert_eq!(mate("7pk/7bs/9/9/9/9/9/8L/8K b N 1"), Some("N*2c".to_string()));
    assert_eq!(mate("7pk/7bs/9/9/9/9/9/9/8K b N 1"), None);
    assert_eq!(mate("7pk/7nn/9/9/8N/9/9/9/8K b - 1"), Some("1e2c".to_string()));
    assert_eq!(mate("7pk/7nn/9/8s/8N/9/9/9/8K b - 1"), None);
    assert_eq!(mate("7pk/7nn/9/8l/8N/9/9/9/8K b - 1"), None);
    assert_eq!(mate("8k/7nn/9/9/8N/9/9/9/8K b - 1"), None);
    assert_eq!(mate("7nk/7pn/9/9/8N/9/9/9/B7K b - 1"), Some("1e2c".to_string()));
    assert_eq!(mate("8k/9/8P/8L/9/9/9/9/8K b - 1"), Some("1c1b+".to_string()));
    assert_eq!(mate("7k1/9/7P1/7L1/9/9/9/9/1K7 b - 1"), Some("2c2b+".to_string()));
    assert_eq!(mate("7k1/8g/7P1/7L1/9/9/9/9/1K7 b - 1"), None);
    assert_eq!(mate("7k1/8b/7P1/7L1/9/9/9/9/1K7 b - 1"), None);
    assert_eq!(mate("7p1/7lk/7ll/8L/9/9/9/9/8K b - 1"), None);
    assert_eq!(mate("7p1/7lk/7ll/7BL/9/9/9/9/8K b - 1"), Some("1d1c".to_string()));
    assert_eq!(
        mate("ln5nl/4g2G1/pr1p1skpp/2P2psR1/1SpPp3B/Pp4G1P/N3PbN2/2G6/L3K3L b Ps4p 1"),
        Some("2d2c+".to_string())
    );
    assert_eq!(
        mate("+L7R/3pp4/1bSk5/+B2+n3n1/1K1L1s3/1PG6/2+ng1+n2P/2+p6/1+pL2+p1+p1 b R3P2g2sl7p 1"),
        None
    );
    assert_eq!(
        mate("3+rn4/RP6+S/2p2+Pp1p/4P2k1/4K+P3/p1P+p2PP1/+p4+pB2/S+p1+p+n+b2P/4S3+p w 3G2N2Lgs2l 1"),
        None
    );
    assert_eq!(
        mate("4l1l1p/G+P2+L4/2+P1+PpS+S+S/l3p1K2/1G+p3+P1k/+p+bp1+p2P+p/5g2+p/G2+BP2S1/1+p1+p1PN2 w RNr2n 1"),
        None
    );
    assert_eq!(
        mate("2g1+Pp3/+P2+Pn1g2/1gkLK1n2/9/+P1+PS1P3/pl1P2+p2/1LP1N+s+pp1/PP2P2SL/N2S2PPg b 2R2B 1"),
        None
    );
    assert_eq!(
        mate("5pp2/prp1l2+Pl/1SSpnk3/1K7/3+P+p2+P1/1P7/P1g+lpNR2/1p2PL2P/3+p1P1P1 b G2SN2b2gn 1"),
        Some("4g5e".to_string())
    );
}

#[test]
fn test_is_entering_king_win() {
    let cases = [
        ("1p7/KRRBBPPPP/NN7/9/9/9/9/9/8k b 2P 1", true),
        ("1p7/KRRBBPPPP/NN7/9/9/9/9/9/8k w 2P 1", false),
        ("pp7/KRRBBPPPP/NN7/9/9/9/9/9/8k b 2P 1", false),
        ("1p7/1RRBBPPPP/NNN6/K8/9/9/9/9/8k b 2P 1", false),
        ("1p7/KRRBBPPPP/N8/9/9/9/9/9/8k b 3P 1", false),
        ("1p7/KRRBBPPPP/N8/N8/9/9/9/9/8k b 2P 1", false),
        ("1pGGGGS2/KRRB1PPPP/N8/N8/9/9/9/9/8k b 2P 1", false),
        ("K8/9/9/9/9/9/nn7/krrbbpppp/1P7 w p 2", true),
        ("K8/9/9/9/9/9/nn7/krrbbpppp/1P7 b p 2", false),
        ("K8/9/9/9/9/9/nn7/krrbbpppp/PP7 w p 2", false),
        ("K8/9/9/9/9/k8/nn7/1rrbbpppp/1P7 w p 2", false),
        ("K8/9/9/9/9/9/n8/krrbbpppp/1P7 w 2p 2", false),
        ("K8/9/9/9/9/n8/n8/krrbbpppp/1P7 w p 2", false),
        ("K8/9/9/9/9/n8/n8/krrb1pppp/1Pggggs2 w p 2", false),
        ("1p7/KRRBPPPPP/NN7/9/9/9/9/9/8k b BP 1", true),
        ("1p7/KR+RB+PPPPP/NN7/9/9/9/9/9/8k b BP 1", true),
        ("1p7/KRRBPPPPP/NN7/9/9/9/9/9/8k w BP 1", false),
        ("pp7/KRRBPPPPP/NN7/9/9/9/9/9/8k b BP 1", false),
        ("1p7/1RRBPPPPP/NNN6/K8/9/9/9/9/8k b BP 1", false),
        ("1p7/KRRBPPPPP/N8/9/9/9/9/9/8k b B2P 1", false),
        ("1pGGGGS2/KR1BPPPPP/N8/N8/9/9/9/9/8k b BP 1", false),
        ("K8/9/9/9/9/9/nn7/krrbppppp/1P7 w b 2", true),
        ("K8/9/9/9/9/9/nn7/kr+rb+ppppp/1P7 w b 2", true),
        ("K8/9/9/9/9/9/nn7/krrbppppp/1P7 b b 1", false),
        ("K8/9/9/9/9/9/nn7/krrbppppp/PP7 w b 2", false),
        ("K8/9/9/9/9/k8/nnn6/1rrbppppp/1P w b 2", false),
        ("K8/9/9/9/9/9/n8/krrbppppp/1P7 w bp 2", false),
        ("K8/9/9/9/9/n8/n8/kr1bppppp/1Pggggs2 w b 2", false),
    ];
    for (sfen, expected) in cases.iter() {
        let pos = Position::new_from_sfen(sfen).unwrap();
        assert_eq!(pos.is_entering_king_win(), *expected, "{}", sfen);
    }
}
