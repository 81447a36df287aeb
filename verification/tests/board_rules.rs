use chess_pos_analyzer::board::{legal_moves, load_position, move_captures, parse_move, san, turn};
use chess_pos_analyzer::{
    color_to_str, forcing_counts, pv_to_san, tactical_flags, Board, DepthEval, LoadError,
    MoveError, PvError, Side,
};

const START: &str = "rnbqkbnr/pppppppp/8/8/8/8/PPPPPPPP/RNBQKBNR w KQkq - 0 1";

fn strings(v: &[&str]) -> Vec<String> {
    v.iter().map(|s| s.to_string()).collect()
}

fn board(fen: &str) -> Board {
    load_position(fen).unwrap()
}

#[test]
fn positions_load_or_say_why_not() {
    assert_eq!(turn(&board(START)), Side::White);
    assert_eq!(
        turn(&board("r2q1rk1/p3ppbp/2pp1np1/4n3/4P3/1PN3PP/P4PB1/R1BQ1RK1 b - - 0 14")),
        Side::Black
    );
    assert!(matches!(load_position("not a fen"), Err(LoadError::InvalidFen)));
    assert!(matches!(load_position("8/8/8/8/8/8/8/8 w - - 0 1"), Err(LoadError::InvalidPosition)));
    assert_eq!(color_to_str(Side::White), "w");
    assert_eq!(color_to_str(Side::Black), "b");
}

#[test]
fn legal_moves_are_listed_in_uci() {
    let b = board(START);
    let moves = legal_moves(&b);
    assert_eq!(moves.len(), 20);
    assert!(moves.contains(&"e2e4".to_string()));
    assert!(moves.contains(&"g1f3".to_string()));
    for m in &moves {
        assert!(parse_move(&b, m).is_ok());
    }
    assert!(matches!(parse_move(&b, "e2e5"), Err(MoveError::Illegal)));
    assert!(matches!(parse_move(&b, "zz"), Err(MoveError::InvalidUci)));
    let castle = board("r3k2r/8/8/8/8/8/8/R3K2R w KQkq - 0 1");
    let moves = legal_moves(&castle);
    assert!(moves.contains(&"e1g1".to_string()));
    assert!(moves.contains(&"e1c1".to_string()));
}

#[test]
fn principal_variation_in_san() {
    let b = board(START);
    let sans = pv_to_san(&b, &strings(&["e2e4", "e7e5", "g1f3", "b8c6", "f1b5"])).unwrap();
    assert_eq!(sans, vec!["e4", "e5", "Nf3", "Nc6", "Bb5"]);
    let castle = board("r3k2r/8/8/8/8/8/8/R3K2R w KQkq - 0 1");
    assert_eq!(pv_to_san(&castle, &strings(&["e1g1", "e8c8"])).unwrap(), vec!["O-O", "O-O-O"]);
    assert!(pv_to_san(&b, &[]).unwrap().is_empty());
    match pv_to_san(&b, &strings(&["e2e4", "zz"])) {
        Err(PvError::InvalidUciMove(m)) => assert_eq!(m, "zz"),
        other => panic!("unexpected {other:?}"),
    }
    match pv_to_san(&b, &strings(&["e2e4", "e2e4"])) {
        Err(PvError::IllegalMove(m)) => assert_eq!(m, "e2e4"),
        other => panic!("unexpected {other:?}"),
    }
    let ep = board("4k3/8/8/8/3p4/8/4P3/4K3 w - - 0 1");
    assert_eq!(pv_to_san(&ep, &strings(&["e2e4", "d4e3", "e1e2"])).unwrap(), vec!["e4", "dxe3", "Ke2"]);
    assert_eq!(san(&b, &parse_move(&b, "g1f3").unwrap()), "Nf3");
    assert_eq!(
        pv_to_san(&b, &strings(&["f2f3", "e7e5", "g2g4", "d8h4"])).unwrap(),
        vec!["f3", "e5", "g4", "Qh4#"]
    );
    assert_eq!(pv_to_san(&b, &strings(&["e2e4", "f7f6", "d1h5"])).unwrap(), vec!["e4", "f6", "Qh5+"]);
    let check = board("4k3/8/8/8/8/8/8/4K2R w K - 0 1");
    assert_eq!(san(&check, &parse_move(&check, "h1h8").unwrap()), "Rh8");
    assert_eq!(pv_to_san(&check, &strings(&["h1h8"])).unwrap(), vec!["Rh8+"]);
}

#[test]
fn tactical_flags_of_moves() {
    let b = board("4k3/1P6/8/3p4/4P3/8/8/4K2R w K - 0 1");
    let f = tactical_flags(&b, &parse_move(&b, "e4d5").unwrap());
    assert!(f.candidate_is_capture && !f.candidate_is_check && !f.candidate_is_promotion);
    let f = tactical_flags(&b, &parse_move(&b, "b7b8q").unwrap());
    assert!(f.candidate_is_promotion && f.candidate_is_check && !f.candidate_is_capture);
    let f = tactical_flags(&b, &parse_move(&b, "h1h8").unwrap());
    assert!(f.candidate_is_check && !f.candidate_is_capture);
    let f = tactical_flags(&b, &parse_move(&b, "e1g1").unwrap());
    assert!(!f.candidate_is_capture && !f.candidate_is_check);
    assert!(move_captures(&b, &parse_move(&b, "e4d5").unwrap()));
    assert!(!move_captures(&b, &parse_move(&b, "e4e5").unwrap()));
    let ep = board("4k3/8/8/3Pp3/8/8/8/4K3 w - e6 0 1");
    let f = tactical_flags(&ep, &parse_move(&ep, "d5e6").unwrap());
    assert!(!f.candidate_is_capture);
    assert_eq!(turn(&ep), Side::White);
}

#[test]
fn forcing_counts_walk_the_variation() {
    let b = board(START);
    let eval = DepthEval {
        depth: 20,
        score_cp: Some(0),
        mate_in: None,
        pv_uci: strings(&["e2e4", "d7d5", "e4d5", "d8d5", "zz", "b1c3", "d5e5", "f1e2", "e5e2"]),
        pv_san: vec![],
    };
    let c = forcing_counts(&b, Some(&eval));
    assert_eq!(c.captures, 3);
    assert_eq!(c.checks, 2);
    assert_eq!(c.promotions, 0);
    let none = forcing_counts(&b, None);
    assert_eq!((none.checks, none.captures, none.promotions), (0, 0, 0));
    assert_eq!(legal_moves(&b).len(), 20);
}
