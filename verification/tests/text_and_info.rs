use chess_pos_analyzer::engine::{
    collect_info_line, go_command_text, go_searchmoves_command_text, is_marker_line,
    multipv_command_text, position_command_text,
};
use chess_pos_analyzer::parse_info_line;
use chess_pos_analyzer::text::{
    parse_i32_text, parse_u32_text, parse_usize_text, split_words, text_has_prefix, trim_text,
};

#[test]
fn words_split_on_unicode_whitespace() {
    let words = split_words("  info\tdepth\u{3000}7 \u{a0}pv  e2e4\n");
    assert_eq!(words, vec!["info", "depth", "7", "pv", "e2e4"]);
    assert!(split_words(" \t\r\n").is_empty());
    assert!(split_words("").is_empty());
}

#[test]
fn trim_removes_surrounding_whitespace_only() {
    assert_eq!(trim_text("  uciok \r\n"), "uciok");
    assert_eq!(trim_text("a b"), "a b");
    assert_eq!(trim_text("\u{2003}x\u{2003}"), "x");
    assert_eq!(trim_text("   "), "");
}

#[test]
fn prefix_test() {
    assert!(text_has_prefix("info depth 3", "info "));
    assert!(!text_has_prefix("info", "info "));
    assert!(text_has_prefix("x", ""));
}

#[test]
fn integers_parse_as_std_does() {
    for s in ["0", "7", "+7", "-7", "", "+", "-", "007", "4294967295", "4294967296", "2147483647",
        "2147483648", "-2147483648", "-2147483649", "1x", "٣", "+-1", " 1"] {
        assert_eq!(parse_u32_text(s), s.parse::<u32>().ok(), "u32 {s:?}");
        assert_eq!(parse_i32_text(s), s.parse::<i32>().ok(), "i32 {s:?}");
        assert_eq!(parse_usize_text(s), s.parse::<usize>().ok(), "usize {s:?}");
    }
    assert_eq!(parse_usize_text("18446744073709551615"), "18446744073709551615".parse::<usize>().ok());
    assert_eq!(parse_usize_text("18446744073709551616"), None);
    assert_eq!(parse_i32_text("-0"), Some(0));
    assert_eq!(parse_u32_text("-0"), None);
}

#[test]
fn info_line_defaults_and_overrides() {
    let p = parse_info_line("info nodes 5").unwrap();
    assert_eq!(p.depth, None);
    assert_eq!(p.multipv, 1);
    assert_eq!(p.cp, None);
    assert_eq!(p.mate, None);
    assert!(p.pv.is_empty());

    let p = parse_info_line("info depth 9 depth x multipv z score cp 5 score cp y pv").unwrap();
    assert_eq!(p.depth, None);
    assert_eq!(p.multipv, 1);
    assert_eq!(p.cp, None);
    assert!(p.pv.is_empty());

    let p = parse_info_line("info depth").unwrap();
    assert_eq!(p.depth, None);

    let p = parse_info_line("info score cp").unwrap();
    assert_eq!(p.cp, None);

    let p = parse_info_line("info score lowerbound cp 12 pv a2a3").unwrap();
    assert_eq!(p.cp, None);
    assert_eq!(p.pv, vec!["cp", "12", "pv", "a2a3"].into_iter().skip(3).collect::<Vec<_>>());

    let p = parse_info_line("info score mate -2 cp 40 pv g1f3 depth 3").unwrap();
    assert_eq!(p.mate, Some(-2));
    assert_eq!(p.cp, None);
    assert_eq!(p.depth, None);
    assert_eq!(p.pv, vec!["g1f3", "depth", "3"]);
}

#[test]
fn commands_are_written_in_uci() {
    assert_eq!(multipv_command_text(6), "setoption name MultiPV value 6");
    assert_eq!(multipv_command_text(10), "setoption name MultiPV value 10");
    assert_eq!(position_command_text("8/8/8/8/8/8/8/K6k w - - 0 1"), "position fen 8/8/8/8/8/8/8/K6k w - - 0 1");
    assert_eq!(go_command_text(20), "go depth 20");
    assert_eq!(go_command_text(0), "go depth 0");
    assert_eq!(go_searchmoves_command_text(16, "e2e4"), "go depth 16 searchmoves e2e4");
}

#[test]
fn output_lines_are_classified() {
    assert!(is_marker_line("uciok\n", "uciok"));
    assert!(is_marker_line("  readyok \r\n", "readyok"));
    assert!(!is_marker_line("readyok!", "readyok"));

    let mut infos = Vec::new();
    assert!(!collect_info_line(&mut infos, "info depth 1 pv e2e4\n"));
    assert!(!collect_info_line(&mut infos, "information\n"));
    assert!(!collect_info_line(&mut infos, "info\n"));
    assert!(!collect_info_line(&mut infos, "   info string hello\n"));
    assert!(collect_info_line(&mut infos, "bestmove e2e4 ponder e7e5\n"));
    assert!(!collect_info_line(&mut infos, "bestmove\n"));
    assert_eq!(infos.len(), 2);
    assert_eq!(infos[0].depth, Some(1));
    assert_eq!(infos[1].depth, None);
}
