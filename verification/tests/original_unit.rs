use chess_pos_analyzer::{common_prefix_len, default_stockfish_path, parse_info_line};

#[test]
fn parses_info_line_cp() {
    let line = "info depth 20 multipv 2 score cp -37 nodes 100 pv e2e4 e7e5";
    let parsed = parse_info_line(line).unwrap();
    assert_eq!(parsed.depth, Some(20));
    assert_eq!(parsed.multipv, 2);
    assert_eq!(parsed.cp, Some(-37));
    assert_eq!(parsed.pv[0], "e2e4");
}

#[test]
fn parses_info_line_mate() {
    let line = "info depth 20 score mate 3 pv e2e4";
    let parsed = parse_info_line(line).unwrap();
    assert_eq!(parsed.mate, Some(3));
    assert_eq!(parsed.cp, None);
}

#[test]
fn common_prefix_is_correct() {
    let pvs = vec![
        vec!["e2e4".to_string(), "e7e5".to_string(), "g1f3".to_string()],
        vec!["e2e4".to_string(), "e7e5".to_string(), "b1c3".to_string()],
        vec!["e2e4".to_string(), "e7e5".to_string()],
    ];
    assert_eq!(common_prefix_len(&pvs), 2);
}

#[test]
fn default_stockfish_path_has_expected_filename() {
    let p = default_stockfish_path();
    let fname = p.file_name().unwrap().to_string_lossy().to_string();
    let on_windows = std::path::MAIN_SEPARATOR == '\\';
    if on_windows {
        assert_eq!(fname, "stockfish.exe");
    } else {
        assert_eq!(fname, "stockfish");
    }
}
