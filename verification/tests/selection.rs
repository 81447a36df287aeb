use chess_pos_analyzer::{
    common_prefix_len, compute_stability, normalize_score_to_hero, parse_info_line,
    select_last_line, select_ranked_lines, DepthEval, Side,
};

fn infos(lines: &[&str]) -> Vec<chess_pos_analyzer::ParsedInfo> {
    lines.iter().map(|l| parse_info_line(l).unwrap()).collect()
}

#[test]
fn ranked_lines_keep_last_line_per_rank_sorted() {
    let v = infos(&[
        "info depth 20 multipv 2 score cp 10 pv a2a3",
        "info depth 20 multipv 1 score cp 30 pv e2e4",
        "info depth 19 multipv 3 score cp 5 pv h2h3",
        "info depth 20 multipv 3 score cp 1",
        "info depth 20 multipv 1 score cp 35 pv d2d4 d7d5",
        "info depth 20 multipv 2 score cp 12 pv c2c4",
    ]);
    let r = select_ranked_lines(v, 20);
    let ranks: Vec<usize> = r.iter().map(|i| i.multipv).collect();
    assert_eq!(ranks, vec![1, 2]);
    assert_eq!(r[0].cp, Some(35));
    assert_eq!(r[0].pv, vec!["d2d4", "d7d5"]);
    assert_eq!(r[1].pv, vec!["c2c4"]);
    assert!(select_ranked_lines(Vec::new(), 20).is_empty());
}

#[test]
fn constrained_search_takes_last_complete_line() {
    let v = infos(&[
        "info depth 16 score cp 10 pv a2a3",
        "info depth 16 score cp 20 pv a2a3 a7a6",
        "info depth 16 score cp 25",
        "info depth 17 score cp 30 pv a2a3",
    ]);
    let r = select_last_line(v, 16).unwrap();
    assert_eq!(r.cp, Some(20));
    let v = infos(&["info depth 15 score cp 10 pv a2a3"]);
    assert!(select_last_line(v, 16).is_none());
}

#[test]
fn scores_are_seen_from_hero() {
    assert_eq!(normalize_score_to_hero(Side::White, Side::White, Some(-37), None), (Some(-37), None));
    assert_eq!(normalize_score_to_hero(Side::Black, Side::Black, Some(-37), Some(3)), (Some(-37), Some(3)));
    assert_eq!(normalize_score_to_hero(Side::Black, Side::White, Some(-37), Some(3)), (Some(37), Some(-3)));
    assert_eq!(normalize_score_to_hero(Side::White, Side::Black, None, Some(-4)), (None, Some(4)));
    assert_eq!(
        normalize_score_to_hero(Side::Black, Side::White, Some(i32::MIN), Some(i32::MIN)),
        (Some(2147483648), Some(2147483648))
    );
    assert_eq!(
        normalize_score_to_hero(Side::Black, Side::Black, Some(i32::MIN), None),
        (Some(-2147483648), None)
    );
}

#[test]
fn common_prefix_edge_cases() {
    let none: Vec<Vec<String>> = vec![];
    assert_eq!(common_prefix_len(&none), 0);
    let one = vec![vec!["a".to_string(), "b".to_string()]];
    assert_eq!(common_prefix_len(&one), 2);
    let differ = vec![vec!["a".to_string()], vec!["b".to_string()]];
    assert_eq!(common_prefix_len(&differ), 0);
}

fn eval(depth: u32, cp: Option<i64>, mate: Option<i64>, pv: &[&str]) -> DepthEval {
    DepthEval {
        depth,
        score_cp: cp,
        mate_in: mate,
        pv_uci: pv.iter().map(|s| s.to_string()).collect(),
        pv_san: vec![],
    }
}

#[test]
fn stability_data_of_three_depths() {
    let evals = vec![
        eval(12, Some(10), None, &["e2e4"]),
        eval(16, Some(30), None, &["e2e4"]),
        eval(20, Some(20), None, &["e2e4"]),
    ];
    let s = compute_stability(&evals);
    assert!(!s.has_mate);
    assert_eq!(s.cp_values, vec![10, 30, 20]);
    assert_eq!(s.range_cp, Some(20));
    assert_eq!(s.mean_cp, Some(20));
    assert_eq!(s.pv_common_prefix_plies, 1);
    assert_eq!(s.main_pv_len, 1);

    let evals = vec![
        eval(12, None, Some(3), &["e2e4", "e7e5"]),
        eval(16, Some(30), None, &[]),
        eval(20, Some(20), None, &["e2e4", "d7d5", "a2a3"]),
    ];
    let s = compute_stability(&evals);
    assert!(s.has_mate);
    assert_eq!(s.cp_values, vec![30, 20]);
    assert_eq!(s.range_cp, Some(10));
    assert_eq!(s.mean_cp, Some(25));
    assert_eq!(s.pv_common_prefix_plies, 1);
    assert_eq!(s.main_pv_len, 3);
    assert!(s.pv_common_prefix_plies <= s.main_pv_len);

    let s = compute_stability(&[eval(12, Some(-5), None, &[])]);
    assert_eq!(s.range_cp, None);
    assert_eq!(s.mean_cp, None);
    assert_eq!(s.main_pv_len, 0);
    assert_eq!(s.pv_common_prefix_plies, 0);
}

#[test]
fn score_spread_spans_extreme_values() {
    let evals = vec![
        eval(12, Some(i64::MAX), None, &[]),
        eval(16, Some(i64::MIN), None, &[]),
        eval(20, None, None, &[]),
    ];
    let s = compute_stability(&evals);
    assert_eq!(s.range_cp, Some(u64::MAX));
    assert_eq!(s.mean_cp, Some(-1));
    let evals = vec![eval(12, Some(-40), None, &[]), eval(16, Some(-40), None, &[])];
    assert_eq!(compute_stability(&evals).range_cp, Some(0));
    assert_eq!(compute_stability(&evals).mean_cp, Some(-40));
}

#[test]
fn mean_rounds_halves_away_from_zero() {
    let m = |v: &[i64]| {
        let evals: Vec<DepthEval> = v.iter().map(|c| eval(12, Some(*c), None, &[])).collect();
        compute_stability(&evals).mean_cp
    };
    assert_eq!(m(&[1, 2]), Some(2));
    assert_eq!(m(&[-1, -2]), Some(-2));
    assert_eq!(m(&[1, 1, 2]), Some(1));
    assert_eq!(m(&[1, 2, 2]), Some(2));
    assert_eq!(m(&[-1, 2]), Some(1));
    assert_eq!(m(&[i64::MAX, i64::MAX, i64::MAX]), Some(i64::MAX));
    assert_eq!(m(&[i64::MIN, i64::MIN]), Some(i64::MIN));
    assert_eq!(m(&[i64::MIN, i64::MIN + 1]), Some(i64::MIN));
    assert_eq!(m(&[7]), None);
}

#[test]
fn stability_metrics() {
    let evals = vec![
        eval(12, Some(10), None, &["e2e4"]),
        eval(16, Some(30), None, &["e2e4"]),
        eval(20, Some(20), None, &["e2e4"]),
    ];
    let s = compute_stability(&evals);
    let range_pawns = s.range_cp.unwrap() as f64 / 100.0;
    let mean_pawns = s.mean_cp.unwrap() as f64 / 100.0;
    assert!((range_pawns - 0.20).abs() < 0.0001);
    assert!((mean_pawns - 0.20).abs() < 0.0001);
}
