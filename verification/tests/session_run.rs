use std::collections::VecDeque;

use chess_pos_analyzer::{Action, AnalyzeError, ReportData, Session};

struct FakeEngine {
    position: String,
    mate_for: Option<String>,
    silent_after: Option<usize>,
    searches: usize,
}

impl FakeEngine {
    fn answer(&mut self, cmd: &str, out: &mut VecDeque<String>) {
        if cmd == "uci" {
            out.push_back("id name Fake".into());
            out.push_back("uciok".into());
        } else if cmd == "isready" {
            out.push_back("readyok\n".into());
        } else if let Some(fen) = cmd.strip_prefix("position fen ") {
            self.position = fen.to_string();
        } else if let Some(rest) = cmd.strip_prefix("go depth ") {
            self.searches += 1;
            if self.silent_after.map_or(false, |n| self.searches > n) {
                return;
            }
            let mut parts = rest.split(' ');
            let depth = parts.next().unwrap().to_string();
            match (parts.next(), parts.next()) {
                (Some("searchmoves"), Some(m)) => {
                    out.push_back(format!("info depth {depth} currmove {m}"));
                    if self.mate_for.as_deref() == Some(m) {
                        out.push_back(format!("info depth {depth} score mate 2 pv {m} h1g1"));
                    } else {
                        out.push_back(format!("info depth {depth} score cp {depth} pv {m}"));
                    }
                    out.push_back(format!("bestmove {m}"));
                }
                _ => {
                    out.push_back(format!("info depth {depth} multipv 2 score cp -5 pv a1a2"));
                    out.push_back(format!("info depth {depth} multipv 1 score cp 7 pv a1b2 h8g8"));
                    out.push_back("bestmove a1b2".into());
                }
            }
        }
    }
}

fn run(fen: &str, mate_for: Option<&str>, silent_after: Option<usize>) -> (Result<ReportData, AnalyzeError>, Vec<String>) {
    let (mut session, first) = Session::start(fen).unwrap();
    let mut engine = FakeEngine {
        position: String::new(),
        mate_for: mate_for.map(|s| s.to_string()),
        silent_after,
        searches: 0,
    };
    let mut sent = Vec::new();
    let mut queue = VecDeque::new();
    for c in &first {
        sent.push(c.clone());
        engine.answer(c, &mut queue);
    }
    loop {
        let action = match queue.pop_front() {
            Some(line) => session.on_line(&line),
            None => session.on_closed(),
        };
        match action {
            Action::Send(cmds) => {
                for c in &cmds {
                    sent.push(c.clone());
                    engine.answer(c, &mut queue);
                }
            }
            Action::ReadLine => {}
            Action::Finish(result) => return (result, sent),
        }
    }
}

const KINGS: &str = "7k/8/8/8/8/8/8/K7 w - - 0 1";

#[test]
fn session_analyses_every_legal_move() {
    let (result, sent) = run(KINGS, None, None);
    let report = result.unwrap();
    assert_eq!(report.schema_version, "1.0");
    assert_eq!(report.position.fen, KINGS);
    assert_eq!(report.position.hero, "w");
    assert_eq!(report.analysis_constants.depths_stability, [12, 16, 20]);
    assert_eq!(report.root_depth, 20);
    let ranks: Vec<usize> = report.root_lines.iter().map(|l| l.rank).collect();
    assert_eq!(ranks, vec![1, 2]);
    assert_eq!(report.root_lines[0].move_uci, "a1b2");
    assert_eq!(report.root_lines[0].score_cp, Some(7));
    let moves: Vec<&str> = report.candidates.iter().map(|c| c.move_uci.as_str()).collect();
    assert_eq!(moves.len(), 3);
    for m in ["a1a2", "a1b1", "a1b2"] {
        assert!(moves.contains(&m));
    }
    for c in &report.candidates {
        let depths: Vec<u32> = c.eval_by_depth.iter().map(|e| e.depth).collect();
        assert_eq!(depths, vec![12, 16, 20]);
        assert_eq!(c.eval_by_depth[2].score_cp, Some(20));
        assert_eq!(c.eval_by_depth[0].pv_uci, vec![c.move_uci.clone()]);
        assert_eq!(c.stability.cp_values, vec![12, 16, 20]);
        assert_eq!(c.stability.range_cp, Some(8));
        assert_eq!(c.stability.mean_cp, Some(16));
        assert_eq!(c.stability.pv_common_prefix_plies, 1);
        assert_eq!(c.stability.main_pv_len, 1);
        assert!(!c.tactical_flags.candidate_is_capture);
    }
    let b2 = report.candidates.iter().find(|c| c.move_uci == "a1b2").unwrap();
    assert_eq!(b2.move_san, "Kb2");
    assert_eq!(sent[0], "uci");
    assert_eq!(sent[1], "isready");
    assert_eq!(
        &sent[2..7],
        &[
            "setoption name Threads value 1",
            "setoption name Hash value 128",
            "setoption name UCI_AnalyseMode value true",
            "setoption name Contempt value 0",
            "isready"
        ]
    );
    assert_eq!(&sent[7..10], &["setoption name MultiPV value 6", &format!("position fen {KINGS}"), "go depth 20"]);
    assert_eq!(sent[10], "setoption name MultiPV value 1");
    assert!(sent[12].starts_with("go depth 12 searchmoves "));
    assert_eq!(sent.len(), 10 + 3 * 3 * 3);
}

#[test]
fn black_to_move_scores_are_seen_from_the_hero() {
    let fen = "k7/8/8/8/8/8/8/7K b - - 0 1";
    let (result, _) = run(fen, Some("a8b8"), None);
    let report = result.unwrap();
    assert_eq!(report.position.hero, "b");
    let c = report.candidates.iter().find(|c| c.move_uci == "a8b8").unwrap();
    assert_eq!(c.eval_by_depth[0].mate_in, Some(2));
    assert_eq!(c.eval_by_depth[0].score_cp, None);
    assert!(c.stability.has_mate);
    assert!(c.stability.cp_values.is_empty());
    assert_eq!(c.stability.range_cp, None);
    assert_eq!(c.eval_by_depth[0].pv_san, vec!["Kb8", "Kg1"]);
    let other = report.candidates.iter().find(|c| c.move_uci != "a8b8").unwrap();
    assert_eq!(other.eval_by_depth[1].score_cp, Some(16));
    assert_eq!(report.root_lines[0].score_cp, Some(7));
    assert_eq!(report.root_lines[1].score_cp, Some(-5));
}

#[test]
fn session_reports_engine_that_stops() {
    let (result, _) = run(KINGS, None, Some(2));
    match result {
        Err(AnalyzeError::EngineClosedDuringAnalysis) => {}
        other => panic!("unexpected {:?}", other.err()),
    }
}

#[test]
fn session_refuses_bad_fen_before_any_engine_talk() {
    assert!(matches!(Session::start("nonsense"), Err(AnalyzeError::InvalidFen)));
    assert!(matches!(Session::start("8/8/8/8/8/8/8/8 w - - 0 1"), Err(AnalyzeError::InvalidPosition)));
}

#[test]
fn session_waiting_for_handshake_sees_closed_output() {
    let (mut session, _) = Session::start(KINGS).unwrap();
    assert!(matches!(session.on_line("id name X"), Action::ReadLine));
    match session.on_closed() {
        Action::Finish(Err(AnalyzeError::EngineClosedWhileWaiting(m))) => assert_eq!(m, "uciok"),
        _ => panic!("expected an error"),
    }
    assert!(session.is_finished());
    assert!(matches!(session.on_line("uciok"), Action::Finish(Err(AnalyzeError::SessionFinished))));
}

#[test]
fn mated_position_reports_no_candidates() {
    let fen = "7k/8/8/8/8/8/5q2/6qK w - - 0 1";
    let (mut session, _) = Session::start(fen).unwrap();
    assert_eq!(session.move_count(), 0);
    let mut a = session.on_line("uciok");
    assert!(matches!(a, Action::Send(_)));
    a = session.on_line("readyok");
    assert!(matches!(a, Action::Send(_)));
    a = session.on_line("readyok");
    assert!(matches!(a, Action::Send(_)));
    assert!(matches!(session.on_line("info depth 0 score mate 0"), Action::ReadLine));
    match session.on_line("bestmove (none)") {
        Action::Finish(Ok(r)) => {
            assert!(r.candidates.is_empty());
            assert!(r.root_lines.is_empty());
        }
        _ => panic!("expected a report"),
    }
}
