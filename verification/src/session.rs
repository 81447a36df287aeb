//! One analysis of a position, as a conversation with a UCI engine. The
//! session decides, line by line of engine output, what to send next and when
//! the report is complete; whoever holds the engine process sends the
//! commands, reads the lines and hands them in.
use vstd::prelude::*;
use crate::board::{
    legal_moves, legal_moves_text, load_position, load_result, parse_move, read_result, side_to_move,
    turn, Board, BoardView, LoadError, PvError, PvErrorView,
};
use crate::candidate::{
    candidate_of, depth_eval_of, finish_candidate, make_depth_eval, make_root_lines, root_line_of,
    root_lines_of, root_views, CandidateData, CandidateView, RootLine, RootLineView,
};
use crate::engine::{
    collect_info_line, collect_line, go_command, go_command_text, go_searchmoves_command,
    go_searchmoves_command_text, info_views, is_bestmove_line, is_marker, is_marker_line,
    last_qualifying, multipv_command, multipv_command_text, position_command, position_command_text,
    ranked_lines, select_last_line, select_ranked_lines,
};
use crate::info::{InfoView, ParsedInfo};
use crate::report::{
    analysis_constants, eval_views, lemma_hero_to_move_keeps_sign, position_info, side_letter,
    widened, AnalysisConstants, DepthEval, DepthEvalView, PositionInfo, Side, DEPTH_MAIN, MULTIPV_K,
};
use crate::text::views;

verus! {

/// Where the conversation stands.
#[derive(Debug, Clone, Copy, PartialEq, Eq, Structural)]
pub enum Stage {
    /// `uci` was sent; waiting for `uciok`.
    AwaitUciOk,
    /// `isready` was sent; waiting for `readyok`.
    AwaitReady,
    /// The options and `isready` were sent; waiting for `readyok`.
    AwaitConfigured,
    /// The ranked search from the root runs.
    CollectRoot,
    /// A search restricted to one candidate move runs.
    CollectSearch,
    /// The report, or the error, was handed out.
    Finished,
}

/// Why an analysis failed.
#[derive(Debug)]
pub enum AnalyzeError {
    /// The text is not FEN.
    InvalidFen,
    /// The FEN does not describe a position of standard chess.
    InvalidPosition,
    /// The engine's output ended while the session waited for this marker.
    EngineClosedWhileWaiting(String),
    /// The engine's output ended during a search.
    EngineClosedDuringAnalysis,
    /// A search restricted to one move gave no complete line at its depth.
    NoConstrainedLine,
    /// A move of a principal variation is not UCI.
    InvalidPvMove(String),
    /// A move of a principal variation is not legal where it is played.
    IllegalPvMove(String),
    /// The session had already finished.
    SessionFinished,
}

#[verifier::ext_equal]
pub enum AnalyzeErrorView {
    InvalidFen,
    InvalidPosition,
    EngineClosedWhileWaiting(Seq<char>),
    EngineClosedDuringAnalysis,
    NoConstrainedLine,
    InvalidPvMove(Seq<char>),
    IllegalPvMove(Seq<char>),
    SessionFinished,
}

impl View for AnalyzeError {
    type V = AnalyzeErrorView;

    open spec fn view(&self) -> AnalyzeErrorView {
        match self {
            AnalyzeError::InvalidFen => AnalyzeErrorView::InvalidFen,
            AnalyzeError::InvalidPosition => AnalyzeErrorView::InvalidPosition,
            AnalyzeError::EngineClosedWhileWaiting(m) => AnalyzeErrorView::EngineClosedWhileWaiting(m@),
            AnalyzeError::EngineClosedDuringAnalysis => AnalyzeErrorView::EngineClosedDuringAnalysis,
            AnalyzeError::NoConstrainedLine => AnalyzeErrorView::NoConstrainedLine,
            AnalyzeError::InvalidPvMove(m) => AnalyzeErrorView::InvalidPvMove(m@),
            AnalyzeError::IllegalPvMove(m) => AnalyzeErrorView::IllegalPvMove(m@),
            AnalyzeError::SessionFinished => AnalyzeErrorView::SessionFinished,
        }
    }
}

/// The analysis error for a principal variation that cannot be written in SAN.
pub open spec fn pv_failure(e: PvErrorView) -> AnalyzeErrorView {
    match e {
        PvErrorView::InvalidUciMove(m) => AnalyzeErrorView::InvalidPvMove(m),
        PvErrorView::IllegalMove(m) => AnalyzeErrorView::IllegalPvMove(m),
    }
}

/// The analysis error for a position that cannot be loaded.
pub open spec fn load_failure(e: LoadError) -> AnalyzeErrorView {
    match e {
        LoadError::InvalidFen => AnalyzeErrorView::InvalidFen,
        LoadError::InvalidPosition => AnalyzeErrorView::InvalidPosition,
    }
}

/// The finished analysis of a position.
pub struct ReportData {
    pub schema_version: String,
    pub position: PositionInfo,
    pub analysis_constants: AnalysisConstants,
    pub root_depth: u32,
    pub root_lines: Vec<RootLine>,
    pub candidates: Vec<CandidateData>,
}

#[verifier::ext_equal]
pub struct ReportView {
    pub schema_version: Seq<char>,
    pub fen: Seq<char>,
    pub hero: Seq<char>,
    pub depths_stability: Seq<u32>,
    pub depth_main: u32,
    pub pv_max_plies: usize,
    pub multipv_k: usize,
    pub root_depth: u32,
    pub root_lines: Seq<RootLineView>,
    pub candidates: Seq<CandidateView>,
}

pub open spec fn candidate_views(v: Seq<CandidateData>) -> Seq<CandidateView> {
    v.map_values(|c: CandidateData| c@)
}

impl View for ReportData {
    type V = ReportView;

    open spec fn view(&self) -> ReportView {
        ReportView {
            schema_version: self.schema_version@,
            fen: self.position.fen@,
            hero: self.position.hero@,
            depths_stability: self.analysis_constants.depths_stability@,
            depth_main: self.analysis_constants.depth_main,
            pv_max_plies: self.analysis_constants.pv_max_plies,
            multipv_k: self.analysis_constants.multipv_k,
            root_depth: self.root_depth,
            root_lines: root_views(self.root_lines@),
            candidates: candidate_views(self.candidates@),
        }
    }
}

/// What the holder of the engine does next.
pub enum Action {
    /// Send these commands, one per line, then read the next output line.
    Send(Vec<String>),
    /// Read the next output line.
    ReadLine,
    /// The analysis is over, with this outcome.
    Finish(Result<ReportData, AnalyzeError>),
}

#[verifier::ext_equal]
pub enum ActionView {
    Send(Seq<Seq<char>>),
    ReadLine,
    Finish(Result<ReportView, AnalyzeErrorView>),
}

impl View for Action {
    type V = ActionView;

    open spec fn view(&self) -> ActionView {
        match self {
            Action::Send(cmds) => ActionView::Send(views(cmds@)),
            Action::ReadLine => ActionView::ReadLine,
            Action::Finish(Ok(r)) => ActionView::Finish(Ok(r@)),
            Action::Finish(Err(e)) => ActionView::Finish(Err(e@)),
        }
    }
}

/// The state of an analysis.
pub struct Session {
    fen: String,
    board: Board,
    hero: Side,
    moves: Vec<String>,
    stage: Stage,
    infos: Vec<ParsedInfo>,
    root_lines: Vec<RootLine>,
    candidates: Vec<CandidateData>,
    current: Vec<DepthEval>,
}

/// The state of an analysis: the position, its side to move and legal moves,
/// the stage of the conversation, the `info` lines of the running search, the
/// ranked root lines, the finished candidate records, and the evaluations of
/// the candidate under search.
#[verifier::ext_equal]
pub struct SessionView {
    pub fen: Seq<char>,
    pub board: BoardView,
    pub hero: Side,
    pub moves: Seq<Seq<char>>,
    pub stage: Stage,
    pub infos: Seq<InfoView>,
    pub root_lines: Seq<RootLineView>,
    pub candidates: Seq<CandidateView>,
    pub current: Seq<DepthEvalView>,
}

impl View for Session {
    type V = SessionView;

    closed spec fn view(&self) -> SessionView {
        SessionView {
            fen: self.fen@,
            board: self.board@,
            hero: self.hero,
            moves: views(self.moves@),
            stage: self.stage,
            infos: info_views(self.infos@),
            root_lines: root_views(self.root_lines@),
            candidates: candidate_views(self.candidates@),
            current: eval_views(self.current@),
        }
    }
}

/// The depth of the `i`-th search of a candidate move.
pub open spec fn stability_depth(i: int) -> u32 {
    if i == 0 {
        12
    } else if i == 1 {
        16
    } else {
        20
    }
}

/// The engine options every analysis sets, followed by `isready`.
pub open spec fn configure_commands() -> Seq<Seq<char>> {
    seq![
        "setoption name Threads value 1"@,
        "setoption name Hash value 128"@,
        "setoption name UCI_AnalyseMode value true"@,
        "setoption name Contempt value 0"@,
        "isready"@,
    ]
}

/// The commands of the ranked search from the root.
pub open spec fn root_commands(fen: Seq<char>) -> Seq<Seq<char>> {
    seq![multipv_command(6), position_command(fen), go_command(20)]
}

/// The commands of a search restricted to the move `m`, at depth `d`.
pub open spec fn search_commands(fen: Seq<char>, d: u32, m: Seq<char>) -> Seq<Seq<char>> {
    seq![multipv_command(1), position_command(fen), go_searchmoves_command(d as nat, m)]
}

pub open spec fn session_with(
    s: SessionView,
    stage: Stage,
    infos: Seq<InfoView>,
    root_lines: Seq<RootLineView>,
    candidates: Seq<CandidateView>,
    current: Seq<DepthEvalView>,
) -> SessionView {
    SessionView {
        fen: s.fen,
        board: s.board,
        hero: s.hero,
        moves: s.moves,
        stage,
        infos,
        root_lines,
        candidates,
        current,
    }
}

pub open spec fn with_stage(s: SessionView, stage: Stage) -> SessionView {
    session_with(s, stage, s.infos, s.root_lines, s.candidates, s.current)
}

/// The session at its start, for the position `fen`.
pub open spec fn initial_session(fen: Seq<char>) -> SessionView {
    SessionView {
        fen,
        board: BoardView { root: fen, played: Seq::empty() },
        hero: side_to_move(fen, Seq::empty()),
        moves: legal_moves_text(fen, Seq::empty()),
        stage: Stage::AwaitUciOk,
        infos: Seq::empty(),
        root_lines: Seq::empty(),
        candidates: Seq::empty(),
        current: Seq::empty(),
    }
}

/// The report of a session whose searches are all done.
pub open spec fn report_of(s: SessionView) -> ReportView {
    ReportView {
        schema_version: "1.0"@,
        fen: s.fen,
        hero: side_letter(s.hero),
        depths_stability: seq![12u32, 16u32, 20u32],
        depth_main: 20,
        pv_max_plies: 12,
        multipv_k: 6,
        root_depth: 20,
        root_lines: s.root_lines,
        candidates: s.candidates,
    }
}

/// The session ends with the error `e`.
pub open spec fn fail(s: SessionView, e: AnalyzeErrorView) -> (SessionView, ActionView) {
    (
        session_with(s, Stage::Finished, Seq::empty(), s.root_lines, s.candidates, Seq::empty()),
        ActionView::Finish(Err(e)),
    )
}

/// After the root search or a finished search: start the next search of the
/// candidate under way, or of the next candidate; or hand out the report.
pub open spec fn next_search(s: SessionView) -> (SessionView, ActionView) {
    if s.candidates.len() < s.moves.len() {
        (
            session_with(s, Stage::CollectSearch, Seq::empty(), s.root_lines, s.candidates, s.current),
            ActionView::Send(
                search_commands(
                    s.fen,
                    stability_depth(s.current.len() as int),
                    s.moves[s.candidates.len() as int],
                ),
            ),
        )
    } else {
        (
            session_with(s, Stage::Finished, Seq::empty(), Seq::empty(), Seq::empty(), s.current),
            ActionView::Finish(Ok(report_of(s))),
        )
    }
}

/// The end of a search restricted to one candidate move, with the `info`
/// lines `infos` that it printed.
pub open spec fn search_done(s: SessionView, infos: Seq<InfoView>) -> (SessionView, ActionView) {
    let d = stability_depth(s.current.len() as int);
    match last_qualifying(infos, d) {
        None => fail(s, AnalyzeErrorView::NoConstrainedLine),
        Some(info) => match depth_eval_of(s.board, s.hero, d, info) {
            Err(e) => fail(s, pv_failure(e)),
            Ok(ev) => {
                let cur = s.current.push(ev);
                if cur.len() < 3 {
                    next_search(session_with(s, s.stage, Seq::empty(), s.root_lines, s.candidates, cur))
                } else {
                    let m = s.moves[s.candidates.len() as int];
                    next_search(
                        session_with(
                            s,
                            s.stage,
                            Seq::empty(),
                            s.root_lines,
                            s.candidates.push(candidate_of(s.board, m, cur)),
                            Seq::empty(),
                        ),
                    )
                }
            },
        },
    }
}

/// What one output line of the engine does to the session, and what comes
/// next.
pub open spec fn step_line(s: SessionView, line: Seq<char>) -> (SessionView, ActionView) {
    match s.stage {
        Stage::AwaitUciOk => if is_marker(line, "uciok"@) {
            (with_stage(s, Stage::AwaitReady), ActionView::Send(seq!["isready"@]))
        } else {
            (s, ActionView::ReadLine)
        },
        Stage::AwaitReady => if is_marker(line, "readyok"@) {
            (with_stage(s, Stage::AwaitConfigured), ActionView::Send(configure_commands()))
        } else {
            (s, ActionView::ReadLine)
        },
        Stage::AwaitConfigured => if is_marker(line, "readyok"@) {
            (
                session_with(s, Stage::CollectRoot, Seq::empty(), s.root_lines, s.candidates, s.current),
                ActionView::Send(root_commands(s.fen)),
            )
        } else {
            (s, ActionView::ReadLine)
        },
        Stage::CollectRoot => {
            let infos = collect_line(s.infos, line);
            if is_bestmove_line(line) {
                next_search(
                    session_with(
                        s,
                        s.stage,
                        Seq::empty(),
                        root_lines_of(s.hero, s.hero, ranked_lines(infos, DEPTH_MAIN)),
                        s.candidates,
                        s.current,
                    ),
                )
            } else {
                (
                    session_with(s, s.stage, infos, s.root_lines, s.candidates, s.current),
                    ActionView::ReadLine,
                )
            }
        },
        Stage::CollectSearch => {
            let infos = collect_line(s.infos, line);
            if is_bestmove_line(line) {
                search_done(s, infos)
            } else {
                (
                    session_with(s, s.stage, infos, s.root_lines, s.candidates, s.current),
                    ActionView::ReadLine,
                )
            }
        },
        Stage::Finished => (s, ActionView::Finish(Err(AnalyzeErrorView::SessionFinished))),
    }
}

/// What the end of the engine's output does to the session.
pub open spec fn step_closed(s: SessionView) -> (SessionView, ActionView) {
    match s.stage {
        Stage::AwaitUciOk => fail(s, AnalyzeErrorView::EngineClosedWhileWaiting("uciok"@)),
        Stage::AwaitReady => fail(s, AnalyzeErrorView::EngineClosedWhileWaiting("readyok"@)),
        Stage::AwaitConfigured => fail(s, AnalyzeErrorView::EngineClosedWhileWaiting("readyok"@)),
        Stage::CollectRoot => fail(s, AnalyzeErrorView::EngineClosedDuringAnalysis),
        Stage::CollectSearch => fail(s, AnalyzeErrorView::EngineClosedDuringAnalysis),
        Stage::Finished => (s, ActionView::Finish(Err(AnalyzeErrorView::SessionFinished))),
    }
}

/// The records of the candidates done so far follow the legal moves, one per
/// move and in order: each is the record of its move on the position with its
/// evaluations, which are at 12, 16 and 20 plies.
pub open spec fn candidates_follow_moves(s: SessionView) -> bool {
    &&& s.candidates.len() <= s.moves.len()
    &&& forall|i: int|
        0 <= i < s.candidates.len() ==> (#[trigger] s.candidates[i]) == candidate_of(
            s.board,
            s.moves[i],
            s.candidates[i].eval_by_depth,
        ) && s.candidates[i].eval_by_depth.len() == 3 && forall|j: int|
            0 <= j < 3 ==> (#[trigger] s.candidates[i].eval_by_depth[j]).depth == stability_depth(j)
}

/// The invariant of a session.
pub open spec fn session_wf(s: SessionView) -> bool {
    &&& s.board == (BoardView { root: s.fen, played: Seq::empty() })
    &&& s.hero == side_to_move(s.fen, Seq::empty())
    &&& forall|i: int| 0 <= i < s.moves.len() ==> read_result(s.board, #[trigger] s.moves[i]) is Ok
    &&& s.current.len() < 3
    &&& forall|j: int| 0 <= j < s.current.len() ==> (#[trigger] s.current[j]).depth == stability_depth(j)
    &&& candidates_follow_moves(s)
    &&& s.stage == Stage::CollectSearch ==> s.candidates.len() < s.moves.len()
}


/// A finished report covers every legal move of the position, in the order in
/// which the moves were generated: each candidate record is the record of its
/// move on the position with its evaluations, which are at 12, 16 and 20
/// plies, in that order.
pub proof fn lemma_report_covers_legal_moves(s: SessionView, line: Seq<char>)
    requires
        session_wf(s),
        step_line(s, line).1 matches ActionView::Finish(Ok(_)),
    ensures
        ({
            let r = step_line(s, line).1->Finish_0->Ok_0;
            &&& r.candidates.len() == s.moves.len()
            &&& forall|i: int|
                0 <= i < r.candidates.len() ==> (#[trigger] r.candidates[i]) == candidate_of(
                    s.board,
                    s.moves[i],
                    r.candidates[i].eval_by_depth,
                ) && r.candidates[i].move_uci == s.moves[i]
                    && r.candidates[i].eval_by_depth.len() == 3 && forall|j: int|
                    0 <= j < 3 ==> (#[trigger] r.candidates[i].eval_by_depth[j]).depth
                        == stability_depth(j)
        }),
{
    let r = step_line(s, line).1->Finish_0->Ok_0;
    if s.stage == Stage::CollectSearch {
        let infos = collect_line(s.infos, line);
        let d = stability_depth(s.current.len() as int);
        let info = last_qualifying(infos, d)->Some_0;
        let ev = depth_eval_of(s.board, s.hero, d, info)->Ok_0;
        let cur = s.current.push(ev);
        if cur.len() >= 3 {
            let m = s.moves[s.candidates.len() as int];
            let cands = s.candidates.push(candidate_of(s.board, m, cur));
            assert(r.candidates == cands);
            assert forall|i: int| 0 <= i < cands.len() implies (#[trigger] cands[i]) == candidate_of(
                s.board,
                s.moves[i],
                cands[i].eval_by_depth,
            ) && cands[i].move_uci == s.moves[i] && cands[i].eval_by_depth.len() == 3 && forall|j: int|
                0 <= j < 3 ==> (#[trigger] cands[i].eval_by_depth[j]).depth == stability_depth(
                    j,
                ) by {
                if i < s.candidates.len() {
                    assert(cands[i] == s.candidates[i]);
                } else {
                    assert(cands[i].eval_by_depth == cur);
                    assert forall|j: int| 0 <= j < 3 implies (#[trigger] cur[j]).depth
                        == stability_depth(j) by {
                        if j < 2 {
                            assert(cur[j] == s.current[j]);
                        }
                    }
                }
            }
        }
    }
}

/// In a session the hero is the side to move of the analysed position, so the
/// evaluations of every search keep the engine's own scores.
pub proof fn lemma_searches_keep_engine_scores(s: SessionView, d: u32, info: InfoView)
    requires
        session_wf(s),
    ensures
        depth_eval_of(s.board, s.hero, d, info) matches Ok(e) ==> e.score_cp == widened(info.cp)
            && e.mate_in == widened(info.mate),
        root_line_of(s.hero, s.hero, info).score_cp == widened(info.cp),
        root_line_of(s.hero, s.hero, info).mate_in == widened(info.mate),
{
    lemma_hero_to_move_keeps_sign(s.hero, info.cp);
    lemma_hero_to_move_keeps_sign(s.hero, info.mate);
}

/// The depth of the `i`-th search of a candidate move.
fn depth_of_search(i: usize) -> (d: u32)
    requires
        i < 3,
    ensures
        d == stability_depth(i as int),
{
    if i == 0 {
        12
    } else if i == 1 {
        16
    } else {
        20
    }
}

fn configure_command_list() -> (r: Vec<String>)
    ensures
        views(r@) == configure_commands(),
{
    let mut v: Vec<String> = Vec::new();
    v.push("setoption name Threads value 1".to_owned());
    v.push("setoption name Hash value 128".to_owned());
    v.push("setoption name UCI_AnalyseMode value true".to_owned());
    v.push("setoption name Contempt value 0".to_owned());
    v.push("isready".to_owned());
    assert(views(v@) =~= configure_commands());
    v
}

fn root_command_list(fen: &str) -> (r: Vec<String>)
    ensures
        views(r@) == root_commands(fen@),
{
    let mut v: Vec<String> = Vec::new();
    v.push(multipv_command_text(MULTIPV_K));
    v.push(position_command_text(fen));
    v.push(go_command_text(DEPTH_MAIN));
    assert(views(v@) =~= root_commands(fen@));
    v
}

fn search_command_list(fen: &str, depth: u32, uci_move: &str) -> (r: Vec<String>)
    ensures
        views(r@) == search_commands(fen@, depth, uci_move@),
{
    let mut v: Vec<String> = Vec::new();
    v.push(multipv_command_text(1));
    v.push(position_command_text(fen));
    v.push(go_searchmoves_command_text(depth, uci_move));
    assert(views(v@) =~= search_commands(fen@, depth, uci_move@));
    v
}

fn single_command(cmd: &str) -> (r: Vec<String>)
    ensures
        views(r@) == seq![cmd@],
{
    let mut v: Vec<String> = Vec::new();
    v.push(cmd.to_owned());
    assert(views(v@) =~= seq![cmd@]);
    v
}

impl Session {
    /// Loads the position `fen` and opens the conversation: the commands to
    /// send first to the freshly started engine.
    pub fn start(fen: &str) -> (r: Result<(Session, Vec<String>), AnalyzeError>)
        ensures
            match r {
                Ok((s, cmds)) => {
                    &&& load_result(fen@) is Ok
                    &&& s@ == initial_session(fen@)
                    &&& session_wf(s@)
                    &&& views(cmds@) == seq!["uci"@]
                },
                Err(e) => load_result(fen@) is Err && e@ == load_failure(load_result(fen@)->Err_0),
            },
    {
        let board = match load_position(fen) {
            Ok(b) => b,
            Err(LoadError::InvalidFen) => {
                return Err(AnalyzeError::InvalidFen);
            },
            Err(LoadError::InvalidPosition) => {
                return Err(AnalyzeError::InvalidPosition);
            },
        };
        let hero = turn(&board);
        let moves = legal_moves(&board);
        let session = Session {
            fen: fen.to_owned(),
            board,
            hero,
            moves,
            stage: Stage::AwaitUciOk,
            infos: Vec::new(),
            root_lines: Vec::new(),
            candidates: Vec::new(),
            current: Vec::new(),
        };
        assert(session@ =~= initial_session(fen@));
        Ok((session, single_command("uci")))
    }

    /// How many legal moves the position has.
    pub fn move_count(&self) -> (n: usize)
        ensures
            n == self@.moves.len(),
    {
        self.moves.len()
    }

    /// How many candidate records are done.
    pub fn candidates_done(&self) -> (n: usize)
        ensures
            n == self@.candidates.len(),
    {
        self.candidates.len()
    }

    /// The side to move of the position.
    pub fn hero(&self) -> (side: Side)
        ensures
            side == self@.hero,
    {
        self.hero
    }

    /// Whether the session has handed out its outcome.
    pub fn is_finished(&self) -> (b: bool)
        ensures
            b == (self@.stage == Stage::Finished),
    {
        self.stage == Stage::Finished
    }

    fn fail(&mut self, e: AnalyzeError) -> (act: Action)
        ensures
            final(self)@ == fail(old(self)@, e@).0,
            act@ == fail(old(self)@, e@).1,
    {
        self.stage = Stage::Finished;
        self.infos = Vec::new();
        self.current = Vec::new();
        assert(self@ =~= fail(old(self)@, e@).0);
        Action::Finish(Err(e))
    }

    fn next_search(&mut self) -> (act: Action)
        requires
            old(self)@.current.len() < 3,
        ensures
            final(self)@ == next_search(old(self)@).0,
            act@ == next_search(old(self)@).1,
    {
        self.infos = Vec::new();
        if self.candidates.len() < self.moves.len() {
            self.stage = Stage::CollectSearch;
            let depth = depth_of_search(self.current.len());
            let m = self.candidates.len();
            let cmds = search_command_list(self.fen.as_str(), depth, self.moves[m].as_str());
            assert(self@ =~= next_search(old(self)@).0);
            Action::Send(cmds)
        } else {
            self.stage = Stage::Finished;
            let mut root_lines: Vec<RootLine> = Vec::new();
            std::mem::swap(&mut root_lines, &mut self.root_lines);
            let mut candidates: Vec<CandidateData> = Vec::new();
            std::mem::swap(&mut candidates, &mut self.candidates);
            let report = ReportData {
                schema_version: "1.0".to_owned(),
                position: position_info(self.fen.as_str(), self.hero),
                analysis_constants: analysis_constants(),
                root_depth: DEPTH_MAIN,
                root_lines,
                candidates,
            };
            assert(self@ =~= next_search(old(self)@).0);
            assert(report@ =~= report_of(old(self)@));
            Action::Finish(Ok(report))
        }
    }

    /// Takes one line of the engine's output and tells what to do next.
    pub fn on_line(&mut self, line: &str) -> (act: Action)
        requires
            session_wf(old(self)@),
        ensures
            session_wf(final(self)@),
            final(self)@ == step_line(old(self)@, line@).0,
            act@ == step_line(old(self)@, line@).1,
    {
        match self.stage {
            Stage::AwaitUciOk => {
                if is_marker_line(line, "uciok") {
                    self.stage = Stage::AwaitReady;
                    assert(self@ =~= with_stage(old(self)@, Stage::AwaitReady));
                    Action::Send(single_command("isready"))
                } else {
                    Action::ReadLine
                }
            },
            Stage::AwaitReady => {
                if is_marker_line(line, "readyok") {
                    self.stage = Stage::AwaitConfigured;
                    assert(self@ =~= with_stage(old(self)@, Stage::AwaitConfigured));
                    Action::Send(configure_command_list())
                } else {
                    Action::ReadLine
                }
            },
            Stage::AwaitConfigured => {
                if is_marker_line(line, "readyok") {
                    self.stage = Stage::CollectRoot;
                    self.infos = Vec::new();
                    let cmds = root_command_list(self.fen.as_str());
                    assert(self@ =~= session_with(
                        old(self)@,
                        Stage::CollectRoot,
                        Seq::empty(),
                        old(self)@.root_lines,
                        old(self)@.candidates,
                        old(self)@.current,
                    ));
                    Action::Send(cmds)
                } else {
                    Action::ReadLine
                }
            },
            Stage::CollectRoot => {
                let done = collect_info_line(&mut self.infos, line);
                if !done {
                    return Action::ReadLine;
                }
                let mut infos: Vec<ParsedInfo> = Vec::new();
                std::mem::swap(&mut infos, &mut self.infos);
                let ranked = select_ranked_lines(infos, DEPTH_MAIN);
                self.root_lines = make_root_lines(self.hero, self.hero, ranked);
                assert(self@ =~= session_with(
                    old(self)@,
                    old(self)@.stage,
                    Seq::empty(),
                    root_lines_of(
                        old(self)@.hero,
                        old(self)@.hero,
                        ranked_lines(collect_line(old(self)@.infos, line@), DEPTH_MAIN),
                    ),
                    old(self)@.candidates,
                    old(self)@.current,
                ));
                self.next_search()
            },
            Stage::CollectSearch => {
                let done = collect_info_line(&mut self.infos, line);
                if !done {
                    return Action::ReadLine;
                }
                let mut infos: Vec<ParsedInfo> = Vec::new();
                std::mem::swap(&mut infos, &mut self.infos);
                let ghost mid = self@;
                proof {
                    assert(mid =~= session_with(
                        old(self)@,
                        old(self)@.stage,
                        Seq::empty(),
                        old(self)@.root_lines,
                        old(self)@.candidates,
                        old(self)@.current,
                    ));
                }
                self.search_done(infos)
            },
            Stage::Finished => Action::Finish(Err(AnalyzeError::SessionFinished)),
        }
    }

    /// Takes the end of the engine's output and tells what to do next.
    pub fn on_closed(&mut self) -> (act: Action)
        requires
            session_wf(old(self)@),
        ensures
            session_wf(final(self)@),
            final(self)@ == step_closed(old(self)@).0,
            act@ == step_closed(old(self)@).1,
    {
        match self.stage {
            Stage::AwaitUciOk => self.fail(AnalyzeError::EngineClosedWhileWaiting("uciok".to_owned())),
            Stage::AwaitReady => self.fail(AnalyzeError::EngineClosedWhileWaiting("readyok".to_owned())),
            Stage::AwaitConfigured => self.fail(
                AnalyzeError::EngineClosedWhileWaiting("readyok".to_owned()),
            ),
            Stage::CollectRoot => self.fail(AnalyzeError::EngineClosedDuringAnalysis),
            Stage::CollectSearch => self.fail(AnalyzeError::EngineClosedDuringAnalysis),
            Stage::Finished => Action::Finish(Err(AnalyzeError::SessionFinished)),
        }
    }

    fn search_done(&mut self, infos: Vec<ParsedInfo>) -> (act: Action)
        requires
            session_wf(old(self)@),
            old(self)@.stage == Stage::CollectSearch,
        ensures
            final(self)@ == search_done(old(self)@, info_views(infos@)).0,
            act@ == search_done(old(self)@, info_views(infos@)).1,
            session_wf(final(self)@),
    {
        let ghost s0 = self@;
        let depth = depth_of_search(self.current.len());
        let info = match select_last_line(infos, depth) {
            Some(i) => i,
            None => {
                return self.fail(AnalyzeError::NoConstrainedLine);
            },
        };
        let eval = match make_depth_eval(&self.board, self.hero, depth, info) {
            Ok(e) => e,
            Err(PvError::InvalidUciMove(m)) => {
                return self.fail(AnalyzeError::InvalidPvMove(m));
            },
            Err(PvError::IllegalMove(m)) => {
                return self.fail(AnalyzeError::IllegalPvMove(m));
            },
        };
        let ghost ev = eval@;
        self.current.push(eval);
        self.infos = Vec::new();
        let ghost cur = s0.current.push(ev);
        assert(self@ =~= session_with(s0, s0.stage, Seq::empty(), s0.root_lines, s0.candidates, cur));
        if self.current.len() < 3 {
            return self.next_search();
        }
        let m = self.candidates.len();
        let uci = self.moves[m].clone();
        assert(uci@ == s0.moves[m as int]);
        assert(read_result(s0.board, s0.moves[m as int]) is Ok);
        let mv = match parse_move(&self.board, uci.as_str()) {
            Ok(mv) => mv,
            Err(_) => {
                // Every legal move of the position reads back as one.
                proof {
                    assert(false);
                }
                return Action::ReadLine;
            },
        };
        let mut evals: Vec<DepthEval> = Vec::new();
        std::mem::swap(&mut evals, &mut self.current);
        assert(eval_views(evals@) == cur);
        let record = finish_candidate(&self.board, &mv, uci, evals);
        self.candidates.push(record);
        assert(self@ =~= session_with(
            s0,
            s0.stage,
            Seq::empty(),
            s0.root_lines,
            s0.candidates.push(candidate_of(s0.board, s0.moves[m as int], cur)),
            Seq::empty(),
        ));
        self.next_search()
    }
}

} // verus!
