//! Analysis of every legal move of a chess position with a UCI engine: the
//! text protocol, the choice of the engine's answers, the tactical data of
//! each move, and the report, each with its contract.
pub mod board;
pub mod candidate;
pub mod engine;
pub mod info;
pub mod paths;
pub mod report;
pub mod session;
pub mod text;

pub use board::{forcing_counts, pv_to_san, tactical_flags, Board, LoadError, MoveError, Mv, PvError};
pub use candidate::{CandidateData, RootLine};
pub use engine::{select_last_line, select_ranked_lines};
pub use info::{parse_info_line, ParsedInfo};
pub use paths::default_stockfish_path;
pub use report::{
    color_to_str, common_prefix_len, compute_stability, normalize_score_to_hero, AnalysisConstants,
    DepthEval, ForcingCounts, PositionInfo, Side, StabilityData, TacticalFlags, DEPTHS_STABILITY,
    DEPTH_MAIN, MULTIPV_K, PV_MAX_PLIES,
};
pub use session::{Action, AnalyzeError, ReportData, Session};
