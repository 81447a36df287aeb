//! Turning the engine's answers into evaluations, ranked root lines and
//! candidate records.
use vstd::prelude::*;
use crate::board::{
    flags_of, forcing_counts, forcing_of, lemma_san_line_len, pv_to_san, san, san_line, san_text,
    side_to_move, tactical_flags, turn, Board, BoardView, Mv, PvError, PvErrorView,
};
use crate::engine::info_views;
use crate::info::{InfoView, ParsedInfo};
use crate::report::{
    compute_stability, eval_views, hero_view, normalize_score_to_hero, stability_spec, DepthEval,
    DepthEvalView, ForcingCounts, Side, StabilityData, StabilityView, TacticalFlags, DEPTH_MAIN,
    PV_MAX_PLIES,
};
use crate::text::views;

verus! {

/// The first `PV_MAX_PLIES` moves of a principal variation.
pub open spec fn truncated(pv: Seq<Seq<char>>) -> Seq<Seq<char>> {
    if pv.len() <= 12 {
        pv
    } else {
        pv.take(12)
    }
}

/// The evaluation at `depth` that an engine line gives for the position `b`:
/// scores seen from `hero` (the engine gives them for the side to move of
/// `b`), the principal
/// variation cut to its first moves and written in SAN too; or the first move
/// of that variation that cannot be written in SAN.
pub open spec fn depth_eval_of(b: BoardView, hero: Side, depth: u32, info: InfoView) -> Result<
    DepthEvalView,
    PvErrorView,
> {
    let pv = truncated(info.pv);
    match san_line(b.root, b.played, pv) {
        Ok(sans) => Ok(
            DepthEvalView {
                depth,
                score_cp: hero_view(side_to_move(b.root, b.played), hero, info.cp),
                mate_in: hero_view(side_to_move(b.root, b.played), hero, info.mate),
                pv_uci: pv,
                pv_san: sans,
            },
        ),
        Err(e) => Err(e),
    }
}

/// An evaluation keeps its depth and the first 12 moves of the engine line
/// (all of them when it has fewer), and writes each of them in SAN.
pub proof fn lemma_depth_eval_shape(b: BoardView, hero: Side, depth: u32, info: InfoView)
    ensures
        depth_eval_of(b, hero, depth, info) matches Ok(e) ==> {
            &&& e.depth == depth
            &&& e.pv_uci.len() == if info.pv.len() <= 12 {
                info.pv.len()
            } else {
                12
            }
            &&& e.pv_uci == info.pv.take(e.pv_uci.len() as int)
            &&& e.pv_san.len() == e.pv_uci.len()
        },
{
    let pv = truncated(info.pv);
    lemma_san_line_len(b.root, b.played, pv);
    if pv.len() == info.pv.len() {
        assert(info.pv.take(info.pv.len() as int) =~= info.pv);
    }
}

/// Builds the evaluation at `depth` from the engine line `info`.
pub fn make_depth_eval(pos: &Board, hero: Side, depth: u32, info: ParsedInfo) -> (r: Result<
    DepthEval,
    PvError,
>)
    ensures
        match r {
            Ok(e) => depth_eval_of(pos@, hero, depth, info@) == Ok::<DepthEvalView, PvErrorView>(e@),
            Err(e) => depth_eval_of(pos@, hero, depth, info@) == Err::<DepthEvalView, PvErrorView>(e@),
        },
{
    let analysed = turn(pos);
    let (score_cp, mate_in) = normalize_score_to_hero(analysed, hero, info.cp, info.mate);
    let mut pv_uci = info.pv;
    let ghost full = views(pv_uci@);
    pv_uci.truncate(PV_MAX_PLIES);
    assert(views(pv_uci@) =~= truncated(full));
    let pv_san = pv_to_san(pos, pv_uci.as_slice())?;
    Ok(DepthEval { depth, score_cp, mate_in, pv_uci, pv_san })
}

/// The first evaluation at the main depth.
pub open spec fn first_main(e: Seq<DepthEvalView>) -> Option<DepthEvalView>
    decreases e.len(),
{
    if e.len() == 0 {
        None
    } else if e[0].depth == DEPTH_MAIN {
        Some(e[0])
    } else {
        first_main(e.drop_first())
    }
}

/// Finds the first evaluation at the main depth.
pub fn find_main_eval(evals: &[DepthEval]) -> (r: Option<&DepthEval>)
    ensures
        match r {
            Some(e) => first_main(eval_views(evals@)) == Some(e@),
            None => first_main(eval_views(evals@)) is None,
        },
{
    let ghost e = eval_views(evals@);
    let mut j: usize = 0;
    assert(e.skip(0) =~= e);
    while j < evals.len()
        invariant
            e == eval_views(evals@),
            j <= evals.len(),
            first_main(e) == first_main(e.skip(j as int)),
        decreases evals.len() - j,
    {
        assert(e.skip(j as int)[0] == evals@[j as int]@);
        if evals[j].depth == DEPTH_MAIN {
            return Some(&evals[j]);
        }
        assert(e.skip(j as int).drop_first() =~= e.skip(j + 1));
        j += 1;
    }
    assert(e.skip(j as int).len() == 0);
    None
}

/// Everything recorded about one legal move.
pub struct CandidateData {
    pub move_uci: String,
    pub move_san: String,
    pub eval_by_depth: Vec<DepthEval>,
    pub stability: StabilityData,
    pub tactical_flags: TacticalFlags,
    pub pv_forcing_counts_first_12plies: ForcingCounts,
}

pub struct CandidateView {
    pub move_uci: Seq<char>,
    pub move_san: Seq<char>,
    pub eval_by_depth: Seq<DepthEvalView>,
    pub stability: StabilityView,
    pub tactical_flags: TacticalFlags,
    pub forcing: (nat, nat, nat),
}

impl View for CandidateData {
    type V = CandidateView;

    open spec fn view(&self) -> CandidateView {
        CandidateView {
            move_uci: self.move_uci@,
            move_san: self.move_san@,
            eval_by_depth: eval_views(self.eval_by_depth@),
            stability: self.stability@,
            tactical_flags: self.tactical_flags,
            forcing: (
                self.pv_forcing_counts_first_12plies.checks as nat,
                self.pv_forcing_counts_first_12plies.captures as nat,
                self.pv_forcing_counts_first_12plies.promotions as nat,
            ),
        }
    }
}

/// The record of the legal move `uci` of the position `b` with its
/// evaluations `evals`: its SAN, the stability of the evaluations, its
/// tactical flags, and the forcing content of the main principal variation.
pub open spec fn candidate_of(b: BoardView, uci: Seq<char>, evals: Seq<DepthEvalView>) -> CandidateView {
    CandidateView {
        move_uci: uci,
        move_san: san_text(b.root, b.played, uci),
        eval_by_depth: evals,
        stability: stability_spec(evals),
        tactical_flags: flags_of(b.root, b.played, uci),
        forcing: match first_main(evals) {
            Some(e) => forcing_of(b.root, b.played, e.pv_uci),
            None => (0nat, 0nat, 0nat),
        },
    }
}

/// Assembles the record of a legal move from its evaluations.
pub fn finish_candidate(pos: &Board, mv: &Mv, move_uci: String, eval_by_depth: Vec<DepthEval>) -> (r:
    CandidateData)
    requires
        mv@.board == pos@,
        mv@.uci == move_uci@,
    ensures
        r@ == candidate_of(pos@, move_uci@, eval_views(eval_by_depth@)),
{
    let stability = compute_stability(eval_by_depth.as_slice());
    let flags = tactical_flags(pos, mv);
    let forcing = forcing_counts(pos, find_main_eval(eval_by_depth.as_slice()));
    let move_san = san(pos, mv);
    CandidateData {
        move_uci,
        move_san,
        eval_by_depth,
        stability,
        tactical_flags: flags,
        pv_forcing_counts_first_12plies: forcing,
    }
}

/// One line of the ranked search from the root.
pub struct RootLine {
    pub rank: usize,
    pub move_uci: String,
    pub score_cp: Option<i64>,
    pub mate_in: Option<i64>,
}

pub struct RootLineView {
    pub rank: usize,
    pub move_uci: Seq<char>,
    pub score_cp: Option<i64>,
    pub mate_in: Option<i64>,
}

impl View for RootLine {
    type V = RootLineView;

    open spec fn view(&self) -> RootLineView {
        RootLineView {
            rank: self.rank,
            move_uci: self.move_uci@,
            score_cp: self.score_cp,
            mate_in: self.mate_in,
        }
    }
}

/// A root line: its rank, its first move (empty if none), and its scores,
/// given for `side_to_move`, seen from `hero`.
pub open spec fn root_line_of(side_to_move: Side, hero: Side, i: InfoView) -> RootLineView {
    RootLineView {
        rank: i.multipv,
        move_uci: if i.pv.len() > 0 {
            i.pv[0]
        } else {
            Seq::empty()
        },
        score_cp: hero_view(side_to_move, hero, i.cp),
        mate_in: hero_view(side_to_move, hero, i.mate),
    }
}

/// The root lines of the engine lines `infos`, in the same order.
pub open spec fn root_lines_of(side_to_move: Side, hero: Side, infos: Seq<InfoView>) -> Seq<
    RootLineView,
> {
    infos.map_values(|i: InfoView| root_line_of(side_to_move, hero, i))
}

pub open spec fn root_views(v: Seq<RootLine>) -> Seq<RootLineView> {
    v.map_values(|l: RootLine| l@)
}

/// The root lines that the engine lines `infos` give, in the same order.
pub fn make_root_lines(side_to_move: Side, hero: Side, infos: Vec<ParsedInfo>) -> (r: Vec<
    RootLine,
>)
    ensures
        root_views(r@) == root_lines_of(side_to_move, hero, info_views(infos@)),
{
    let ghost all = info_views(infos@);
    let mut out: Vec<RootLine> = Vec::new();
    let mut i: usize = 0;
    while i < infos.len()
        invariant
            all == info_views(infos@),
            i <= infos.len(),
            all.len() == infos.len(),
            out.len() == i,
            root_views(out@) == root_lines_of(side_to_move, hero, all.take(i as int)),
        decreases infos.len() - i,
    {
        let info = &infos[i];
        assert(all[i as int] == info@);
        let (score_cp, mate_in) = normalize_score_to_hero(side_to_move, hero, info.cp, info.mate);
        let move_uci = if info.pv.len() > 0 {
            info.pv[0].clone()
        } else {
            String::new()
        };
        let line = RootLine { rank: info.multipv, move_uci, score_cp, mate_in };
        assert(info.pv.len() > 0 ==> info@.pv[0] == info.pv@[0]@);
        assert(line@ == root_line_of(side_to_move, hero, all[i as int]));
        let ghost prev = out@;
        out.push(line);
        assert forall|k: int| 0 <= k < i + 1 implies #[trigger] root_views(out@)[k] == root_lines_of(
            side_to_move,
            hero,
            all.take(i + 1),
        )[k] by {
            if k < i {
                assert(out@[k] == prev[k]);
                assert(root_views(prev)[k] == root_lines_of(side_to_move, hero, all.take(i as int))[k]);
            }
        }
        assert(root_views(out@) =~= root_lines_of(side_to_move, hero, all.take(i + 1)));
        i += 1;
    }
    assert(all.take(infos.len() as int) =~= all);
    out
}

} // verus!
