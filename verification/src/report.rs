//! The parts of the analysis report that are exact: the fixed analysis
//! constants, scores seen from the hero, the per-depth evaluations and the
//! agreement of their principal variations.
use vstd::prelude::*;
use crate::text::{text_eq, views};

verus! {

/// The depths at which every candidate move is searched, in order.
pub const DEPTHS_STABILITY: [u32; 3] = [12, 16, 20];

/// The depth of the ranked search from the root and of the main line of each
/// candidate.
pub const DEPTH_MAIN: u32 = 20;

/// How many moves of a principal variation are kept.
pub const PV_MAX_PLIES: usize = 12;

/// How many ranked lines the root search asks for.
pub const MULTIPV_K: usize = 6;

/// The side to move of a position.
#[derive(Debug, Clone, Copy, PartialEq, Eq, Structural)]
pub enum Side {
    White,
    Black,
}

/// The one-letter name of a side, as in FEN: `w` or `b`.
pub open spec fn side_letter(side: Side) -> Seq<char> {
    match side {
        Side::White => seq!['w'],
        Side::Black => seq!['b'],
    }
}

/// The one-letter name of a side, as FEN writes it.
pub fn color_to_str(color: Side) -> (r: &'static str)
    ensures
        r@ == side_letter(color),
{
    proof {
        reveal_strlit("w");
        reveal_strlit("b");
    }
    match color {
        Side::White => "w",
        Side::Black => "b",
    }
}

/// An engine score, widened.
pub open spec fn widened(v: Option<i32>) -> Option<i64> {
    match v {
        Some(x) => Some(x as i64),
        None => None,
    }
}

/// An engine score, given for `side_to_move`, as the hero sees it: unchanged
/// when the hero is to move, with its sign changed otherwise.
pub open spec fn hero_view(side_to_move: Side, hero: Side, v: Option<i32>) -> Option<i64> {
    match v {
        Some(x) => Some(
            if side_to_move == hero {
                x as i64
            } else {
                (-x) as i64
            },
        ),
        None => None,
    }
}

/// Turns an engine score, given for `side_to_move_for_analysis`, into one
/// given for `hero`: centipawns and moves to mate keep their sign when the
/// hero is to move and change it otherwise.
pub fn normalize_score_to_hero(
    side_to_move_for_analysis: Side,
    hero: Side,
    cp: Option<i32>,
    mate: Option<i32>,
) -> (r: (Option<i64>, Option<i64>))
    ensures
        r.0 == hero_view(side_to_move_for_analysis, hero, cp),
        r.1 == hero_view(side_to_move_for_analysis, hero, mate),
{
    let sign: i64 = if side_to_move_for_analysis == hero {
        1
    } else {
        -1
    };
    let score = match cp {
        Some(v) => Some(v as i64 * sign),
        None => None,
    };
    let mate_in = match mate {
        Some(v) => Some(v as i64 * sign),
        None => None,
    };
    (score, mate_in)
}

/// A score seen by the side to move is, for that side as hero, the engine's
/// own score.
pub proof fn lemma_hero_to_move_keeps_sign(hero: Side, v: Option<i32>)
    ensures
        hero_view(hero, hero, v) == widened(v),
{
}

/// The position that was analysed and its side to move.
pub struct PositionInfo {
    pub fen: String,
    pub hero: String,
}

/// Describes a position: its FEN as given and the letter of its side to move.
pub fn position_info(fen: &str, hero: Side) -> (r: PositionInfo)
    ensures
        r.fen@ == fen@,
        r.hero@ == side_letter(hero),
{
    PositionInfo { fen: fen.to_owned(), hero: color_to_str(hero).to_owned() }
}

/// The fixed parameters of every analysis.
pub struct AnalysisConstants {
    pub depths_stability: [u32; 3],
    pub depth_main: u32,
    pub pv_max_plies: usize,
    pub multipv_k: usize,
}

/// The parameters that every analysis uses.
pub fn analysis_constants() -> (r: AnalysisConstants)
    ensures
        r.depths_stability@ == seq![12u32, 16u32, 20u32],
        r.depth_main == 20,
        r.pv_max_plies == 12,
        r.multipv_k == 6,
{
    AnalysisConstants {
        depths_stability: [12, 16, 20],
        depth_main: DEPTH_MAIN,
        pv_max_plies: PV_MAX_PLIES,
        multipv_k: MULTIPV_K,
    }
}

/// Whether a candidate move gives check, captures, or promotes.
#[derive(Debug, Clone, Copy, PartialEq, Eq, Structural)]
pub struct TacticalFlags {
    pub candidate_is_check: bool,
    pub candidate_is_capture: bool,
    pub candidate_is_promotion: bool,
}

/// How many moves of a principal variation give check, capture, or promote.
#[derive(Debug, Clone, Copy, PartialEq, Eq, Structural)]
pub struct ForcingCounts {
    pub checks: usize,
    pub captures: usize,
    pub promotions: usize,
}

/// What the engine found for one candidate move at one depth, with scores
/// seen from the hero in centipawns and in moves to mate.
pub struct DepthEval {
    pub depth: u32,
    pub score_cp: Option<i64>,
    pub mate_in: Option<i64>,
    pub pv_uci: Vec<String>,
    pub pv_san: Vec<String>,
}

pub struct DepthEvalView {
    pub depth: u32,
    pub score_cp: Option<i64>,
    pub mate_in: Option<i64>,
    pub pv_uci: Seq<Seq<char>>,
    pub pv_san: Seq<Seq<char>>,
}

impl View for DepthEval {
    type V = DepthEvalView;

    open spec fn view(&self) -> DepthEvalView {
        DepthEvalView {
            depth: self.depth,
            score_cp: self.score_cp,
            mate_in: self.mate_in,
            pv_uci: views(self.pv_uci@),
            pv_san: views(self.pv_san@),
        }
    }
}

pub open spec fn eval_views(v: Seq<DepthEval>) -> Seq<DepthEvalView> {
    v.map_values(|e: DepthEval| e@)
}

/// The exact part of the stability of a candidate's evaluation: whether some
/// depth saw a mate, the centipawn scores in depth order, the spread of those
/// scores (highest less lowest) and their mean rounded to a whole centipawn
/// (both when there are at least two scores), how many first
/// moves all non-empty principal variations share, and the length of the
/// principal variation at the main depth.
pub struct StabilityData {
    pub has_mate: bool,
    pub cp_values: Vec<i64>,
    pub range_cp: Option<u64>,
    pub mean_cp: Option<i64>,
    pub pv_common_prefix_plies: usize,
    pub main_pv_len: usize,
}

pub struct StabilityView {
    pub has_mate: bool,
    pub cp_values: Seq<i64>,
    pub range_cp: Option<nat>,
    pub mean_cp: Option<int>,
    pub pv_common_prefix_plies: nat,
    pub main_pv_len: nat,
}

impl View for StabilityData {
    type V = StabilityView;

    open spec fn view(&self) -> StabilityView {
        StabilityView {
            has_mate: self.has_mate,
            cp_values: self.cp_values@,
            range_cp: match self.range_cp {
                Some(r) => Some(r as nat),
                None => None,
            },
            mean_cp: match self.mean_cp {
                Some(m) => Some(m as int),
                None => None,
            },
            pv_common_prefix_plies: self.pv_common_prefix_plies as nat,
            main_pv_len: self.main_pv_len as nat,
        }
    }
}

/// The lines agree at position `p`.
pub open spec fn agree_at(lines: Seq<Seq<Seq<char>>>, p: int) -> bool {
    forall|j: int| 0 <= j < lines.len() ==> #[trigger] lines[j][p] == lines[0][p]
}

/// Every line is at least `k` long.
pub open spec fn all_longer(lines: Seq<Seq<Seq<char>>>, k: int) -> bool {
    forall|j: int| 0 <= j < lines.len() ==> k <= #[trigger] lines[j].len()
}

/// `k` is the length of the longest prefix that all `lines` share (0 when
/// there are none).
pub open spec fn is_common_prefix_len(lines: Seq<Seq<Seq<char>>>, k: int) -> bool {
    if lines.len() == 0 {
        k == 0
    } else {
        &&& 0 <= k
        &&& all_longer(lines, k)
        &&& forall|p: int| 0 <= p < k ==> agree_at(lines, p)
        &&& all_longer(lines, k + 1) ==> !agree_at(lines, k)
    }
}

/// The length of the longest prefix that all `lines` share, counted from `k`
/// on.
pub open spec fn common_prefix_from(lines: Seq<Seq<Seq<char>>>, k: int) -> int
    decreases (if lines.len() > 0 {
        lines[0].len() - k
    } else {
        0
    }),
{
    if lines.len() > 0 && 0 <= k && all_longer(lines, k + 1) && agree_at(lines, k) {
        proof {
            assert(k + 1 <= lines[0].len());
        }
        common_prefix_from(lines, k + 1)
    } else {
        k
    }
}

/// The length of the longest prefix that all `lines` share.
pub open spec fn common_prefix(lines: Seq<Seq<Seq<char>>>) -> int {
    if lines.len() == 0 {
        0
    } else {
        common_prefix_from(lines, 0)
    }
}

proof fn lemma_common_prefix_from(lines: Seq<Seq<Seq<char>>>, k: int, r: int)
    requires
        lines.len() > 0,
        is_common_prefix_len(lines, r),
        0 <= k <= r,
    ensures
        common_prefix_from(lines, k) == r,
    decreases r - k,
{
    if k < r {
        assert(agree_at(lines, k));
        assert(all_longer(lines, k + 1));
        lemma_common_prefix_from(lines, k + 1, r);
    }
}

proof fn lemma_common_prefix_from_props(lines: Seq<Seq<Seq<char>>>, k: int)
    requires
        lines.len() > 0,
        0 <= k,
        all_longer(lines, k),
        forall|p: int| 0 <= p < k ==> agree_at(lines, p),
    ensures
        is_common_prefix_len(lines, common_prefix_from(lines, k)),
    decreases lines[0].len() - k,
{
    if all_longer(lines, k + 1) && agree_at(lines, k) {
        assert(k + 1 <= lines[0].len());
        lemma_common_prefix_from_props(lines, k + 1);
    }
}

/// `common_prefix` is a length that all lines share and that cannot be
/// extended.
pub proof fn lemma_common_prefix_props(lines: Seq<Seq<Seq<char>>>)
    ensures
        is_common_prefix_len(lines, common_prefix(lines)),
{
    if lines.len() > 0 {
        lemma_common_prefix_from_props(lines, 0);
    }
}

/// The longest common prefix is unique: `common_prefix` is the length that
/// `is_common_prefix_len` describes.
pub proof fn lemma_common_prefix_unique(lines: Seq<Seq<Seq<char>>>, r: int)
    requires
        is_common_prefix_len(lines, r),
    ensures
        r == common_prefix(lines),
{
    if lines.len() > 0 {
        lemma_common_prefix_from(lines, 0, r);
    }
}

pub open spec fn line_views(lines: Seq<Vec<String>>) -> Seq<Seq<Seq<char>>> {
    lines.map_values(|l: Vec<String>| views(l@))
}

proof fn lemma_line_views(lines: Seq<Vec<String>>)
    ensures
        line_views(lines).len() == lines.len(),
        forall|m: int|
            0 <= m < lines.len() ==> #[trigger] line_views(lines)[m].len() == lines[m]@.len(),
        forall|m: int, p: int|
            0 <= m < lines.len() && 0 <= p < lines[m]@.len() ==> #[trigger] line_views(
                lines,
            )[m][p] == lines[m]@[p]@,
{
}

/// The length of the longest prefix that all the lines share.
pub fn common_prefix_len(lines: &[Vec<String>]) -> (r: usize)
    ensures
        is_common_prefix_len(line_views(lines@), r as int),
        r == common_prefix(line_views(lines@)),
{
    let ghost ls = line_views(lines@);
    proof {
        lemma_line_views(lines@);
    }
    if lines.len() == 0 {
        return 0;
    }
    let mut shortest: usize = lines[0].len();
    let mut j: usize = 1;
    assert(ls[0].len() == shortest);
    while j < lines.len()
        invariant
            ls == line_views(lines@),
            1 <= j <= lines.len(),
            ls.len() == lines.len(),
            forall|m: int| 0 <= m < lines.len() ==> #[trigger] ls[m].len() == lines@[m]@.len(),
            exists|m: int| 0 <= m < j && ls[m].len() == shortest,
            forall|m: int| 0 <= m < j ==> shortest <= #[trigger] ls[m].len(),
        decreases lines.len() - j,
    {
        if lines[j].len() < shortest {
            shortest = lines[j].len();
            assert(ls[j as int].len() == shortest);
        }
        j += 1;
    }
    assert(all_longer(ls, shortest as int));
    let mut idx: usize = 0;
    while idx < shortest
        invariant
            ls == line_views(lines@),
            lines.len() >= 1,
            idx <= shortest,
            ls.len() == lines.len(),
            forall|m: int| 0 <= m < lines.len() ==> #[trigger] ls[m].len() == lines@[m]@.len(),
            forall|m: int, p: int|
                0 <= m < lines.len() && 0 <= p < lines@[m]@.len() ==> #[trigger] ls[m][p]
                    == lines@[m]@[p]@,
            all_longer(ls, shortest as int),
            exists|m: int| 0 <= m < lines.len() && ls[m].len() == shortest,
            forall|p: int| 0 <= p < idx ==> agree_at(ls, p),
        decreases shortest - idx,
    {
        let mut k: usize = 1;
        while k < lines.len()
            invariant
                ls == line_views(lines@),
                lines.len() >= 1,
                1 <= k <= lines.len(),
                idx < shortest,
                ls.len() == lines.len(),
                forall|m: int| 0 <= m < lines.len() ==> #[trigger] ls[m].len() == lines@[m]@.len(),
                forall|m: int, p: int|
                    0 <= m < lines.len() && 0 <= p < lines@[m]@.len() ==> #[trigger] ls[m][p]
                        == lines@[m]@[p]@,
                all_longer(ls, shortest as int),
                forall|m: int| 0 <= m < k ==> #[trigger] ls[m][idx as int] == ls[0][idx as int],
                forall|p: int| 0 <= p < idx ==> agree_at(ls, p),
            decreases lines.len() - k,
        {
            assert(ls[k as int].len() >= shortest);
            assert(ls[0].len() >= shortest);
            assert(ls[k as int][idx as int] == lines@[k as int]@[idx as int]@);
            assert(ls[0][idx as int] == lines@[0]@[idx as int]@);
            if !text_eq(lines[k][idx].as_str(), lines[0][idx].as_str()) {
                assert(!agree_at(ls, idx as int));
                assert(all_longer(ls, idx as int));
                proof {
                    lemma_common_prefix_unique(ls, idx as int);
                }
                return idx;
            }
            k += 1;
        }
        assert(agree_at(ls, idx as int));
        idx += 1;
    }
    proof {
        lemma_common_prefix_unique(ls, shortest as int);
    }
    shortest
}


/// The centipawn scores of the evaluations, in order.
pub open spec fn cp_values_of(e: Seq<DepthEvalView>) -> Seq<i64> {
    e.filter_map(|x: DepthEvalView| x.score_cp)
}

/// The non-empty principal variations of the evaluations, in order.
pub open spec fn nonempty_pvs_of(e: Seq<DepthEvalView>) -> Seq<Seq<Seq<char>>> {
    e.filter_map(
        |x: DepthEvalView|
            if x.pv_uci.len() > 0 {
                Some(x.pv_uci)
            } else {
                None
            },
    )
}

/// Some evaluation saw a mate.
pub open spec fn any_mate(e: Seq<DepthEvalView>) -> bool {
    exists|i: int| 0 <= i < e.len() && (#[trigger] e[i]).mate_in is Some
}

/// The length of the principal variation of the first evaluation at the main
/// depth, 0 when there is none.
pub open spec fn main_pv_len(e: Seq<DepthEvalView>) -> nat
    decreases e.len(),
{
    if e.len() == 0 {
        0
    } else if e[0].depth == DEPTH_MAIN {
        e[0].pv_uci.len()
    } else {
        main_pv_len(e.drop_first())
    }
}

/// The highest of the scores `s` (0 when there are none).
pub open spec fn max_of(s: Seq<i64>) -> int
    decreases s.len(),
{
    if s.len() == 0 {
        0
    } else if s.len() == 1 {
        s[0] as int
    } else if s.last() > max_of(s.drop_last()) {
        s.last() as int
    } else {
        max_of(s.drop_last())
    }
}

/// The lowest of the scores `s` (0 when there are none).
pub open spec fn min_of(s: Seq<i64>) -> int
    decreases s.len(),
{
    if s.len() == 0 {
        0
    } else if s.len() == 1 {
        s[0] as int
    } else if s.last() < min_of(s.drop_last()) {
        s.last() as int
    } else {
        min_of(s.drop_last())
    }
}

/// How far apart the highest and the lowest score lie, when there are at
/// least two scores.
pub open spec fn spread(s: Seq<i64>) -> Option<nat> {
    if s.len() >= 2 {
        Some((max_of(s) - min_of(s)) as nat)
    } else {
        None
    }
}

/// `max_of` and `min_of` are the highest and the lowest of the scores: each is
/// one of them, and every score lies between the two.
pub proof fn lemma_extremes(s: Seq<i64>)
    requires
        s.len() > 0,
    ensures
        exists|i: int| 0 <= i < s.len() && s[i] == max_of(s),
        exists|i: int| 0 <= i < s.len() && s[i] == min_of(s),
        forall|i: int| 0 <= i < s.len() ==> min_of(s) <= #[trigger] s[i] <= max_of(s),
    decreases s.len(),
{
    if s.len() > 1 {
        let d = s.drop_last();
        lemma_extremes(d);
        let a = choose|i: int| 0 <= i < d.len() && d[i] == max_of(d);
        let b = choose|i: int| 0 <= i < d.len() && d[i] == min_of(d);
        assert(s[a] == d[a]);
        assert(s[b] == d[b]);
        assert(s[s.len() - 1] == s.last());
        assert forall|i: int| 0 <= i < s.len() implies min_of(s) <= #[trigger] s[i] <= max_of(s) by {
            if i < s.len() - 1 {
                assert(s[i] == d[i]);
            }
        }
    } else {
        assert(s[0] == max_of(s));
    }
}

/// The spread of the centipawn scores `values`.
fn spread_of(values: &Vec<i64>) -> (r: Option<u64>)
    ensures
        match r {
            Some(v) => spread(values@) == Some(v as nat),
            None => spread(values@) is None,
        },
{
    let n = values.len();
    if n < 2 {
        return None;
    }
    let mut lo: i64 = values[0];
    let mut hi: i64 = values[0];
    let mut i: usize = 1;
    assert(values@.take(1).drop_last() =~= Seq::<i64>::empty());
    while i < n
        invariant
            n == values.len(),
            1 <= i <= n,
            lo == min_of(values@.take(i as int)),
            hi == max_of(values@.take(i as int)),
            lo <= hi,
        decreases n - i,
    {
        let v = values[i];
        let ghost pre = values@.take(i as int);
        let ghost nxt = values@.take(i + 1);
        assert(nxt.drop_last() =~= pre);
        assert(nxt.last() == v);
        if v < lo {
            lo = v;
        }
        if v > hi {
            hi = v;
        }
        i += 1;
    }
    assert(values@.take(n as int) =~= values@);
    let width: i128 = hi as i128 - lo as i128;
    Some(width as u64)
}

/// The sum of the scores `s`.
pub open spec fn sum_of(s: Seq<i64>) -> int
    decreases s.len(),
{
    if s.len() == 0 {
        0
    } else {
        sum_of(s.drop_last()) + s.last()
    }
}

/// `a / n` rounded to the nearest integer, halves away from zero, as
/// `f64::round` rounds.
pub open spec fn round_div(a: int, n: int) -> int {
    let m = if a >= 0 {
        a
    } else {
        -a
    };
    let k = if 2 * (m % n) >= n {
        m / n + 1
    } else {
        m / n
    };
    if a >= 0 {
        k
    } else {
        -k
    }
}

/// The mean of the scores, rounded to a whole centipawn, when there are at
/// least two scores.
pub open spec fn mean_of(s: Seq<i64>) -> Option<int> {
    if s.len() >= 2 {
        Some(round_div(sum_of(s), s.len() as int))
    } else {
        None
    }
}

/// Rounding a quotient whose dividend is at most `n * b` gives at most `b`.
proof fn lemma_rounded_quotient_bound(m: int, n: int, b: int)
    requires
        0 <= m <= n * b,
        0 < n,
        0 <= b,
    ensures
        (if 2 * (m % n) >= n {
            m / n + 1
        } else {
            m / n
        }) <= b,
{
    vstd::arithmetic::div_mod::lemma_fundamental_div_mod(m, n);
    let q = m / n;
    let r = m % n;
    assert(0 <= r < n);
    assert(q <= b) by (nonlinear_arith)
        requires
            m == n * q + r,
            0 <= r,
            m <= n * b,
            0 < n,
    ;
    if q == b && 2 * r >= n {
        assert(m == n * b + r);
        assert(false);
    }
}

/// The mean of the centipawn scores `values`, rounded to a whole centipawn.
fn mean_of_values(values: &Vec<i64>) -> (r: Option<i64>)
    ensures
        match r {
            Some(v) => mean_of(values@) == Some(v as int),
            None => mean_of(values@) is None,
        },
{
    let n = values.len();
    if n < 2 {
        return None;
    }
    let mut acc: i128 = 0;
    let mut i: usize = 0;
    assert(values@.take(0) =~= Seq::<i64>::empty());
    while i < n
        invariant
            n == values.len(),
            i <= n,
            acc == sum_of(values@.take(i as int)),
            -(i * 0x8000_0000_0000_0000) <= acc <= i * 0x7FFF_FFFF_FFFF_FFFF,
        decreases n - i,
    {
        let ghost pre = values@.take(i as int);
        let ghost nxt = values@.take(i + 1);
        assert(nxt.drop_last() =~= pre);
        assert(nxt.last() == values@[i as int]);
        acc = acc + values[i] as i128;
        i += 1;
    }
    assert(values@.take(n as int) =~= values@);
    let nn = n as u128;
    if acc >= 0 {
        let m = acc as u128;
        let q = m / nn;
        let rem = m % nn;
        let k = if rem >= nn - rem {
            q + 1
        } else {
            q
        };
        proof {
            lemma_rounded_quotient_bound(m as int, n as int, 0x7FFF_FFFF_FFFF_FFFF);
        }
        Some(k as i64)
    } else {
        let m = (-acc) as u128;
        let q = m / nn;
        let rem = m % nn;
        let k = if rem >= nn - rem {
            q + 1
        } else {
            q
        };
        proof {
            lemma_rounded_quotient_bound(m as int, n as int, 0x8000_0000_0000_0000);
        }
        Some((-(k as i128)) as i64)
    }
}

/// The exact stability data of a list of evaluations.
pub open spec fn stability_spec(e: Seq<DepthEvalView>) -> StabilityView {
    StabilityView {
        has_mate: any_mate(e),
        cp_values: cp_values_of(e),
        range_cp: spread(cp_values_of(e)),
        mean_cp: mean_of(cp_values_of(e)),
        pv_common_prefix_plies: common_prefix(nonempty_pvs_of(e)) as nat,
        main_pv_len: main_pv_len(e),
    }
}

proof fn lemma_filter_map_keeps<A, B>(e: Seq<A>, f: spec_fn(A) -> Option<B>, i: int)
    requires
        0 <= i < e.len(),
        f(e[i]) is Some,
    ensures
        e.filter_map(f).contains(f(e[i])->0),
    decreases e.len(),
{
    if i == e.len() - 1 {
        let r = e.filter_map(f);
        assert(r[r.len() - 1] == f(e[i])->0);
    } else {
        assert(e.drop_last()[i] == e[i]);
        lemma_filter_map_keeps(e.drop_last(), f, i);
        let r0 = e.drop_last().filter_map(f);
        let k = choose|k: int| 0 <= k < r0.len() && r0[k] == f(e[i])->0;
        let r = e.filter_map(f);
        assert(r[k] == r0[k]);
    }
}

proof fn lemma_main_pv_found(e: Seq<DepthEvalView>)
    requires
        main_pv_len(e) > 0,
    ensures
        exists|i: int|
            0 <= i < e.len() && (#[trigger] e[i]).pv_uci.len() == main_pv_len(e),
    decreases e.len(),
{
    if e[0].depth == DEPTH_MAIN {
        assert(e[0].pv_uci.len() == main_pv_len(e));
    } else {
        lemma_main_pv_found(e.drop_first());
        let i = choose|i: int|
            0 <= i < e.drop_first().len() && (#[trigger] e.drop_first()[i]).pv_uci.len()
                == main_pv_len(e.drop_first());
        assert(e[i + 1] == e.drop_first()[i]);
    }
}

/// The moves that all principal variations share never outnumber the moves of
/// the main one: the stability ratio lies between 0 and 1.
pub proof fn lemma_prefix_within_main_pv(e: Seq<DepthEvalView>)
    requires
        main_pv_len(e) > 0,
    ensures
        stability_spec(e).pv_common_prefix_plies <= stability_spec(e).main_pv_len,
{
    lemma_main_pv_found(e);
    let i = choose|i: int| 0 <= i < e.len() && (#[trigger] e[i]).pv_uci.len() == main_pv_len(e);
    let f = |x: DepthEvalView|
        if x.pv_uci.len() > 0 {
            Some(x.pv_uci)
        } else {
            None
        };
    lemma_filter_map_keeps(e, f, i);
    let pvs = nonempty_pvs_of(e);
    assert(pvs == e.filter_map(f));
    let k = choose|k: int| 0 <= k < pvs.len() && pvs[k] == e[i].pv_uci;
    lemma_common_prefix_props(pvs);
    assert(pvs[k].len() == main_pv_len(e));
}

/// The mate flag is set exactly when some evaluation reports a mate, in any
/// number of moves and for either side.
pub proof fn lemma_has_mate_means_some_mate(e: Seq<DepthEvalView>)
    ensures
        stability_spec(e).has_mate <==> exists|i: int|
            0 <= i < e.len() && (#[trigger] e[i]).mate_in is Some,
        forall|i: int|
            0 <= i < e.len() && (#[trigger] e[i]).mate_in is Some ==> stability_spec(e).has_mate,
{
}

/// `filter_map` of two sequences one after the other.
proof fn lemma_filter_map_concat<A, B>(a: Seq<A>, b: Seq<A>, f: spec_fn(A) -> Option<B>)
    ensures
        (a + b).filter_map(f) == a.filter_map(f) + b.filter_map(f),
    decreases b.len(),
{
    if b.len() == 0 {
        assert(a + b =~= a);
        assert(a.filter_map(f) + b.filter_map(f) =~= a.filter_map(f));
    } else {
        lemma_filter_map_concat(a, b.drop_last(), f);
        assert((a + b).drop_last() =~= a + b.drop_last());
        assert((a + b).last() == b.last());
        match f(b.last()) {
            Some(y) => {
                assert((a + b).filter_map(f) =~= a.filter_map(f) + b.filter_map(f));
            },
            None => {},
        }
    }
}

/// Taking out the element at `j` leaves the multiset of the rest.
proof fn lemma_remove_split<A>(b: Seq<A>, j: int)
    requires
        0 <= j < b.len(),
    ensures
        b == b.take(j) + seq![b[j]] + b.skip(j + 1),
        b.remove(j) == b.take(j) + b.skip(j + 1),
{
    assert(b =~= b.take(j) + seq![b[j]] + b.skip(j + 1));
    assert(b.remove(j) =~= b.take(j) + b.skip(j + 1));
}

/// A sequence and a reordering of it: the last element of the first sits
/// somewhere in the second, and the rests are reorderings of each other.
proof fn lemma_reorder_step<A>(a: Seq<A>, b: Seq<A>) -> (j: int)
    requires
        a.len() > 0,
        a.to_multiset() == b.to_multiset(),
    ensures
        0 <= j < b.len(),
        b[j] == a.last(),
        a.drop_last().to_multiset() == b.remove(j).to_multiset(),
{
    broadcast use vstd::seq_lib::group_to_multiset_ensures;
    broadcast use vstd::multiset::group_multiset_axioms;

    let x = a.last();
    let a1 = a.drop_last();
    assert(a1.push(x) =~= a);
    assert(a.to_multiset().count(x) > 0);
    assert(b.contains(x));
    let j = choose|j: int| 0 <= j < b.len() && b[j] == x;
    assert(b.remove(j).to_multiset() =~= a1.to_multiset());
    j
}

/// Reordering a sequence reorders what `filter_map` keeps of it.
proof fn lemma_filter_map_reorder<A, B>(a: Seq<A>, b: Seq<A>, f: spec_fn(A) -> Option<B>)
    requires
        a.to_multiset() == b.to_multiset(),
    ensures
        a.filter_map(f).to_multiset() == b.filter_map(f).to_multiset(),
    decreases a.len(),
{
    broadcast use vstd::seq_lib::group_to_multiset_ensures;
    broadcast use vstd::multiset::group_multiset_axioms;

    if a.len() == 0 {
        assert(b.len() == b.to_multiset().len());
        assert(a.len() == a.to_multiset().len());
        assert(a =~= b);
    } else {
        let x = a.last();
        let a1 = a.drop_last();
        let j = lemma_reorder_step(a, b);
        let p = b.take(j);
        let q = b.skip(j + 1);
        lemma_remove_split(b, j);
        lemma_filter_map_reorder(a1, b.remove(j), f);
        assert(a =~= a1 + seq![x]);
        lemma_filter_map_concat(a1, seq![x], f);
        lemma_filter_map_concat(p + seq![x], q, f);
        lemma_filter_map_concat(p, seq![x], f);
        lemma_filter_map_concat(p, q, f);
        let fx = seq![x].filter_map(f);
        vstd::seq_lib::lemma_multiset_commutative(a1.filter_map(f), fx);
        vstd::seq_lib::lemma_multiset_commutative(p.filter_map(f) + fx, q.filter_map(f));
        vstd::seq_lib::lemma_multiset_commutative(p.filter_map(f), fx);
        vstd::seq_lib::lemma_multiset_commutative(p.filter_map(f), q.filter_map(f));
        assert(a.filter_map(f).to_multiset() =~= b.filter_map(f).to_multiset());
    }
}

/// The sum of two sequences of scores one after the other.
proof fn lemma_sum_concat(a: Seq<i64>, b: Seq<i64>)
    ensures
        sum_of(a + b) == sum_of(a) + sum_of(b),
    decreases b.len(),
{
    if b.len() == 0 {
        assert(a + b =~= a);
    } else {
        lemma_sum_concat(a, b.drop_last());
        assert((a + b).drop_last() =~= a + b.drop_last());
        assert((a + b).last() == b.last());
    }
}

/// Reordering scores keeps their sum.
proof fn lemma_sum_reorder(a: Seq<i64>, b: Seq<i64>)
    requires
        a.to_multiset() == b.to_multiset(),
    ensures
        sum_of(a) == sum_of(b),
    decreases a.len(),
{
    broadcast use vstd::seq_lib::group_to_multiset_ensures;

    if a.len() == 0 {
        assert(b.len() == b.to_multiset().len());
        assert(a.len() == a.to_multiset().len());
        assert(a =~= b);
    } else {
        let x = a.last();
        let j = lemma_reorder_step(a, b);
        lemma_remove_split(b, j);
        lemma_sum_reorder(a.drop_last(), b.remove(j));
        lemma_sum_concat(b.take(j) + seq![x], b.skip(j + 1));
        lemma_sum_concat(b.take(j), seq![x]);
        lemma_sum_concat(b.take(j), b.skip(j + 1));
        assert(seq![x].drop_last() =~= Seq::<i64>::empty());
        assert(sum_of(Seq::<i64>::empty()) == 0);
        assert(seq![x].last() == x);
        assert(sum_of(seq![x]) == sum_of(seq![x].drop_last()) + seq![x].last());
        assert(sum_of(seq![x]) == x);
        assert(sum_of(b) == sum_of(b.take(j) + seq![x]) + sum_of(b.skip(j + 1)));
        assert(sum_of(b.remove(j)) == sum_of(b.take(j)) + sum_of(b.skip(j + 1)));
        assert(sum_of(a) == sum_of(a.drop_last()) + x);
    }
}

/// Two sequences of scores with the same members have the same highest and
/// the same lowest score.
proof fn lemma_extremes_same_members(s1: Seq<i64>, s2: Seq<i64>)
    requires
        s1.len() > 0,
        s2.len() > 0,
        forall|x: i64| s1.contains(x) <==> s2.contains(x),
    ensures
        max_of(s1) == max_of(s2),
        min_of(s1) == min_of(s2),
{
    lemma_extremes(s1);
    lemma_extremes(s2);
    let a1 = choose|i: int| 0 <= i < s1.len() && s1[i] == max_of(s1);
    let b1 = choose|i: int| 0 <= i < s1.len() && s1[i] == min_of(s1);
    let a2 = choose|i: int| 0 <= i < s2.len() && s2[i] == max_of(s2);
    let b2 = choose|i: int| 0 <= i < s2.len() && s2[i] == min_of(s2);
    assert(s1.contains(s1[a1]));
    assert(s1.contains(s1[b1]));
    assert(s2.contains(s2[a2]));
    assert(s2.contains(s2[b2]));
    let k1 = choose|k: int| 0 <= k < s2.len() && s2[k] == s1[a1];
    let k2 = choose|k: int| 0 <= k < s2.len() && s2[k] == s1[b1];
    let k3 = choose|k: int| 0 <= k < s1.len() && s1[k] == s2[a2];
    let k4 = choose|k: int| 0 <= k < s1.len() && s1[k] == s2[b2];
    assert(s2[k1] <= max_of(s2));
    assert(s2[k2] >= min_of(s2));
    assert(s1[k3] <= max_of(s1));
    assert(s1[k4] >= min_of(s1));
}

/// Lines with the same members (and as many of them) share a prefix of the
/// same length.
proof fn lemma_common_prefix_same_members(l1: Seq<Seq<Seq<char>>>, l2: Seq<Seq<Seq<char>>>)
    requires
        l1.len() == l2.len(),
        forall|x: Seq<Seq<char>>| l1.contains(x) <==> l2.contains(x),
    ensures
        common_prefix(l1) == common_prefix(l2),
{
    if l1.len() > 0 {
        let r = common_prefix(l1);
        lemma_common_prefix_props(l1);
        assert forall|k: int| all_longer(l1, k) implies all_longer(l2, k) by {
            assert forall|j: int| 0 <= j < l2.len() implies k <= #[trigger] l2[j].len() by {
                assert(l2.contains(l2[j]));
                let i = choose|i: int| 0 <= i < l1.len() && l1[i] == l2[j];
                assert(k <= l1[i].len());
            }
        }
        assert forall|k: int| all_longer(l2, k) implies all_longer(l1, k) by {
            assert forall|j: int| 0 <= j < l1.len() implies k <= #[trigger] l1[j].len() by {
                assert(l1.contains(l1[j]));
                let i = choose|i: int| 0 <= i < l2.len() && l2[i] == l1[j];
                assert(k <= l2[i].len());
            }
        }
        assert forall|p: int| agree_at(l1, p) implies agree_at(l2, p) by {
            assert(l2.contains(l2[0]));
            let b = choose|i: int| 0 <= i < l1.len() && l1[i] == l2[0];
            assert forall|j: int| 0 <= j < l2.len() implies #[trigger] l2[j][p] == l2[0][p] by {
                assert(l2.contains(l2[j]));
                let a = choose|i: int| 0 <= i < l1.len() && l1[i] == l2[j];
                assert(l1[a][p] == l1[0][p]);
                assert(l1[b][p] == l1[0][p]);
            }
        }
        assert forall|p: int| agree_at(l2, p) implies agree_at(l1, p) by {
            assert(l1.contains(l1[0]));
            let b = choose|i: int| 0 <= i < l2.len() && l2[i] == l1[0];
            assert forall|j: int| 0 <= j < l1.len() implies #[trigger] l1[j][p] == l1[0][p] by {
                assert(l1.contains(l1[j]));
                let a = choose|i: int| 0 <= i < l2.len() && l2[i] == l1[j];
                assert(l2[a][p] == l2[0][p]);
                assert(l2[b][p] == l2[0][p]);
            }
        }
        assert(is_common_prefix_len(l2, r));
        lemma_common_prefix_unique(l2, r);
    }
}

/// The order of the lines does not matter: any reordering of them shares a
/// prefix of the same length.
pub proof fn lemma_common_prefix_ignores_order(l1: Seq<Seq<Seq<char>>>, l2: Seq<Seq<Seq<char>>>)
    requires
        l1.to_multiset() == l2.to_multiset(),
    ensures
        common_prefix(l1) == common_prefix(l2),
{
    broadcast use vstd::seq_lib::group_to_multiset_ensures;

    assert(l1.len() == l2.len()) by {
        assert(l1.len() == l1.to_multiset().len());
        assert(l2.len() == l2.to_multiset().len());
    }
    assert forall|x: Seq<Seq<char>>| l1.contains(x) <==> l2.contains(x) by {
        assert(l1.contains(x) <==> l1.to_multiset().count(x) > 0);
        assert(l2.contains(x) <==> l2.to_multiset().count(x) > 0);
    }
    lemma_common_prefix_same_members(l1, l2);
}

/// Where the main depth occurs in `e`, `main_pv_len` is the length of the
/// variation of such an evaluation; where it does not, it is 0.
proof fn lemma_main_pv_of(e: Seq<DepthEvalView>)
    ensures
        (exists|i: int|
            0 <= i < e.len() && e[i].depth == DEPTH_MAIN && main_pv_len(e) == e[i].pv_uci.len())
            || (main_pv_len(e) == 0 && forall|i: int| 0 <= i < e.len() ==> e[i].depth != DEPTH_MAIN),
    decreases e.len(),
{
    if e.len() > 0 {
        if e[0].depth != DEPTH_MAIN {
            let d = e.drop_first();
            lemma_main_pv_of(d);
            if exists|i: int|
                0 <= i < d.len() && d[i].depth == DEPTH_MAIN && main_pv_len(d) == d[i].pv_uci.len() {
                let i = choose|i: int|
                    0 <= i < d.len() && d[i].depth == DEPTH_MAIN && main_pv_len(d) == d[i].pv_uci.len();
                assert(e[i + 1] == d[i]);
            } else {
                assert forall|i: int| 0 <= i < e.len() implies e[i].depth != DEPTH_MAIN by {
                    if i > 0 {
                        assert(e[i] == d[i - 1]);
                    }
                }
            }
        }
    }
}

/// The stability of a candidate's evaluations does not depend on the order
/// in which they are listed, when no two share a depth: the mate flag, the
/// spread and mean of the scores, the common prefix of the principal
/// variations and the length of the main one (so the stability ratio) stay.
pub proof fn lemma_stability_ignores_order(e1: Seq<DepthEvalView>, e2: Seq<DepthEvalView>)
    requires
        e1.to_multiset() == e2.to_multiset(),
        forall|i: int, j: int| 0 <= i < j < e1.len() ==> e1[i].depth != e1[j].depth,
    ensures
        stability_spec(e1).has_mate == stability_spec(e2).has_mate,
        stability_spec(e1).range_cp == stability_spec(e2).range_cp,
        stability_spec(e1).mean_cp == stability_spec(e2).mean_cp,
        stability_spec(e1).pv_common_prefix_plies == stability_spec(e2).pv_common_prefix_plies,
        stability_spec(e1).main_pv_len == stability_spec(e2).main_pv_len,
{
    broadcast use vstd::seq_lib::group_to_multiset_ensures;

    assert(e1.len() == e2.len()) by {
        assert(e1.len() == e1.to_multiset().len());
        assert(e2.len() == e2.to_multiset().len());
    }
    assert forall|x: DepthEvalView| e1.contains(x) <==> e2.contains(x) by {
        assert(e1.contains(x) <==> e1.to_multiset().count(x) > 0);
        assert(e2.contains(x) <==> e2.to_multiset().count(x) > 0);
    }
    // The mate flag.
    if any_mate(e1) {
        let i = choose|i: int| 0 <= i < e1.len() && (#[trigger] e1[i]).mate_in is Some;
        assert(e1.contains(e1[i]));
        let k = choose|k: int| 0 <= k < e2.len() && e2[k] == e1[i];
        assert(e2[k].mate_in is Some);
    }
    if any_mate(e2) {
        let i = choose|i: int| 0 <= i < e2.len() && (#[trigger] e2[i]).mate_in is Some;
        assert(e2.contains(e2[i]));
        let k = choose|k: int| 0 <= k < e1.len() && e1[k] == e2[i];
        assert(e1[k].mate_in is Some);
    }
    // The scores.
    let fc = |x: DepthEvalView| x.score_cp;
    assert(cp_values_of(e1) == e1.filter_map(fc));
    assert(cp_values_of(e2) == e2.filter_map(fc));
    lemma_filter_map_reorder(e1, e2, fc);
    let c1 = cp_values_of(e1);
    let c2 = cp_values_of(e2);
    assert(c1.len() == c2.len()) by {
        assert(c1.len() == c1.to_multiset().len());
        assert(c2.len() == c2.to_multiset().len());
    }
    lemma_sum_reorder(c1, c2);
    if c1.len() > 0 {
        assert forall|x: i64| c1.contains(x) <==> c2.contains(x) by {
            assert(c1.contains(x) <==> c1.to_multiset().count(x) > 0);
            assert(c2.contains(x) <==> c2.to_multiset().count(x) > 0);
        }
        lemma_extremes_same_members(c1, c2);
    }
    // The principal variations.
    let fp = |x: DepthEvalView|
        if x.pv_uci.len() > 0 {
            Some(x.pv_uci)
        } else {
            None
        };
    assert(nonempty_pvs_of(e1) == e1.filter_map(fp));
    assert(nonempty_pvs_of(e2) == e2.filter_map(fp));
    lemma_filter_map_reorder(e1, e2, fp);
    lemma_common_prefix_ignores_order(nonempty_pvs_of(e1), nonempty_pvs_of(e2));
    // The main variation.
    lemma_main_pv_of(e1);
    lemma_main_pv_of(e2);
    if exists|i: int|
        0 <= i < e2.len() && e2[i].depth == DEPTH_MAIN && main_pv_len(e2) == e2[i].pv_uci.len() {
        let i = choose|i: int|
            0 <= i < e2.len() && e2[i].depth == DEPTH_MAIN && main_pv_len(e2) == e2[i].pv_uci.len();
        assert(e2.contains(e2[i]));
        let k = choose|k: int| 0 <= k < e1.len() && e1[k] == e2[i];
        assert(e1[k].depth == DEPTH_MAIN);
        if exists|m: int|
            0 <= m < e1.len() && e1[m].depth == DEPTH_MAIN && main_pv_len(e1) == e1[m].pv_uci.len() {
            let m = choose|m: int|
                0 <= m < e1.len() && e1[m].depth == DEPTH_MAIN && main_pv_len(e1) == e1[m].pv_uci.len();
            if m < k {
                assert(e1[m].depth != e1[k].depth);
            } else if k < m {
                assert(e1[k].depth != e1[m].depth);
            }
        }
    } else {
        if exists|m: int|
            0 <= m < e1.len() && e1[m].depth == DEPTH_MAIN && main_pv_len(e1) == e1[m].pv_uci.len() {
            let m = choose|m: int|
                0 <= m < e1.len() && e1[m].depth == DEPTH_MAIN && main_pv_len(e1) == e1[m].pv_uci.len();
            assert(e1.contains(e1[m]));
            let k = choose|k: int| 0 <= k < e2.len() && e2[k] == e1[m];
            assert(e2[k].depth == DEPTH_MAIN);
        }
    }
}

/// The exact part of the stability of a candidate's evaluations.
pub fn compute_stability(eval_by_depth: &[DepthEval]) -> (r: StabilityData)
    ensures
        r@ == stability_spec(eval_views(eval_by_depth@)),
{
    let ghost e = eval_views(eval_by_depth@);
    let n = eval_by_depth.len();
    let mut cp_values: Vec<i64> = Vec::new();
    let mut has_mate = false;
    let mut pvs: Vec<Vec<String>> = Vec::new();
    let mut i: usize = 0;
    while i < n
        invariant
            e == eval_views(eval_by_depth@),
            n == eval_by_depth.len(),
            i <= n,
            cp_values@ == cp_values_of(e.take(i as int)),
            line_views(pvs@) == nonempty_pvs_of(e.take(i as int)),
            has_mate == any_mate(e.take(i as int)),
        decreases n - i,
    {
        let ghost pre = e.take(i as int);
        let ghost nxt = e.take(i + 1);
        assert(nxt.drop_last() =~= pre);
        assert(nxt.last() == eval_by_depth@[i as int]@);
        let ev = &eval_by_depth[i];
        if let Some(v) = ev.score_cp {
            cp_values.push(v);
        }
        assert(cp_values@ =~= cp_values_of(nxt));
        if ev.mate_in.is_some() {
            has_mate = true;
        }
        assert(has_mate == any_mate(nxt)) by {
            if any_mate(pre) {
                let k = choose|k: int| 0 <= k < pre.len() && (#[trigger] pre[k]).mate_in is Some;
                assert(nxt[k] == pre[k]);
            }
            if any_mate(nxt) {
                let k = choose|k: int| 0 <= k < nxt.len() && (#[trigger] nxt[k]).mate_in is Some;
                if k < i {
                    assert(nxt[k] == pre[k]);
                }
            }
        }
        if ev.pv_uci.len() > 0 {
            let line = ev.pv_uci.clone();
            assert(views(line@) =~= views(ev.pv_uci@));
            pvs.push(line);
        }
        assert(line_views(pvs@) =~= nonempty_pvs_of(nxt));
        i += 1;
    }
    assert(e.take(n as int) =~= e);
    let range_cp = spread_of(&cp_values);
    let mean_cp = mean_of_values(&cp_values);
    let pv_lines = pvs.as_slice();
    let prefix = common_prefix_len(pv_lines);
    let mut j: usize = 0;
    while j < n
        invariant
            e == eval_views(eval_by_depth@),
            n == eval_by_depth.len(),
            j <= n,
            main_pv_len(e) == main_pv_len(e.skip(j as int)),
            cp_values@ == cp_values_of(e),
            match range_cp {
                Some(v) => spread(cp_values_of(e)) == Some(v as nat),
                None => spread(cp_values_of(e)) is None,
            },
            match mean_cp {
                Some(v) => mean_of(cp_values_of(e)) == Some(v as int),
                None => mean_of(cp_values_of(e)) is None,
            },
            has_mate == any_mate(e),
            prefix as int == common_prefix(nonempty_pvs_of(e)),
        decreases n - j,
    {
        assert(e.skip(j as int)[0] == eval_by_depth@[j as int]@);
        if eval_by_depth[j].depth == DEPTH_MAIN {
            return StabilityData {
                has_mate,
                cp_values,
                range_cp,
                mean_cp,
                pv_common_prefix_plies: prefix,
                main_pv_len: eval_by_depth[j].pv_uci.len(),
            };
        }
        assert(e.skip(j as int).drop_first() =~= e.skip(j + 1));
        j += 1;
    }
    assert(e.skip(n as int).len() == 0);
    StabilityData {
        has_mate,
        cp_values,
        range_cp,
        mean_cp,
        pv_common_prefix_plies: prefix,
        main_pv_len: 0,
    }
}

} // verus!
