//! The UCI conversation with the engine: the commands sent, the reading of
//! its output lines, and the choice of the lines that answer a search.
use vstd::prelude::*;
use crate::info::{parse_info, parse_info_line, InfoView, ParsedInfo};
use crate::text::{
    all_digits, decimal_value, digit_value, has_prefix, is_digit, parse_integer, text_eq, text_has_prefix, trim,
    trim_text,
};

verus! {

pub open spec fn digit_char(d: nat) -> char {
    if d == 0 {
        '0'
    } else if d == 1 {
        '1'
    } else if d == 2 {
        '2'
    } else if d == 3 {
        '3'
    } else if d == 4 {
        '4'
    } else if d == 5 {
        '5'
    } else if d == 6 {
        '6'
    } else if d == 7 {
        '7'
    } else if d == 8 {
        '8'
    } else {
        '9'
    }
}

/// The decimal digits of `n`, without sign or leading zeros, as `Display`
/// writes an unsigned integer.
pub open spec fn decimal_text(n: nat) -> Seq<char>
    decreases n,
{
    if n < 10 {
        seq![digit_char(n)]
    } else {
        decimal_text(n / 10).push(digit_char(n % 10))
    }
}

proof fn lemma_digit_char_value(d: nat)
    requires
        d < 10,
    ensures
        is_digit(digit_char(d)),
        digit_value(digit_char(d)) == d,
{
}

proof fn lemma_decimal_text_digits(n: nat)
    ensures
        decimal_text(n).len() > 0,
        all_digits(decimal_text(n)),
        decimal_value(decimal_text(n)) == n,
    decreases n,
{
    if n < 10 {
        lemma_digit_char_value(n);
        let s = decimal_text(n);
        assert(s.drop_last() =~= Seq::<char>::empty());
        assert(decimal_value(s.drop_last()) == 0);
        assert(s.last() == digit_char(n));
    } else {
        lemma_decimal_text_digits(n / 10);
        lemma_digit_char_value(n % 10);
        let t = decimal_text(n / 10);
        let s = decimal_text(n);
        assert(s.drop_last() =~= t);
        assert(s.last() == digit_char(n % 10));
        assert(decimal_value(s) == 10 * decimal_value(t) + digit_value(s.last()));
        assert(n == 10 * (n / 10) + n % 10);
        assert forall|i: int| 0 <= i < s.len() implies is_digit(#[trigger] s[i]) by {
            if i < t.len() {
                assert(s[i] == t[i]);
            }
        }
    }
}

/// What a command writes as a number, `str::parse` reads back as that number:
/// decimal text of an integer in range parses to the same integer.
pub proof fn lemma_decimal_text_parses(n: nat, hi: int)
    requires
        n <= hi,
    ensures
        parse_integer(decimal_text(n), false, 0, hi) == Some(n as int),
{
    lemma_decimal_text_digits(n);
    let s = decimal_text(n);
    assert(is_digit(s[0]));
}

fn digit_str(d: u64) -> (r: &'static str)
    requires
        d < 10,
    ensures
        r@ == seq![digit_char(d as nat)],
{
    proof {
        reveal_strlit("0");
        reveal_strlit("1");
        reveal_strlit("2");
        reveal_strlit("3");
        reveal_strlit("4");
        reveal_strlit("5");
        reveal_strlit("6");
        reveal_strlit("7");
        reveal_strlit("8");
        reveal_strlit("9");
    }
    if d == 0 {
        "0"
    } else if d == 1 {
        "1"
    } else if d == 2 {
        "2"
    } else if d == 3 {
        "3"
    } else if d == 4 {
        "4"
    } else if d == 5 {
        "5"
    } else if d == 6 {
        "6"
    } else if d == 7 {
        "7"
    } else if d == 8 {
        "8"
    } else {
        "9"
    }
}

/// Appends the decimal digits of `n` to `s`.
pub fn push_decimal(s: &mut String, n: u64)
    ensures
        final(s)@ == old(s)@ + decimal_text(n as nat),
    decreases n,
{
    if n >= 10 {
        push_decimal(s, n / 10);
    }
    s.append(digit_str(n % 10));
    assert(decimal_text(n as nat) =~= if n < 10 {
        seq![digit_char(n as nat)]
    } else {
        decimal_text((n / 10) as nat) + seq![digit_char((n % 10) as nat)]
    });
}

/// Asks for `k` ranked principal variations.
pub open spec fn multipv_command(k: nat) -> Seq<char> {
    "setoption name MultiPV value "@ + decimal_text(k)
}

/// Sets up the position given by `fen`.
pub open spec fn position_command(fen: Seq<char>) -> Seq<char> {
    "position fen "@ + fen
}

/// Searches to depth `d`.
pub open spec fn go_command(d: nat) -> Seq<char> {
    "go depth "@ + decimal_text(d)
}

/// Searches to depth `d`, the root move restricted to `m`.
pub open spec fn go_searchmoves_command(d: nat, m: Seq<char>) -> Seq<char> {
    "go depth "@ + decimal_text(d) + " searchmoves "@ + m
}

/// The command that asks for `k` ranked principal variations.
pub fn multipv_command_text(k: usize) -> (r: String)
    ensures
        r@ == multipv_command(k as nat),
{
    let mut s = String::new();
    s.append("setoption name MultiPV value ");
    push_decimal(&mut s, k as u64);
    s
}

/// The command that sets up the position `fen`.
pub fn position_command_text(fen: &str) -> (r: String)
    ensures
        r@ == position_command(fen@),
{
    let mut s = String::new();
    s.append("position fen ");
    s.append(fen);
    s
}

/// The command that searches to depth `depth`.
pub fn go_command_text(depth: u32) -> (r: String)
    ensures
        r@ == go_command(depth as nat),
{
    let mut s = String::new();
    s.append("go depth ");
    push_decimal(&mut s, depth as u64);
    s
}

/// The command that searches to depth `depth` with `uci_move` as the only
/// root move.
pub fn go_searchmoves_command_text(depth: u32, uci_move: &str) -> (r: String)
    ensures
        r@ == go_searchmoves_command(depth as nat, uci_move@),
{
    let mut s = String::new();
    s.append("go depth ");
    push_decimal(&mut s, depth as u64);
    s.append(" searchmoves ");
    s.append(uci_move);
    s
}

/// The output line answers a command that ends in `marker`: it is the marker
/// itself, up to surrounding whitespace.
pub open spec fn is_marker(line: Seq<char>, marker: Seq<char>) -> bool {
    trim(line) == marker
}

/// Tells whether an output line is `marker` (`uciok`, `readyok`).
pub fn is_marker_line(line: &str, marker: &str) -> (r: bool)
    ensures
        r == is_marker(line@, marker@),
{
    text_eq(trim_text(line), marker)
}

/// The line, trimmed, is an `info` line.
pub open spec fn is_info_line(line: Seq<char>) -> bool {
    has_prefix(trim(line), "info "@)
}

/// The line, trimmed, is the `bestmove` line that ends a search.
pub open spec fn is_bestmove_line(line: Seq<char>) -> bool {
    has_prefix(trim(line), "bestmove "@)
}

/// What reading one more output line during a search adds to the `info`
/// lines collected so far.
pub open spec fn collect_line(infos: Seq<InfoView>, line: Seq<char>) -> Seq<InfoView> {
    if is_info_line(line) {
        infos.push(parse_info(trim(line)))
    } else {
        infos
    }
}

pub open spec fn info_views(v: Seq<ParsedInfo>) -> Seq<InfoView> {
    v.map_values(|i: ParsedInfo| i@)
}

/// Reads one output line of a running search into `infos`; tells whether it
/// ended the search.
pub fn collect_info_line(infos: &mut Vec<ParsedInfo>, line: &str) -> (done: bool)
    ensures
        info_views(final(infos)@) == collect_line(info_views(old(infos)@), line@),
        done == is_bestmove_line(line@),
{
    let trimmed = trim_text(line);
    if text_has_prefix(trimmed, "info ") {
        let parsed = parse_info_line(trimmed);
        match parsed {
            Some(info) => {
                infos.push(info);
                assert(info_views(infos@) =~= info_views(old(infos)@).push(parse_info(trim(line@))));
            },
            None => {},
        }
    } else {
        assert(info_views(infos@) =~= info_views(old(infos)@));
    }
    text_has_prefix(trimmed, "bestmove ")
}

/// The line reports a complete principal variation at depth `depth`.
pub open spec fn qualifies(i: InfoView, depth: u32) -> bool {
    i.depth == Some(depth) && i.pv.len() > 0
}

/// The last line of `infos` that qualifies at `depth` and has rank `k`.
pub open spec fn last_with_rank(infos: Seq<InfoView>, depth: u32, k: usize) -> Option<InfoView>
    decreases infos.len(),
{
    if infos.len() == 0 {
        None
    } else if qualifies(infos.last(), depth) && infos.last().multipv == k {
        Some(infos.last())
    } else {
        last_with_rank(infos.drop_last(), depth, k)
    }
}

/// The last line of `infos` that qualifies at `depth`.
pub open spec fn last_qualifying(infos: Seq<InfoView>, depth: u32) -> Option<InfoView>
    decreases infos.len(),
{
    if infos.len() == 0 {
        None
    } else if qualifies(infos.last(), depth) {
        Some(infos.last())
    } else {
        last_qualifying(infos.drop_last(), depth)
    }
}

/// `r` holds, for each rank that some qualifying line of `infos` has, the
/// last such line, in increasing order of rank.
pub open spec fn is_ranked_selection(infos: Seq<InfoView>, depth: u32, r: Seq<InfoView>) -> bool {
    &&& forall|j: int| 0 <= j < r.len() ==> Some(#[trigger] r[j]) == last_with_rank(infos, depth, r[j].multipv)
    &&& forall|a: int, b: int| 0 <= a < b < r.len() ==> (#[trigger] r[a]).multipv < (#[trigger] r[b]).multipv
    &&& forall|i: int|
        0 <= i < infos.len() && qualifies(#[trigger] infos[i], depth) ==> exists|j: int|
            0 <= j < r.len() && r[j].multipv == infos[i].multipv
}

proof fn lemma_last_with_rank_is(infos: Seq<InfoView>, depth: u32, i: int)
    requires
        0 <= i < infos.len(),
        qualifies(infos[i], depth),
        forall|m: int|
            i < m < infos.len() && qualifies(#[trigger] infos[m], depth) ==> infos[m].multipv
                != infos[i].multipv,
    ensures
        last_with_rank(infos, depth, infos[i].multipv) == Some(infos[i]),
    decreases infos.len(),
{
    if i < infos.len() - 1 {
        let d = infos.drop_last();
        assert(d[i] == infos[i]);
        assert forall|m: int| i < m < d.len() && qualifies(#[trigger] d[m], depth) implies d[m].multipv
            != d[i].multipv by {
            assert(d[m] == infos[m]);
        }
        lemma_last_with_rank_is(d, depth, i);
        let l = infos.len() - 1;
        assert(!(qualifies(infos[l], depth) && infos[l].multipv == infos[i].multipv));
    }
}

proof fn lemma_last_with_rank_none(infos: Seq<InfoView>, depth: u32, k: usize)
    requires
        forall|m: int|
            0 <= m < infos.len() && qualifies(#[trigger] infos[m], depth) ==> infos[m].multipv != k,
    ensures
        last_with_rank(infos, depth, k) is None,
    decreases infos.len(),
{
    if infos.len() > 0 {
        let d = infos.drop_last();
        assert forall|m: int| 0 <= m < d.len() && qualifies(#[trigger] d[m], depth) implies d[m].multipv
            != k by {
            assert(d[m] == infos[m]);
        }
        lemma_last_with_rank_none(d, depth, k);
    }
}

proof fn lemma_last_with_rank_found(infos: Seq<InfoView>, depth: u32, k: usize)
    requires
        last_with_rank(infos, depth, k) is Some,
    ensures
        exists|m: int|
            0 <= m < infos.len() && qualifies(#[trigger] infos[m], depth) && infos[m].multipv == k
                && last_with_rank(infos, depth, k) == Some(infos[m]),
    decreases infos.len(),
{
    let l = infos.len() - 1;
    if qualifies(infos.last(), depth) && infos.last().multipv == k {
        assert(infos[l] == infos.last());
    } else {
        let d = infos.drop_last();
        lemma_last_with_rank_found(d, depth, k);
        let m = choose|m: int|
            0 <= m < d.len() && qualifies(#[trigger] d[m], depth) && d[m].multipv == k
                && last_with_rank(d, depth, k) == Some(d[m]);
        assert(infos[m] == d[m]);
    }
}

pub open spec fn sorted_by_rank(s: Seq<InfoView>) -> bool {
    forall|a: int, b: int| 0 <= a < b < s.len() ==> (#[trigger] s[a]).multipv < (#[trigger] s[b]).multipv
}

pub open spec fn has_rank(s: Seq<InfoView>, k: usize) -> bool {
    exists|j: int| 0 <= j < s.len() && (#[trigger] s[j]).multipv == k
}

/// Every rank of `a` is a rank of `b`.
pub open spec fn ranks_within(a: Seq<InfoView>, b: Seq<InfoView>) -> bool {
    forall|j: int| 0 <= j < a.len() ==> has_rank(b, (#[trigger] a[j]).multipv)
}

proof fn lemma_selection_ranks(infos: Seq<InfoView>, depth: u32, r1: Seq<InfoView>, r2: Seq<InfoView>)
    requires
        is_ranked_selection(infos, depth, r1),
        is_ranked_selection(infos, depth, r2),
    ensures
        ranks_within(r1, r2),
{
    assert forall|j: int| 0 <= j < r1.len() implies has_rank(r2, (#[trigger] r1[j]).multipv) by {
        lemma_last_with_rank_found(infos, depth, r1[j].multipv);
        let m = choose|m: int|
            0 <= m < infos.len() && qualifies(#[trigger] infos[m], depth) && infos[m].multipv
                == r1[j].multipv && last_with_rank(infos, depth, r1[j].multipv) == Some(infos[m]);
        let k = choose|k: int| 0 <= k < r2.len() && r2[k].multipv == infos[m].multipv;
        assert(r2[k].multipv == r1[j].multipv);
    }
}

proof fn lemma_sorted_keys_match(r1: Seq<InfoView>, r2: Seq<InfoView>, j: int)
    requires
        sorted_by_rank(r1),
        sorted_by_rank(r2),
        ranks_within(r1, r2),
        ranks_within(r2, r1),
        0 <= j < r1.len(),
        j < r2.len(),
    ensures
        forall|i: int| 0 <= i <= j ==> (#[trigger] r1[i]).multipv == r2[i].multipv,
    decreases j,
{
    if j > 0 {
        lemma_sorted_keys_match(r1, r2, j - 1);
    }
    let k1 = r1[j].multipv;
    let k2 = r2[j].multipv;
    assert(has_rank(r2, k1));
    let m = choose|m: int| 0 <= m < r2.len() && (#[trigger] r2[m]).multipv == k1;
    assert(has_rank(r1, k2));
    let m2 = choose|m: int| 0 <= m < r1.len() && (#[trigger] r1[m]).multipv == k2;
    if m < j {
        assert(r1[m].multipv == r2[m].multipv);
        assert(r1[m].multipv < r1[j].multipv);
    }
    if m2 < j {
        assert(r1[m2].multipv == r2[m2].multipv);
        assert(r2[m2].multipv < r2[j].multipv);
    }
    if m > j {
        assert(k2 < k1);
        assert(m2 >= j);
        if m2 > j {
            assert(r1[j].multipv < r1[m2].multipv);
        }
    }
}

/// There is only one ranked selection of a list of lines.
pub proof fn lemma_ranked_selection_unique(
    infos: Seq<InfoView>,
    depth: u32,
    r1: Seq<InfoView>,
    r2: Seq<InfoView>,
)
    requires
        is_ranked_selection(infos, depth, r1),
        is_ranked_selection(infos, depth, r2),
    ensures
        r1 == r2,
{
    lemma_selection_ranks(infos, depth, r1, r2);
    lemma_selection_ranks(infos, depth, r2, r1);
    if r1.len() > 0 && r2.len() > 0 {
        let j = if r1.len() < r2.len() {
            r1.len() - 1
        } else {
            r2.len() - 1
        };
        lemma_sorted_keys_match(r1, r2, j);
    }
    if r1.len() > r2.len() {
        let l = r2.len() as int;
        assert(has_rank(r2, r1[l].multipv));
        let m = choose|m: int| 0 <= m < r2.len() && (#[trigger] r2[m]).multipv == r1[l].multipv;
        assert(r1[m].multipv == r2[m].multipv);
        assert(r1[m].multipv < r1[l].multipv);
    }
    if r2.len() > r1.len() {
        let l = r1.len() as int;
        assert(has_rank(r1, r2[l].multipv));
        let m = choose|m: int| 0 <= m < r1.len() && (#[trigger] r1[m]).multipv == r2[l].multipv;
        assert(r1[m].multipv == r2[m].multipv);
        assert(r2[m].multipv < r2[l].multipv);
    }
    assert forall|j: int| 0 <= j < r1.len() implies r1[j] == r2[j] by {
        assert(r1[j].multipv == r2[j].multipv);
        assert(Some(r1[j]) == last_with_rank(infos, depth, r1[j].multipv));
        assert(Some(r2[j]) == last_with_rank(infos, depth, r2[j].multipv));
    }
    assert(r1 =~= r2);
}

/// The ranked selection of `infos` at `depth`.
pub open spec fn ranked_lines(infos: Seq<InfoView>, depth: u32) -> Seq<InfoView> {
    choose|r: Seq<InfoView>| is_ranked_selection(infos, depth, r)
}

/// Puts `info` into `out`, kept in increasing order of rank, unless a line of
/// the same rank is there already.
fn insert_by_rank(out: &mut Vec<ParsedInfo>, info: ParsedInfo)
    requires
        sorted_by_rank(info_views(old(out)@)),
    ensures
        sorted_by_rank(info_views(final(out)@)),
        has_rank(info_views(old(out)@), info.multipv) ==> final(out)@ == old(out)@,
        !has_rank(info_views(old(out)@), info.multipv) ==> {
            &&& exists|j: int|
                0 <= j < final(out)@.len() && #[trigger] info_views(final(out)@)[j] == info@
            &&& forall|j: int|
                0 <= j < final(out)@.len() ==> #[trigger] info_views(final(out)@)[j] == info@
                    || exists|m: int|
                    0 <= m < old(out)@.len() && info_views(old(out)@)[m] == info_views(
                        final(out)@,
                    )[j]
            &&& forall|m: int|
                0 <= m < old(out)@.len() ==> exists|j: int|
                    0 <= j < final(out)@.len() && info_views(final(out)@)[j]
                        == #[trigger] info_views(old(out)@)[m]
        },
{
    let ghost old_out = info_views(out@);
    let k = info.multipv;
    let mut p: usize = 0;
    let mut present = false;
    while p < out.len()
        invariant_except_break
            !present,
        invariant
            info_views(out@) == old_out,
            p <= out.len(),
            forall|a: int| 0 <= a < p ==> (#[trigger] old_out[a]).multipv < k,
        ensures
            info_views(out@) == old_out,
            p <= out.len(),
            forall|a: int| 0 <= a < p ==> (#[trigger] old_out[a]).multipv < k,
            present ==> p < out.len() && old_out[p as int].multipv == k,
            !present ==> (p < out.len() ==> old_out[p as int].multipv > k),
        decreases out.len() - p,
    {
        assert(old_out[p as int] == out@[p as int]@);
        if out[p].multipv == k {
            present = true;
            break;
        }
        if out[p].multipv > k {
            break;
        }
        p += 1;
    }
    if present {
        return;
    }
    assert(!has_rank(old_out, k)) by {
        if has_rank(old_out, k) {
            let j = choose|j: int| 0 <= j < old_out.len() && (#[trigger] old_out[j]).multipv == k;
            if j >= p {
                assert(j == p || old_out[p as int].multipv < old_out[j].multipv);
            }
        }
    }
    out.insert(p, info);
    proof {
        let nv = info_views(out@);
        assert(nv =~= old_out.insert(p as int, info@));
        assert(nv[p as int] == info@);
        assert forall|a: int, b: int| 0 <= a < b < nv.len() implies (#[trigger] nv[a]).multipv < (
        #[trigger] nv[b]).multipv by {
            if b > p {
                assert(nv[b] == old_out[b - 1]);
                if b - 1 > p {
                    assert(old_out[p as int].multipv < old_out[b - 1].multipv);
                }
            }
            if a > p {
                assert(nv[a] == old_out[a - 1]);
            }
        }
        assert forall|j: int| 0 <= j < nv.len() implies #[trigger] nv[j] == info@ || exists|m: int|
            0 <= m < old_out.len() && old_out[m] == nv[j] by {
            if j < p {
                assert(old_out[j] == nv[j]);
            } else if j > p {
                assert(old_out[j - 1] == nv[j]);
            }
        }
        assert forall|m: int| 0 <= m < old_out.len() implies exists|j: int|
            0 <= j < nv.len() && nv[j] == #[trigger] old_out[m] by {
            if m < p {
                assert(nv[m] == old_out[m]);
            } else {
                assert(nv[m + 1] == old_out[m]);
            }
        }
    }
}

/// Every line of `out` is the last qualifying line of `all` with its rank.
pub open spec fn all_last_with_rank(all: Seq<InfoView>, depth: u32, out: Seq<InfoView>) -> bool {
    forall|j: int| 0 <= j < out.len() ==> Some(#[trigger] out[j]) == last_with_rank(all, depth, out[j].multipv)
}

/// The lines of a ranked search at depth `depth` from the collected `infos`:
/// for each rank, the last complete line at that depth, by increasing rank.
#[verifier::rlimit(40)]
pub fn select_ranked_lines(infos: Vec<ParsedInfo>, depth: u32) -> (r: Vec<ParsedInfo>)
    ensures
        is_ranked_selection(info_views(infos@), depth, info_views(r@)),
        info_views(r@) == ranked_lines(info_views(infos@), depth),
{
    let ghost all = info_views(infos@);
    let ghost n = infos.len() as int;
    let mut rest = infos;
    let mut out: Vec<ParsedInfo> = Vec::new();
    assert(all.take(n) =~= all);
    while rest.len() > 0
        invariant
            rest.len() <= n,
            n == all.len(),
            info_views(rest@) == all.take(rest.len() as int),
            all_last_with_rank(all, depth, info_views(out@)),
            sorted_by_rank(info_views(out@)),
            forall|i: int|
                rest.len() <= i < n && qualifies(#[trigger] all[i], depth) ==> has_rank(
                    info_views(out@),
                    all[i].multipv,
                ),
            forall|j: int|
                0 <= j < out.len() ==> exists|i: int|
                    rest.len() <= i < n && qualifies(#[trigger] all[i], depth) && all[i].multipv
                        == (#[trigger] info_views(out@)[j]).multipv,
        decreases rest.len(),
    {
        let ghost old_out = info_views(out@);
        let ghost len0 = rest.len() as int;
        let ghost before = rest@;
        let info = rest.pop().unwrap();
        let ghost idx = len0 - 1;
        assert(all[idx] == info@) by {
            assert(info_views(before)[idx] == all.take(len0)[idx]);
        }
        assert(info_views(rest@) =~= all.take(idx));
        let good = match info.depth {
            Some(d) => d == depth && info.pv.len() > 0,
            None => false,
        };
        if good {
            let ghost k = info.multipv;
            proof {
                if !has_rank(old_out, k) {
                    assert forall|m: int|
                        idx < m < n && qualifies(#[trigger] all[m], depth) implies all[m].multipv
                        != all[idx].multipv by {
                        assert(has_rank(old_out, all[m].multipv));
                    }
                    lemma_last_with_rank_is(all, depth, idx);
                }
            }
            insert_by_rank(&mut out, info);
            proof {
                let nv = info_views(out@);
                if has_rank(old_out, k) {
                    assert(nv == old_out);
                    let j0 = choose|j: int| 0 <= j < old_out.len() && (#[trigger] old_out[j]).multipv == k;
                    assert forall|j: int| 0 <= j < nv.len() implies exists|i: int|
                        idx <= i < n && qualifies(#[trigger] all[i], depth) && all[i].multipv
                            == (#[trigger] nv[j]).multipv by {
                        let i0 = choose|i: int|
                            len0 <= i < n && qualifies(#[trigger] all[i], depth) && all[i].multipv
                                == (#[trigger] old_out[j]).multipv;
                    }
                } else {
                    assert forall|j: int| 0 <= j < nv.len() implies Some(#[trigger] nv[j])
                        == last_with_rank(all, depth, nv[j].multipv) by {
                        if nv[j] != info@ {
                            let m = choose|m: int| 0 <= m < old_out.len() && old_out[m] == nv[j];
                        }
                    }
                    assert forall|i: int|
                        idx <= i < n && qualifies(#[trigger] all[i], depth) implies has_rank(
                        nv,
                        all[i].multipv,
                    ) by {
                        if i == idx {
                            let j = choose|j: int| 0 <= j < nv.len() && #[trigger] nv[j] == info@;
                        } else {
                            let m = choose|m: int| 0 <= m < old_out.len() && (#[trigger] old_out[m]).multipv == all[i].multipv;
                            let j = choose|j: int| 0 <= j < nv.len() && nv[j] == #[trigger] old_out[m];
                        }
                    }
                    assert forall|j: int| 0 <= j < nv.len() implies exists|i: int|
                        idx <= i < n && qualifies(#[trigger] all[i], depth) && all[i].multipv
                            == (#[trigger] nv[j]).multipv by {
                        if nv[j] != info@ {
                            let m = choose|m: int| 0 <= m < old_out.len() && old_out[m] == nv[j];
                            let i0 = choose|i: int|
                                len0 <= i < n && qualifies(#[trigger] all[i], depth) && all[i].multipv
                                    == (#[trigger] old_out[m]).multipv;
                        } else {
                            assert(qualifies(all[idx], depth));
                        }
                    }
                }
            }
        } else {
            proof {
                assert(!qualifies(all[idx], depth));
                assert forall|j: int| 0 <= j < old_out.len() implies exists|i: int|
                    idx <= i < n && qualifies(#[trigger] all[i], depth) && all[i].multipv
                        == (#[trigger] old_out[j]).multipv by {
                    let i0 = choose|i: int|
                        len0 <= i < n && qualifies(#[trigger] all[i], depth) && all[i].multipv
                            == (#[trigger] old_out[j]).multipv;
                }
            }
        }
    }
    proof {
        let ov = info_views(out@);
        assert forall|i: int| 0 <= i < all.len() && qualifies(#[trigger] all[i], depth) implies exists|j: int|
            0 <= j < ov.len() && ov[j].multipv == all[i].multipv by {
            assert(has_rank(ov, all[i].multipv));
        }
        assert(is_ranked_selection(all, depth, ov));
        lemma_ranked_selection_unique(all, depth, ov, ranked_lines(all, depth));
    }
    out
}

/// The answer to a search restricted to one root move: the last complete line
/// at depth `depth`, if any.
pub fn select_last_line(infos: Vec<ParsedInfo>, depth: u32) -> (r: Option<ParsedInfo>)
    ensures
        match r {
            Some(i) => last_qualifying(info_views(infos@), depth) == Some(i@),
            None => last_qualifying(info_views(infos@), depth) is None,
        },
{
    let ghost all = info_views(infos@);
    let mut rest = infos;
    assert(all.take(all.len() as int) =~= all);
    while rest.len() > 0
        invariant
            all == info_views(infos@),
            rest.len() <= all.len(),
            info_views(rest@) == all.take(rest.len() as int),
            last_qualifying(all, depth) == last_qualifying(all.take(rest.len() as int), depth),
        decreases rest.len(),
    {
        let ghost len0 = rest.len() as int;
        let ghost before = rest@;
        let info = rest.pop().unwrap();
        assert(all.take(len0).last() == info@) by {
            assert(info_views(before)[len0 - 1] == all.take(len0)[len0 - 1]);
        }
        assert(all.take(len0).drop_last() =~= all.take(len0 - 1));
        assert(info_views(rest@) =~= all.take(len0 - 1));
        let good = match info.depth {
            Some(d) => d == depth && info.pv.len() > 0,
            None => false,
        };
        if good {
            assert(info@.pv.len() == info.pv@.len());
            assert(qualifies(info@, depth));
            assert(last_qualifying(all.take(len0), depth) == Some(info@));
            return Some(info);
        }
    }
    None
}

} // verus!
