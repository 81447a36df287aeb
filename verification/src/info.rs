//! The `info` lines that a UCI engine prints while it searches.
use vstd::prelude::*;
use crate::text::{
    parse_i32, parse_i32_text, parse_u32, parse_u32_text, parse_usize, parse_usize_text,
    split_words, text_eq, views, words,
};

verus! {

/// What one `info` line reports: the search depth, the rank of the line
/// among several principal variations, the score in centipawns or in moves
/// to mate, and the principal variation as UCI moves.
#[derive(Debug)]
pub struct ParsedInfo {
    pub depth: Option<u32>,
    pub multipv: usize,
    pub cp: Option<i32>,
    pub mate: Option<i32>,
    pub pv: Vec<String>,
}

/// A `ParsedInfo` with its moves taken as character sequences.
pub struct InfoView {
    pub depth: Option<u32>,
    pub multipv: usize,
    pub cp: Option<i32>,
    pub mate: Option<i32>,
    pub pv: Seq<Seq<char>>,
}

impl View for ParsedInfo {
    type V = InfoView;

    open spec fn view(&self) -> InfoView {
        InfoView {
            depth: self.depth,
            multipv: self.multipv,
            cp: self.cp,
            mate: self.mate,
            pv: views(self.pv@),
        }
    }
}

/// The fields before any word of a line has been read.
pub open spec fn info_start() -> InfoView {
    InfoView { depth: None, multipv: 1, cp: None, mate: None, pv: Seq::empty() }
}

pub open spec fn index_after(i: int, k: int, n: int) -> int {
    if i + k <= n {
        i + k
    } else {
        n
    }
}

/// Reads the words `t` from index `i` on into `acc`: `depth N` and
/// `multipv N` set those fields from the word that follows (a `multipv`
/// without a number counts as 1); `score cp N` and `score mate N` set the
/// score, the one named, from the second word that follows; `pv` takes all
/// the words after it and ends the line; every other word is passed over.
pub open spec fn scan_info(t: Seq<Seq<char>>, i: int, acc: InfoView) -> InfoView
    decreases t.len() - i,
{
    if i < 0 || i >= t.len() {
        acc
    } else if t[i] == "depth"@ {
        let d = if i + 1 < t.len() {
            parse_u32(t[i + 1])
        } else {
            None
        };
        scan_info(
            t,
            index_after(i, 2, t.len() as int),
            InfoView { depth: d, multipv: acc.multipv, cp: acc.cp, mate: acc.mate, pv: acc.pv },
        )
    } else if t[i] == "multipv"@ {
        let m = if i + 1 < t.len() {
            parse_usize(t[i + 1])
        } else {
            None
        };
        let k: usize = match m {
            Some(v) => v,
            None => 1,
        };
        scan_info(
            t,
            index_after(i, 2, t.len() as int),
            InfoView { depth: acc.depth, multipv: k, cp: acc.cp, mate: acc.mate, pv: acc.pv },
        )
    } else if t[i] == "score"@ {
        if i + 2 < t.len() {
            let next = if t[i + 1] == "cp"@ {
                InfoView {
                    depth: acc.depth,
                    multipv: acc.multipv,
                    cp: parse_i32(t[i + 2]),
                    mate: acc.mate,
                    pv: acc.pv,
                }
            } else if t[i + 1] == "mate"@ {
                InfoView {
                    depth: acc.depth,
                    multipv: acc.multipv,
                    cp: acc.cp,
                    mate: parse_i32(t[i + 2]),
                    pv: acc.pv,
                }
            } else {
                acc
            };
            scan_info(t, i + 3, next)
        } else {
            scan_info(t, i + 1, acc)
        }
    } else if t[i] == "pv"@ {
        InfoView {
            depth: acc.depth,
            multipv: acc.multipv,
            cp: acc.cp,
            mate: acc.mate,
            pv: t.subrange(i + 1, t.len() as int),
        }
    } else {
        scan_info(t, i + 1, acc)
    }
}

/// The words that `scan_info` reads as keys.
pub open spec fn is_key(w: Seq<char>) -> bool {
    w == "depth"@ || w == "multipv"@ || w == "score"@ || w == "pv"@
}

/// Reading on from `i` where no later word is `depth` leaves the depth as it
/// is: no other word, `seldepth` among them, sets it.
proof fn lemma_scan_keeps_depth(t: Seq<Seq<char>>, i: int, acc: InfoView)
    requires
        0 <= i,
        forall|j: int| i <= j < t.len() ==> t[j] != "depth"@,
    ensures
        scan_info(t, i, acc).depth == acc.depth,
    decreases t.len() - i,
{
    if i < t.len() {
        if t[i] == "multipv"@ {
            let m = if i + 1 < t.len() {
                parse_usize(t[i + 1])
            } else {
                None
            };
            let k: usize = match m {
                Some(v) => v,
                None => 1,
            };
            lemma_scan_keeps_depth(
                t,
                index_after(i, 2, t.len() as int),
                InfoView { depth: acc.depth, multipv: k, cp: acc.cp, mate: acc.mate, pv: acc.pv },
            );
        } else if t[i] == "score"@ {
            if i + 2 < t.len() {
                let next = if t[i + 1] == "cp"@ {
                    InfoView {
                        depth: acc.depth,
                        multipv: acc.multipv,
                        cp: parse_i32(t[i + 2]),
                        mate: acc.mate,
                        pv: acc.pv,
                    }
                } else if t[i + 1] == "mate"@ {
                    InfoView {
                        depth: acc.depth,
                        multipv: acc.multipv,
                        cp: acc.cp,
                        mate: parse_i32(t[i + 2]),
                        pv: acc.pv,
                    }
                } else {
                    acc
                };
                lemma_scan_keeps_depth(t, i + 3, next);
            } else {
                lemma_scan_keeps_depth(t, i + 1, acc);
            }
        } else if t[i] == "pv"@ {
        } else {
            lemma_scan_keeps_depth(t, i + 1, acc);
        }
    }
}

/// Words that are not keys are passed over one by one.
proof fn lemma_scan_skips_plain_words(t: Seq<Seq<char>>, i: int, k: int, acc: InfoView)
    requires
        0 <= i <= k <= t.len(),
        forall|j: int| i <= j < k ==> !is_key(#[trigger] t[j]),
    ensures
        scan_info(t, i, acc) == scan_info(t, k, acc),
    decreases k - i,
{
    if i < k {
        assert(!is_key(t[i]));
        lemma_scan_skips_plain_words(t, i + 1, k, acc);
    }
}

/// A line without the word `depth` reports no depth: no other word, such as
/// `seldepth`, gives one.
pub proof fn lemma_no_depth_word_no_depth(line: Seq<char>)
    requires
        forall|j: int| 0 <= j < words(line).len() ==> words(line)[j] != "depth"@,
    ensures
        parse_info(line).depth is None,
{
    lemma_scan_keeps_depth(words(line), 0, info_start());
}

/// The depth of a line is read from the word after its `depth` word: when the
/// line has one `depth` word, preceded by no key, followed by a word `d`, the
/// depth is `d` read as a `u32`, whatever else the line holds (`seldepth`,
/// `nodes`, scores, the variation).
pub proof fn lemma_depth_from_depth_word(line: Seq<char>, k: int)
    requires
        0 <= k,
        k + 1 < words(line).len(),
        words(line)[k] == "depth"@,
        forall|j: int| 0 <= j < k ==> !is_key(#[trigger] words(line)[j]),
        forall|j: int| k < j < words(line).len() ==> words(line)[j] != "depth"@,
    ensures
        parse_info(line).depth == parse_u32(words(line)[k + 1]),
{
    let t = words(line);
    lemma_scan_skips_plain_words(t, 0, k, info_start());
    let a = info_start();
    let next = InfoView {
        depth: parse_u32(t[k + 1]),
        multipv: a.multipv,
        cp: a.cp,
        mate: a.mate,
        pv: a.pv,
    };
    assert(scan_info(t, k, a) == scan_info(t, index_after(k, 2, t.len() as int), next));
    lemma_scan_keeps_depth(t, index_after(k, 2, t.len() as int), next);
}

/// What an `info` line reports, read from its whitespace-separated words.
pub open spec fn parse_info(line: Seq<char>) -> InfoView {
    scan_info(words(line), 0, info_start())
}

/// Reads the fields of an engine `info` line; every line gives a result.
pub fn parse_info_line(line: &str) -> (r: Option<ParsedInfo>)
    ensures
        r is Some,
        r->0@ == parse_info(line@),
{
    let mut tokens = split_words(line);
    let ghost t = words(line@);
    let n = tokens.len();
    let mut depth: Option<u32> = None;
    let mut multipv: usize = 1;
    let mut cp: Option<i32> = None;
    let mut mate: Option<i32> = None;
    let mut pv_from: Option<usize> = None;
    let mut i: usize = 0;
    while i < n
        invariant_except_break
            pv_from is None,
            scan_info(t, 0, info_start()) == scan_info(
                t,
                i as int,
                InfoView { depth, multipv, cp, mate, pv: Seq::empty() },
            ),
        invariant
            views(tokens@) == t,
            n == tokens.len(),
            i <= n,
        ensures
            views(tokens@) == t,
            n == tokens.len(),
            match pv_from {
                Some(k) => 1 <= k <= n && scan_info(t, 0, info_start()) == (InfoView {
                    depth,
                    multipv,
                    cp,
                    mate,
                    pv: t.subrange(k as int, n as int),
                }),
                None => scan_info(t, 0, info_start()) == (InfoView {
                    depth,
                    multipv,
                    cp,
                    mate,
                    pv: Seq::empty(),
                }),
            },
        decreases n - i,
    {
        assert(tokens@[i as int]@ == t[i as int]);
        let word = tokens[i].as_str();
        if text_eq(word, "depth") {
            if i + 1 < n {
                assert(tokens@[i + 1]@ == t[i + 1]);
                depth = parse_u32_text(tokens[i + 1].as_str());
            } else {
                depth = None;
            }
            i = if i + 1 < n {
                i + 2
            } else {
                n
            };
        } else if text_eq(word, "multipv") {
            let m = if i + 1 < n {
                assert(tokens@[i + 1]@ == t[i + 1]);
                parse_usize_text(tokens[i + 1].as_str())
            } else {
                None
            };
            multipv = match m {
                Some(v) => v,
                None => 1,
            };
            i = if i + 1 < n {
                i + 2
            } else {
                n
            };
        } else if text_eq(word, "score") {
            if i + 1 < n && i + 2 < n {
                assert(tokens@[i + 1]@ == t[i + 1]);
                assert(tokens@[i + 2]@ == t[i + 2]);
                let kind = tokens[i + 1].as_str();
                if text_eq(kind, "cp") {
                    cp = parse_i32_text(tokens[i + 2].as_str());
                } else if text_eq(kind, "mate") {
                    mate = parse_i32_text(tokens[i + 2].as_str());
                }
                i = i + 3;
            } else {
                i = i + 1;
            }
        } else if text_eq(word, "pv") {
            pv_from = Some(i + 1);
            break;
        } else {
            i = i + 1;
        }
    }
    let pv = match pv_from {
        Some(k) => {
            let rest = tokens.split_off(k);
            assert(views(rest@) =~= t.subrange(k as int, n as int));
            rest
        },
        None => {
            let empty: Vec<String> = Vec::new();
            assert(views(empty@) =~= Seq::<Seq<char>>::empty());
            empty
        },
    };
    Some(ParsedInfo { depth, multipv, cp, mate, pv })
}

} // verus!
