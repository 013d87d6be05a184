//! The exact/fuzzy block-replace strategy: one search/replace block with
//! explicit markers, located by whitespace-normalized similarity against
//! windows of the original lines, with an optional line-range hint.

use vstd::prelude::*;

verus! {

use crate::distance::{
    CONFIDENCE_SCALE,
    normalize_chars,
    normalize_ws,
    sim_milli_capped,
    similarity_milli,
};
use crate::model::{DiffResult, DiffResultDetails};
use crate::text::{
    chars_of,
    dec_str,
    find_sub,
    has_match_from,
    is_match_at,
    join_lines,
    join_nl,
    split_lines,
    split_lines_seq,
    string_from_chars,
    udec,
    views_of,
};

/// Lines scanned around a hint by default; kept as configuration.
pub const BUFFER_LINES: usize = 20;

/// The first occurrence of `p` in `t` at or after `from`; `t.len() + 1`
/// stands for no occurrence.
pub open spec fn first_match(t: Seq<char>, p: Seq<char>, from: int) -> int
    decreases t.len() - from,
        when 0 <= from
{
    if from + p.len() > t.len() {
        t.len() as int + 1
    } else if p.len() == 0 {
        from
    } else if is_match_at(t, p, from) {
        from
    } else {
        first_match(t, p, from + 1)
    }
}

pub proof fn lemma_first_match(t: Seq<char>, p: Seq<char>, from: int)
    requires
        0 <= from,
    ensures
        first_match(t, p, from) <= t.len() + 1,
        first_match(t, p, from) == t.len() + 1 ==> !has_match_from(t, p, from),
        first_match(t, p, from) <= t.len() ==> from <= first_match(t, p, from) && is_match_at(
            t,
            p,
            first_match(t, p, from),
        ) && forall|j: int| from <= j < first_match(t, p, from) ==> !is_match_at(t, p, j),
    decreases t.len() - from,
{
    if from + p.len() > t.len() {
        assert(forall|i: int| from <= i ==> !is_match_at(t, p, i));
    } else if p.len() == 0 {
        assert(t.subrange(from, from) =~= p);
        assert(is_match_at(t, p, from));
    } else if is_match_at(t, p, from) {
    } else {
        lemma_first_match(t, p, from + 1);
        if first_match(t, p, from + 1) == t.len() + 1 {
            assert(!has_match_from(t, p, from)) by {
                if has_match_from(t, p, from) {
                    let i = choose|i: int| from <= i && is_match_at(t, p, i);
                    assert(from + 1 <= i);
                }
            }
        }
    }
}

/// The one search/replace block of the diff text: the search text between
/// the opening marker and the separator, and the replace text between the
/// separator and the closing marker, each taken at its first occurrence.
pub open spec fn sr_parse(t: Seq<char>) -> Option<(Seq<char>, Seq<char>)> {
    let p1 = "<<<<<<< SEARCH\n"@;
    let p2 = "\n=======\n"@;
    let p3 = "\n>>>>>>> REPLACE"@;
    let m1 = first_match(t, p1, 0);
    if m1 > t.len() {
        None
    } else {
        let cs = m1 + p1.len();
        let m2 = first_match(t, p2, cs);
        if m2 > t.len() {
            None
        } else {
            let rs = m2 + p2.len();
            let m3 = first_match(t, p3, rs);
            if m3 > t.len() {
                None
            } else {
                Some((t.subrange(cs, m2), t.subrange(rs, m3)))
            }
        }
    }
}

/// Similarity between a candidate text and the search text: both are
/// whitespace-normalized; equal forms score the full scale, otherwise the
/// normalized Levenshtein similarity decides. (An empty search never
/// reaches this measure: it denotes insertion at the hinted line.)
pub open spec fn spec_get_similarity(original: Seq<char>, search: Seq<char>) -> int {
    if normalize_ws(original) == normalize_ws(search) {
        CONFIDENCE_SCALE as int
    } else {
        sim_milli_capped(normalize_ws(original), normalize_ws(search))
    }
}

/// The measure does not depend on the order of its two texts.
pub proof fn lemma_get_similarity_symmetric(a: Seq<char>, b: Seq<char>)
    ensures
        spec_get_similarity(a, b) == spec_get_similarity(b, a),
{
    crate::distance::lemma_sim_symmetric(normalize_ws(a), normalize_ws(b));
}

fn chars_eq(a: &Vec<char>, b: &Vec<char>) -> (r: bool)
    ensures
        r == (a@ == b@),
{
    if a.len() != b.len() {
        assert(a@ != b@);
        return false;
    }
    let mut i: usize = 0;
    while i < a.len()
        invariant
            0 <= i <= a@.len(),
            a@.len() == b@.len(),
            forall|j: int| 0 <= j < i ==> a@[j] == b@[j],
        decreases a@.len() - i,
    {
        if a[i] != b[i] {
            return false;
        }
        i = i + 1;
    }
    proof {
        assert(a@ =~= b@);
    }
    true
}

proof fn lemma_success_witness(
    lines: Seq<Seq<char>>,
    search: Seq<char>,
    replace: Seq<char>,
    thr: int,
    idx: int,
    e: int,
    content: Seq<char>,
)
    requires
        0 <= idx <= lines.len(),
        idx <= e <= lines.len(),
        window_score(lines, search, idx, e) >= thr || (split_lines_seq(search).len() == 0 && thr
            <= CONFIDENCE_SCALE),
        content == join_nl(
            splice_at(lines, split_lines_seq(replace), idx, split_lines_seq(search).len() as int),
        ),
    ensures
        exists|i2: int, e2: int|
            {
                &&& 0 <= i2 <= lines.len()
                &&& i2 <= e2 <= lines.len()
                &&& (#[trigger] window_score(lines, search, i2, e2) >= thr || (split_lines_seq(
                    search,
                ).len() == 0 && thr <= CONFIDENCE_SCALE))
                &&& content == join_nl(
                    splice_at(
                        lines,
                        split_lines_seq(replace),
                        i2,
                        split_lines_seq(search).len() as int,
                    ),
                )
            },
{
    assert(window_score(lines, search, idx, e) >= thr || (split_lines_seq(search).len() == 0
        && thr <= CONFIDENCE_SCALE));
}

/// The strategy that replaces one explicitly marked block, at the given
/// fuzzy threshold (exact by default).
#[derive(Debug)]
pub struct SearchReplaceDiffStrategy {
    pub fuzzy_threshold: u32,
    pub buffer_lines: usize,
}

impl SearchReplaceDiffStrategy {
    /// A strategy with the given fuzzy threshold (the full scale — exact —
    /// when not given) and hint buffer size.
    pub fn new(fuzzy_threshold: Option<u32>, buffer_lines: Option<usize>) -> (r: Self)
        ensures
            r.fuzzy_threshold == match fuzzy_threshold {
                Some(t) => t as int,
                None => CONFIDENCE_SCALE as int,
            },
            r.buffer_lines == match buffer_lines {
                Some(b) => b as int,
                None => BUFFER_LINES as int,
            },
    {
        SearchReplaceDiffStrategy {
            fuzzy_threshold: match fuzzy_threshold {
                Some(t) => t,
                None => CONFIDENCE_SCALE,
            },
            buffer_lines: match buffer_lines {
                Some(b) => b,
                None => BUFFER_LINES,
            },
        }
    }

    /// The usage text shown to the model for this strategy.
    pub fn get_tool_description(&self, args: &crate::prompts::ToolArgs) -> (r: String)
        ensures
            r@ == "## apply_diff\nDescription: Request to replace existing code using a search and replace block.\nThis tool allows for precise, surgical replaces to files by specifying exactly what content to search for and what to replace it with.\nThe tool will maintain proper indentation and formatting while making changes.\nOnly a single operation is allowed per tool use.\nThe SEARCH section must exactly match existing content including whitespace and indentation.\nIf you're not confident in the exact content to search for, use the read_file tool first to get the exact content.\nWhen applying the diffs, be extra careful to remember to change any closing brackets or other syntax that may be affected by the diff farther down in the file.\n\nParameters:\n- path: (required) The path of the file to modify (relative to the current working directory "@
                + args.cwd@
                + ")\n- diff: (required) The search/replace block defining the changes.\n- start_line: (required) The line number where the search block starts.\n- end_line: (required) The line number where the search block ends.\n\nDiff format:\n```\n<<<<<<< SEARCH\n[exact content to find including whitespace]\n=======\n[new content to replace with]\n>>>>>>> REPLACE\n```"@,
    {
        String::from_str(
            "## apply_diff\nDescription: Request to replace existing code using a search and replace block.\nThis tool allows for precise, surgical replaces to files by specifying exactly what content to search for and what to replace it with.\nThe tool will maintain proper indentation and formatting while making changes.\nOnly a single operation is allowed per tool use.\nThe SEARCH section must exactly match existing content including whitespace and indentation.\nIf you're not confident in the exact content to search for, use the read_file tool first to get the exact content.\nWhen applying the diffs, be extra careful to remember to change any closing brackets or other syntax that may be affected by the diff farther down in the file.\n\nParameters:\n- path: (required) The path of the file to modify (relative to the current working directory ",
        ).concat(args.cwd.as_str()).concat(
            ")\n- diff: (required) The search/replace block defining the changes.\n- start_line: (required) The line number where the search block starts.\n- end_line: (required) The line number where the search block ends.\n\nDiff format:\n```\n<<<<<<< SEARCH\n[exact content to find including whitespace]\n=======\n[new content to replace with]\n>>>>>>> REPLACE\n```",
        )
    }

    /// Score a candidate against the search text.
    pub fn get_similarity(original: &str, search: &str) -> (r: u32)
        ensures
            r as int == spec_get_similarity(original@, search@),
            r <= CONFIDENCE_SCALE,
    {
        let sc = chars_of(search);
        let oc = chars_of(original);
        let no = normalize_chars(&oc);
        let ns = normalize_chars(&sc);
        if chars_eq(&no, &ns) {
            return CONFIDENCE_SCALE;
        }
        similarity_milli(&no, &ns)
    }

    /// Extract the block; the concrete counterpart of `sr_parse`.
    fn parse_block(diff_content: &str) -> (r: Option<(String, String)>)
        ensures
            match r {
                Some((s, rep)) => sr_parse(diff_content@) == Some((s@, rep@)),
                None => sr_parse(diff_content@) is None,
            },
    {
        let t = chars_of(diff_content);
        let tn: usize = t.len();
        let p1 = chars_of("<<<<<<< SEARCH\n");
        let p2 = chars_of("\n=======\n");
        let p3 = chars_of("\n>>>>>>> REPLACE");
        proof {
            lemma_first_match(t@, p1@, 0);
        }
        let m1 = match find_sub(&t, &p1, 0) {
            Some(m) => m,
            None => {
                proof {
                    if first_match(t@, p1@, 0) <= t@.len() {
                        assert(is_match_at(t@, p1@, first_match(t@, p1@, 0)));
                    }
                }
                return None;
            },
        };
        proof {
            assert(first_match(t@, p1@, 0) == m1) by {
                if first_match(t@, p1@, 0) > t@.len() {
                    assert(!has_match_from(t@, p1@, 0));
                }
            }
        }
        let cs = m1 + p1.len();
        proof {
            lemma_first_match(t@, p2@, cs as int);
        }
        let m2 = match find_sub(&t, &p2, cs) {
            Some(m) => m,
            None => {
                proof {
                    if first_match(t@, p2@, cs as int) <= t@.len() {
                        assert(is_match_at(t@, p2@, first_match(t@, p2@, cs as int)));
                    }
                }
                return None;
            },
        };
        proof {
            assert(first_match(t@, p2@, cs as int) == m2) by {
                if first_match(t@, p2@, cs as int) > t@.len() {
                    assert(!has_match_from(t@, p2@, cs as int));
                }
            }
        }
        let rs = m2 + p2.len();
        proof {
            lemma_first_match(t@, p3@, rs as int);
        }
        let m3 = match find_sub(&t, &p3, rs) {
            Some(m) => m,
            None => {
                proof {
                    if first_match(t@, p3@, rs as int) <= t@.len() {
                        assert(is_match_at(t@, p3@, first_match(t@, p3@, rs as int)));
                    }
                }
                return None;
            },
        };
        proof {
            assert(first_match(t@, p3@, rs as int) == m3) by {
                if first_match(t@, p3@, rs as int) > t@.len() {
                    assert(!has_match_from(t@, p3@, rs as int));
                }
            }
        }
        let mut sv: Vec<char> = Vec::new();
        let mut i: usize = cs;
        while i < m2
            invariant
                cs <= i <= m2 <= t@.len(),
                sv@ == t@.subrange(cs as int, i as int),
            decreases m2 - i,
        {
            sv.push(t[i]);
            proof {
                assert(sv@ =~= t@.subrange(cs as int, i + 1));
            }
            i = i + 1;
        }
        let mut rv: Vec<char> = Vec::new();
        let mut j: usize = rs;
        while j < m3
            invariant
                rs <= j <= m3 <= t@.len(),
                rv@ == t@.subrange(rs as int, j as int),
            decreases m3 - j,
        {
            rv.push(t[j]);
            proof {
                assert(rv@ =~= t@.subrange(rs as int, j + 1));
            }
            j = j + 1;
        }
        Some((string_from_chars(&sv), string_from_chars(&rv)))
    }

    /// Replace one marked block in the content. The block is parsed by the
    /// three-marker grammar; an empty search text demands equal
    /// `start_line` and `end_line` (insertion at that line); otherwise the
    /// best-scoring window of the original lines is located (the hinted
    /// range first) and must clear the fuzzy threshold; on success the
    /// replacement lines stand in the window's place, everything around
    /// them unchanged.
    #[verifier::rlimit(100)]
    pub fn apply_diff(
        &self,
        original_content: &str,
        diff_content: &str,
        start_line: Option<usize>,
        end_line: Option<usize>,
    ) -> (r: DiffResult)
        ensures
            sr_parse(diff_content@) is None ==> (r matches DiffResult::Failure { error, details }
                && error@ == "Invalid diff format - missing required SEARCH/REPLACE sections"@
                && details is None),
            (match sr_parse(diff_content@) {
                Some(p) => split_lines_seq(p.0).len() == 0 && start_line is None,
                None => false,
            }) ==> (r matches DiffResult::Failure { error, details } && error@
                == "Empty search content requires start_line to be specified"@ && details is None),
            (match sr_parse(diff_content@) {
                Some(p) => split_lines_seq(p.0).len() == 0 && start_line is Some && start_line
                    != end_line,
                None => false,
            }) ==> (r matches DiffResult::Failure { error, details } && error@ == msg_empty_range(
                start_line->0 as nat,
                match end_line {
                    Some(e) => e as nat,
                    None => 0,
                },
            ) && details is None),
            (r is Success && sr_parse(diff_content@) is Some) ==> ({
                let p = sr_parse(diff_content@)->0;
                let lines = split_lines_seq(original_content@);
                let k = split_lines_seq(p.0).len() as int;
                exists|idx: int, e: int|
                    {
                        &&& 0 <= idx <= lines.len()
                        &&& idx <= e <= lines.len()
                        &&& (#[trigger] window_score(lines, p.0, idx, e) >= self.fuzzy_threshold
                            || (k == 0 && self.fuzzy_threshold <= CONFIDENCE_SCALE))
                        &&& r->content@ == join_nl(splice_at(lines, split_lines_seq(p.1), idx, k))
                    }
            }),
            (match sr_parse(diff_content@) {
                Some(p) => {
                    let lines = split_lines_seq(original_content@);
                    let k = split_lines_seq(p.0).len() as int;
                    &&& k >= 1
                    &&& start_line is None
                    &&& end_line is None
                    &&& self.fuzzy_threshold <= CONFIDENCE_SCALE
                    &&& exists|i: int|
                        0 <= i && i + k <= lines.len() && #[trigger] window_score(
                            lines,
                            p.0,
                            i,
                            i + k,
                        ) == CONFIDENCE_SCALE
                },
                None => false,
            }) ==> r is Success,
            (match (sr_parse(diff_content@), start_line, end_line) {
                (Some(p), Some(sv), Some(ev)) => {
                    let n = split_lines_seq(original_content@).len() as int;
                    let si = if sv == 0 {
                        0int
                    } else {
                        sv - 1
                    };
                    let ei = min_of(ev as int, n);
                    &&& (split_lines_seq(p.0).len() >= 1 || sv == ev)
                    &&& (si >= n || si > ei)
                },
                _ => false,
            }) ==> (r matches DiffResult::Failure { error, details } && error@ == msg_invalid_range(
                start_line->0 as nat,
                end_line->0 as nat,
                split_lines_seq(original_content@).len(),
            ) && details is None),
            (match (sr_parse(diff_content@), start_line, end_line) {
                (Some(p), Some(sv), Some(ev)) => {
                    let lines = split_lines_seq(original_content@);
                    let n = lines.len() as int;
                    let si = if sv == 0 {
                        0int
                    } else {
                        sv - 1
                    };
                    let ei = min_of(ev as int, n);
                    let k = split_lines_seq(p.0).len() as int;
                    &&& (k >= 1 || sv == ev)
                    &&& si < n
                    &&& si <= ei
                    &&& window_score(lines, p.0, si, ei) >= self.fuzzy_threshold
                },
                _ => false,
            }) ==> (r matches DiffResult::Success { content } && ({
                let pp = sr_parse(diff_content@)->0;
                content@ == join_nl(
                    splice_at(
                        split_lines_seq(original_content@),
                        split_lines_seq(pp.1),
                        if start_line->0 == 0 {
                            0int
                        } else {
                            start_line->0 - 1
                        },
                        split_lines_seq(pp.0).len() as int,
                    ),
                )
            })),
            (match sr_parse(diff_content@) {
                Some(p) => {
                    let lines = split_lines_seq(original_content@);
                    let k = split_lines_seq(p.0).len() as int;
                    &&& k >= 1
                    &&& start_line is None
                    &&& end_line is None
                    &&& forall|i: int|
                        0 <= i && i + k <= lines.len() ==> #[trigger] window_score(
                            lines,
                            p.0,
                            i,
                            i + k,
                        ) < self.fuzzy_threshold
                },
                None => false,
            }) ==> (r matches DiffResult::Failure { error, details } && details is Some),
            (match r {
                DiffResult::Failure { error, details } => match details {
                    Some(d) => ({
                        let p = sr_parse(diff_content@)->0;
                        exists|b: u32|
                            {
                                &&& b <= CONFIDENCE_SCALE
                                &&& ((b as int) < self.fuzzy_threshold || b == 0)
                                &&& error@ == #[trigger] msg_no_match(
                                    b as nat,
                                    self.fuzzy_threshold as nat,
                                )
                                &&& d.similarity == Some(b)
                                &&& d.threshold == Some(self.fuzzy_threshold)
                                &&& (d.search_content matches Some(sc) && sc@ == p.0)
                                &&& d.matched_range is None
                                &&& d.best_match is None
                            }
                    }),
                    None => true,
                },
                _ => true,
            }),
    {
        let parsed = Self::parse_block(diff_content);
        let (search_content, replace_content) = match parsed {
            Some(p) => p,
            None => {
                return DiffResult::Failure {
                    error: String::from_str(
                        "Invalid diff format - missing required SEARCH/REPLACE sections",
                    ),
                    details: None,
                };
            },
        };
        let original_lines = split_lines(original_content);
        let search_lines = split_lines(search_content.as_str());
        let k = search_lines.len();
        let n = original_lines.len();
        let ghost linesv = views_of(original_lines@);
        if k == 0 {
            match start_line {
                None => {
                    return DiffResult::Failure {
                        error: String::from_str(
                            "Empty search content requires start_line to be specified",
                        ),
                        details: None,
                    };
                },
                Some(s) => {
                    let same = match end_line {
                        Some(e) => s == e,
                        None => false,
                    };
                    if !same {
                        let e_val: usize = match end_line {
                            Some(e) => e,
                            None => 0,
                        };
                        let mut msg = String::from_str(
                            "Empty search content requires start_line and end_line to be the same (got ",
                        );
                        msg.append(udec(s as u64).as_str());
                        msg.append("-");
                        msg.append(udec(e_val as u64).as_str());
                        msg.append(")");
                        return DiffResult::Failure { error: msg, details: None };
                    }
                },
            }
        }
        let mut best_found: bool = false;
        let mut best_index: usize = 0;
        let mut best_score: u32 = 0;
        let ghost mut best_end: int = 0;
        let hinted: bool = match (start_line, end_line) {
            (Some(_), Some(_)) => true,
            _ => false,
        };
        if hinted {
            let s = match start_line {
                Some(s) => s,
                None => 0,
            };
            let e = match end_line {
                Some(e) => e,
                None => 0,
            };
            let start_idx: usize = if s == 0 {
                0
            } else {
                s - 1
            };
            let end_idx: usize = if e <= n {
                e
            } else {
                n
            };
            if start_idx >= n || start_idx > end_idx {
                let mut msg = String::from_str("Line range ");
                msg.append(udec(s as u64).as_str());
                msg.append("-");
                msg.append(udec(e as u64).as_str());
                msg.append(" is invalid (file has ");
                msg.append(udec(n as u64).as_str());
                msg.append(" lines)");
                return DiffResult::Failure { error: msg, details: None };
            }
            if k == 0 {
                // insertion at the hinted line: no content to match
                if CONFIDENCE_SCALE >= self.fuzzy_threshold {
                    best_found = true;
                    best_index = start_idx;
                    best_score = CONFIDENCE_SCALE;
                    proof {
                        best_end = end_idx as int;
                    }
                }
            } else {
                let window_str = crate::search::join_range(&original_lines, start_idx, end_idx);
                let sim = Self::get_similarity(window_str.as_str(), search_content.as_str());
                if sim >= self.fuzzy_threshold {
                    best_found = true;
                    best_index = start_idx;
                    best_score = sim;
                    proof {
                        best_end = end_idx as int;
                        assert(window_score(
                            linesv,
                            search_content@,
                            start_idx as int,
                            end_idx as int,
                        ) == sim);
                    }
                }
            }
        }
        if !best_found {
            let srs: usize = match start_line {
                Some(l) => if l == 0 {
                    0
                } else {
                    l - 1
                },
                None => 0,
            };
            let sre: usize = match end_line {
                Some(e) => if e <= n {
                    e
                } else {
                    n
                },
                None => n,
            };
            if k >= 1 && k <= sre && srs <= sre - k {
                let upper: usize = sre - k;
                let mut i: usize = srs;
                while i <= upper
                    invariant
                        srs <= i,
                        upper + k == sre <= n,
                        n == linesv.len(),
                        linesv == views_of(original_lines@),
                        1 <= k == split_lines_seq(search_content@).len(),
                        views_of(search_lines@) == split_lines_seq(search_content@),
                        best_score <= CONFIDENCE_SCALE,
                        best_found ==> 0 <= best_index <= best_end <= n && best_score as int
                            == window_score(
                            linesv,
                            search_content@,
                            best_index as int,
                            best_end,
                        ),
                        !best_found ==> best_score == 0,
                        (start_line is None && end_line is None && self.fuzzy_threshold
                            <= CONFIDENCE_SCALE && k >= 1 && exists|q: int|
                            0 <= q < i && q + k <= n && #[trigger] window_score(
                                linesv,
                                search_content@,
                                q,
                                q + k,
                            ) == CONFIDENCE_SCALE) ==> (best_found && best_score
                            == CONFIDENCE_SCALE),
                        (start_line is None && end_line is None && (forall|q: int|
                            0 <= q && q + k <= n ==> #[trigger] window_score(
                                linesv,
                                search_content@,
                                q,
                                q + k,
                            ) < self.fuzzy_threshold)) ==> (best_found ==> (best_score as int)
                            < self.fuzzy_threshold),
                    decreases upper + 1 - i,
                {
                    let window_str = crate::search::join_range(&original_lines, i, i + k);
                    let sim = Self::get_similarity(window_str.as_str(), search_content.as_str());
                    if sim > best_score {
                        best_score = sim;
                        best_found = true;
                        best_index = i;
                        proof {
                            best_end = i + k;
                        }
                    }
                    proof {
                        assert(window_score(linesv, search_content@, i as int, i + k) == sim);
                    }
                    i = i + 1;
                }
            }
        }
        if !best_found || best_score < self.fuzzy_threshold {
            let mut msg = String::from_str("No sufficiently similar match found (");
            msg.append(udec((best_score / 10) as u64).as_str());
            msg.append("% similar, needs ");
            msg.append(udec((self.fuzzy_threshold / 10) as u64).as_str());
            msg.append("%)");
            proof {
                assert(msg@ =~= msg_no_match(best_score as nat, self.fuzzy_threshold as nat));
            }
            return DiffResult::Failure {
                error: msg,
                details: Some(
                    DiffResultDetails {
                        similarity: Some(best_score),
                        threshold: Some(self.fuzzy_threshold),
                        matched_range: None,
                        search_content: Some(search_content),
                        best_match: None,
                    },
                ),
            };
        }
        let idx = best_index;
        let tail_start: usize = if n - idx <= k {
            n
        } else {
            idx + k
        };
        let mut out = crate::search::clone_range(&original_lines, 0, idx);
        let replace_lines = split_lines(replace_content.as_str());
        let mut t: usize = 0;
        let ghost repv = views_of(replace_lines@);
        while t < replace_lines.len()
            invariant
                0 <= t <= replace_lines@.len(),
                repv == views_of(replace_lines@),
                idx <= n,
                n == linesv.len(),
                linesv == views_of(original_lines@),
                views_of(out@) == linesv.subrange(0, idx as int) + repv.take(t as int),
            decreases replace_lines@.len() - t,
        {
            let ghost prevout = out@;
            out.push(replace_lines[t].clone());
            proof {
                assert(out@ == prevout.push(replace_lines@[t as int]));
                assert(views_of(out@) =~= views_of(prevout).push(repv[t as int]));
                assert(views_of(prevout).push(repv[t as int]) =~= linesv.subrange(0, idx as int)
                    + repv.take(t + 1));
            }
            t = t + 1;
        }
        proof {
            assert(repv.take(repv.len() as int) =~= repv);
        }
        let mut u: usize = tail_start;
        while u < n
            invariant
                tail_start <= u <= n,
                idx <= n,
                n == linesv.len(),
                linesv == views_of(original_lines@),
                repv == views_of(replace_lines@),
                views_of(out@) == linesv.subrange(0, idx as int) + repv + linesv.subrange(
                    tail_start as int,
                    u as int,
                ),
            decreases n - u,
        {
            let ghost prevout = out@;
            out.push(original_lines[u].clone());
            proof {
                assert(out@ == prevout.push(original_lines@[u as int]));
                assert(views_of(out@) =~= views_of(prevout).push(linesv[u as int]));
                assert(views_of(prevout).push(linesv[u as int]) =~= linesv.subrange(0, idx as int)
                    + repv + linesv.subrange(tail_start as int, u + 1));
            }
            u = u + 1;
        }
        proof {
            assert(linesv.subrange(tail_start as int, tail_start as int) =~= Seq::<
                Seq<char>,
            >::empty());
            if tail_start == n {
                assert(views_of(out@) == linesv.subrange(0, idx as int) + repv + linesv.subrange(
                    tail_start as int,
                    n as int,
                ));
            }
            assert(tail_start as int == min_of(idx + k, n as int));
            assert(views_of(out@) =~= splice_at(
                linesv,
                split_lines_seq(replace_content@),
                idx as int,
                k as int,
            ));
            assert(0 <= best_index as int <= linesv.len());
            assert(best_index as int <= best_end <= linesv.len());
            assert(window_score(linesv, search_content@, best_index as int, best_end)
                >= self.fuzzy_threshold || (k == 0 && self.fuzzy_threshold <= CONFIDENCE_SCALE));
            // the found window witnesses the success shape in the
            // contract's own terms
            let plines = split_lines_seq(original_content@);
            let pp = sr_parse(diff_content@)->0;
            let kk = split_lines_seq(pp.0).len() as int;
            assert(plines == linesv);
            assert(pp.0 == search_content@ && pp.1 == replace_content@);
            assert(kk == k as int);
            assert(window_score(plines, pp.0, best_index as int, best_end)
                >= self.fuzzy_threshold || (kk == 0 && self.fuzzy_threshold <= CONFIDENCE_SCALE));
            assert(views_of(out@) == splice_at(plines, split_lines_seq(pp.1), best_index as int, kk));
        }
        let final_content = join_lines(&out);
        proof {
            let p = sr_parse(diff_content@)->0;
            let lines = split_lines_seq(original_content@);
            let kq = split_lines_seq(p.0).len() as int;
            assert(final_content@ == join_nl(
                splice_at(lines, split_lines_seq(p.1), best_index as int, kq),
            ));
            lemma_success_witness(
                lines,
                p.0,
                p.1,
                self.fuzzy_threshold as int,
                best_index as int,
                best_end,
                final_content@,
            );
        }
        DiffResult::Success { content: final_content }
    }
}

/// The smaller of two numbers.
pub open spec fn min_of(a: int, b: int) -> int {
    if a <= b {
        a
    } else {
        b
    }
}

/// The lines with the window `[idx, idx + k)` replaced by the replacement
/// lines; a window running past the end takes everything to the end.
pub open spec fn splice_at(
    lines: Seq<Seq<char>>,
    replace: Seq<Seq<char>>,
    idx: int,
    k: int,
) -> Seq<Seq<char>> {
    lines.subrange(0, idx) + replace + lines.subrange(min_of(idx + k, lines.len() as int),
        lines.len() as int,
    )
}

/// The similarity the window `[i, j)` of the lines earns against the
/// search text.
pub open spec fn window_score(lines: Seq<Seq<char>>, search: Seq<char>, i: int, j: int) -> int {
    spec_get_similarity(join_nl(lines.subrange(i, j)), search)
}

/// The diagnostic for an empty search text whose line hints disagree.
pub open spec fn msg_empty_range(s: nat, e: nat) -> Seq<char> {
    "Empty search content requires start_line and end_line to be the same (got "@ + dec_str(s)
        + "-"@ + dec_str(e) + ")"@
}

/// The diagnostic for line hints outside the file.
pub open spec fn msg_invalid_range(s: nat, e: nat, n: nat) -> Seq<char> {
    "Line range "@ + dec_str(s) + "-"@ + dec_str(e) + " is invalid (file has "@ + dec_str(n)
        + " lines)"@
}

/// The diagnostic for a search that no window matched closely enough.
pub open spec fn msg_no_match(best: nat, needed: nat) -> Seq<char> {
    "No sufficiently similar match found ("@ + dec_str(best / 10) + "% similar, needs "@ + dec_str(
        needed / 10,
    ) + "%)"@
}

} // verus!
