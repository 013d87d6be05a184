//! The search engine: given a target text block and a haystack of lines,
//! find the best candidate location and a confidence score, combining an
//! exact windowed match with a sliding similarity match, both validated
//! against the hunk's context lines under an adaptive threshold.

use vstd::prelude::*;

verus! {

use crate::distance::{CONFIDENCE_SCALE, lemma_sim_full_iff_eq, sim_milli_capped, similarity_milli};
use crate::model::{Change, Hunk, SearchResult, search_text_lines, lines_eq_at};
use crate::model::{expected_lines, original_text_lines};
use crate::text::{
    chars_of,
    count_occ,
    count_occ_capped,
    join_lines,
    join_nl,
    split_lines,
    split_lines_seq,
    views_of,
};

pub open spec fn min_int(a: int, b: int) -> int {
    if a <= b {
        a
    } else {
        b
    }
}

/// Files longer than this get the relaxed threshold.
pub const LARGE_FILE_THRESHOLD: usize = 1000;

/// Boost per fully unique content line, on the confidence scale.
pub const UNIQUE_CONTENT_BOOST: u32 = 50;

/// Overlap between consecutive search windows, in lines.
pub const DEFAULT_OVERLAP_SIZE: usize = 3;

/// Cap on a single search window, in lines.
pub const MAX_WINDOW_SIZE: usize = 500;

/// The search lines of a hunk, joined: the known source lines of its
/// context and removed changes.
pub fn prepare_search_string(changes: &Vec<Change>) -> (r: String)
    ensures
        r@ == join_nl(search_text_lines(changes@)),
{
    let mut lines: Vec<String> = Vec::new();
    let mut i: usize = 0;
    proof {
        assert(changes@.skip(0) =~= changes@);
        assert(views_of(lines@) =~= Seq::<Seq<char>>::empty());
    }
    while i < changes.len()
        invariant
            0 <= i <= changes@.len(),
            search_text_lines(changes@) == views_of(lines@) + search_text_lines(
                changes@.skip(i as int),
            ),
        decreases changes@.len() - i,
    {
        let ghost rest = changes@.skip(i as int);
        proof {
            assert(rest[0] == changes@[i as int]);
            assert(rest.drop_first() =~= changes@.skip(i + 1));
        }
        let c = &changes[i];
        match c.change_type {
            crate::model::ChangeType::Add => {},
            _ => {
                match &c.original_line {
                    Some(l) => {
                        lines.push(l.clone());
                        proof {
                            assert(views_of(lines@) =~= views_of(lines@.drop_last()) + seq![l@]);
                            assert(views_of(lines@.drop_last()) + (seq![l@] + search_text_lines(
                                changes@.skip(i + 1),
                            )) =~= views_of(lines@) + search_text_lines(changes@.skip(i + 1)));
                        }
                    },
                    None => {},
                }
            },
        }
        i = i + 1;
    }
    proof {
        assert(changes@.skip(changes@.len() as int) =~= Seq::<Change>::empty());
        assert(views_of(lines@) + search_text_lines(Seq::<Change>::empty()) =~= views_of(lines@));
    }
    join_lines(&lines)
}

/// The adaptive confidence bar: the base threshold, relaxed by 0.07 with a
/// floor of 0.8 for contents longer than `LARGE_FILE_THRESHOLD` lines.
pub open spec fn adaptive_threshold(content_length: nat, base: int) -> int {
    if content_length <= LARGE_FILE_THRESHOLD {
        base
    } else if base - 70 >= 800 {
        base - 70
    } else {
        800
    }
}

pub fn get_adaptive_threshold(content_length: usize, base_threshold: u32) -> (r: u32)
    ensures
        r as int == adaptive_threshold(content_length as nat, base_threshold as int),
{
    if content_length <= LARGE_FILE_THRESHOLD {
        base_threshold
    } else if base_threshold >= 870 {
        base_threshold - 70
    } else {
        800
    }
}

/// The distinct lines, first occurrences kept.
pub open spec fn dedup_lines(ls: Seq<Seq<char>>) -> Seq<Seq<char>>
    decreases ls.len(),
{
    if ls.len() == 0 {
        Seq::empty()
    } else {
        let prior = dedup_lines(ls.drop_last());
        if prior.contains(ls.last()) {
            prior
        } else {
            prior.push(ls.last())
        }
    }
}

/// A line is unique in the content when it occurs there, but not more than
/// twice (counting non-overlapping occurrences).
pub open spec fn is_unique_line(l: Seq<char>, content_joined: Seq<char>) -> bool {
    1 <= count_occ(content_joined, l) <= 2
}

pub open spec fn count_unique(ds: Seq<Seq<char>>, content_joined: Seq<char>) -> nat
    decreases ds.len(),
{
    if ds.len() == 0 {
        0
    } else {
        count_unique(ds.drop_last(), content_joined) + if is_unique_line(
            ds.last(),
            content_joined,
        ) {
            1nat
        } else {
            0nat
        }
    }
}

proof fn lemma_count_unique_le(ds: Seq<Seq<char>>, cj: Seq<char>)
    ensures
        count_unique(ds, cj) <= ds.len(),
    decreases ds.len(),
{
    if ds.len() > 0 {
        lemma_count_unique_le(ds.drop_last(), cj);
    }
}

/// The fraction of the search text's distinct lines that are unique in the
/// content, on the scale: 1000 means every distinct line is unique.
pub open spec fn uniqueness_milli(search: Seq<char>, content_joined: Seq<char>) -> int {
    let ds = dedup_lines(split_lines_seq(search));
    if ds.len() == 0 {
        0
    } else {
        ((count_unique(ds, content_joined) as int) * 1000) / (ds.len() as int)
    }
}

/// The lines that do not start with a dash: what a diff keeps or adds.
pub open spec fn non_dash_lines(ls: Seq<Seq<char>>) -> Seq<Seq<char>>
    decreases ls.len(),
{
    if ls.len() == 0 {
        Seq::empty()
    } else {
        let rest = non_dash_lines(ls.drop_first());
        if ls[0].len() > 0 && ls[0][0] == '-' {
            rest
        } else {
            seq![ls[0]] + rest
        }
    }
}

/// The context validation score: similarity of the search text's non-removal
/// lines against the content, held to the adaptive threshold. Scores under
/// the bar are penalized to 30%; the uniqueness boost is added either way.
pub open spec fn context_score(search: Seq<char>, content: Seq<char>, base_threshold: int) -> int {
    let ctx = join_nl(non_dash_lines(split_lines_seq(search)));
    let similarity = sim_milli_capped(ctx, content);
    let athr = adaptive_threshold(split_lines_seq(content).len(), base_threshold);
    let boost = (uniqueness_milli(search, join_nl(split_lines_seq(content)))
        * (UNIQUE_CONTENT_BOOST as int)) / 1000;
    if similarity < athr {
        (similarity * 3) / 10 + boost
    } else {
        similarity + boost
    }
}

/// Validate a candidate region against the search text's context lines.
pub fn validate_context_lines(search_str: &str, content: &str, confidence_threshold: u32) -> (r:
    u32)
    ensures
        r as int == context_score(search_str@, content@, confidence_threshold as int),
        r <= CONFIDENCE_SCALE + UNIQUE_CONTENT_BOOST,
{
    let search_lines = split_lines(search_str);
    let mut ctx_lines: Vec<String> = Vec::new();
    let mut i: usize = 0;
    proof {
        assert(views_of(search_lines@).skip(0) =~= views_of(search_lines@));
        assert(views_of(ctx_lines@) =~= Seq::<Seq<char>>::empty());
        assert(views_of(search_lines@) =~= split_lines_seq(search_str@));
    }
    while i < search_lines.len()
        invariant
            0 <= i <= search_lines@.len(),
            non_dash_lines(split_lines_seq(search_str@)) == views_of(ctx_lines@) + non_dash_lines(
                views_of(search_lines@).skip(i as int),
            ),
            views_of(search_lines@) == split_lines_seq(search_str@),
        decreases search_lines@.len() - i,
    {
        let ghost rest = views_of(search_lines@).skip(i as int);
        proof {
            assert(rest[0] == search_lines@[i as int]@);
            assert(rest.drop_first() =~= views_of(search_lines@).skip(i + 1));
        }
        let lc = chars_of(search_lines[i].as_str());
        let dash = lc.len() > 0 && lc[0] == '-';
        if !dash {
            ctx_lines.push(search_lines[i].clone());
            proof {
                assert(views_of(ctx_lines@) =~= views_of(ctx_lines@.drop_last()) + seq![
                    search_lines@[i as int]@,
                ]);
                assert(views_of(ctx_lines@.drop_last()) + (seq![search_lines@[i as int]@]
                    + non_dash_lines(views_of(search_lines@).skip(i + 1))) =~= views_of(ctx_lines@)
                    + non_dash_lines(views_of(search_lines@).skip(i + 1)));
            }
        }
        i = i + 1;
    }
    proof {
        assert(views_of(search_lines@).skip(search_lines@.len() as int) =~= Seq::<
            Seq<char>,
        >::empty());
        assert(views_of(ctx_lines@) + non_dash_lines(Seq::<Seq<char>>::empty()) =~= views_of(
            ctx_lines@,
        ));
    }
    let ctx_joined = join_lines(&ctx_lines);
    let ctx_chars = chars_of(ctx_joined.as_str());
    let content_chars = chars_of(content);
    let similarity = similarity_milli(&ctx_chars, &content_chars);
    let content_lines = split_lines(content);
    let athr = get_adaptive_threshold(content_lines.len(), confidence_threshold);
    let uniq = evaluate_content_uniqueness(search_str, &content_lines);
    let boost = uniq * UNIQUE_CONTENT_BOOST / 1000;
    proof {
        assert(views_of(content_lines@) =~= split_lines_seq(content@));
    }
    if similarity < athr {
        (similarity * 3) / 10 + boost
    } else {
        similarity + boost
    }
}

fn vec_contains_line(v: &Vec<String>, s: &String) -> (r: bool)
    ensures
        r == views_of(v@).contains(s@),
{
    let mut i: usize = 0;
    while i < v.len()
        invariant
            0 <= i <= v@.len(),
            forall|j: int| 0 <= j < i ==> views_of(v@)[j] != s@,
        decreases v@.len() - i,
    {
        if v[i].eq(s) {
            assert(views_of(v@)[i as int] == s@);
            return true;
        }
        i = i + 1;
    }
    assert(!views_of(v@).contains(s@)) by {
        if views_of(v@).contains(s@) {
            let j = choose|j: int| 0 <= j < views_of(v@).len() && views_of(v@)[j] == s@;
        }
    }
    false
}

/// How much of the search text is anchored on lines that are rare in the
/// content: the unique fraction of its distinct lines, on the scale.
pub fn evaluate_content_uniqueness(search_str: &str, content: &Vec<String>) -> (r: u32)
    ensures
        r as int == uniqueness_milli(search_str@, join_nl(views_of(content@))),
        r <= 1000,
{
    let search_lines = split_lines(search_str);
    // distinct lines, first occurrences kept
    let mut ds: Vec<String> = Vec::new();
    let mut i: usize = 0;
    proof {
        assert(views_of(search_lines@).take(0) =~= Seq::<Seq<char>>::empty());
        assert(dedup_lines(views_of(search_lines@).take(0)) =~= Seq::<Seq<char>>::empty());
        assert(views_of(ds@) =~= Seq::<Seq<char>>::empty());
    }
    while i < search_lines.len()
        invariant
            0 <= i <= search_lines@.len(),
            views_of(ds@) == dedup_lines(views_of(search_lines@).take(i as int)),
        decreases search_lines@.len() - i,
    {
        let ghost pref = views_of(search_lines@).take(i as int);
        proof {
            assert(views_of(search_lines@).take(i + 1).drop_last() =~= pref);
            assert(views_of(search_lines@).take(i + 1).last() == search_lines@[i as int]@);
        }
        if !vec_contains_line(&ds, &search_lines[i]) {
            ds.push(search_lines[i].clone());
            proof {
                assert(views_of(ds@) =~= views_of(ds@.drop_last()).push(search_lines@[i as int]@));
            }
        }
        i = i + 1;
    }
    proof {
        assert(views_of(search_lines@).take(search_lines@.len() as int) =~= views_of(
            search_lines@,
        ));
        assert(views_of(search_lines@) =~= split_lines_seq(search_str@));
    }
    if ds.len() == 0 {
        return 0;
    }
    let joined = join_lines(content);
    let cj = chars_of(joined.as_str());
    let mut unique_count: usize = 0;
    let mut k: usize = 0;
    proof {
        assert(views_of(ds@).take(0) =~= Seq::<Seq<char>>::empty());
    }
    while k < ds.len()
        invariant
            0 <= k <= ds@.len(),
            unique_count <= k,
            cj@ == join_nl(views_of(content@)),
            unique_count == count_unique(views_of(ds@).take(k as int), cj@),
        decreases ds@.len() - k,
    {
        let line_chars = chars_of(ds[k].as_str());
        let occ = count_occ_capped(&cj, &line_chars, 3);
        proof {
            assert(views_of(ds@).take(k + 1).drop_last() =~= views_of(ds@).take(k as int));
            assert(views_of(ds@).take(k + 1).last() == ds@[k as int]@);
        }
        if 1 <= occ && occ <= 2 {
            unique_count = unique_count + 1;
        }
        k = k + 1;
    }
    proof {
        assert(views_of(ds@).take(ds@.len() as int) =~= views_of(ds@));
        lemma_count_unique_le(views_of(ds@), cj@);
    }
    let num: u128 = (unique_count as u128) * 1000;
    let q: u128 = num / (ds.len() as u128);
    proof {
        let cu = count_unique(views_of(ds@), cj@) as int;
        let dl = views_of(ds@).len() as int;
        assert(0 <= cu * 1000 <= dl * 1000) by (nonlinear_arith)
            requires
                0 <= cu <= dl,
        ;
        assert((cu * 1000) / dl <= 1000) by (nonlinear_arith)
            requires
                dl > 0,
                cu * 1000 <= dl * 1000,
        ;
    }
    q as u32
}

/// The strings of `content` between `lo` and `hi`, copied.
pub fn clone_range(content: &Vec<String>, lo: usize, hi: usize) -> (r: Vec<String>)
    requires
        lo <= hi <= content@.len(),
    ensures
        views_of(r@) == views_of(content@).subrange(lo as int, hi as int),
{
    let mut out: Vec<String> = Vec::new();
    let mut i: usize = lo;
    while i < hi
        invariant
            lo <= i <= hi <= content@.len(),
            views_of(out@) == views_of(content@).subrange(lo as int, i as int),
        decreases hi - i,
    {
        let ghost prev = out@;
        out.push(content[i].clone());
        proof {
            assert(out@ == prev.push(content@[i as int]));
            assert(views_of(out@) =~= views_of(prev).push(content@[i as int]@));
            assert(views_of(prev).push(content@[i as int]@) =~= views_of(content@).subrange(
                lo as int,
                i + 1,
            ));
        }
        i = i + 1;
    }
    out
}

/// The lines of `content` between `lo` and `hi`, joined with newlines.
pub fn join_range(content: &Vec<String>, lo: usize, hi: usize) -> (r: String)
    requires
        lo <= hi <= content@.len(),
    ensures
        r@ == join_nl(views_of(content@).subrange(lo as int, hi as int)),
{
    let slice = clone_range(content, lo, hi);
    join_lines(&slice)
}

/// What holds of every window the window builder hands out: it sits inside
/// the content at its recorded start, and it is at least as long as the
/// search text.
pub open spec fn window_ok(w: (Vec<String>, usize), content: Seq<String>, search_size: nat) -> bool {
    &&& w.1 + w.0@.len() <= content.len()
    &&& views_of(w.0@) == views_of(content).subrange(w.1 as int, w.1 + w.0@.len())
    &&& w.0@.len() >= search_size
}

/// How long a search window is: the search length doubled, the doubling
/// capped at `MAX_WINDOW_SIZE`.
pub open spec fn eff_window_size(search: int) -> int {
    let capped = if search <= MAX_WINDOW_SIZE {
        search
    } else {
        MAX_WINDOW_SIZE as int
    };
    if search >= 2 * capped {
        search
    } else {
        2 * capped
    }
}

/// How far consecutive window starts lie apart: the window size minus the
/// overlap, at least one.
pub open spec fn win_step(search: int, overlap: int) -> int {
    let eff = eff_window_size(search);
    let eo = if overlap <= eff - 1 {
        overlap
    } else {
        eff - 1
    };
    if eff - eo >= 1 {
        eff - eo
    } else {
        1
    }
}

/// Overlapping windows over the content: each window starts a step after
/// the one before, reads the content verbatim from its start, and runs for
/// the window size or to the end; windows stop when the remaining tail is
/// shorter than the search. A search of zero lines gets no windows.
pub fn create_overlapping_windows(
    content: &Vec<String>,
    search_size: usize,
    overlap_size: Option<usize>,
) -> (r: Vec<(Vec<String>, usize)>)
    ensures
        forall|k: int|
            0 <= k < r@.len() ==> window_ok(#[trigger] r@[k], content@, search_size as nat),
        search_size == 0 ==> r@.len() == 0,
        search_size >= 1 ==> ({
            let eff = eff_window_size(search_size as int);
            let step = win_step(
                search_size as int,
                match overlap_size {
                    Some(o) => o as int,
                    None => DEFAULT_OVERLAP_SIZE as int,
                },
            );
            &&& (forall|q: int|
                0 <= q < r@.len() ==> (#[trigger] r@[q]).1 == q * step && r@[q].0@.len()
                    == min_int(eff, content@.len() - q * step))
            &&& (content@.len() >= search_size ==> r@.len() >= 1)
            &&& (r@.len() * step >= content@.len() || min_int(
                eff,
                content@.len() - r@.len() * step,
            ) < search_size)
        }),
{
    let mut out: Vec<(Vec<String>, usize)> = Vec::new();
    if search_size == 0 {
        return out;
    }
    let len = content.len();
    let capped = if search_size <= MAX_WINDOW_SIZE {
        search_size
    } else {
        MAX_WINDOW_SIZE
    };
    let eff = if search_size >= capped * 2 {
        search_size
    } else {
        capped * 2
    };
    let ov = match overlap_size {
        Some(o) => o,
        None => DEFAULT_OVERLAP_SIZE,
    };
    let eo = if ov <= eff - 1 {
        ov
    } else {
        eff - 1
    };
    let step = if eff - eo >= 1 {
        eff - eo
    } else {
        1
    };
    proof {
        assert(eff as int == eff_window_size(search_size as int));
        assert(step as int == win_step(
            search_size as int,
            match overlap_size {
                Some(o) => o as int,
                None => DEFAULT_OVERLAP_SIZE as int,
            },
        ));
    }
    let mut i: usize = 0;
    proof {
        assert(out@.len() * (step as int) == 0) by (nonlinear_arith)
            requires
                out@.len() == 0,
        ;
    }
    while i < len
        invariant
            len == content@.len(),
            search_size >= 1,
            step >= 1,
            eff >= search_size,
            eff as int == eff_window_size(search_size as int),
            step as int == win_step(
                search_size as int,
                match overlap_size {
                    Some(o) => o as int,
                    None => DEFAULT_OVERLAP_SIZE as int,
                },
            ),
            i == out@.len() * step,
            forall|k: int|
                0 <= k < out@.len() ==> window_ok(#[trigger] out@[k], content@, search_size as nat),
            forall|q: int|
                0 <= q < out@.len() ==> (#[trigger] out@[q]).1 == q * (step as int)
                    && out@[q].0@.len() == min_int(eff as int, len - q * (step as int)),
            len >= search_size && len > 0 ==> out@.len() >= 1 || i == 0,
        decreases len - i,
    {
        let wlen = if len - i <= eff {
            len - i
        } else {
            eff
        };
        proof {
            assert(wlen as int == min_int(eff as int, len - i));
        }
        if wlen < search_size {
            // the remaining tail is shorter than the search
            proof {
                if len >= search_size && i == 0 {
                    assert(wlen >= search_size);
                }
            }
            return out;
        }
        let w = clone_range(content, i, i + wlen);
        let ghost prevout = out@;
        let ghost wv = w@;
        out.push((w, i));
        proof {
            assert(out@.len() == prevout.len() + 1);
            assert(out@[prevout.len() as int].0@ == wv);
            assert(out@[prevout.len() as int].1 == i);
            assert(views_of(wv).len() == wv.len());
            assert(window_ok(out@[prevout.len() as int], content@, search_size as nat));
            assert(forall|kk: int| 0 <= kk < prevout.len() ==> out@[kk] == prevout[kk]);
            assert((prevout.len() + 1) * (step as int) == prevout.len() * (step as int) + (
            step as int)) by (nonlinear_arith);
        }
        if len - i <= step {
            proof {
                assert(out@.len() * (step as int) >= len);
            }
            return out;
        }
        i = i + step;
    }
    proof {
        assert(out@.len() * (step as int) >= len);
        if len >= search_size && out@.len() == 0 {
            assert(i == 0);
        }
    }
    out
}

/// Whether the lines of `needle` stand verbatim in `content` at `at`.
pub fn lines_match_at(content: &Vec<String>, at: usize, needle: &Vec<String>) -> (r: bool)
    requires
        at + needle@.len() <= content@.len(),
    ensures
        r == lines_eq_at(views_of(content@), views_of(needle@), at as int),
{
    let cn: usize = content.len();
    let mut i: usize = 0;
    while i < needle.len()
        invariant
            0 <= i <= needle@.len(),
            cn == content@.len(),
            at + needle@.len() <= content@.len(),
            forall|j: int| 0 <= j < i ==> views_of(content@)[at + j] == views_of(needle@)[j],
        decreases needle@.len() - i,
    {
        if !content[at + i].eq(&needle[i]) {
            assert(views_of(content@)[at + i] != views_of(needle@)[i as int]);
            assert(!lines_eq_at(views_of(content@), views_of(needle@), at as int)) by {
                let c = views_of(content@);
                let n = views_of(needle@);
                if c.subrange(at as int, at + n.len()) == n {
                    assert(c.subrange(at as int, at + n.len())[i as int] == c[at + i]);
                }
            }
            return false;
        }
        i = i + 1;
    }
    assert(views_of(content@).subrange(at as int, at + needle@.len()) =~= views_of(needle@));
    true
}

/// The confidence a located candidate earns: its similarity to the search
/// text, capped by the context validation score.
pub open spec fn located_conf(search: Seq<char>, content: Seq<Seq<char>>, at: int, thr: int) -> int {
    let k = split_lines_seq(search).len() as int;
    let matched = join_nl(content.subrange(at, at + k));
    min_int(sim_milli_capped(search, matched), context_score(search, matched, thr))
}

/// The conditions under which a search is owed a full-confidence find: the
/// search text is a clean join of at least one line, none of its lines
/// starts with a dash, the bar is on the scale, the content is addressable,
/// and the search lines stand verbatim somewhere at or after the start.
pub open spec fn clean_exact_present(
    search: Seq<char>,
    content: Seq<Seq<char>>,
    thr: int,
    start: int,
) -> bool {
    let sl = split_lines_seq(search);
    &&& sl.len() > 0
    &&& join_nl(sl) == search
    &&& search.len() < usize::MAX
    &&& non_dash_lines(sl) == sl
    &&& 0 <= thr <= CONFIDENCE_SCALE
    &&& content.len() < 0x7fffffff
    &&& exists|p: int| start <= p && lines_eq_at(content, sl, p)
}

/// The raw similarity a window of the search's length earns at `i`.
pub open spec fn window_sim(search: Seq<char>, content: Seq<Seq<char>>, i: int) -> int {
    sim_milli_capped(
        search,
        join_nl(content.subrange(i, i + split_lines_seq(search).len() as int)),
    )
}

/// What makes a window a candidate the sliding similarity search stores:
/// its raw similarity clears the bar and is not zero, its validated
/// confidence is not zero, and its position is addressable.
pub open spec fn similarity_qualifies(
    search: Seq<char>,
    content: Seq<Seq<char>>,
    i: int,
    thr: int,
) -> bool {
    &&& split_lines_seq(search).len() >= 1
    &&& window_sim(search, content, i) >= thr
    &&& window_sim(search, content, i) > 0
    &&& located_conf(search, content, i, thr) > 0
    &&& i <= 0x7fffffff
}

/// The conditions under which the windowed exact search is owed a
/// full-confidence find: a clean search text standing verbatim at a
/// position close enough to the start to fall inside the first window.
/// (Later windows overlap by only a few lines, so an occurrence far from
/// the start can straddle every window and go unfound.)
pub open spec fn clean_present_in_first_window(
    search: Seq<char>,
    content: Seq<Seq<char>>,
    thr: int,
    start: int,
) -> bool {
    let sl = split_lines_seq(search);
    &&& sl.len() > 0
    &&& join_nl(sl) == search
    &&& search.len() < usize::MAX
    &&& non_dash_lines(sl) == sl
    &&& 0 <= thr <= CONFIDENCE_SCALE
    &&& content.len() < 0x7fffffff
    &&& exists|p: int|
        start <= p && #[trigger] lines_eq_at(content, sl, p) && p - start <= eff_window_size(
            sl.len() as int,
        ) - sl.len()
}

proof fn lemma_perfect_candidate(search: Seq<char>, content: Seq<Seq<char>>, p: int, thr: int)
    requires
        split_lines_seq(search).len() > 0,
        join_nl(split_lines_seq(search)) == search,
        search.len() < usize::MAX,
        non_dash_lines(split_lines_seq(search)) == split_lines_seq(search),
        0 <= thr <= CONFIDENCE_SCALE,
        lines_eq_at(content, split_lines_seq(search), p),
    ensures
        sim_milli_capped(search, join_nl(content.subrange(p, p + split_lines_seq(search).len())))
            == CONFIDENCE_SCALE,
        located_conf(search, content, p, thr) == CONFIDENCE_SCALE,
{
    let sl = split_lines_seq(search);
    let k = sl.len() as int;
    assert(content.subrange(p, p + k) == sl);
    let matched = join_nl(content.subrange(p, p + k));
    assert(matched == search);
    lemma_sim_full_iff_eq(search, search);
    assert(sim_milli_capped(search, matched) == CONFIDENCE_SCALE);
    // the context score of the perfect candidate clears its own bar
    assert(join_nl(non_dash_lines(split_lines_seq(search))) == search);
    lemma_sim_full_iff_eq(search, matched);
    let athr = adaptive_threshold(split_lines_seq(matched).len(), thr);
    assert(athr <= CONFIDENCE_SCALE);
    let boost = (uniqueness_milli(search, join_nl(split_lines_seq(matched)))
        * (UNIQUE_CONTENT_BOOST as int)) / 1000;
    assert(boost >= 0) by {
        let ds = dedup_lines(split_lines_seq(search));
        let cj = join_nl(split_lines_seq(matched));
        if ds.len() > 0 {
            let cu = count_unique(ds, cj) as int;
            let dl = ds.len() as int;
            assert(cu * 1000 >= 0) by (nonlinear_arith)
                requires
                    cu >= 0,
            ;
            assert((cu * 1000) / dl >= 0) by (nonlinear_arith)
                requires
                    dl > 0,
                    cu * 1000 >= 0,
            ;
        }
    }
    assert(context_score(search, matched, thr) >= CONFIDENCE_SCALE);
}

/// Exact/windowed search: build overlapping windows over the haystack and
/// look for the search lines standing verbatim inside one; the best hit by
/// confidence wins. Finds nothing when no window carries the lines.
pub fn find_exact_match(
    search_str: &str,
    content: &Vec<String>,
    start_index: usize,
    confidence_threshold: u32,
) -> (r: SearchResult)
    requires
        start_index <= content@.len(),
    ensures
        r.strategy@ == "exact"@,
        r.confidence <= CONFIDENCE_SCALE,
        r.index == -1 ==> r.confidence == 0,
        r.index != -1 ==> start_index <= r.index && lines_eq_at(
            views_of(content@),
            split_lines_seq(search_str@),
            r.index as int,
        ) && r.confidence as int == located_conf(
            search_str@,
            views_of(content@),
            r.index as int,
            confidence_threshold as int,
        ) && r.index + split_lines_seq(search_str@).len() <= content@.len(),
        clean_present_in_first_window(
            search_str@,
            views_of(content@),
            confidence_threshold as int,
            start_index as int,
        ) ==> r.confidence == CONFIDENCE_SCALE && r.index != -1,
{
    let mut best = SearchResult { index: -1, confidence: 0, strategy: String::from_str("exact") };
    let sl = split_lines(search_str);
    if sl.len() == 0 {
        return best;
    }
    let cn: usize = content.len();
    let suffix = clone_range(content, start_index, content.len());
    let windows = create_overlapping_windows(&suffix, sl.len(), None);
    proof {
        let c = views_of(content@);
        let slv = split_lines_seq(search_str@);
        if clean_present_in_first_window(
            search_str@,
            c,
            confidence_threshold as int,
            start_index as int,
        ) {
            let p = choose|p: int|
                start_index <= p && #[trigger] lines_eq_at(c, slv, p) && p - start_index
                    <= eff_window_size(slv.len() as int) - slv.len();
            assert(views_of(suffix@).len() == cn - start_index);
            assert(suffix@.len() == views_of(suffix@).len());
            assert(cn - start_index >= slv.len());
            assert(0 * win_step(slv.len() as int, DEFAULT_OVERLAP_SIZE as int) == 0)
                by (nonlinear_arith);
            assert(windows@.len() >= 1);
            assert(windows@[0].1 == 0);
            assert(windows@[0].0@.len() == min_int(
                eff_window_size(slv.len() as int),
                cn - start_index,
            ));
        }
    }
    let mut wi: usize = 0;
    while wi < windows.len()
        invariant
            cn == content@.len(),
            start_index <= content@.len(),
            views_of(sl@) == split_lines_seq(search_str@),
            sl@.len() > 0,
            views_of(suffix@) == views_of(content@).subrange(
                start_index as int,
                content@.len() as int,
            ),
            forall|k: int|
                0 <= k < windows@.len() ==> window_ok(
                    #[trigger] windows@[k],
                    suffix@,
                    sl@.len() as nat,
                ),
            best.strategy@ == "exact"@,
            best.confidence <= CONFIDENCE_SCALE,
            best.index == -1 ==> best.confidence == 0,
            best.index != -1 ==> start_index <= best.index && lines_eq_at(
                views_of(content@),
                split_lines_seq(search_str@),
                best.index as int,
            ) && best.confidence as int == located_conf(
                search_str@,
                views_of(content@),
                best.index as int,
                confidence_threshold as int,
            ),
            clean_present_in_first_window(
                search_str@,
                views_of(content@),
                confidence_threshold as int,
                start_index as int,
            ) ==> windows@.len() >= 1 && windows@[0].1 == 0 && windows@[0].0@.len() == min_int(
                eff_window_size(split_lines_seq(search_str@).len() as int),
                content@.len() - start_index,
            ),
            clean_present_in_first_window(
                search_str@,
                views_of(content@),
                confidence_threshold as int,
                start_index as int,
            ) ==> (wi == 0 || best.confidence == CONFIDENCE_SCALE),
        decreases windows@.len() - wi,
    {
        let w = &windows[wi].0;
        let wstart = windows[wi].1;
        assert(window_ok(windows@[wi as int], suffix@, sl@.len() as nat));
        let wn: usize = w.len();
        let mut j: usize = 0;
        let upper = w.len() - sl.len();
        while j <= upper
            invariant
                cn == content@.len(),
                wn == w@.len(),
                start_index <= content@.len(),
                views_of(sl@) == split_lines_seq(search_str@),
                sl@.len() > 0,
                views_of(suffix@) == views_of(content@).subrange(
                    start_index as int,
                    content@.len() as int,
                ),
                window_ok((*w, wstart), suffix@, sl@.len() as nat),
                upper == w@.len() - sl@.len(),
                best.strategy@ == "exact"@,
                best.confidence <= CONFIDENCE_SCALE,
                best.index == -1 ==> best.confidence == 0,
                best.index != -1 ==> start_index <= best.index && lines_eq_at(
                    views_of(content@),
                    split_lines_seq(search_str@),
                    best.index as int,
                ) && best.confidence as int == located_conf(
                    search_str@,
                    views_of(content@),
                    best.index as int,
                    confidence_threshold as int,
                ),
                clean_present_in_first_window(
                    search_str@,
                    views_of(content@),
                    confidence_threshold as int,
                    start_index as int,
                ) && wi >= 1 ==> best.confidence == CONFIDENCE_SCALE,
                clean_present_in_first_window(
                    search_str@,
                    views_of(content@),
                    confidence_threshold as int,
                    start_index as int,
                ) && wi == 0 ==> wstart == 0 && wn as int == min_int(
                    eff_window_size(split_lines_seq(search_str@).len() as int),
                    content@.len() - start_index,
                ),
                clean_present_in_first_window(
                    search_str@,
                    views_of(content@),
                    confidence_threshold as int,
                    start_index as int,
                ) && wi == 0 ==> (best.confidence == CONFIDENCE_SCALE || exists|pp: int|
                    start_index + j <= pp && #[trigger] lines_eq_at(
                        views_of(content@),
                        split_lines_seq(search_str@),
                        pp,
                    ) && pp - start_index <= eff_window_size(
                        split_lines_seq(search_str@).len() as int,
                    ) - split_lines_seq(search_str@).len()),
            decreases upper + 1 - j,
        {
            let ghost premise_now = clean_present_in_first_window(
                search_str@,
                views_of(content@),
                confidence_threshold as int,
                start_index as int,
            ) && wi == 0 && best.confidence != CONFIDENCE_SCALE;
            if lines_match_at(w, j, &sl) {
                let matched = join_range(w, j, j + sl.len());
                let search_chars = chars_of(search_str);
                let matched_chars = chars_of(matched.as_str());
                let sim = similarity_milli(&search_chars, &matched_chars);
                let ctx = validate_context_lines(
                    search_str,
                    matched.as_str(),
                    confidence_threshold,
                );
                let conf = if sim <= ctx {
                    sim
                } else {
                    ctx
                };
                proof {
                    assert(views_of(suffix@).len() == cn - start_index);
                    assert(suffix@.len() == views_of(suffix@).len());
                    assert(wstart + w@.len() <= cn - start_index);
                    assert(j + sl@.len() <= w@.len());
                }
                let pos_abs = start_index + wstart + j;
                proof {
                    let c = views_of(content@);
                    let sv = views_of(suffix@);
                    let k = sl@.len() as int;
                    let a = pos_abs as int;
                    assert(views_of(w@).subrange(j as int, j + k) =~= sv.subrange(
                        wstart + j,
                        wstart + j + k,
                    ));
                    assert(sv.subrange(wstart + j, wstart + j + k) =~= c.subrange(a, a + k));
                    assert(views_of(sl@) =~= c.subrange(a, a + k)) by {
                        assert(lines_eq_at(views_of(w@), views_of(sl@), j as int));
                        assert(views_of(w@).subrange(j as int, j + k) == views_of(sl@));
                    }
                }
                proof {
                    if premise_now {
                        let c = views_of(content@);
                        let slv = split_lines_seq(search_str@);
                        let k = slv.len() as int;
                        let pp = choose|pp: int|
                            start_index + j <= pp && #[trigger] lines_eq_at(c, slv, pp) && pp
                                - start_index <= eff_window_size(k) - k;
                        if pp == start_index + j {
                            // the pending occurrence stands at this offset,
                            // so this candidate carries full confidence
                            let a = pos_abs as int;
                            assert(a == pp);
                            assert(matched@ == join_nl(c.subrange(a, a + k)));
                            assert(c.subrange(pp, pp + k) == slv);
                            assert(matched@ == join_nl(slv));
                            assert(matched@ == search_str@);
                            lemma_sim_full_iff_eq(search_str@, matched@);
                            assert(sim == CONFIDENCE_SCALE);
                            lemma_perfect_candidate(
                                search_str@,
                                c,
                                pp,
                                confidence_threshold as int,
                            );
                            assert(located_conf(
                                search_str@,
                                c,
                                pp,
                                confidence_threshold as int,
                            ) == CONFIDENCE_SCALE);
                            assert(ctx as int >= CONFIDENCE_SCALE);
                            assert(conf == CONFIDENCE_SCALE);
                            assert(pos_abs <= 0x7fffffff);
                        }
                    }
                }
                if conf > best.confidence && pos_abs <= 0x7fffffff {
                    proof {
                        let c = views_of(content@);
                        let k = sl@.len() as int;
                        let a = pos_abs as int;
                        assert(matched@ == join_nl(c.subrange(a, a + k)));
                    }
                    best = SearchResult {
                        index: pos_abs as i32,
                        confidence: conf,
                        strategy: String::from_str("exact"),
                    };
                }
                proof {
                    if premise_now {
                        let c = views_of(content@);
                        let slv = split_lines_seq(search_str@);
                        let k = slv.len() as int;
                        let pp = choose|pp: int|
                            start_index + j <= pp && #[trigger] lines_eq_at(c, slv, pp) && pp
                                - start_index <= eff_window_size(k) - k;
                        if pp == start_index + j {
                            assert(best.confidence == CONFIDENCE_SCALE);
                        } else {
                            assert(start_index + j + 1 <= pp);
                        }
                    }
                }
            } else {
                proof {
                    if premise_now {
                        // a pending occurrence at this offset would have
                        // read back verbatim
                        let c = views_of(content@);
                        let slv = split_lines_seq(search_str@);
                        let k = slv.len() as int;
                        let pp = choose|pp: int|
                            start_index + j <= pp && #[trigger] lines_eq_at(c, slv, pp) && pp
                                - start_index <= eff_window_size(k) - k;
                        if pp == start_index + j {
                            assert(c.subrange(pp, pp + k) == slv);
                            assert(j + k <= wn);
                            assert(views_of(w@).subrange(j as int, j + k) =~= c.subrange(
                                pp,
                                pp + k,
                            ));
                            assert(lines_eq_at(views_of(w@), views_of(sl@), j as int));
                            assert(false);
                        }
                    }
                }
            }
            j = j + 1;
        }
        proof {
            if clean_present_in_first_window(
                search_str@,
                views_of(content@),
                confidence_threshold as int,
                start_index as int,
            ) && wi == 0 && best.confidence != CONFIDENCE_SCALE {
                // nothing can still be pending past the window's end
                let c = views_of(content@);
                let slv = split_lines_seq(search_str@);
                let k = slv.len() as int;
                let pp = choose|pp: int|
                    start_index + j <= pp && #[trigger] lines_eq_at(c, slv, pp) && pp - start_index
                        <= eff_window_size(k) - k;
                assert(pp + k <= c.len());
                assert(pp - start_index <= wn - k);
                assert(false);
            }
        }
        wi = wi + 1;
    }
    proof {
        if clean_present_in_first_window(
            search_str@,
            views_of(content@),
            confidence_threshold as int,
            start_index as int,
        ) {
            assert(windows@.len() >= 1);
            assert(best.confidence == CONFIDENCE_SCALE);
        }
    }
    best
}

/// Sliding similarity search: score every window of the search's length,
/// one line at a time, keeping the best candidate that clears the bar.
/// When the search lines stand verbatim in the content (and the search text
/// is clean), the full confidence is owed.
pub fn find_similarity_match(
    search_str: &str,
    content: &Vec<String>,
    start_index: usize,
    confidence_threshold: u32,
) -> (r: SearchResult)
    requires
        start_index <= content@.len(),
    ensures
        r.strategy@ == "similarity"@,
        r.confidence <= CONFIDENCE_SCALE,
        r.index == -1 ==> r.confidence == 0,
        r.index != -1 ==> start_index <= r.index && r.index + split_lines_seq(search_str@).len()
            <= content@.len() && r.confidence as int == located_conf(
            search_str@,
            views_of(content@),
            r.index as int,
            confidence_threshold as int,
        ),
        clean_exact_present(
            search_str@,
            views_of(content@),
            confidence_threshold as int,
            start_index as int,
        ) ==> r.confidence == CONFIDENCE_SCALE && r.index != -1,
        r.index != -1 <==> exists|i: int|
            start_index <= i && i + split_lines_seq(search_str@).len() <= content@.len()
                && #[trigger] similarity_qualifies(
                search_str@,
                views_of(content@),
                i,
                confidence_threshold as int,
            ),
        forall|i: int|
            split_lines_seq(search_str@).len() >= 1 && start_index <= i && i + split_lines_seq(
                search_str@,
            ).len() <= content@.len() && i <= 0x7fffffff && #[trigger] window_sim(
                search_str@,
                views_of(content@),
                i,
            ) >= confidence_threshold ==> r.confidence as int >= located_conf(
                search_str@,
                views_of(content@),
                i,
                confidence_threshold as int,
            ),
{
    let mut best = SearchResult {
        index: -1,
        confidence: 0,
        strategy: String::from_str("similarity"),
    };
    let sl = split_lines(search_str);
    let k = sl.len();
    let cn: usize = content.len();
    if k == 0 || k > cn || start_index > cn - k {
        proof {
            let c = views_of(content@);
            let slv = split_lines_seq(search_str@);
            assert(slv == views_of(sl@));
            // no position can carry the lines: either there are none, or
            // they do not fit at or after the start
            if clean_exact_present(
                search_str@,
                c,
                confidence_threshold as int,
                start_index as int,
            ) {
                let p = choose|p: int| start_index <= p && lines_eq_at(c, slv, p);
                assert(0 <= p && p + slv.len() <= c.len());
                assert(slv.len() > 0);
                assert(false);
            }
            if exists|i: int|
                start_index <= i && i + slv.len() <= c.len() && #[trigger] similarity_qualifies(
                    search_str@,
                    c,
                    i,
                    confidence_threshold as int,
                ) {
                let i0 = choose|i: int|
                    start_index <= i && i + slv.len() <= c.len()
                        && #[trigger] similarity_qualifies(
                        search_str@,
                        c,
                        i,
                        confidence_threshold as int,
                    );
                assert(false);
            }
        }
        return best;
    }
    let last = cn - k;
    let mut i: usize = start_index;
    while i <= last
        invariant
            start_index <= i <= last + 1,
            cn == content@.len(),
            k == sl@.len(),
            k >= 1,
            last == content@.len() - k,
            views_of(sl@) == split_lines_seq(search_str@),
            best.strategy@ == "similarity"@,
            best.confidence <= CONFIDENCE_SCALE,
            best.index == -1 ==> best.confidence == 0,
            best.index != -1 ==> start_index <= best.index && best.index + k <= content@.len()
                && best.confidence as int == located_conf(
                search_str@,
                views_of(content@),
                best.index as int,
                confidence_threshold as int,
            ),
            (join_nl(views_of(sl@)) == search_str@ && search_str@.len() < usize::MAX
                && non_dash_lines(views_of(sl@)) == views_of(sl@) && confidence_threshold
                <= CONFIDENCE_SCALE && content@.len() < 0x7fffffff && exists|p: int|
                start_index <= p < i && lines_eq_at(views_of(content@), views_of(sl@), p))
                ==> best.confidence == CONFIDENCE_SCALE,
            best.index == -1 ==> forall|q: int|
                start_index <= q < i ==> !similarity_qualifies(
                    search_str@,
                    views_of(content@),
                    q,
                    confidence_threshold as int,
                ),
            (exists|q: int|
                start_index <= q < i && #[trigger] similarity_qualifies(
                    search_str@,
                    views_of(content@),
                    q,
                    confidence_threshold as int,
                )) ==> best.index != -1,
            best.index != -1 ==> exists|q: int|
                start_index <= q < i && #[trigger] similarity_qualifies(
                    search_str@,
                    views_of(content@),
                    q,
                    confidence_threshold as int,
                ),
            forall|q: int|
                start_index <= q < i && q <= 0x7fffffff && #[trigger] window_sim(
                    search_str@,
                    views_of(content@),
                    q,
                ) >= confidence_threshold ==> best.confidence as int >= located_conf(
                    search_str@,
                    views_of(content@),
                    q,
                    confidence_threshold as int,
                ),
        decreases last + 1 - i,
    {
        let joined = join_range(content, i, i + k);
        let search_chars = chars_of(search_str);
        let joined_chars = chars_of(joined.as_str());
        let score = similarity_milli(&search_chars, &joined_chars);
        proof {
            assert(score as int == window_sim(search_str@, views_of(content@), i as int));
        }
        if score > best.confidence && score >= confidence_threshold {
            let ctx = validate_context_lines(search_str, joined.as_str(), confidence_threshold);
            let adjusted = if score <= ctx {
                score
            } else {
                ctx
            };
            proof {
                assert(adjusted as int == located_conf(
                    search_str@,
                    views_of(content@),
                    i as int,
                    confidence_threshold as int,
                ));
            }
            if adjusted > best.confidence && i <= 0x7fffffff {
                proof {
                    assert(similarity_qualifies(
                        search_str@,
                        views_of(content@),
                        i as int,
                        confidence_threshold as int,
                    ));
                }
                best = SearchResult {
                    index: i as i32,
                    confidence: adjusted,
                    strategy: String::from_str("similarity"),
                };
            }
        } else {
            proof {
                // a window whose raw score cannot beat the held confidence
                // cannot beat it after validation either
                if score >= confidence_threshold {
                    assert(located_conf(
                        search_str@,
                        views_of(content@),
                        i as int,
                        confidence_threshold as int,
                    ) <= score as int);
                }
            }
        }
        proof {
            // when this window is a verbatim, clean occurrence, the loop
            // has now secured full confidence
            let c = views_of(content@);
            let slv = views_of(sl@);
            if join_nl(slv) == search_str@ && search_str@.len() < usize::MAX && non_dash_lines(slv)
                == slv && confidence_threshold <= CONFIDENCE_SCALE && c.len() < 0x7fffffff
                && lines_eq_at(c, slv, i as int) {
                lemma_perfect_candidate(
                    search_str@,
                    c,
                    i as int,
                    confidence_threshold as int,
                );
                assert(c.subrange(i as int, i + k) == slv);
                assert(joined@ == search_str@);
                lemma_sim_full_iff_eq(search_str@, joined@);
                assert(score == CONFIDENCE_SCALE);
                assert(best.confidence == CONFIDENCE_SCALE);
            }
        }
        i = i + 1;
    }
    proof {
        if clean_exact_present(
            search_str@,
            views_of(content@),
            confidence_threshold as int,
            start_index as int,
        ) {
            let c = views_of(content@);
            let slv = split_lines_seq(search_str@);
            let p = choose|p: int| start_index <= p && lines_eq_at(c, slv, p);
            assert(p <= last);
        }
        let c = views_of(content@);
        let slv = split_lines_seq(search_str@);
        if best.index != -1 {
            let q = choose|q: int|
                start_index <= q < i && #[trigger] similarity_qualifies(
                    search_str@,
                    c,
                    q,
                    confidence_threshold as int,
                );
            assert(c.len() == content@.len());
            assert(slv.len() == k);
            assert(q <= last);
            assert(q + slv.len() <= c.len());
        }
        if exists|q: int|
            start_index <= q && q + slv.len() <= c.len() && #[trigger] similarity_qualifies(
                search_str@,
                c,
                q,
                confidence_threshold as int,
            ) {
            let q = choose|q: int|
                start_index <= q && q + slv.len() <= c.len() && #[trigger] similarity_qualifies(
                    search_str@,
                    c,
                    q,
                    confidence_threshold as int,
                );
            assert(q < i);
        }
    }
    best
}

/// The two search strategies run on the same input; the stronger result by
/// confidence wins. When neither finds anything the result carries the
/// sentinel index and the tag of no strategy.
pub fn find_best_match(
    search_str: &str,
    content: &Vec<String>,
    start_index: usize,
    confidence_threshold: u32,
) -> (r: SearchResult)
    requires
        start_index <= content@.len(),
    ensures
        r.confidence <= CONFIDENCE_SCALE,
        r.index == -1 ==> r.confidence == 0,
        r.index != -1 ==> start_index <= r.index && r.confidence as int == located_conf(
            search_str@,
            views_of(content@),
            r.index as int,
            confidence_threshold as int,
        ) && r.index + split_lines_seq(search_str@).len() <= content@.len(),
        clean_exact_present(
            search_str@,
            views_of(content@),
            confidence_threshold as int,
            start_index as int,
        ) ==> r.confidence == CONFIDENCE_SCALE && r.index != -1,
{
    let e = find_exact_match(search_str, content, start_index, confidence_threshold);
    let s = find_similarity_match(search_str, content, start_index, confidence_threshold);
    if e.confidence == 0 && s.confidence == 0 {
        return SearchResult { index: -1, confidence: 0, strategy: String::from_str("none") };
    }
    if s.confidence > e.confidence {
        s
    } else {
        e
    }
}

/// Validate a reconstructed region: its similarity to the text the hunk
/// meant to write, penalized to 80% when the region still reads almost
/// exactly (above 0.97) like the pre-edit text while not matching the
/// post-edit text exactly — the symptom of an edit that silently did
/// nothing.
pub open spec fn edit_validation_score(cs: Seq<Change>, result: Seq<char>) -> int {
    let expected = join_nl(expected_lines(cs));
    let orig = join_nl(original_text_lines(cs));
    let s = sim_milli_capped(expected, result);
    let os = sim_milli_capped(orig, result);
    if os > 970 && s != CONFIDENCE_SCALE {
        (s * 8) / 10
    } else {
        s
    }
}

pub fn validate_edit_result(hunk: &Hunk, result: &str) -> (r: u32)
    ensures
        r as int == edit_validation_score(hunk.changes@, result@),
        r <= CONFIDENCE_SCALE,
{
    let cs = &hunk.changes;
    let mut exp_lines: Vec<String> = Vec::new();
    let mut orig_lines: Vec<String> = Vec::new();
    let mut i: usize = 0;
    proof {
        assert(cs@.skip(0) =~= cs@);
        assert(views_of(exp_lines@) =~= Seq::<Seq<char>>::empty());
        assert(views_of(orig_lines@) =~= Seq::<Seq<char>>::empty());
    }
    while i < cs.len()
        invariant
            0 <= i <= cs@.len(),
            expected_lines(cs@) == views_of(exp_lines@) + expected_lines(cs@.skip(i as int)),
            original_text_lines(cs@) == views_of(orig_lines@) + original_text_lines(
                cs@.skip(i as int),
            ),
        decreases cs@.len() - i,
    {
        let ghost rest = cs@.skip(i as int);
        proof {
            assert(rest[0] == cs@[i as int]);
            assert(rest.drop_first() =~= cs@.skip(i + 1));
        }
        let c = &cs[i];
        let line = c.indent.clone().concat(c.content.as_str());
        match c.change_type {
            crate::model::ChangeType::Context => {
                exp_lines.push(line.clone());
                orig_lines.push(line);
                proof {
                    assert(views_of(exp_lines@) =~= views_of(exp_lines@.drop_last()) + seq![
                        crate::model::written_line(cs@[i as int]),
                    ]);
                    assert(views_of(orig_lines@) =~= views_of(orig_lines@.drop_last()) + seq![
                        crate::model::written_line(cs@[i as int]),
                    ]);
                    assert(views_of(exp_lines@.drop_last()) + (seq![
                        crate::model::written_line(cs@[i as int]),
                    ] + expected_lines(cs@.skip(i + 1))) =~= views_of(exp_lines@) + expected_lines(
                        cs@.skip(i + 1),
                    ));
                    assert(views_of(orig_lines@.drop_last()) + (seq![
                        crate::model::written_line(cs@[i as int]),
                    ] + original_text_lines(cs@.skip(i + 1))) =~= views_of(orig_lines@)
                        + original_text_lines(cs@.skip(i + 1)));
                }
            },
            crate::model::ChangeType::Add => {
                exp_lines.push(line);
                proof {
                    assert(views_of(exp_lines@) =~= views_of(exp_lines@.drop_last()) + seq![
                        crate::model::written_line(cs@[i as int]),
                    ]);
                    assert(views_of(exp_lines@.drop_last()) + (seq![
                        crate::model::written_line(cs@[i as int]),
                    ] + expected_lines(cs@.skip(i + 1))) =~= views_of(exp_lines@) + expected_lines(
                        cs@.skip(i + 1),
                    ));
                }
            },
            crate::model::ChangeType::Remove => {
                orig_lines.push(line);
                proof {
                    assert(views_of(orig_lines@) =~= views_of(orig_lines@.drop_last()) + seq![
                        crate::model::written_line(cs@[i as int]),
                    ]);
                    assert(views_of(orig_lines@.drop_last()) + (seq![
                        crate::model::written_line(cs@[i as int]),
                    ] + original_text_lines(cs@.skip(i + 1))) =~= views_of(orig_lines@)
                        + original_text_lines(cs@.skip(i + 1)));
                }
            },
        }
        i = i + 1;
    }
    proof {
        assert(cs@.skip(cs@.len() as int) =~= Seq::<Change>::empty());
        assert(views_of(exp_lines@) + expected_lines(Seq::<Change>::empty()) =~= views_of(
            exp_lines@,
        ));
        assert(views_of(orig_lines@) + original_text_lines(Seq::<Change>::empty()) =~= views_of(
            orig_lines@,
        ));
    }
    let expected = join_lines(&exp_lines);
    let orig = join_lines(&orig_lines);
    let result_chars = chars_of(result);
    let exp_chars = chars_of(expected.as_str());
    let orig_chars = chars_of(orig.as_str());
    let s = similarity_milli(&exp_chars, &result_chars);
    let os = similarity_milli(&orig_chars, &result_chars);
    if os > 970 && s != CONFIDENCE_SCALE {
        (s * 8) / 10
    } else {
        s
    }
}

} // verus!
