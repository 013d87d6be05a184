//! The confidence-escalating unified-diff strategy: parse a unified-diff
//! body by content (declared line numbers are ignored), locate each hunk
//! with the search engine, reconstruct with the edit engine, and split a
//! hunk into sub-hunks when it cannot be located whole.

use vstd::prelude::*;

verus! {

use crate::distance::{CONFIDENCE_SCALE, is_ws, is_ws_char, lemma_sim_full_iff_eq};
use crate::edit::{
    MergeBackend,
    NoMerge,
    add_lines_of,
    apply_edit,
    cursor_after,
    region_lines,
    reindent,
    remove_count,
};
use crate::model::{
    Change,
    ChangeType,
    Diff,
    DiffResult,
    Hunk,
    expected_lines,
    has_edit,
    is_edit,
    lines_eq_at,
    original_text_lines,
    post_image_lines,
    pre_image_lines,
    search_text_lines,
    source_line,
    written_line,
};
use crate::search::{
    clean_exact_present,
    clone_range,
    edit_validation_score,
    find_best_match,
    located_conf,
    non_dash_lines,
    prepare_search_string,
};
use crate::text::{
    chars_of,
    clean_line,
    clean_lines,
    dec_str,
    join_lines,
    join_nl,
    lemma_join_nl_injective,
    lemma_split_join_id,
    no_nl,
    split_lines,
    split_lines_seq,
    string_from_chars,
    udec,
    views_of,
};

/// Context lines kept on each side of a hunk's first and last edit.
pub const MAX_CONTEXT_LINES: usize = 6;

/// Context lines kept around each sub-hunk when a hunk is split.
pub const SPLIT_CONTEXT_LINES: usize = 3;

/// The added and removed changes, in order.
pub open spec fn edits_of(cs: Seq<Change>) -> Seq<Change>
    decreases cs.len(),
{
    if cs.len() == 0 {
        Seq::empty()
    } else {
        (if is_edit(cs[0]) {
            seq![cs[0]]
        } else {
            Seq::empty()
        }) + edits_of(cs.drop_first())
    }
}

/// The edits of a sequence of hunks, chained.
pub open spec fn concat_hunk_edits(hs: Seq<Hunk>) -> Seq<Change>
    decreases hs.len(),
{
    if hs.len() == 0 {
        Seq::empty()
    } else {
        edits_of(hs[0].changes@) + concat_hunk_edits(hs.drop_first())
    }
}

pub proof fn lemma_edits_concat(a: Seq<Change>, b: Seq<Change>)
    ensures
        edits_of(a + b) == edits_of(a) + edits_of(b),
    decreases a.len(),
{
    if a.len() == 0 {
        assert(a + b =~= b);
        assert(edits_of(a) + edits_of(b) =~= edits_of(b));
    } else {
        lemma_edits_concat(a.drop_first(), b);
        assert((a + b).drop_first() =~= a.drop_first() + b);
        assert((a + b)[0] == a[0]);
        if is_edit(a[0]) {
            assert(seq![a[0]] + (edits_of(a.drop_first()) + edits_of(b)) =~= (seq![a[0]]
                + edits_of(a.drop_first())) + edits_of(b));
        } else {
            assert(Seq::<Change>::empty() + (edits_of(a.drop_first()) + edits_of(b)) =~= (Seq::<
                Change,
            >::empty() + edits_of(a.drop_first())) + edits_of(b));
        }
    }
}

pub proof fn lemma_edits_push(a: Seq<Change>, c: Change)
    ensures
        edits_of(a.push(c)) == edits_of(a) + if is_edit(c) {
            seq![c]
        } else {
            Seq::<Change>::empty()
        },
{
    assert(a.push(c) =~= a + seq![c]);
    lemma_edits_concat(a, seq![c]);
    assert(seq![c].drop_first() =~= Seq::<Change>::empty());
    assert(edits_of(seq![c]) == (if is_edit(c) {
        seq![c]
    } else {
        Seq::<Change>::empty()
    }) + edits_of(Seq::<Change>::empty()));
    if is_edit(c) {
        assert(seq![c] + Seq::<Change>::empty() =~= seq![c]);
    } else {
        assert(Seq::<Change>::empty() + Seq::<Change>::empty() =~= Seq::<Change>::empty());
    }
}

/// Every change adds or removes.
pub open spec fn all_edits(cs: Seq<Change>) -> bool {
    forall|i: int| 0 <= i < cs.len() ==> is_edit(#[trigger] cs[i])
}

/// A sequence of context changes carries no edit.
pub open spec fn all_context(cs: Seq<Change>) -> bool {
    forall|i: int| 0 <= i < cs.len() ==> (#[trigger] cs[i]).change_type is Context
}

pub proof fn lemma_all_context_no_edits(cs: Seq<Change>)
    requires
        all_context(cs),
    ensures
        edits_of(cs) == Seq::<Change>::empty(),
    decreases cs.len(),
{
    if cs.len() > 0 {
        assert(cs.drop_first().len() == cs.len() - 1);
        assert(forall|i: int| 0 <= i < cs.drop_first().len() ==> cs.drop_first()[i] == cs[i + 1]);
        lemma_all_context_no_edits(cs.drop_first());
        assert(edits_of(cs) =~= Seq::<Change>::empty());
    }
}

proof fn lemma_concat_hunk_push(hs: Seq<Hunk>, h: Hunk)
    ensures
        concat_hunk_edits(hs.push(h)) == concat_hunk_edits(hs) + edits_of(h.changes@),
    decreases hs.len(),
{
    if hs.len() == 0 {
        assert(hs.push(h)[0] == h);
        assert(hs.push(h).drop_first() =~= Seq::<Hunk>::empty());
        assert(concat_hunk_edits(hs.push(h)) == edits_of(h.changes@) + concat_hunk_edits(
            Seq::<Hunk>::empty(),
        ));
        assert(edits_of(h.changes@) + Seq::<Change>::empty() =~= edits_of(h.changes@));
        assert(Seq::<Change>::empty() + edits_of(h.changes@) =~= edits_of(h.changes@));
    } else {
        lemma_concat_hunk_push(hs.drop_first(), h);
        assert(hs.push(h).drop_first() =~= hs.drop_first().push(h));
        assert(hs.push(h)[0] == hs[0]);
        assert(edits_of(hs[0].changes@) + (concat_hunk_edits(hs.drop_first()) + edits_of(
            h.changes@,
        )) =~= (edits_of(hs[0].changes@) + concat_hunk_edits(hs.drop_first())) + edits_of(
            h.changes@,
        ));
    }
}

/// A change as the parser writes it for an ordinary single-line diff line:
/// the verbatim source line is known and is the indentation followed by
/// the content, the content is one clean line that carries its own first
/// visible character, and the written line neither ends in a carriage
/// return nor starts with a dash.
pub open spec fn pristine_change(c: Change) -> bool {
    &&& c.original_line is Some
    &&& c.original_line->0@ == written_line(c)
    &&& split_lines_seq(c.content@) == seq![c.content@]
    &&& c.content@.len() > 0
    &&& !is_ws_char(c.content@[0])
    &&& no_nl(c.content@)
    &&& no_nl(c.indent@)
    &&& written_line(c).last() != '\r'
    &&& written_line(c)[0] != '-'
}

/// A hunk of pristine changes with at least one edit and a non-empty
/// pre-image.
pub open spec fn pristine_hunk(cs: Seq<Change>) -> bool {
    &&& cs.len() > 0
    &&& has_edit(cs)
    &&& pre_image_lines(cs).len() > 0
    &&& forall|i: int| 0 <= i < cs.len() ==> pristine_change(#[trigger] cs[i])
}

/// For pristine changes the four line readings collapse to two: search
/// text, pre-image and pre-edit text are all the written lines of the kept
/// changes, and post-image and post-edit text coincide likewise.
pub proof fn lemma_pristine_line_readings(cs: Seq<Change>)
    requires
        forall|i: int| 0 <= i < cs.len() ==> pristine_change(#[trigger] cs[i]),
    ensures
        search_text_lines(cs) == pre_image_lines(cs),
        original_text_lines(cs) == pre_image_lines(cs),
        post_image_lines(cs) == expected_lines(cs),
        clean_lines(pre_image_lines(cs)),
        clean_lines(expected_lines(cs)),
        forall|i: int|
            0 <= i < pre_image_lines(cs).len() ==> (#[trigger] pre_image_lines(cs)[i]).len() > 0
                && pre_image_lines(cs)[i][0] != '-',
        non_dash_lines(pre_image_lines(cs)) == pre_image_lines(cs),
    decreases cs.len(),
{
    if cs.len() == 0 {
        assert(non_dash_lines(pre_image_lines(cs)) =~= pre_image_lines(cs));
    } else {
        assert(forall|i: int|
            0 <= i < cs.drop_first().len() ==> cs.drop_first()[i] == cs[i + 1]);
        lemma_pristine_line_readings(cs.drop_first());
        let c = cs[0];
        assert(pristine_change(c));
        assert(source_line(c) == written_line(c));
        assert(clean_line(written_line(c))) by {
            assert(written_line(c).len() > 0);
            assert(no_nl(written_line(c))) by {
                assert(forall|j: int|
                    0 <= j < written_line(c).len() ==> written_line(c)[j] == if j
                        < c.indent@.len() {
                        c.indent@[j]
                    } else {
                        c.content@[j - c.indent@.len()]
                    });
            }
        }
        if c.change_type is Context || c.change_type is Remove {
            assert(pre_image_lines(cs) == seq![written_line(c)] + pre_image_lines(
                cs.drop_first(),
            ));
            assert(clean_lines(pre_image_lines(cs)));
        }
        assert(search_text_lines(cs) =~= pre_image_lines(cs));
        assert(original_text_lines(cs) =~= pre_image_lines(cs));
        assert(post_image_lines(cs) =~= expected_lines(cs));
        assert(clean_lines(expected_lines(cs)));
        assert(non_dash_lines(pre_image_lines(cs)) =~= pre_image_lines(cs)) by {
            if c.change_type is Context || c.change_type is Remove {
                assert(pre_image_lines(cs)[0] == written_line(c));
                assert(pre_image_lines(cs).drop_first() =~= pre_image_lines(cs.drop_first()));
            } else {
                assert(pre_image_lines(cs) == pre_image_lines(cs.drop_first()));
            }
        }
    }
}

/// Where the content carries a pristine hunk's pre-image verbatim, the
/// reconstruction region is exactly the hunk's post-edit text and the
/// cursor ends right after the pre-image.
pub proof fn lemma_pristine_region(cs: Seq<Change>, content: Seq<Seq<char>>, p: int)
    requires
        forall|i: int| 0 <= i < cs.len() ==> pristine_change(#[trigger] cs[i]),
        0 <= p,
        p + pre_image_lines(cs).len() <= content.len(),
        content.subrange(p, p + pre_image_lines(cs).len()) == pre_image_lines(cs),
    ensures
        region_lines(cs, content, p) == expected_lines(cs),
        cursor_after(cs, p) == p + pre_image_lines(cs).len(),
    decreases cs.len(),
{
    if cs.len() == 0 {
        assert(region_lines(cs, content, p) =~= expected_lines(cs));
    } else {
        let c = cs[0];
        assert(pristine_change(c));
        assert(forall|i: int|
            0 <= i < cs.drop_first().len() ==> cs.drop_first()[i] == cs[i + 1]);
        let pre = pre_image_lines(cs);
        let prerest = pre_image_lines(cs.drop_first());
        match c.change_type {
            ChangeType::Context => {
                assert(pre == seq![source_line(c)] + prerest);
                assert(pre.len() == prerest.len() + 1);
                assert(content[p] == pre[0]);
                assert(content[p] == written_line(c));
                assert forall|j: int| 0 <= j < prerest.len() implies #[trigger] content.subrange(
                    p + 1,
                    p + 1 + prerest.len(),
                )[j] == prerest[j] by {
                    assert(content.subrange(p + 1, p + 1 + prerest.len())[j] == content[p + 1 + j]);
                    assert(content.subrange(p, p + pre.len())[j + 1] == content[p + j + 1]);
                    assert(pre[j + 1] == prerest[j]);
                }
                assert(content.subrange(p + 1, p + 1 + prerest.len()) =~= prerest);
                lemma_pristine_region(cs.drop_first(), content, p + 1);
                assert(region_lines(cs, content, p) =~= expected_lines(cs));
            },
            ChangeType::Add => {
                assert(pre == prerest);
                assert(add_lines_of(c) =~= seq![written_line(c)]) by {
                    assert(split_lines_seq(c.content@) == seq![c.content@]);
                    assert(split_lines_seq(c.content@).map_values(
                        |l: Seq<char>| reindent(l, c.indent@),
                    ).len() == 1);
                    assert(split_lines_seq(c.content@).map_values(
                        |l: Seq<char>| reindent(l, c.indent@),
                    )[0] == reindent(c.content@, c.indent@));
                    assert(reindent(c.content@, c.indent@) == written_line(c));
                }
                lemma_pristine_region(cs.drop_first(), content, p);
                assert(region_lines(cs, content, p) =~= expected_lines(cs));
            },
            ChangeType::Remove => {
                assert(pre == seq![source_line(c)] + prerest);
                assert(remove_count(c) == 1);
                assert forall|j: int| 0 <= j < prerest.len() implies #[trigger] content.subrange(
                    p + 1,
                    p + 1 + prerest.len(),
                )[j] == prerest[j] by {
                    assert(content.subrange(p + 1, p + 1 + prerest.len())[j] == content[p + 1 + j]);
                    assert(content.subrange(p, p + pre.len())[j + 1] == content[p + j + 1]);
                    assert(pre[j + 1] == prerest[j]);
                }
                assert(content.subrange(p + 1, p + 1 + prerest.len()) =~= prerest);
                lemma_pristine_region(cs.drop_first(), content, p + 1);
                assert(region_lines(cs, content, p) =~= expected_lines(cs));
            },
        }
    }
}

/// Everything a pristine hunk standing verbatim in the content is owed:
/// the search engine must find it at full confidence, the reconstruction
/// region is its post-edit text, and the validation score of that region
/// is the full scale.
pub proof fn lemma_pristine_hunk_applies(
    cs: Seq<Change>,
    content: Seq<Seq<char>>,
    p: int,
    thr: int,
)
    requires
        pristine_hunk(cs),
        0 <= thr <= CONFIDENCE_SCALE,
        lines_eq_at(content, pre_image_lines(cs), p),
        join_nl(pre_image_lines(cs)).len() < usize::MAX,
        join_nl(expected_lines(cs)).len() < usize::MAX,
        content.len() < 0x7fffffff,
    ensures
        clean_exact_present(join_nl(search_text_lines(cs)), content, thr, 0),
        region_lines(cs, content, p) == expected_lines(cs),
        cursor_after(cs, p) == p + pre_image_lines(cs).len(),
        edit_validation_score(cs, join_nl(expected_lines(cs))) == CONFIDENCE_SCALE,
{
    lemma_pristine_line_readings(cs);
    let pre = pre_image_lines(cs);
    let search = join_nl(search_text_lines(cs));
    lemma_split_join_id(pre);
    assert(split_lines_seq(search) == pre);
    assert(clean_exact_present(search, content, thr, 0)) by {
        assert(pre.len() > 0);
        assert(join_nl(split_lines_seq(search)) == search);
        assert(non_dash_lines(split_lines_seq(search)) == split_lines_seq(search));
        assert(0 <= p && lines_eq_at(content, split_lines_seq(search), p));
    }
    assert(content.subrange(p, p + pre.len()) == pre);
    lemma_pristine_region(cs, content, p);
    // the spliced region reads exactly as the hunk meant to write it
    let expected = join_nl(expected_lines(cs));
    lemma_sim_full_iff_eq(expected, expected);
    assert(edit_validation_score(cs, expected) == CONFIDENCE_SCALE);
}

/// No candidate window for the hunk's search text reaches the bar: every
/// position's validated confidence falls short.
pub open spec fn all_windows_below(cs: Seq<Change>, cv: Seq<Seq<char>>, thr: int) -> bool {
    forall|q: int|
        0 <= q <= cv.len() ==> #[trigger] located_conf(
            join_nl(search_text_lines(cs)),
            cv,
            q,
            thr,
        ) < thr
}

/// A pristine hunk whose pre-image stands verbatim somewhere in the
/// newline-free content, under a bar on the scale, with everything small
/// enough to address: the conditions under which applying the hunk is owed
/// success.
pub open spec fn pristine_applicable(cs: Seq<Change>, cv: Seq<Seq<char>>, thr: int) -> bool {
    &&& pristine_hunk(cs)
    &&& 0 <= thr <= CONFIDENCE_SCALE
    &&& join_nl(pre_image_lines(cs)).len() < usize::MAX
    &&& join_nl(expected_lines(cs)).len() < usize::MAX
    &&& cv.len() < 0x7fffffff
    &&& (forall|i: int| 0 <= i < cv.len() ==> no_nl(#[trigger] cv[i]))
    &&& exists|p: int| lines_eq_at(cv, pre_image_lines(cs), p)
}

/// The contents applying a pristine hunk can leave: the lines up to a
/// verbatim pre-image window, the hunk's post-edit text, and the rest.
pub open spec fn pristine_splices(cs: Seq<Change>, cv: Seq<Seq<char>>, nv: Seq<Seq<char>>) -> bool {
    exists|q: int|
        #[trigger] lines_eq_at(cv, pre_image_lines(cs), q) && nv == cv.subrange(0, q)
            + expected_lines(cs) + cv.subrange(
            q + pre_image_lines(cs).len(),
            cv.len() as int,
        )
}

/// Every hunk in turn is owed success: the first against the given lines,
/// each later one against every content its predecessors can leave.
pub open spec fn chain_applies(hs: Seq<Hunk>, cv: Seq<Seq<char>>, thr: int) -> bool
    decreases hs.len(),
{
    hs.len() == 0 || (pristine_applicable(hs[0].changes@, cv, thr) && (forall|nv: Seq<Seq<char>>|
        #[trigger] pristine_splices(hs[0].changes@, cv, nv) ==> chain_applies(
            hs.drop_first(),
            nv,
            thr,
        )))
}

/// `nv` is a content the chained hunks can leave, splicing one by one.
pub open spec fn chain_result(hs: Seq<Hunk>, cv: Seq<Seq<char>>, nv: Seq<Seq<char>>) -> bool
    decreases hs.len(),
{
    if hs.len() == 0 {
        nv == cv
    } else {
        exists|mid: Seq<Seq<char>>|
            #[trigger] pristine_splices(hs[0].changes@, cv, mid) && chain_result(
                hs.drop_first(),
                mid,
                nv,
            )
    }
}

proof fn lemma_chain_result_push(
    hs: Seq<Hunk>,
    h: Hunk,
    cv: Seq<Seq<char>>,
    mid: Seq<Seq<char>>,
    nv: Seq<Seq<char>>,
)
    requires
        chain_result(hs, cv, mid),
        pristine_splices(h.changes@, mid, nv),
    ensures
        chain_result(hs.push(h), cv, nv),
    decreases hs.len(),
{
    if hs.len() == 0 {
        assert(mid == cv);
        assert(hs.push(h)[0] == h);
        assert(hs.push(h).drop_first() =~= Seq::<Hunk>::empty());
        assert(chain_result(hs.push(h).drop_first(), nv, nv));
    } else {
        let mid0 = choose|mid0: Seq<Seq<char>>|
            #[trigger] pristine_splices(hs[0].changes@, cv, mid0) && chain_result(
                hs.drop_first(),
                mid0,
                mid,
            );
        lemma_chain_result_push(hs.drop_first(), h, mid0, mid, nv);
        assert(hs.push(h)[0] == hs[0]);
        assert(hs.push(h).drop_first() =~= hs.drop_first().push(h));
    }
}

/// Whether a line starts with the two given characters.
fn starts_with_2(s: &String, a: char, b: char) -> (r: bool)
    ensures
        r == (s@.len() >= 2 && s@[0] == a && s@[1] == b),
{
    let cs = chars_of(s.as_str());
    cs.len() >= 2 && cs[0] == a && cs[1] == b
}

/// Only whitespace characters.
pub open spec fn all_ws(s: Seq<char>) -> bool {
    forall|i: int| 0 <= i < s.len() ==> is_ws_char(#[trigger] s[i])
}

/// A change as parsing writes it from one body line: the verbatim rest of
/// the line is kept, with its leading whitespace split off into the
/// indent — or, for a line without a recognized marker, a context change
/// whose content starts with the inserted space.
pub open spec fn parsed_change_wf(c: Change) -> bool {
    &&& c.original_line is Some
    &&& all_ws(c.indent@)
    &&& ((c.original_line->0@ == c.indent@ + c.content@ && (c.content@.len() == 0 || !is_ws_char(
        c.content@[0],
    ))) || (c.change_type is Context && c.content@.len() >= 1 && c.content@[0] == ' '))
}

/// Context changes before the first edit.
pub open spec fn leading_context_count(cs: Seq<Change>) -> int
    decreases cs.len(),
{
    if cs.len() == 0 {
        0
    } else if cs[0].change_type is Context {
        1 + leading_context_count(cs.drop_first())
    } else {
        0
    }
}

/// Context changes after the last edit.
pub open spec fn trailing_context_count(cs: Seq<Change>) -> int
    decreases cs.len(),
{
    if cs.len() == 0 {
        0
    } else if cs.last().change_type is Context {
        1 + trailing_context_count(cs.drop_last())
    } else {
        0
    }
}

proof fn lemma_leading_context_at(cs: Seq<Change>, m: int)
    requires
        0 <= m < cs.len(),
        forall|j: int| 0 <= j < m ==> (#[trigger] cs[j]).change_type is Context,
        !(cs[m].change_type is Context),
    ensures
        leading_context_count(cs) == m,
    decreases m,
{
    if m > 0 {
        let d = cs.drop_first();
        assert(forall|j: int| 0 <= j < d.len() ==> #[trigger] d[j] == cs[j + 1]);
        lemma_leading_context_at(d, m - 1);
    }
}

proof fn lemma_trailing_context_at(cs: Seq<Change>, m: int)
    requires
        0 <= m < cs.len(),
        forall|j: int| m < j < cs.len() ==> (#[trigger] cs[j]).change_type is Context,
        !(cs[m].change_type is Context),
    ensures
        trailing_context_count(cs) == cs.len() - 1 - m,
    decreases cs.len(),
{
    if m < cs.len() - 1 {
        let d = cs.drop_last();
        assert(forall|j: int| 0 <= j < d.len() ==> #[trigger] d[j] == cs[j]);
        lemma_trailing_context_at(d, m);
    }
}

/// A change as spec-level data: what parsing one body line yields.
pub struct ChangeView {
    pub kind: ChangeType,
    pub content: Seq<char>,
    pub indent: Seq<char>,
    pub original: Seq<char>,
}

/// The spec-level data of a parsed change (every parsed change knows its
/// source line).
pub open spec fn change_view(c: Change) -> ChangeView {
    ChangeView {
        kind: c.change_type,
        content: c.content@,
        indent: c.indent@,
        original: c.original_line->0@,
    }
}

pub open spec fn changes_views(cs: Seq<Change>) -> Seq<ChangeView> {
    cs.map_values(|c: Change| change_view(c))
}

/// The spec-level data of parsed hunks.
pub open spec fn hunk_views(hs: Seq<Hunk>) -> Seq<Seq<ChangeView>> {
    hs.map_values(|h: Hunk| changes_views(h.changes@))
}

/// How many leading whitespace characters a line body carries.
pub open spec fn ws_prefix_len(s: Seq<char>) -> nat
    decreases s.len(),
{
    if s.len() > 0 && is_ws_char(s[0]) {
        1 + ws_prefix_len(s.drop_first())
    } else {
        0
    }
}

proof fn lemma_ws_prefix_at(s: Seq<char>, k: int)
    requires
        0 <= k <= s.len(),
        forall|j: int| 0 <= j < k ==> is_ws_char(s[j]),
        k < s.len() ==> !is_ws_char(s[k]),
    ensures
        ws_prefix_len(s) == k,
    decreases k,
{
    if k == 0 {
    } else {
        let d = s.drop_first();
        assert(forall|j: int| 0 <= j < d.len() ==> d[j] == s[j + 1]);
        lemma_ws_prefix_at(d, k - 1);
    }
}

/// What one body line parses to: the marker decides the kind, the rest is
/// kept verbatim with its leading whitespace split off; a line with no
/// recognized marker becomes context with the inserted space.
pub open spec fn change_view_of_line(l: Seq<char>) -> ChangeView {
    let rest = if l.len() > 0 {
        l.drop_first()
    } else {
        l
    };
    let k = ws_prefix_len(rest) as int;
    let indent = rest.take(k);
    let trimmed = rest.skip(k);
    if l.len() > 0 && l[0] == ' ' {
        ChangeView { kind: ChangeType::Context, content: trimmed, indent, original: rest }
    } else if l.len() > 0 && l[0] == '+' {
        ChangeView { kind: ChangeType::Add, content: trimmed, indent, original: rest }
    } else if l.len() > 0 && l[0] == '-' {
        ChangeView { kind: ChangeType::Remove, content: trimmed, indent, original: rest }
    } else {
        ChangeView {
            kind: ChangeType::Context,
            content: if trimmed.len() == 0 {
                " "@
            } else {
                " "@ + trimmed
            },
            indent,
            original: rest,
        }
    }
}

pub open spec fn is_edit_v(v: ChangeView) -> bool {
    v.kind is Add || v.kind is Remove
}

pub open spec fn has_edit_v(vs: Seq<ChangeView>) -> bool {
    exists|i: int| 0 <= i < vs.len() && is_edit_v(vs[i])
}

/// The first edit's position in a hunk that has one.
pub open spec fn first_edit_v(vs: Seq<ChangeView>) -> int
    decreases vs.len(),
{
    if vs.len() == 0 {
        0
    } else if is_edit_v(vs[0]) {
        0
    } else {
        1 + first_edit_v(vs.drop_first())
    }
}

/// The last edit's position in a hunk that has one.
pub open spec fn last_edit_v(vs: Seq<ChangeView>) -> int
    decreases vs.len(),
{
    if vs.len() == 0 {
        -1
    } else if is_edit_v(vs.last()) {
        vs.len() - 1
    } else {
        last_edit_v(vs.drop_last())
    }
}

proof fn lemma_first_edit_at(vs: Seq<ChangeView>, m: int)
    requires
        0 <= m < vs.len(),
        forall|j: int| 0 <= j < m ==> !is_edit_v(#[trigger] vs[j]),
        is_edit_v(vs[m]),
    ensures
        first_edit_v(vs) == m,
    decreases m,
{
    if m > 0 {
        let d = vs.drop_first();
        assert(forall|j: int| 0 <= j < d.len() ==> #[trigger] d[j] == vs[j + 1]);
        lemma_first_edit_at(d, m - 1);
    }
}

proof fn lemma_last_edit_at(vs: Seq<ChangeView>, m: int)
    requires
        0 <= m < vs.len(),
        forall|j: int| m < j < vs.len() ==> !is_edit_v(#[trigger] vs[j]),
        is_edit_v(vs[m]),
    ensures
        last_edit_v(vs) == m,
    decreases vs.len(),
{
    if m < vs.len() - 1 {
        let d = vs.drop_last();
        assert(forall|j: int| 0 <= j < d.len() ==> #[trigger] d[j] == vs[j]);
        lemma_last_edit_at(d, m);
    }
}

pub proof fn lemma_has_edit_views(cs: Seq<Change>)
    ensures
        has_edit_v(changes_views(cs)) == has_edit(cs),
{
    let cv = changes_views(cs);
    if has_edit(cs) {
        let w = choose|w: int| 0 <= w < cs.len() && is_edit(cs[w]);
        assert(is_edit_v(cv[w]));
    }
    if has_edit_v(cv) {
        let w = choose|w: int| 0 <= w < cv.len() && is_edit_v(cv[w]);
        assert(is_edit(cs[w]));
    }
}

/// A retained hunk trimmed to the bounded context around its edits.
pub open spec fn trim_v(vs: Seq<ChangeView>) -> Seq<ChangeView> {
    let first = first_edit_v(vs);
    let last = last_edit_v(vs);
    let start = if first >= MAX_CONTEXT_LINES {
        first - MAX_CONTEXT_LINES
    } else {
        0int
    };
    let end = if vs.len() - 1 - last <= MAX_CONTEXT_LINES {
        vs.len() - 1
    } else {
        last + MAX_CONTEXT_LINES
    };
    vs.subrange(start, end + 1)
}

/// One left-to-right pass over the diff's lines: a hunk marker closes the
/// open hunk (kept when it carries an edit, trimmed) and opens the next;
/// body lines of an open hunk become changes; everything else is ignored.
pub open spec fn parse_rec(
    ls: Seq<Seq<char>>,
    i: int,
    in_hunk: bool,
    cur: Seq<ChangeView>,
    acc: Seq<Seq<ChangeView>>,
) -> Seq<Seq<ChangeView>>
    decreases ls.len() - i,
{
    if i < 0 || i >= ls.len() {
        if in_hunk && has_edit_v(cur) {
            acc.push(trim_v(cur))
        } else {
            acc
        }
    } else if starts_hunk_marker(ls[i]) {
        parse_rec(
            ls,
            i + 1,
            true,
            Seq::empty(),
            if in_hunk && has_edit_v(cur) {
                acc.push(trim_v(cur))
            } else {
                acc
            },
        )
    } else if in_hunk {
        parse_rec(ls, i + 1, in_hunk, cur.push(change_view_of_line(ls[i])), acc)
    } else {
        parse_rec(ls, i + 1, in_hunk, cur, acc)
    }
}

/// The hunks a diff text parses to, as spec-level data.
pub open spec fn parsed_hunk_views(diff: Seq<char>) -> Seq<Seq<ChangeView>> {
    parse_rec(split_lines_seq(diff), 0, false, Seq::empty(), Seq::empty())
}

pub open spec fn keeps_pre_v(v: ChangeView) -> bool {
    v.kind is Context || v.kind is Remove
}

pub open spec fn keeps_post_v(v: ChangeView) -> bool {
    v.kind is Context || v.kind is Add
}

pub open spec fn written_line_v(v: ChangeView) -> Seq<char> {
    v.indent + v.content
}

/// The pre-image a spec-level hunk declares.
pub open spec fn pre_image_lines_v(vs: Seq<ChangeView>) -> Seq<Seq<char>>
    decreases vs.len(),
{
    if vs.len() == 0 {
        Seq::empty()
    } else {
        let rest = pre_image_lines_v(vs.drop_first());
        if keeps_pre_v(vs[0]) {
            seq![vs[0].original] + rest
        } else {
            rest
        }
    }
}

/// The post-edit text a spec-level hunk writes.
pub open spec fn expected_lines_v(vs: Seq<ChangeView>) -> Seq<Seq<char>>
    decreases vs.len(),
{
    if vs.len() == 0 {
        Seq::empty()
    } else {
        let rest = expected_lines_v(vs.drop_first());
        if keeps_post_v(vs[0]) {
            seq![written_line_v(vs[0])] + rest
        } else {
            rest
        }
    }
}

/// `pristine_change`, at the spec level.
pub open spec fn pristine_change_v(v: ChangeView) -> bool {
    &&& v.original == written_line_v(v)
    &&& split_lines_seq(v.content) == seq![v.content]
    &&& v.content.len() > 0
    &&& !is_ws_char(v.content[0])
    &&& no_nl(v.content)
    &&& no_nl(v.indent)
    &&& written_line_v(v).last() != '\r'
    &&& written_line_v(v)[0] != '-'
}

/// `pristine_hunk`, at the spec level.
pub open spec fn pristine_hunk_v(vs: Seq<ChangeView>) -> bool {
    &&& vs.len() > 0
    &&& has_edit_v(vs)
    &&& pre_image_lines_v(vs).len() > 0
    &&& forall|i: int| 0 <= i < vs.len() ==> pristine_change_v(#[trigger] vs[i])
}

/// `pristine_applicable`, at the spec level.
pub open spec fn pristine_applicable_v(vs: Seq<ChangeView>, cv: Seq<Seq<char>>, thr: int) -> bool {
    &&& pristine_hunk_v(vs)
    &&& 0 <= thr <= CONFIDENCE_SCALE
    &&& join_nl(pre_image_lines_v(vs)).len() < usize::MAX
    &&& join_nl(expected_lines_v(vs)).len() < usize::MAX
    &&& cv.len() < 0x7fffffff
    &&& (forall|i: int| 0 <= i < cv.len() ==> no_nl(#[trigger] cv[i]))
    &&& exists|p: int| lines_eq_at(cv, pre_image_lines_v(vs), p)
}

/// `pristine_splices`, at the spec level.
pub open spec fn pristine_splices_v(
    vs: Seq<ChangeView>,
    cv: Seq<Seq<char>>,
    nv: Seq<Seq<char>>,
) -> bool {
    exists|q: int|
        #[trigger] lines_eq_at(cv, pre_image_lines_v(vs), q) && nv == cv.subrange(0, q)
            + expected_lines_v(vs) + cv.subrange(
            q + pre_image_lines_v(vs).len(),
            cv.len() as int,
        )
}

/// `chain_applies`, at the spec level.
pub open spec fn chain_applies_v(hvs: Seq<Seq<ChangeView>>, cv: Seq<Seq<char>>, thr: int) -> bool
    decreases hvs.len(),
{
    hvs.len() == 0 || (pristine_applicable_v(hvs[0], cv, thr) && (forall|nv: Seq<Seq<char>>|
        #[trigger] pristine_splices_v(hvs[0], cv, nv) ==> chain_applies_v(
            hvs.drop_first(),
            nv,
            thr,
        )))
}

/// `chain_result`, at the spec level.
pub open spec fn chain_result_v(
    hvs: Seq<Seq<ChangeView>>,
    cv: Seq<Seq<char>>,
    nv: Seq<Seq<char>>,
) -> bool
    decreases hvs.len(),
{
    if hvs.len() == 0 {
        nv == cv
    } else {
        exists|mid: Seq<Seq<char>>|
            #[trigger] pristine_splices_v(hvs[0], cv, mid) && chain_result_v(
                hvs.drop_first(),
                mid,
                nv,
            )
    }
}

/// Every change knows its source line.
pub open spec fn all_sourced(cs: Seq<Change>) -> bool {
    forall|i: int| 0 <= i < cs.len() ==> (#[trigger] cs[i]).original_line is Some
}

/// Sourced changes and their spec-level data declare the same lines.
pub proof fn lemma_view_line_readings(cs: Seq<Change>)
    requires
        all_sourced(cs),
    ensures
        pre_image_lines_v(changes_views(cs)) == pre_image_lines(cs),
        expected_lines_v(changes_views(cs)) == expected_lines(cs),
    decreases cs.len(),
{
    if cs.len() > 0 {
        let d = cs.drop_first();
        assert(forall|j: int| 0 <= j < d.len() ==> #[trigger] d[j] == cs[j + 1]);
        lemma_view_line_readings(d);
        assert(changes_views(cs).drop_first() =~= changes_views(d));
        assert(changes_views(cs)[0] == change_view(cs[0]));
        assert(source_line(cs[0]) == cs[0].original_line->0@);
    }
}

/// Sourced changes search for exactly their declared pre-image.
pub proof fn lemma_search_is_pre(cs: Seq<Change>)
    requires
        all_sourced(cs),
    ensures
        search_text_lines(cs) == pre_image_lines(cs),
    decreases cs.len(),
{
    if cs.len() > 0 {
        let d = cs.drop_first();
        assert(forall|j: int| 0 <= j < d.len() ==> #[trigger] d[j] == cs[j + 1]);
        lemma_search_is_pre(d);
        assert(source_line(cs[0]) == cs[0].original_line->0@);
    }
}

/// Sourced changes and their spec-level data agree on pristineness.
pub proof fn lemma_pristine_views(cs: Seq<Change>)
    requires
        all_sourced(cs),
    ensures
        pristine_hunk_v(changes_views(cs)) == pristine_hunk(cs),
{
    let vs = changes_views(cs);
    lemma_has_edit_views(cs);
    lemma_view_line_readings(cs);
    assert forall|i: int| 0 <= i < cs.len() implies pristine_change_v(#[trigger] vs[i])
        == pristine_change(cs[i]) by {
        assert(vs[i] == change_view(cs[i]));
    }
    if pristine_hunk_v(vs) {
        assert forall|i: int| 0 <= i < cs.len() implies pristine_change(#[trigger] cs[i]) by {
            assert(pristine_change_v(vs[i]));
        }
    }
    if pristine_hunk(cs) {
        assert forall|i: int| 0 <= i < vs.len() implies pristine_change_v(#[trigger] vs[i]) by {
            assert(pristine_change(cs[i]));
        }
    }
}

/// Sourced hunks and their spec-level data agree on the chain being owed.
pub proof fn lemma_chain_views(hs: Seq<Hunk>, cv: Seq<Seq<char>>, thr: int)
    requires
        forall|i: int| 0 <= i < hs.len() ==> all_sourced((#[trigger] hs[i]).changes@),
    ensures
        chain_applies_v(hunk_views(hs), cv, thr) == chain_applies(hs, cv, thr),
    decreases hs.len(),
{
    if hs.len() > 0 {
        let hv = hunk_views(hs);
        let cs0 = hs[0].changes@;
        assert(hv[0] == changes_views(cs0));
        assert(hv.drop_first() =~= hunk_views(hs.drop_first()));
        assert(forall|j: int|
            0 <= j < hs.drop_first().len() ==> #[trigger] hs.drop_first()[j] == hs[j + 1]);
        lemma_pristine_views(cs0);
        lemma_view_line_readings(cs0);
        assert(pristine_applicable_v(hv[0], cv, thr) == pristine_applicable(cs0, cv, thr));
        assert forall|nv: Seq<Seq<char>>| #[trigger] pristine_splices_v(hv[0], cv, nv)
            == pristine_splices(cs0, cv, nv) by {}
        if chain_applies_v(hv, cv, thr) {
            assert forall|nv: Seq<Seq<char>>| #[trigger] pristine_splices(cs0, cv, nv)
                implies chain_applies(hs.drop_first(), nv, thr) by {
                assert(pristine_splices_v(hv[0], cv, nv));
                assert(chain_applies_v(hv.drop_first(), nv, thr));
                lemma_chain_views(hs.drop_first(), nv, thr);
            }
            assert(chain_applies(hs, cv, thr));
        }
        if chain_applies(hs, cv, thr) {
            assert forall|nv: Seq<Seq<char>>| #[trigger] pristine_splices_v(hv[0], cv, nv)
                implies chain_applies_v(hv.drop_first(), nv, thr) by {
                assert(pristine_splices(cs0, cv, nv));
                assert(chain_applies(hs.drop_first(), nv, thr));
                lemma_chain_views(hs.drop_first(), nv, thr);
            }
            assert(chain_applies_v(hv, cv, thr));
        }
    }
}

/// Sourced hunks and their spec-level data can leave the same contents.
pub proof fn lemma_chain_result_views(hs: Seq<Hunk>, cv: Seq<Seq<char>>, nv: Seq<Seq<char>>)
    requires
        forall|i: int| 0 <= i < hs.len() ==> all_sourced((#[trigger] hs[i]).changes@),
    ensures
        chain_result_v(hunk_views(hs), cv, nv) == chain_result(hs, cv, nv),
    decreases hs.len(),
{
    if hs.len() > 0 {
        let hv = hunk_views(hs);
        let cs0 = hs[0].changes@;
        assert(hv[0] == changes_views(cs0));
        assert(hv.drop_first() =~= hunk_views(hs.drop_first()));
        assert(forall|j: int|
            0 <= j < hs.drop_first().len() ==> #[trigger] hs.drop_first()[j] == hs[j + 1]);
        lemma_view_line_readings(cs0);
        if chain_result_v(hv, cv, nv) {
            let mid = choose|mid: Seq<Seq<char>>|
                #[trigger] pristine_splices_v(hv[0], cv, mid) && chain_result_v(
                    hv.drop_first(),
                    mid,
                    nv,
                );
            assert(pristine_splices(cs0, cv, mid));
            lemma_chain_result_views(hs.drop_first(), mid, nv);
        }
        if chain_result(hs, cv, nv) {
            let mid = choose|mid: Seq<Seq<char>>|
                #[trigger] pristine_splices(cs0, cv, mid) && chain_result(
                    hs.drop_first(),
                    mid,
                    nv,
                );
            assert(pristine_splices_v(hv[0], cv, mid));
            lemma_chain_result_views(hs.drop_first(), mid, nv);
        }
    }
}

/// How many of a hunk's changes are context lines.
pub open spec fn context_count(cs: Seq<Change>) -> int
    decreases cs.len(),
{
    if cs.len() == 0 {
        0
    } else {
        (if cs[0].change_type is Context {
            1int
        } else {
            0int
        }) + context_count(cs.drop_first())
    }
}

/// How many of a spec-level hunk's changes are context lines.
pub open spec fn context_count_v(vs: Seq<ChangeView>) -> int
    decreases vs.len(),
{
    if vs.len() == 0 {
        0
    } else {
        (if vs[0].kind is Context {
            1int
        } else {
            0int
        }) + context_count_v(vs.drop_first())
    }
}

pub proof fn lemma_context_count_views(cs: Seq<Change>)
    ensures
        context_count_v(changes_views(cs)) == context_count(cs),
    decreases cs.len(),
{
    if cs.len() > 0 {
        let d = cs.drop_first();
        assert(forall|j: int| 0 <= j < d.len() ==> #[trigger] d[j] == cs[j + 1]);
        lemma_context_count_views(d);
        assert(changes_views(cs).drop_first() =~= changes_views(d));
        assert(changes_views(cs)[0] == change_view(cs[0]));
    }
}

/// The qualitative hint a search failure carries, chosen by the hunk's
/// context ratio: under a fifth, over a half, or in between.
pub open spec fn context_ratio_hint(context_lines: nat, total_lines: nat) -> Seq<char> {
    if context_lines * 5 < total_lines {
        "\nPossible Issues:\n- Not enough context lines to uniquely identify the location\n- Add a few more lines of unchanged code around your changes\n"@
    } else if context_lines * 2 > total_lines {
        "\nPossible Issues:\n- Too many context lines may reduce search accuracy\n- Try to keep only 2-3 lines of context before and after changes\n"@
    } else {
        "\nPossible Issues:\n- The diff may be targeting a different version of the file\n- There may be too many changes in a single hunk, try splitting the changes into multiple hunks\n"@
    }
}

/// The note a search failure carries when both line hints were given.
pub open spec fn search_range_note(start_line: Option<usize>, end_line: Option<usize>) -> Seq<
    char,
> {
    match (start_line, end_line) {
        (Some(sv), Some(ev)) => "\nSearch Range: lines "@ + dec_str(sv as nat) + "-"@ + dec_str(
            ev as nat,
        ) + "\n"@,
        _ => Seq::empty(),
    }
}

/// The diagnostic for a hunk whose location could not be found: achieved
/// and required percentages, the strategy tag, the context-line count and
/// ratio, how many sub-hunks were tried, the ratio hint, and the hinted
/// range when one was given.
pub open spec fn msg_search_failure(
    conf: nat,
    thr: nat,
    strategy: Seq<char>,
    context_lines: nat,
    total_lines: nat,
    sub_count: nat,
    start_line: Option<usize>,
    end_line: Option<usize>,
) -> Seq<char> {
    "Failed to find a matching location in the file ("@ + dec_str(conf / 10)
        + "% confidence, needs "@ + dec_str(thr / 10)
        + "%)\n\nDebug Info:\n- Search Strategy Used: "@ + strategy + "\n- Context Lines: "@
        + dec_str(context_lines) + " out of "@ + dec_str(total_lines) + " total lines ("@
        + dec_str((context_lines * 100) / total_lines) + "%)\n- Attempted to split into "@
        + dec_str(sub_count) + " sub-hunks but still failed\n"@ + context_ratio_hint(
        context_lines,
        total_lines,
    ) + search_range_note(start_line, end_line)
}

/// The diagnostic for a hunk that was located but whose reconstruction
/// missed the bar: the strategy tag and its achieved percentage, then the
/// fixed explanation that the location was found but the content did not
/// match.
pub open spec fn msg_edit_failure(strategy: Seq<char>, conf: nat) -> Seq<char> {
    "Failed to apply the edit using "@ + strategy + " strategy ("@ + dec_str(conf / 10)
        + "% confidence)\n\nDebug Info:\n- The location was found but the content didn't match exactly\n- This usually means the file has been modified since the diff was created\n- Or the diff may be targeting a different version of the file\n\nPossible Solutions:\n1. Refresh your view of the file and create a new diff\n2. Double-check that the removed lines (-) match the current file content\n3. Ensure your diff targets the correct version of the file"@
}

/// What every parsed hunk satisfies: it carries an edit, its changes come
/// from body lines, and at most `MAX_CONTEXT_LINES` context changes stand
/// before its first and after its last edit.
pub open spec fn hunk_wf(cs: Seq<Change>) -> bool {
    &&& has_edit(cs)
    &&& leading_context_count(cs) <= MAX_CONTEXT_LINES
    &&& trailing_context_count(cs) <= MAX_CONTEXT_LINES
    &&& forall|j: int| 0 <= j < cs.len() ==> parsed_change_wf(#[trigger] cs[j])
}

/// A line that starts a hunk.
pub open spec fn starts_hunk_marker(l: Seq<char>) -> bool {
    l.len() >= 2 && l[0] == '@' && l[1] == '@'
}

/// A body line that adds or removes.
pub open spec fn is_edit_marker_line(l: Seq<char>) -> bool {
    l.len() >= 1 && (l[0] == '+' || l[0] == '-')
}

/// The diagnostic for a diff that parses to no hunks.
pub open spec fn no_hunks_text() -> Seq<char> {
    "No hunks found in diff. Please ensure your diff includes actual changes and follows the unified diff format."@
}

/// The diff text parses to at least one hunk: somewhere after a hunk
/// marker stands a line that adds or removes.
pub open spec fn diff_has_hunks(diff: Seq<char>) -> bool {
    let ls = split_lines_seq(diff);
    exists|i: int, j: int|
        0 <= i < j < ls.len() && starts_hunk_marker(#[trigger] ls[i]) && is_edit_marker_line(
            #[trigger] ls[j],
        )
}

/// One diff line turned into a change: the marker decides the kind, the
/// leading whitespace of what follows it is split off into the indent, and
/// the verbatim rest is kept. A line with no recognized marker becomes a
/// context change whose content is prefixed with a space.
fn parse_change_line(line: &String) -> (c: Change)
    ensures
        parsed_change_wf(c),
        c.change_type is Add <==> (line@.len() >= 1 && line@[0] == '+'),
        c.change_type is Remove <==> (line@.len() >= 1 && line@[0] == '-'),
        change_view(c) == change_view_of_line(line@),
{
    let lc = chars_of(line.as_str());
    let ln = lc.len();
    let marker: char = if lc.len() > 0 {
        lc[0]
    } else {
        '\u{0}'
    };
    let mut rest: Vec<char> = Vec::new();
    let mut i: usize = 1;
    while i < ln
        invariant
            ln == lc@.len(),
            lc@ == line@,
            1 <= i,
            i <= ln || ln == 0,
            ln > 0 ==> rest@ == lc@.subrange(1, i as int),
            ln == 0 ==> rest@.len() == 0,
        decreases ln - i,
    {
        rest.push(lc[i]);
        proof {
            assert(rest@ =~= lc@.subrange(1, i + 1));
        }
        i = i + 1;
    }
    proof {
        if ln > 0 {
            assert(rest@ =~= lc@.subrange(1, ln as int));
        }
    }
    let rn = rest.len();
    let mut k: usize = 0;
    while k < rn && is_ws(rest[k])
        invariant
            0 <= k <= rn,
            rn == rest@.len(),
            forall|j: int| 0 <= j < k ==> is_ws_char(rest@[j]),
        decreases rn - k,
    {
        k = k + 1;
    }
    let mut indent_chars: Vec<char> = Vec::new();
    let mut trimmed_chars: Vec<char> = Vec::new();
    let mut m: usize = 0;
    while m < rn
        invariant
            0 <= m <= rn == rest@.len(),
            k <= rn,
            indent_chars@ == rest@.subrange(
                0,
                if m <= k {
                    m as int
                } else {
                    k as int
                },
            ),
            trimmed_chars@ == if m <= k {
                Seq::<char>::empty()
            } else {
                rest@.subrange(k as int, m as int)
            },
        decreases rn - m,
    {
        if m < k {
            indent_chars.push(rest[m]);
            proof {
                assert(indent_chars@ =~= rest@.subrange(0, m + 1));
            }
        } else {
            trimmed_chars.push(rest[m]);
            proof {
                assert(trimmed_chars@ =~= rest@.subrange(k as int, m + 1));
            }
        }
        m = m + 1;
    }
    proof {
        assert(indent_chars@ == rest@.subrange(
            0,
            if rn <= k {
                rn as int
            } else {
                k as int
            },
        ));
        assert(indent_chars@ =~= rest@.subrange(0, k as int));
        if rn > k {
            assert(trimmed_chars@ =~= rest@.subrange(k as int, rn as int));
        } else {
            assert(trimmed_chars@ =~= rest@.subrange(k as int, rn as int));
        }
        assert(indent_chars@ + trimmed_chars@ =~= rest@);
        assert(all_ws(indent_chars@));
        if trimmed_chars@.len() > 0 {
            assert(trimmed_chars@[0] == rest@[k as int]);
            assert(!is_ws_char(trimmed_chars@[0]));
        }
    }
    let indent = string_from_chars(&indent_chars);
    let trimmed = string_from_chars(&trimmed_chars);
    let original = string_from_chars(&rest);
    proof {
        if ln > 0 {
            assert(marker == line@[0]);
            assert(rest@ =~= line@.drop_first());
        } else {
            assert(rest@ =~= line@);
        }
        // the scanned prefix is exactly the spec's whitespace prefix
        lemma_ws_prefix_at(rest@, k as int);
        assert(indent_chars@ == rest@.take(ws_prefix_len(rest@) as int));
        assert(trimmed_chars@ == rest@.skip(ws_prefix_len(rest@) as int));
    }
    if marker == ' ' {
        Change {
            change_type: ChangeType::Context,
            content: trimmed,
            indent,
            original_line: Some(original),
        }
    } else if marker == '+' {
        Change {
            change_type: ChangeType::Add,
            content: trimmed,
            indent,
            original_line: Some(original),
        }
    } else if marker == '-' {
        Change {
            change_type: ChangeType::Remove,
            content: trimmed,
            indent,
            original_line: Some(original),
        }
    } else {
        let content = if trimmed_chars.len() == 0 {
            String::from_str(" ")
        } else {
            String::from_str(" ").concat(trimmed.as_str())
        };
        proof {
            reveal_strlit(" ");
            assert(content@.len() >= 1 && content@[0] == ' ');
        }
        Change {
            change_type: ChangeType::Context,
            content,
            indent,
            original_line: Some(original),
        }
    }
}

/// Keep at most `MAX_CONTEXT_LINES` context lines on each side of the
/// hunk's first and last edit, to bound the match search.
fn trim_hunk(changes: &Vec<Change>) -> (r: Vec<Change>)
    requires
        has_edit(changes@),
    ensures
        has_edit(r@),
        leading_context_count(r@) <= MAX_CONTEXT_LINES,
        trailing_context_count(r@) <= MAX_CONTEXT_LINES,
        forall|j: int|
            0 <= j < r@.len() ==> exists|i: int| 0 <= i < changes@.len() && #[trigger] r@[j]
                == changes@[i],
        changes_views(r@) == trim_v(changes_views(changes@)),
{
    let n = changes.len();
    proof {
        let w = choose|i: int| 0 <= i < changes@.len() && is_edit(changes@[i]);
        assert(n > 0);
    }
    let mut first: usize = 0;
    let mut found_first: bool = false;
    let mut i: usize = 0;
    while i < n
        invariant
            0 <= i <= n,
            n == changes@.len(),
            found_first ==> first < n && is_edit(changes@[first as int]),
            found_first ==> forall|j: int| 0 <= j < first ==> !is_edit(#[trigger] changes@[j]),
            !found_first ==> forall|j: int| 0 <= j < i ==> !is_edit(changes@[j]),
        decreases n - i,
    {
        match changes[i].change_type {
            ChangeType::Context => {},
            _ => {
                if !found_first {
                    first = i;
                    found_first = true;
                }
            },
        }
        i = i + 1;
    }
    proof {
        if !found_first {
            let w = choose|j: int| 0 <= j < changes@.len() && is_edit(changes@[j]);
            assert(false);
        }
    }
    let mut last: usize = first;
    let mut t: usize = first;
    while t < n
        invariant
            first <= last < n,
            n == changes@.len(),
            first <= t <= n,
            last <= t,
            is_edit(changes@[last as int]),
            forall|j: int| last < j < t ==> !is_edit(#[trigger] changes@[j]),
        decreases n - t,
    {
        match changes[t].change_type {
            ChangeType::Context => {},
            _ => {
                last = t;
            },
        }
        t = t + 1;
    }
    let start: usize = if first >= MAX_CONTEXT_LINES {
        first - MAX_CONTEXT_LINES
    } else {
        0
    };
    let end: usize = if n - 1 - last <= MAX_CONTEXT_LINES {
        n - 1
    } else {
        last + MAX_CONTEXT_LINES
    };
    let mut out: Vec<Change> = Vec::new();
    let mut u: usize = start;
    while u <= end
        invariant
            start <= u <= end + 1,
            start <= first <= end < n,
            n == changes@.len(),
            out@.len() == u - start,
            forall|j: int| 0 <= j < out@.len() ==> out@[j] == changes@[start + j],
        decreases end + 1 - u,
    {
        out.push(changes[u].duplicate());
        u = u + 1;
    }
    proof {
        assert(out@[first - start] == changes@[first as int]);
        assert(is_edit(out@[first - start]));
        // the scanned bounds are the spec's first and last edits
        let cv = changes_views(changes@);
        assert(cv.len() == changes@.len());
        assert(forall|j: int|
            0 <= j < changes@.len() ==> is_edit_v(#[trigger] cv[j]) == is_edit(changes@[j]));
        lemma_first_edit_at(cv, first as int);
        lemma_last_edit_at(cv, last as int);
        assert(changes_views(out@) =~= cv.subrange(start as int, end + 1));
        assert(changes_views(out@) == trim_v(cv));
        // the kept slice opens and closes on bounded context around the
        // first and last edits
        assert forall|j: int| 0 <= j < first - start implies (#[trigger] out@[j]).change_type
            is Context by {
            assert(out@[j] == changes@[start + j]);
            assert(!is_edit(changes@[start + j]));
        }
        assert(!(out@[first - start].change_type is Context));
        lemma_leading_context_at(out@, first - start);
        assert forall|j: int| last - start < j < out@.len() implies (#[trigger] out@[j]).change_type
            is Context by {
            assert(out@[j] == changes@[start + j]);
            assert(last < start + j <= end);
            assert(!is_edit(changes@[start + j]));
        }
        assert(out@[last - start] == changes@[last as int]);
        assert(!(out@[last - start].change_type is Context));
        lemma_trailing_context_at(out@, last - start);
        assert(trailing_context_count(out@) == end - last);
    }
    out
}

/// The strategy that applies a unified diff by locating each hunk from its
/// content. The confidence bar is never below 0.8 on the scale.
#[derive(Debug)]
pub struct NewUnifiedDiffStrategy {
    pub confidence_threshold: u32,
}

impl NewUnifiedDiffStrategy {
    /// A strategy with the given bar (the full scale when not given),
    /// floored at 0.8.
    pub fn new(confidence_threshold: Option<u32>) -> (r: Self)
        ensures
            r.confidence_threshold == match confidence_threshold {
                Some(t) => if t >= 800 {
                    t as int
                } else {
                    800
                },
                None => CONFIDENCE_SCALE as int,
            },
            r.confidence_threshold >= 800,
    {
        let t = match confidence_threshold {
            Some(t) => if t >= 800 {
                t
            } else {
                800
            },
            None => CONFIDENCE_SCALE,
        };
        NewUnifiedDiffStrategy { confidence_threshold: t }
    }

    /// The usage text shown to the model for this strategy.
    pub fn get_tool_description(&self, args: &crate::prompts::ToolArgs) -> (r: String)
        ensures
            r@ == "# apply_diff Tool - Generate Precise Code Changes\n\nGenerate a unified diff that can be cleanly applied to modify code files.\n\n## Step-by-Step Instructions:\n\n1. Start with file headers:\n   - First line: \"--- {original_file_path}\"\n   - Second line: \"+++ {new_file_path}\"\n\n2. For each change section:\n   - Begin with \"@@ ... @@\" separator line without line numbers\n   - Include 2-3 lines of context before and after changes\n   - Mark removed lines with \"-\"\n   - Mark added lines with \"+\"\n   - Preserve exact indentation\n\n3. Group related changes:\n   - Keep related modifications in the same hunk\n   - Start new hunks for logically separate changes\n   - When modifying functions/methods, include the entire block\n\n## Requirements:\n\n1. MUST include exact indentation\n2. MUST include sufficient context for unique matching\n3. MUST group related changes together\n4. MUST use proper unified diff format\n5. MUST NOT include timestamps in file headers\n6. MUST NOT include line numbers in the @@ header\n\nParameters:\n- path: (required) File path relative to "@
                + args.cwd@
                + "\n- diff: (required) Unified diff content in unified format to apply to the file."@,
    {
        String::from_str(
            "# apply_diff Tool - Generate Precise Code Changes\n\nGenerate a unified diff that can be cleanly applied to modify code files.\n\n## Step-by-Step Instructions:\n\n1. Start with file headers:\n   - First line: \"--- {original_file_path}\"\n   - Second line: \"+++ {new_file_path}\"\n\n2. For each change section:\n   - Begin with \"@@ ... @@\" separator line without line numbers\n   - Include 2-3 lines of context before and after changes\n   - Mark removed lines with \"-\"\n   - Mark added lines with \"+\"\n   - Preserve exact indentation\n\n3. Group related changes:\n   - Keep related modifications in the same hunk\n   - Start new hunks for logically separate changes\n   - When modifying functions/methods, include the entire block\n\n## Requirements:\n\n1. MUST include exact indentation\n2. MUST include sufficient context for unique matching\n3. MUST group related changes together\n4. MUST use proper unified diff format\n5. MUST NOT include timestamps in file headers\n6. MUST NOT include line numbers in the @@ header\n\nParameters:\n- path: (required) File path relative to ",
        ).concat(args.cwd.as_str()).concat(
            "\n- diff: (required) Unified diff content in unified format to apply to the file.",
        )
    }

    /// Parse a unified-diff body: everything before the first `@@` marker
    /// is ignored, each `@@` starts a hunk, and lines become changes by
    /// their leading marker. Hunks that carry no edit are discarded; each
    /// kept hunk is trimmed to the bounded context around its edits.
    pub fn parse_unified_diff(&self, diff: &str) -> (r: Diff)
        ensures
            forall|i: int| 0 <= i < r.hunks@.len() ==> hunk_wf((#[trigger] r.hunks@[i]).changes@),
            r.hunks@.len() > 0 <==> diff_has_hunks(diff@),
            hunk_views(r.hunks@) == parsed_hunk_views(diff@),
    {
        let lines = split_lines(diff);
        let ghost lsv = views_of(lines@);
        let mut hunks: Vec<Hunk> = Vec::new();
        let mut cur: Vec<Change> = Vec::new();
        let mut in_hunk: bool = false;
        let mut cur_has_edit: bool = false;
        let n = lines.len();
        let mut i: usize = 0;
        proof {
            assert(changes_views(cur@) =~= Seq::<ChangeView>::empty());
            assert(hunk_views(hunks@) =~= Seq::<Seq<ChangeView>>::empty());
        }
        while i < n && !starts_with_2(&lines[i], '@', '@')
            invariant
                0 <= i <= n,
                n == lines@.len(),
                lsv == views_of(lines@),
                lsv == split_lines_seq(diff@),
                forall|j: int| 0 <= j < i ==> !starts_hunk_marker(#[trigger] lsv[j]),
                parsed_hunk_views(diff@) == parse_rec(
                    lsv,
                    i as int,
                    false,
                    Seq::empty(),
                    Seq::empty(),
                ),
            decreases n - i,
        {
            proof {
                assert(lsv[i as int] == lines@[i as int]@);
            }
            i = i + 1;
        }
        while i < n
            invariant
                0 <= i <= n,
                n == lines@.len(),
                lsv == views_of(lines@),
                lsv == split_lines_seq(diff@),
                cur_has_edit ==> has_edit(cur@),
                cur_has_edit ==> in_hunk,
                forall|j: int| 0 <= j < cur@.len() ==> parsed_change_wf(#[trigger] cur@[j]),
                forall|j: int| 0 <= j < hunks@.len() ==> hunk_wf((#[trigger] hunks@[j]).changes@),
                cur_has_edit == has_edit(cur@),
                parsed_hunk_views(diff@) == parse_rec(
                    lsv,
                    i as int,
                    in_hunk,
                    changes_views(cur@),
                    hunk_views(hunks@),
                ),
                in_hunk <==> exists|i0: int|
                    0 <= i0 < i && starts_hunk_marker(#[trigger] lsv[i0]),
                (hunks@.len() > 0 || cur_has_edit) <==> exists|i0: int, j0: int|
                    0 <= i0 < j0 < i && starts_hunk_marker(#[trigger] lsv[i0])
                        && is_edit_marker_line(#[trigger] lsv[j0]),
            decreases n - i,
        {
            proof {
                assert(lsv[i as int] == lines@[i as int]@);
            }
            let ghost old_in_hunk = in_hunk;
            let ghost old_cvs = changes_views(cur@);
            let ghost old_hv = hunk_views(hunks@);
            if starts_with_2(&lines[i], '@', '@') {
                proof {
                    lemma_has_edit_views(cur@);
                }
                if in_hunk && cur_has_edit {
                    let trimmed = trim_hunk(&cur);
                    proof {
                        assert forall|j: int|
                            0 <= j < trimmed@.len() implies parsed_change_wf(
                            #[trigger] trimmed@[j],
                        ) by {
                            let w = choose|w: int|
                                0 <= w < cur@.len() && trimmed@[j] == cur@[w];
                        }
                    }
                    let ghost prevh = hunks@;
                    hunks.push(Hunk { changes: trimmed });
                    proof {
                        assert(forall|j: int|
                            0 <= j < prevh.len() ==> #[trigger] hunks@[j] == prevh[j]);
                        assert(hunk_wf(hunks@[hunks@.len() - 1].changes@));
                        assert(hunk_views(hunks@) =~= old_hv.push(trim_v(old_cvs)));
                    }
                }
                cur = Vec::new();
                in_hunk = true;
                cur_has_edit = false;
                proof {
                    assert(starts_hunk_marker(lsv[i as int]));
                    assert(!is_edit_marker_line(lsv[i as int]));
                    assert(changes_views(cur@) =~= Seq::<ChangeView>::empty());
                    // the marker step of the line pass
                    assert(parse_rec(lsv, i as int, old_in_hunk, old_cvs, old_hv) == parse_rec(
                        lsv,
                        i + 1,
                        true,
                        Seq::empty(),
                        if old_in_hunk && has_edit_v(old_cvs) {
                            old_hv.push(trim_v(old_cvs))
                        } else {
                            old_hv
                        },
                    ));
                    if !(old_in_hunk && has_edit_v(old_cvs)) {
                        assert(hunk_views(hunks@) == old_hv);
                    }
                }
            } else if in_hunk {
                let c = parse_change_line(&lines[i]);
                let ghost prev = cur@;
                let edit = match c.change_type {
                    ChangeType::Context => false,
                    _ => true,
                };
                proof {
                    if edit {
                        assert(is_edit(c));
                    }
                    assert(edit == is_edit_marker_line(lsv[i as int]));
                }
                cur.push(c);
                proof {
                    assert(forall|j: int| 0 <= j < prev.len() ==> #[trigger] cur@[j] == prev[j]);
                    if cur_has_edit {
                        let w = choose|j: int| 0 <= j < prev.len() && is_edit(prev[j]);
                        assert(cur@[w] == prev[w]);
                        assert(has_edit(cur@));
                    }
                    if edit {
                        assert(is_edit(cur@[cur@.len() - 1]));
                        assert(has_edit(cur@));
                        let i0 = choose|i0: int|
                            0 <= i0 < i && starts_hunk_marker(#[trigger] lsv[i0]);
                        assert(starts_hunk_marker(lsv[i0]) && is_edit_marker_line(lsv[i as int]));
                    }
                    if !cur_has_edit && !edit && has_edit(cur@) {
                        let w = choose|j: int| 0 <= j < cur@.len() && is_edit(cur@[j]);
                        assert(w < prev.len());
                        assert(prev[w] == cur@[w]);
                    }
                    // the body-line step of the line pass
                    assert(changes_views(cur@) =~= old_cvs.push(change_view_of_line(lsv[i as int])));
                    assert(parse_rec(lsv, i as int, old_in_hunk, old_cvs, old_hv) == parse_rec(
                        lsv,
                        i + 1,
                        true,
                        old_cvs.push(change_view_of_line(lsv[i as int])),
                        old_hv,
                    ));
                }
                cur_has_edit = cur_has_edit || edit;
            } else {
                proof {
                    assert(!starts_hunk_marker(lsv[i as int]));
                    // without a hunk marker seen, no pair can end at this line
                    if is_edit_marker_line(lsv[i as int]) {
                        assert(!in_hunk);
                    }
                }
            }
            i = i + 1;
        }
        proof {
            lemma_has_edit_views(cur@);
        }
        let ghost end_cvs = changes_views(cur@);
        let ghost end_hv = hunk_views(hunks@);
        if in_hunk && cur_has_edit {
            let trimmed = trim_hunk(&cur);
            proof {
                assert forall|j: int| 0 <= j < trimmed@.len() implies parsed_change_wf(
                    #[trigger] trimmed@[j],
                ) by {
                    let w = choose|w: int| 0 <= w < cur@.len() && trimmed@[j] == cur@[w];
                }
            }
            let ghost prevh = hunks@;
            hunks.push(Hunk { changes: trimmed });
            proof {
                assert(forall|j: int| 0 <= j < prevh.len() ==> #[trigger] hunks@[j] == prevh[j]);
                assert(hunk_wf(hunks@[hunks@.len() - 1].changes@));
                assert(hunk_views(hunks@) =~= end_hv.push(trim_v(end_cvs)));
            }
        }
        proof {
            if !(in_hunk && has_edit_v(end_cvs)) {
                assert(hunk_views(hunks@) == end_hv);
            }
        }
        Diff { hunks }
    }

    /// Decompose a hunk into sub-hunks, each keeping at most
    /// `SPLIT_CONTEXT_LINES` context lines before its first and after its
    /// last edit. The added and removed changes, chained over the
    /// sub-hunks in order, are exactly those of the hunk, and every
    /// sub-hunk carries an edit.
    pub fn split_hunk(&self, hunk: &Hunk) -> (r: Vec<Hunk>)
        ensures
            concat_hunk_edits(r@) == edits_of(hunk.changes@),
            forall|i: int| 0 <= i < r@.len() ==> has_edit((#[trigger] r@[i]).changes@),
            forall|i: int|
                0 <= i < r@.len() ==> leading_context_count((#[trigger] r@[i]).changes@)
                    <= SPLIT_CONTEXT_LINES && trailing_context_count(r@[i].changes@)
                    <= SPLIT_CONTEXT_LINES,
            all_edits(hunk.changes@) && hunk.changes@.len() > 0 ==> r@.len() == 1
                && r@[0].changes@ == hunk.changes@,
    {
        let cs = &hunk.changes;
        let mut result: Vec<Hunk> = Vec::new();
        let mut active: bool = false;
        let mut cur: Vec<Change> = Vec::new();
        let mut context_before: Vec<Change> = Vec::new();
        let mut context_after: Vec<Change> = Vec::new();
        let mut i: usize = 0;
        let ghost mut cur_lead: int = 0;
        proof {
            assert(cs@.skip(0) =~= cs@);
            assert(edits_of(cs@) =~= Seq::<Change>::empty() + edits_of(cs@));
            assert(concat_hunk_edits(result@) =~= Seq::<Change>::empty());
        }
        while i < cs.len()
            invariant
                0 <= i <= cs@.len(),
                all_context(context_before@),
                all_context(context_after@),
                context_before@.len() <= SPLIT_CONTEXT_LINES,
                context_after@.len() <= SPLIT_CONTEXT_LINES,
                !active ==> context_after@.len() == 0,
                !active ==> cur@.len() == 0,
                active ==> has_edit(cur@),
                active ==> 0 <= cur_lead <= SPLIT_CONTEXT_LINES && cur_lead < cur@.len() && (
                forall|j: int|
                    0 <= j < cur_lead ==> (#[trigger] cur@[j]).change_type is Context) && !(
                cur@[cur_lead].change_type is Context) && is_edit(cur@.last()),
                forall|j: int| 0 <= j < result@.len() ==> has_edit((#[trigger] result@[j]).changes@),
                forall|j: int|
                    0 <= j < result@.len() ==> leading_context_count(
                        (#[trigger] result@[j]).changes@,
                    ) <= SPLIT_CONTEXT_LINES && trailing_context_count(result@[j].changes@)
                        <= SPLIT_CONTEXT_LINES,
                edits_of(cs@) == concat_hunk_edits(result@) + edits_of(cur@) + edits_of(
                    cs@.skip(i as int),
                ),
                all_edits(cs@) ==> (context_before@.len() == 0 && context_after@.len() == 0
                    && result@.len() == 0 && (active <==> i > 0) && cur@ == cs@.take(i as int)),
            decreases cs@.len() - i,
        {
            let ghost rest = cs@.skip(i as int);
            proof {
                assert(rest[0] == cs@[i as int]);
                assert(rest.drop_first() =~= cs@.skip(i + 1));
                if is_edit(cs@[i as int]) {
                    assert(edits_of(rest) == seq![cs@[i as int]] + edits_of(cs@.skip(i + 1)));
                } else {
                    assert(edits_of(rest) == Seq::<Change>::empty() + edits_of(cs@.skip(i + 1)));
                    assert(Seq::<Change>::empty() + edits_of(cs@.skip(i + 1)) =~= edits_of(
                        cs@.skip(i + 1),
                    ));
                }
            }
            let c = &cs[i];
            match c.change_type {
                ChangeType::Context => {
                    if !active {
                        let ghost prevb = context_before@;
                        context_before.push(c.duplicate());
                        proof {
                            assert(forall|j: int|
                                0 <= j < prevb.len() ==> context_before@[j] == prevb[j]);
                            assert(all_context(context_before@));
                        }
                        if context_before.len() > SPLIT_CONTEXT_LINES {
                            let ghost prevc = context_before@;
                            let _ = context_before.remove(0);
                            proof {
                                assert(forall|j: int|
                                    0 <= j < context_before@.len() ==> context_before@[j] == prevc[j
                                        + 1]);
                                assert(all_context(context_before@));
                            }
                        }
                    } else {
                        let ghost preva = context_after@;
                        context_after.push(c.duplicate());
                        proof {
                            assert(forall|j: int|
                                0 <= j < preva.len() ==> context_after@[j] == preva[j]);
                            assert(all_context(context_after@));
                        }
                        if context_after.len() > SPLIT_CONTEXT_LINES {
                            // flush: the sub-hunk takes the bounded
                            // trailing context
                            let ghost curv = cur@;
                            let ghost aftv = context_after@;
                            let mut flushed = cur;
                            let mut t: usize = 0;
                            while t < SPLIT_CONTEXT_LINES
                                invariant
                                    0 <= t <= SPLIT_CONTEXT_LINES < context_after@.len(),
                                    context_after@ == aftv,
                                    flushed@ == curv + aftv.take(t as int),
                                decreases SPLIT_CONTEXT_LINES - t,
                            {
                                let ghost prevf = flushed@;
                                flushed.push(context_after[t].duplicate());
                                proof {
                                    assert(flushed@ =~= curv + aftv.take(t + 1));
                                }
                                t = t + 1;
                            }
                            proof {
                                assert(all_context(aftv.take(SPLIT_CONTEXT_LINES as int))) by {
                                    assert(forall|j: int|
                                        0 <= j < SPLIT_CONTEXT_LINES ==> #[trigger] aftv.take(
                                            SPLIT_CONTEXT_LINES as int,
                                        )[j] == aftv[j]);
                                }
                                lemma_edits_concat(curv, aftv.take(SPLIT_CONTEXT_LINES as int));
                                lemma_all_context_no_edits(aftv.take(SPLIT_CONTEXT_LINES as int));
                                assert(edits_of(flushed@) =~= edits_of(curv));
                            }
                            let ghost prevres = result@;
                            let ghost fl = flushed@;
                            result.push(Hunk { changes: flushed });
                            proof {
                                lemma_concat_hunk_push(prevres, Hunk { changes: flushed });
                                assert(result@ == prevres.push(result@.last()));
                                assert(result@.last().changes@ == fl);
                                assert(concat_hunk_edits(result@) == concat_hunk_edits(prevres)
                                    + edits_of(fl));
                                assert(has_edit(fl)) by {
                                    let w = choose|j: int| 0 <= j < curv.len() && is_edit(curv[j]);
                                    assert(fl[w] == curv[w]);
                                }
                                assert(forall|j: int|
                                    0 <= j < prevres.len() ==> result@[j] == prevres[j]);
                                // bounded context on both sides of the
                                // flushed sub-hunk
                                assert(forall|j: int| 0 <= j < curv.len() ==> fl[j] == curv[j]);
                                assert(forall|j: int|
                                    curv.len() <= j < fl.len() ==> fl[j] == aftv[j - curv.len()]);
                                assert(!(fl[cur_lead].change_type is Context));
                                lemma_leading_context_at(fl, cur_lead);
                                assert(is_edit(curv.last()));
                                assert(!(fl[curv.len() - 1].change_type is Context));
                                lemma_trailing_context_at(fl, curv.len() - 1);
                                assert(trailing_context_count(fl) == SPLIT_CONTEXT_LINES);
                            }
                            // the last context lines seen open the next
                            // window
                            context_before = Vec::new();
                            let mut t2: usize = 1;
                            while t2 < context_after.len()
                                invariant
                                    1 <= t2 <= context_after@.len(),
                                    context_after@ == aftv,
                                    all_context(aftv),
                                    context_before@.len() == t2 - 1,
                                    forall|j: int|
                                        0 <= j < t2 - 1 ==> context_before@[j] == aftv[j + 1],
                                decreases context_after@.len() - t2,
                            {
                                context_before.push(context_after[t2].duplicate());
                                t2 = t2 + 1;
                            }
                            proof {
                                assert(context_before@ =~= aftv.skip(1));
                                assert(all_context(context_before@));
                                assert(context_before@.len() == aftv.len() - 1);
                            }
                            context_after = Vec::new();
                            cur = Vec::new();
                            active = false;
                            proof {
                                assert(edits_of(cur@) =~= Seq::<Change>::empty());
                                assert(concat_hunk_edits(result@) + edits_of(cur@) =~=
                                    concat_hunk_edits(result@));
                                assert(concat_hunk_edits(prevres) + edits_of(curv) =~=
                                    concat_hunk_edits(prevres) + (edits_of(curv) + edits_of(cur@)));
                            }
                        }
                    }
                    proof {
                        assert(edits_of(cur@) + edits_of(cs@.skip(i as int)) =~= edits_of(cur@)
                            + edits_of(cs@.skip(i + 1)));
                    }
                },
                _ => {
                    if !active {
                        let ghost ctxb = context_before@;
                        cur = Vec::new();
                        let mut t3: usize = 0;
                        while t3 < context_before.len()
                            invariant
                                0 <= t3 <= context_before@.len(),
                                context_before@ == ctxb,
                                cur@.len() == t3,
                                forall|j: int| 0 <= j < t3 ==> cur@[j] == ctxb[j],
                            decreases context_before@.len() - t3,
                        {
                            cur.push(context_before[t3].duplicate());
                            t3 = t3 + 1;
                        }
                        proof {
                            assert(cur@ =~= ctxb);
                            lemma_all_context_no_edits(ctxb);
                            cur_lead = ctxb.len() as int;
                        }
                        active = true;
                        context_after = Vec::new();
                    } else if context_after.len() > 0 {
                        let ghost curv = cur@;
                        let ghost aftv = context_after@;
                        let mut t4: usize = 0;
                        while t4 < context_after.len()
                            invariant
                                0 <= t4 <= context_after@.len(),
                                context_after@ == aftv,
                                cur@ == curv + aftv.take(t4 as int),
                            decreases context_after@.len() - t4,
                        {
                            cur.push(context_after[t4].duplicate());
                            proof {
                                assert(cur@ =~= curv + aftv.take(t4 + 1));
                            }
                            t4 = t4 + 1;
                        }
                        proof {
                            assert(aftv.take(aftv.len() as int) =~= aftv);
                            lemma_edits_concat(curv, aftv);
                            lemma_all_context_no_edits(aftv);
                            assert(edits_of(cur@) =~= edits_of(curv));
                            assert(has_edit(cur@)) by {
                                let w = choose|j: int| 0 <= j < curv.len() && is_edit(curv[j]);
                                assert(cur@[w] == curv[w]);
                            }
                        }
                        context_after = Vec::new();
                    }
                    let ghost curv2 = cur@;
                    cur.push(cs[i].duplicate());
                    proof {
                        lemma_edits_push(curv2, cs@[i as int]);
                        assert(is_edit(cs@[i as int]));
                        assert(is_edit(cur@[cur@.len() - 1]));
                        assert(has_edit(cur@));
                        assert(concat_hunk_edits(result@) + edits_of(curv2) + (seq![cs@[i as int]]
                            + edits_of(cs@.skip(i + 1))) =~= concat_hunk_edits(result@) + edits_of(
                            cur@,
                        ) + edits_of(cs@.skip(i + 1)));
                    }
                },
            }
            i = i + 1;
        }
        proof {
            assert(cs@.skip(cs@.len() as int) =~= Seq::<Change>::empty());
        }
        if active {
            let ghost curv = cur@;
            let ghost aftv = context_after@;
            let mut t5: usize = 0;
            while t5 < context_after.len()
                invariant
                    0 <= t5 <= context_after@.len(),
                    context_after@ == aftv,
                    cur@ == curv + aftv.take(t5 as int),
                decreases context_after@.len() - t5,
            {
                cur.push(context_after[t5].duplicate());
                proof {
                    assert(cur@ =~= curv + aftv.take(t5 + 1));
                }
                t5 = t5 + 1;
            }
            proof {
                assert(aftv.take(aftv.len() as int) =~= aftv);
                lemma_edits_concat(curv, aftv);
                lemma_all_context_no_edits(aftv);
                assert(edits_of(cur@) =~= edits_of(curv));
            }
            let ghost prevres = result@;
            let ghost fl = cur@;
            result.push(Hunk { changes: cur });
            proof {
                lemma_concat_hunk_push(prevres, Hunk { changes: result@.last().changes });
                assert(result@ == prevres.push(result@.last()));
                assert(concat_hunk_edits(result@) == concat_hunk_edits(prevres) + edits_of(fl));
                assert(has_edit(fl)) by {
                    let w = choose|j: int| 0 <= j < curv.len() && is_edit(curv[j]);
                    assert(fl[w] == curv[w]);
                }
                assert(forall|j: int| 0 <= j < prevres.len() ==> result@[j] == prevres[j]);
                assert(edits_of(Seq::<Change>::empty()) =~= Seq::<Change>::empty());
                assert(concat_hunk_edits(prevres) + edits_of(fl) + Seq::<Change>::empty() =~=
                    concat_hunk_edits(prevres) + edits_of(fl));
                // bounded context on both sides of the last sub-hunk
                assert(forall|j: int| 0 <= j < curv.len() ==> fl[j] == curv[j]);
                assert(forall|j: int|
                    curv.len() <= j < fl.len() ==> fl[j] == aftv[j - curv.len()]);
                assert(!(fl[cur_lead].change_type is Context));
                lemma_leading_context_at(fl, cur_lead);
                assert(is_edit(curv.last()));
                assert(!(fl[curv.len() - 1].change_type is Context));
                lemma_trailing_context_at(fl, curv.len() - 1);
                assert(trailing_context_count(fl) == aftv.len());
            }
        }
        proof {
            if !active {
                assert(edits_of(cur@) =~= Seq::<Change>::empty());
                assert(concat_hunk_edits(result@) + Seq::<Change>::empty() + Seq::<
                    Change,
                >::empty() =~= concat_hunk_edits(result@));
            }
            assert(concat_hunk_edits(result@) + edits_of(Seq::<Change>::empty()) =~=
                concat_hunk_edits(result@));
        }
        result
    }

    /// The diagnostic for a hunk whose location could not be found with
    /// sufficient confidence, even after splitting.
    fn search_failure_message(
        &self,
        confidence: u32,
        strategy: &String,
        context_lines: usize,
        total_lines: usize,
        sub_hunk_count: usize,
        start_line: Option<usize>,
        end_line: Option<usize>,
    ) -> (r: String)
        requires
            1 <= total_lines,
            context_lines <= total_lines,
            confidence <= CONFIDENCE_SCALE,
        ensures
            r@ == msg_search_failure(
                confidence as nat,
                self.confidence_threshold as nat,
                strategy@,
                context_lines as nat,
                total_lines as nat,
                sub_hunk_count as nat,
                start_line,
                end_line,
            ),
            r@.len() > 0 && r@[0] == 'F',
    {
        proof {
            reveal_strlit("Failed to find a matching location in the file (");
        }
        let mut msg = String::from_str("Failed to find a matching location in the file (");
        msg.append(udec((confidence / 10) as u64).as_str());
        msg.append("% confidence, needs ");
        msg.append(udec((self.confidence_threshold / 10) as u64).as_str());
        msg.append("%)\n\nDebug Info:\n- Search Strategy Used: ");
        msg.append(strategy.as_str());
        msg.append("\n- Context Lines: ");
        msg.append(udec(context_lines as u64).as_str());
        msg.append(" out of ");
        msg.append(udec(total_lines as u64).as_str());
        msg.append(" total lines (");
        let pct128: u128 = (context_lines as u128) * 100 / (total_lines as u128);
        proof {
            let c = context_lines as int;
            let t = total_lines as int;
            assert(c * 100 <= t * 100) by (nonlinear_arith)
                requires
                    0 <= c <= t,
            ;
            assert((c * 100) / t <= 100) by (nonlinear_arith)
                requires
                    t >= 1,
                    c * 100 <= t * 100,
            ;
        }
        let pct: u64 = pct128 as u64;
        msg.append(udec(pct).as_str());
        msg.append("%)\n- Attempted to split into ");
        msg.append(udec(sub_hunk_count as u64).as_str());
        msg.append(" sub-hunks but still failed\n");
        let c5: u128 = (context_lines as u128) * 5;
        let c2: u128 = (context_lines as u128) * 2;
        if c5 < (total_lines as u128) {
            msg.append(
                "\nPossible Issues:\n- Not enough context lines to uniquely identify the location\n- Add a few more lines of unchanged code around your changes\n",
            );
        } else if c2 > (total_lines as u128) {
            msg.append(
                "\nPossible Issues:\n- Too many context lines may reduce search accuracy\n- Try to keep only 2-3 lines of context before and after changes\n",
            );
        } else {
            msg.append(
                "\nPossible Issues:\n- The diff may be targeting a different version of the file\n- There may be too many changes in a single hunk, try splitting the changes into multiple hunks\n",
            );
        }
        match (start_line, end_line) {
            (Some(s), Some(e)) => {
                msg.append("\nSearch Range: lines ");
                msg.append(udec(s as u64).as_str());
                msg.append("-");
                msg.append(udec(e as u64).as_str());
                msg.append("\n");
            },
            _ => {},
        }
        proof {
            assert(pct as nat == ((context_lines as nat) * 100) / (total_lines as nat));
            assert(msg@ =~= msg_search_failure(
                confidence as nat,
                self.confidence_threshold as nat,
                strategy@,
                context_lines as nat,
                total_lines as nat,
                sub_hunk_count as nat,
                start_line,
                end_line,
            ));
        }
        msg
    }

    /// The diagnostic for a hunk that was located but whose reconstruction
    /// did not reach the bar.
    fn edit_failure_message(&self, strategy: &String, confidence: u32) -> (r: String)
        requires
            confidence <= CONFIDENCE_SCALE,
        ensures
            r@ == msg_edit_failure(strategy@, confidence as nat),
            r@.len() > 0 && r@[0] == 'F',
    {
        proof {
            reveal_strlit("Failed to apply the edit using ");
        }
        let mut msg = String::from_str("Failed to apply the edit using ");
        msg.append(strategy.as_str());
        msg.append(" strategy (");
        msg.append(udec((confidence / 10) as u64).as_str());
        msg.append(
            "% confidence)\n\nDebug Info:\n- The location was found but the content didn't match exactly\n- This usually means the file has been modified since the diff was created\n- Or the diff may be targeting a different version of the file\n\nPossible Solutions:\n1. Refresh your view of the file and create a new diff\n2. Double-check that the removed lines (-) match the current file content\n3. Ensure your diff targets the correct version of the file",
        );
        proof {
            assert(msg@ =~= msg_edit_failure(strategy@, confidence as nat));
        }
        msg
    }

    /// How many of the hunk's changes are context lines.
    fn count_context(hunk: &Hunk) -> (r: usize)
        ensures
            r <= hunk.changes@.len(),
            r as int == context_count(hunk.changes@),
    {
        let ghost cs = hunk.changes@;
        let mut c: usize = 0;
        let mut i: usize = 0;
        proof {
            assert(cs.skip(0) =~= cs);
        }
        while i < hunk.changes.len()
            invariant
                0 <= i <= hunk.changes@.len(),
                cs == hunk.changes@,
                c <= i,
                context_count(cs) == c + context_count(cs.skip(i as int)),
            decreases hunk.changes@.len() - i,
        {
            proof {
                assert(cs.skip(i as int)[0] == cs[i as int]);
                assert(cs.skip(i as int).drop_first() =~= cs.skip(i + 1));
            }
            match hunk.changes[i].change_type {
                ChangeType::Context => {
                    c = c + 1;
                },
                _ => {},
            }
            i = i + 1;
        }
        proof {
            assert(cs.skip(cs.len() as int) =~= Seq::<Change>::empty());
        }
        c
    }

    /// Apply each sub-hunk in turn against the progressively edited lines;
    /// all must clear the bar for the chain to succeed.
    /// Locate one hunk and reconstruct through the escalation policy,
    /// without splitting; nothing when either half misses the bar. A
    /// pristine hunk standing verbatim is owed the splice.
    fn apply_one<M: MergeBackend>(&self, backend: &M, hunk: &Hunk, content: &Vec<String>) -> (r:
        Option<Vec<String>>)
        ensures
            pristine_applicable(
                hunk.changes@,
                views_of(content@),
                self.confidence_threshold as int,
            ) ==> (r matches Some(lines) && pristine_splices(
                hunk.changes@,
                views_of(content@),
                views_of(lines@),
            )),
            (self.confidence_threshold >= 1 && all_windows_below(
                hunk.changes@,
                views_of(content@),
                self.confidence_threshold as int,
            )) ==> r is None,
    {
        let ghost cs = hunk.changes@;
        let ghost cv = views_of(content@);
        let ghost thr = self.confidence_threshold as int;
        let ghost applicable = pristine_applicable(cs, cv, thr);
        let context_str = prepare_search_string(&hunk.changes);
        proof {
            if applicable {
                let p0 = choose|p: int| lines_eq_at(cv, pre_image_lines(cs), p);
                lemma_pristine_hunk_applies(cs, cv, p0, thr);
                lemma_pristine_line_readings(cs);
                assert(clean_exact_present(context_str@, cv, thr, 0));
            }
        }
        let search_result = find_best_match(
            context_str.as_str(),
            content,
            0,
            self.confidence_threshold,
        );
        proof {
            if applicable {
                // the verbatim pre-image is found at full confidence; its
                // window reads back as the pre-image lines themselves
                assert(search_result.confidence == CONFIDENCE_SCALE);
                let idx = search_result.index as int;
                let pre = pre_image_lines(cs);
                lemma_split_join_id(pre);
                assert(split_lines_seq(context_str@) == pre);
                let k = pre.len() as int;
                let matched = join_nl(cv.subrange(idx, idx + k));
                assert(located_conf(context_str@, cv, idx, thr) == CONFIDENCE_SCALE);
                crate::distance::lemma_sim_bounds(context_str@, matched);
                assert(crate::distance::sim_milli_capped(context_str@, matched)
                    == CONFIDENCE_SCALE);
                assert(context_str@.len() < usize::MAX && matched.len() < usize::MAX);
                lemma_sim_full_iff_eq(context_str@, matched);
                assert(matched == context_str@);
                assert forall|j: int|
                    0 <= j < cv.subrange(idx, idx + k).len() implies no_nl(
                    #[trigger] cv.subrange(idx, idx + k)[j],
                ) by {
                    assert(cv.subrange(idx, idx + k)[j] == cv[idx + j]);
                }
                lemma_join_nl_injective(cv.subrange(idx, idx + k), pre);
                assert(lines_eq_at(cv, pre, idx));
                lemma_pristine_hunk_applies(cs, cv, idx, thr);
            }
        }
        proof {
            if self.confidence_threshold >= 1 && all_windows_below(cs, cv, thr) {
                // every candidate falls short, so the find cannot clear
                // the bar
                if search_result.index != -1 {
                    assert(located_conf(context_str@, cv, search_result.index as int, thr) < thr);
                }
            }
        }
        if search_result.confidence >= self.confidence_threshold {
            let edit_result = apply_edit(
                backend,
                hunk,
                content,
                search_result.index,
                search_result.confidence,
                Some(self.confidence_threshold),
            );
            proof {
                if applicable {
                    let idx = search_result.index as int;
                    let pre = pre_image_lines(cs);
                    assert(views_of(edit_result.result@) == cv.subrange(0, idx) + region_lines(
                        cs,
                        cv,
                        idx,
                    ) + cv.subrange(
                        crate::search::min_int(cursor_after(cs, idx), cv.len() as int),
                        cv.len() as int,
                    ));
                    assert(cursor_after(cs, idx) == idx + pre.len());
                    assert(crate::search::min_int(cursor_after(cs, idx), cv.len() as int) == idx
                        + pre.len());
                    assert(pristine_splices(cs, cv, views_of(edit_result.result@)));
                    assert(edit_result.confidence as int == CONFIDENCE_SCALE);
                }
            }
            if edit_result.confidence >= self.confidence_threshold {
                return Some(edit_result.result);
            }
        }
        None
    }

    /// Apply each sub-hunk in turn against the progressively edited lines;
    /// all must clear the bar for the chain to succeed. Where every
    /// sub-hunk is owed success in sequence, the chain is, and its result
    /// is one of the chained splices.
    pub fn apply_sub_hunks<M: MergeBackend>(
        &self,
        backend: &M,
        sub_hunks: &Vec<Hunk>,
        content: &Vec<String>,
    ) -> (r: Option<Vec<String>>)
        ensures
            chain_applies(
                sub_hunks@,
                views_of(content@),
                self.confidence_threshold as int,
            ) ==> (r matches Some(lines) && chain_result(
                sub_hunks@,
                views_of(content@),
                views_of(lines@),
            )),
            (self.confidence_threshold >= 1 && sub_hunks@.len() > 0 && all_windows_below(
                sub_hunks@[0].changes@,
                views_of(content@),
                self.confidence_threshold as int,
            )) ==> r is None,
    {
        let ghost hsv = sub_hunks@;
        let ghost cv0 = views_of(content@);
        let ghost thr = self.confidence_threshold as int;
        let mut result = clone_range(content, 0, content.len());
        let mut i: usize = 0;
        proof {
            assert(views_of(content@).subrange(0, content@.len() as int) =~= views_of(content@));
            assert(hsv.skip(0) =~= hsv);
            assert(hsv.take(0) =~= Seq::<Hunk>::empty());
        }
        while i < sub_hunks.len()
            invariant
                0 <= i <= sub_hunks@.len(),
                sub_hunks@ == hsv,
                cv0 == views_of(content@),
                thr == self.confidence_threshold as int,
                i == 0 ==> views_of(result@) == cv0,
                (self.confidence_threshold >= 1 && hsv.len() > 0 && all_windows_below(
                    hsv[0].changes@,
                    cv0,
                    thr,
                )) ==> i == 0,
                chain_applies(hsv, cv0, thr) ==> chain_result(
                    hsv.take(i as int),
                    cv0,
                    views_of(result@),
                ),
                chain_applies(hsv, cv0, thr) ==> chain_applies(
                    hsv.skip(i as int),
                    views_of(result@),
                    thr,
                ),
            decreases sub_hunks@.len() - i,
        {
            let ghost curv = views_of(result@);
            match self.apply_one(backend, &sub_hunks[i], &result) {
                Some(lines) => {
                    proof {
                        if chain_applies(hsv, cv0, thr) {
                            assert(chain_applies(hsv.skip(i as int), curv, thr));
                            assert(hsv.skip(i as int)[0] == hsv[i as int]);
                            assert(hsv.skip(i as int).drop_first() =~= hsv.skip(i + 1));
                            assert(pristine_applicable(hsv[i as int].changes@, curv, thr));
                            assert(pristine_splices(
                                hsv[i as int].changes@,
                                curv,
                                views_of(lines@),
                            ));
                            assert(chain_applies(hsv.skip(i + 1), views_of(lines@), thr));
                            lemma_chain_result_push(
                                hsv.take(i as int),
                                hsv[i as int],
                                cv0,
                                curv,
                                views_of(lines@),
                            );
                            assert(hsv.take(i as int).push(hsv[i as int]) =~= hsv.take(i + 1));
                        }
                    }
                    result = lines;
                },
                None => {
                    proof {
                        if chain_applies(hsv, cv0, thr) {
                            assert(chain_applies(hsv.skip(i as int), curv, thr));
                            assert(hsv.skip(i as int)[0] == hsv[i as int]);
                            assert(pristine_applicable(hsv[i as int].changes@, curv, thr));
                            assert(false);
                        }
                    }
                    return None;
                },
            }
            i = i + 1;
        }
        proof {
            assert(hsv.take(hsv.len() as int) =~= hsv);
        }
        Some(result)
    }

    /// Apply one hunk to the lines: locate it, reconstruct through the
    /// escalation policy, and when the whole hunk cannot be located with
    /// sufficient confidence, fall back to locating its sub-hunks
    /// independently. A failure carries the full diagnostic. A pristine
    /// hunk whose pre-image stands verbatim in newline-free lines is owed
    /// success.
    pub fn apply_hunk<M: MergeBackend>(
        &self,
        backend: &M,
        hunk: &Hunk,
        content: &Vec<String>,
        start_line: Option<usize>,
        end_line: Option<usize>,
    ) -> (r: Result<Vec<String>, String>)
        requires
            hunk.changes@.len() >= 1,
        ensures
            pristine_applicable(
                hunk.changes@,
                views_of(content@),
                self.confidence_threshold as int,
            ) ==> (r matches Ok(lines) && pristine_splices(
                hunk.changes@,
                views_of(content@),
                views_of(lines@),
            )),
            r matches Err(e) ==> e@.len() > 0 && e@[0] == 'F',
            (self.confidence_threshold >= 1 && all_edits(hunk.changes@) && all_windows_below(
                hunk.changes@,
                views_of(content@),
                self.confidence_threshold as int,
            )) ==> r is Err,
            r matches Err(e) ==> ((exists|conf: nat, strat: Seq<char>, nsubs: nat|
                conf <= CONFIDENCE_SCALE && (conf as int) < self.confidence_threshold && e@
                    == #[trigger] msg_search_failure(
                    conf,
                    self.confidence_threshold as nat,
                    strat,
                    context_count(hunk.changes@) as nat,
                    hunk.changes@.len(),
                    nsubs,
                    start_line,
                    end_line,
                )) || (exists|conf: nat, strat: Seq<char>|
                conf <= CONFIDENCE_SCALE && (conf as int) < self.confidence_threshold && e@
                    == #[trigger] msg_edit_failure(strat, conf))),
    {
        let ghost cs = hunk.changes@;
        let ghost cv = views_of(content@);
        let ghost thr = self.confidence_threshold as int;
        let ghost applicable = pristine_applicable(cs, cv, thr);
        let context_str = prepare_search_string(&hunk.changes);
        proof {
            if applicable {
                let p0 = choose|p: int| lines_eq_at(cv, pre_image_lines(cs), p);
                lemma_pristine_hunk_applies(cs, cv, p0, thr);
                lemma_pristine_line_readings(cs);
                assert(context_str@ == join_nl(search_text_lines(cs)));
                assert(clean_exact_present(context_str@, cv, thr, 0));
            }
        }
        let search_result = find_best_match(
            context_str.as_str(),
            content,
            0,
            self.confidence_threshold,
        );
        proof {
            if applicable {
                // the verbatim pre-image is found at full confidence; its
                // window reads back as the pre-image lines themselves
                assert(search_result.confidence == CONFIDENCE_SCALE);
                assert(search_result.index != -1);
                let idx = search_result.index as int;
                let pre = pre_image_lines(cs);
                lemma_split_join_id(pre);
                assert(split_lines_seq(context_str@) == pre);
                let k = pre.len() as int;
                let matched = join_nl(cv.subrange(idx, idx + k));
                assert(located_conf(context_str@, cv, idx, thr) == CONFIDENCE_SCALE);
                crate::distance::lemma_sim_bounds(context_str@, matched);
                assert(crate::distance::sim_milli_capped(context_str@, matched)
                    == CONFIDENCE_SCALE);
                assert(context_str@.len() < usize::MAX && matched.len() < usize::MAX);
                lemma_sim_full_iff_eq(context_str@, matched);
                assert(matched == context_str@);
                assert(join_nl(cv.subrange(idx, idx + k)) == join_nl(pre));
                assert forall|j: int|
                    0 <= j < cv.subrange(idx, idx + k).len() implies no_nl(
                    #[trigger] cv.subrange(idx, idx + k)[j],
                ) by {
                    assert(cv.subrange(idx, idx + k)[j] == cv[idx + j]);
                }
                lemma_join_nl_injective(cv.subrange(idx, idx + k), pre);
                assert(lines_eq_at(cv, pre, idx));
                lemma_pristine_hunk_applies(cs, cv, idx, thr);
                assert(region_lines(cs, cv, idx) == expected_lines(cs));
                assert(edit_validation_score(cs, join_nl(region_lines(cs, cv, idx)))
                    == CONFIDENCE_SCALE);
            }
        }
        if search_result.confidence < self.confidence_threshold {
            let sub_hunks = self.split_hunk(hunk);
            match self.apply_sub_hunks(backend, &sub_hunks, content) {
                Some(lines) => {
                    return Ok(lines);
                },
                None => {},
            }
            let context_lines = Self::count_context(hunk);
            let total_lines = hunk.changes.len();
            let msg = self.search_failure_message(
                search_result.confidence,
                &search_result.strategy,
                context_lines,
                total_lines,
                sub_hunks.len(),
                start_line,
                end_line,
            );
            proof {
                assert(msg@ == msg_search_failure(
                    search_result.confidence as nat,
                    self.confidence_threshold as nat,
                    search_result.strategy@,
                    context_count(hunk.changes@) as nat,
                    hunk.changes@.len(),
                    sub_hunks@.len(),
                    start_line,
                    end_line,
                ));
            }
            return Err(msg);
        }
        let edit_result = apply_edit(
            backend,
            hunk,
            content,
            search_result.index,
            search_result.confidence,
            Some(self.confidence_threshold),
        );
        proof {
            if applicable {
                // the spec-level splice clears the bar, so the context path
                // was taken and its result is the pre-image window replaced
                // by the hunk's post-edit text
                let idx = search_result.index as int;
                let pre = pre_image_lines(cs);
                assert(views_of(edit_result.result@) == cv.subrange(0, idx) + region_lines(
                    cs,
                    cv,
                    idx,
                ) + cv.subrange(
                    crate::search::min_int(cursor_after(cs, idx), cv.len() as int),
                    cv.len() as int,
                ));
                assert(cursor_after(cs, idx) == idx + pre.len());
                assert(idx + pre.len() <= cv.len());
                assert(crate::search::min_int(cursor_after(cs, idx), cv.len() as int) == idx
                    + pre.len());
                assert(pristine_splices(cs, cv, views_of(edit_result.result@)));
                assert(edit_result.confidence as int == CONFIDENCE_SCALE);
            }
        }
        if edit_result.confidence >= self.confidence_threshold {
            Ok(edit_result.result)
        } else {
            let msg = self.edit_failure_message(&edit_result.strategy, edit_result.confidence);
            proof {
                assert(msg@ == msg_edit_failure(
                    edit_result.strategy@,
                    edit_result.confidence as nat,
                ));
            }
            Err(msg)
        }
    }

    /// Apply a unified diff to the content, hunk by hunk against the
    /// progressively edited buffer, with the given merge backend catching
    /// reconstructions that direct splicing cannot carry confidently.
    /// Apply already-parsed hunks to the content, hunk by hunk against
    /// the progressively edited buffer. Where every hunk is owed success
    /// in sequence, the result is Success and its content is one of the
    /// chained splices; a failure carries the hunk's diagnostic.
    pub fn apply_parsed<M: MergeBackend>(
        &self,
        backend: &M,
        parsed: &Diff,
        original_content: &str,
        start_line: Option<usize>,
        end_line: Option<usize>,
    ) -> (r: DiffResult)
        requires
            forall|i: int|
                0 <= i < parsed.hunks@.len() ==> has_edit((#[trigger] parsed.hunks@[i]).changes@),
        ensures
            chain_applies(
                parsed.hunks@,
                split_lines_seq(original_content@),
                self.confidence_threshold as int,
            ) ==> (r matches DiffResult::Success { content } && exists|nv: Seq<Seq<char>>|
                #[trigger] chain_result(
                    parsed.hunks@,
                    split_lines_seq(original_content@),
                    nv,
                ) && content@ == join_nl(nv)),
            r matches DiffResult::Failure { error, details } ==> error@.len() > 0 && error@[0]
                == 'F' && details is None,
            r matches DiffResult::Failure { error, details } ==> ((exists|
                i: int,
                conf: nat,
                strat: Seq<char>,
                nsubs: nat,
            |
                0 <= i < parsed.hunks@.len() && conf <= CONFIDENCE_SCALE && (conf as int)
                    < self.confidence_threshold && error@ == #[trigger] msg_search_failure(
                    conf,
                    self.confidence_threshold as nat,
                    strat,
                    context_count(parsed.hunks@[i].changes@) as nat,
                    parsed.hunks@[i].changes@.len(),
                    nsubs,
                    start_line,
                    end_line,
                )) || (exists|conf: nat, strat: Seq<char>|
                conf <= CONFIDENCE_SCALE && (conf as int) < self.confidence_threshold && error@
                    == #[trigger] msg_edit_failure(strat, conf))),
            (self.confidence_threshold >= 1 && parsed.hunks@.len() == 1 && all_edits(
                parsed.hunks@[0].changes@,
            ) && parsed.hunks@[0].changes@.len() > 0 && all_windows_below(
                parsed.hunks@[0].changes@,
                split_lines_seq(original_content@),
                self.confidence_threshold as int,
            )) ==> r is Failure,
    {
        let ghost hsv = parsed.hunks@;
        let ghost cv0 = split_lines_seq(original_content@);
        let ghost thr = self.confidence_threshold as int;
        let mut result = split_lines(original_content);
        let mut hi: usize = 0;
        proof {
            assert(hsv.skip(0) =~= hsv);
            assert(hsv.take(0) =~= Seq::<Hunk>::empty());
        }
        while hi < parsed.hunks.len()
            invariant
                0 <= hi <= parsed.hunks@.len(),
                parsed.hunks@ == hsv,
                cv0 == split_lines_seq(original_content@),
                thr == self.confidence_threshold as int,
                forall|i: int| 0 <= i < hsv.len() ==> has_edit((#[trigger] hsv[i]).changes@),
                hi == 0 ==> views_of(result@) == split_lines_seq(original_content@),
                (self.confidence_threshold >= 1 && hsv.len() == 1 && all_edits(hsv[0].changes@)
                    && hsv[0].changes@.len() > 0 && all_windows_below(
                    hsv[0].changes@,
                    split_lines_seq(original_content@),
                    thr,
                )) ==> hi == 0,
                chain_applies(hsv, cv0, thr) ==> chain_result(
                    hsv.take(hi as int),
                    cv0,
                    views_of(result@),
                ),
                chain_applies(hsv, cv0, thr) ==> chain_applies(
                    hsv.skip(hi as int),
                    views_of(result@),
                    thr,
                ),
            decreases parsed.hunks@.len() - hi,
        {
            proof {
                assert(has_edit(hsv[hi as int].changes@));
                let w = choose|j: int|
                    0 <= j < hsv[hi as int].changes@.len() && is_edit(hsv[hi as int].changes@[j]);
            }
            let ghost curv = views_of(result@);
            match self.apply_hunk(backend, &parsed.hunks[hi], &result, start_line, end_line) {
                Ok(lines) => {
                    proof {
                        if chain_applies(hsv, cv0, thr) {
                            // the chain's head is owed success, and every
                            // content it can leave keeps the rest owed
                            assert(chain_applies(hsv.skip(hi as int), curv, thr));
                            assert(hsv.skip(hi as int)[0] == hsv[hi as int]);
                            assert(hsv.skip(hi as int).drop_first() =~= hsv.skip(hi + 1));
                            assert(pristine_applicable(hsv[hi as int].changes@, curv, thr));
                            assert(pristine_splices(
                                hsv[hi as int].changes@,
                                curv,
                                views_of(lines@),
                            ));
                            assert(chain_applies(hsv.skip(hi + 1), views_of(lines@), thr));
                            lemma_chain_result_push(
                                hsv.take(hi as int),
                                hsv[hi as int],
                                cv0,
                                curv,
                                views_of(lines@),
                            );
                            assert(hsv.take(hi as int).push(hsv[hi as int]) =~= hsv.take(hi + 1));
                        }
                    }
                    result = lines;
                },
                Err(msg) => {
                    proof {
                        if chain_applies(hsv, cv0, thr) {
                            assert(chain_applies(hsv.skip(hi as int), curv, thr));
                            assert(hsv.skip(hi as int)[0] == hsv[hi as int]);
                            assert(pristine_applicable(hsv[hi as int].changes@, curv, thr));
                            assert(false);
                        }
                    }
                    return DiffResult::Failure { error: msg, details: None };
                },
            }
            hi = hi + 1;
        }
        proof {
            assert(hsv.take(hsv.len() as int) =~= hsv);
        }
        DiffResult::Success { content: join_lines(&result) }
    }

    /// Apply a unified diff to the content: parse it, then apply the
    /// hunks, with the given merge backend catching reconstructions that
    /// direct splicing cannot carry confidently. A diff that parses to no
    /// hunks — and only such a diff — is the no-hunks failure; a diff whose
    /// parsed hunks are owed success in sequence is Success, its content
    /// one of the chained splices.
    pub fn apply_diff_with<M: MergeBackend>(
        &self,
        backend: &M,
        original_content: &str,
        diff_content: &str,
        start_line: Option<usize>,
        end_line: Option<usize>,
    ) -> (r: DiffResult)
        ensures
            !diff_has_hunks(diff_content@) <==> (r matches DiffResult::Failure { error, details }
                && error@ == no_hunks_text() && details is None),
            (parsed_hunk_views(diff_content@).len() > 0 && chain_applies_v(
                parsed_hunk_views(diff_content@),
                split_lines_seq(original_content@),
                self.confidence_threshold as int,
            )) ==> (r matches DiffResult::Success { content } && exists|nv: Seq<Seq<char>>|
                #[trigger] chain_result_v(
                    parsed_hunk_views(diff_content@),
                    split_lines_seq(original_content@),
                    nv,
                ) && content@ == join_nl(nv)),
            (match r {
                DiffResult::Failure { error, details } => error@ != no_hunks_text() ==> ((exists|
                    i: int,
                    conf: nat,
                    strat: Seq<char>,
                    nsubs: nat,
                |
                    0 <= i < parsed_hunk_views(diff_content@).len() && conf <= CONFIDENCE_SCALE
                        && (conf as int) < self.confidence_threshold && error@
                        == #[trigger] msg_search_failure(
                        conf,
                        self.confidence_threshold as nat,
                        strat,
                        context_count_v(parsed_hunk_views(diff_content@)[i]) as nat,
                        parsed_hunk_views(diff_content@)[i].len(),
                        nsubs,
                        start_line,
                        end_line,
                    )) || (exists|conf: nat, strat: Seq<char>|
                    conf <= CONFIDENCE_SCALE && (conf as int) < self.confidence_threshold
                        && error@ == #[trigger] msg_edit_failure(strat, conf))),
                _ => true,
            }),
            ({
                let hv = parsed_hunk_views(diff_content@);
                let lines = split_lines_seq(original_content@);
                &&& self.confidence_threshold >= 1
                &&& hv.len() == 1
                &&& hv[0].len() > 0
                &&& (forall|j: int| 0 <= j < hv[0].len() ==> is_edit_v(#[trigger] hv[0][j]))
                &&& (forall|q: int|
                    0 <= q <= lines.len() ==> #[trigger] located_conf(
                        join_nl(pre_image_lines_v(hv[0])),
                        lines,
                        q,
                        self.confidence_threshold as int,
                    ) < self.confidence_threshold)
            }) ==> r is Failure,
    {
        let parsed = self.parse_unified_diff(diff_content);
        proof {
            assert(hunk_views(parsed.hunks@).len() == parsed.hunks@.len());
            assert forall|i: int| 0 <= i < parsed.hunks@.len() implies all_sourced(
                (#[trigger] parsed.hunks@[i]).changes@,
            ) by {
                assert(hunk_wf(parsed.hunks@[i].changes@));
                assert forall|j: int|
                    0 <= j < parsed.hunks@[i].changes@.len() implies (#[trigger] parsed.hunks@[
                i].changes@[j]).original_line is Some by {
                    assert(parsed_change_wf(parsed.hunks@[i].changes@[j]));
                }
            }
            lemma_chain_views(
                parsed.hunks@,
                split_lines_seq(original_content@),
                self.confidence_threshold as int,
            );
            // an ambiguous all-edit hunk (every window below the bar) is
            // rejected: bridge the hypothesis to the parsed changes
            {
                let hv = parsed_hunk_views(diff_content@);
                let lines = split_lines_seq(original_content@);
                if self.confidence_threshold >= 1 && hv.len() == 1 && hv[0].len() > 0 && (
                forall|j: int| 0 <= j < hv[0].len() ==> is_edit_v(#[trigger] hv[0][j])) && (
                forall|q: int|
                    0 <= q <= lines.len() ==> #[trigger] located_conf(
                        join_nl(pre_image_lines_v(hv[0])),
                        lines,
                        q,
                        self.confidence_threshold as int,
                    ) < self.confidence_threshold) {
                    let cs0 = parsed.hunks@[0].changes@;
                    assert(hv[0] == changes_views(cs0));
                    assert(changes_views(cs0).len() == cs0.len());
                    assert(all_edits(cs0)) by {
                        assert forall|j: int| 0 <= j < cs0.len() implies is_edit(
                            #[trigger] cs0[j],
                        ) by {
                            assert(is_edit_v(changes_views(cs0)[j]));
                        }
                    }
                    lemma_search_is_pre(cs0);
                    lemma_view_line_readings(cs0);
                    assert(join_nl(search_text_lines(cs0)) == join_nl(pre_image_lines_v(hv[0])));
                    assert(all_windows_below(
                        cs0,
                        lines,
                        self.confidence_threshold as int,
                    ));
                }
            }
        }
        if parsed.hunks.len() == 0 {
            return DiffResult::Failure {
                error: String::from_str(
                    "No hunks found in diff. Please ensure your diff includes actual changes and follows the unified diff format.",
                ),
                details: None,
            };
        }
        let r = self.apply_parsed(backend, &parsed, original_content, start_line, end_line);
        proof {
            if parsed_hunk_views(diff_content@).len() > 0 && chain_applies_v(
                parsed_hunk_views(diff_content@),
                split_lines_seq(original_content@),
                self.confidence_threshold as int,
            ) {
                // the parsed hunks are owed success, and any content they
                // leave is a spec-level chained splice
                assert(chain_applies(
                    parsed.hunks@,
                    split_lines_seq(original_content@),
                    self.confidence_threshold as int,
                ));
                let nv = choose|nv: Seq<Seq<char>>|
                    #[trigger] chain_result(
                        parsed.hunks@,
                        split_lines_seq(original_content@),
                        nv,
                    ) && r->content@ == join_nl(nv);
                lemma_chain_result_views(parsed.hunks@, split_lines_seq(original_content@), nv);
                assert(chain_result_v(
                    parsed_hunk_views(diff_content@),
                    split_lines_seq(original_content@),
                    nv,
                ));
            }
        }
        proof {
            // an application failure never reads as the no-hunks diagnostic
            reveal_strlit(
                "No hunks found in diff. Please ensure your diff includes actual changes and follows the unified diff format.",
            );
            match r {
                DiffResult::Failure { ref error, ref details } => {
                    assert(error@[0] == 'F');
                    assert(no_hunks_text()[0] == 'N');
                    assert(error@ != no_hunks_text());
                    // the per-hunk diagnostic lifts to the parsed data
                    if exists|i: int, conf: nat, strat: Seq<char>, nsubs: nat|
                        0 <= i < parsed.hunks@.len() && conf <= CONFIDENCE_SCALE && (conf as int)
                            < self.confidence_threshold && error@ == #[trigger] msg_search_failure(
                            conf,
                            self.confidence_threshold as nat,
                            strat,
                            context_count(parsed.hunks@[i].changes@) as nat,
                            parsed.hunks@[i].changes@.len(),
                            nsubs,
                            start_line,
                            end_line,
                        ) {
                        let (i, conf, strat, nsubs) = choose|
                            i: int,
                            conf: nat,
                            strat: Seq<char>,
                            nsubs: nat,
                        |
                            0 <= i < parsed.hunks@.len() && conf <= CONFIDENCE_SCALE && (
                            conf as int) < self.confidence_threshold && error@
                                == #[trigger] msg_search_failure(
                                conf,
                                self.confidence_threshold as nat,
                                strat,
                                context_count(parsed.hunks@[i].changes@) as nat,
                                parsed.hunks@[i].changes@.len(),
                                nsubs,
                                start_line,
                                end_line,
                            );
                        lemma_context_count_views(parsed.hunks@[i].changes@);
                        assert(parsed_hunk_views(diff_content@)[i] == changes_views(
                            parsed.hunks@[i].changes@,
                        ));
                        assert(parsed_hunk_views(diff_content@)[i].len()
                            == parsed.hunks@[i].changes@.len());
                        assert(error@ == msg_search_failure(
                            conf,
                            self.confidence_threshold as nat,
                            strat,
                            context_count_v(parsed_hunk_views(diff_content@)[i]) as nat,
                            parsed_hunk_views(diff_content@)[i].len(),
                            nsubs,
                            start_line,
                            end_line,
                        ));
                    }
                },
                _ => {},
            }
        }
        r
    }

    /// Apply a unified diff with no merge backend: the pure splicing path
    /// alone.
    pub fn apply_diff(
        &self,
        original_content: &str,
        diff_content: &str,
        start_line: Option<usize>,
        end_line: Option<usize>,
    ) -> (r: DiffResult)
        ensures
            !diff_has_hunks(diff_content@) <==> (r matches DiffResult::Failure { error, details }
                && error@ == no_hunks_text() && details is None),
            (parsed_hunk_views(diff_content@).len() > 0 && chain_applies_v(
                parsed_hunk_views(diff_content@),
                split_lines_seq(original_content@),
                self.confidence_threshold as int,
            )) ==> (r matches DiffResult::Success { content } && exists|nv: Seq<Seq<char>>|
                #[trigger] chain_result_v(
                    parsed_hunk_views(diff_content@),
                    split_lines_seq(original_content@),
                    nv,
                ) && content@ == join_nl(nv)),
            (match r {
                DiffResult::Failure { error, details } => error@ != no_hunks_text() ==> ((exists|
                    i: int,
                    conf: nat,
                    strat: Seq<char>,
                    nsubs: nat,
                |
                    0 <= i < parsed_hunk_views(diff_content@).len() && conf <= CONFIDENCE_SCALE
                        && (conf as int) < self.confidence_threshold && error@
                        == #[trigger] msg_search_failure(
                        conf,
                        self.confidence_threshold as nat,
                        strat,
                        context_count_v(parsed_hunk_views(diff_content@)[i]) as nat,
                        parsed_hunk_views(diff_content@)[i].len(),
                        nsubs,
                        start_line,
                        end_line,
                    )) || (exists|conf: nat, strat: Seq<char>|
                    conf <= CONFIDENCE_SCALE && (conf as int) < self.confidence_threshold
                        && error@ == #[trigger] msg_edit_failure(strat, conf))),
                _ => true,
            }),
            ({
                let hv = parsed_hunk_views(diff_content@);
                let lines = split_lines_seq(original_content@);
                &&& self.confidence_threshold >= 1
                &&& hv.len() == 1
                &&& hv[0].len() > 0
                &&& (forall|j: int| 0 <= j < hv[0].len() ==> is_edit_v(#[trigger] hv[0][j]))
                &&& (forall|q: int|
                    0 <= q <= lines.len() ==> #[trigger] located_conf(
                        join_nl(pre_image_lines_v(hv[0])),
                        lines,
                        q,
                        self.confidence_threshold as int,
                    ) < self.confidence_threshold)
            }) ==> r is Failure,
    {
        let backend = NoMerge {};
        self.apply_diff_with(&backend, original_content, diff_content, start_line, end_line)
    }
}

} // verus!
