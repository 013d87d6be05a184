//! The edit engine: reconstruct the post-edit line sequence for a located
//! hunk by direct context splicing, and escalate to a pluggable three-way
//! merge backend when splicing confidence is insufficient.

use vstd::prelude::*;

verus! {

use crate::distance::{CONFIDENCE_SCALE, is_ws, is_ws_char};
use crate::model::{
    Change,
    ChangeType,
    EditResult,
    Hunk,
    post_image_lines,
    pre_image_lines,
    source_line,
    written_line,
};
use crate::search::{clone_range, edit_validation_score, min_int, validate_edit_result};
use crate::text::{chars_of, join_lines, join_nl, split_lines, split_lines_seq, views_of};

/// A three-way merge the engine can fall back on when direct splicing is
/// not confident enough: reconcile `replace` against `original`, where
/// `search` is the pre-image the replacement was written against. `None`
/// means the merge could not be carried out; nothing else is assumed of
/// the backend, and the engine validates whatever comes back.
pub trait MergeBackend {
    fn merge(
        &self,
        original: &Vec<String>,
        search: &Vec<String>,
        replace: &Vec<String>,
    ) -> Option<Vec<String>>;
}

/// The backend that never merges: with it the engine stays on the pure
/// splicing path and reports failure where splicing is not confident.
pub struct NoMerge {}

impl MergeBackend for NoMerge {
    fn merge(
        &self,
        original: &Vec<String>,
        search: &Vec<String>,
        replace: &Vec<String>,
    ) -> Option<Vec<String>> {
        None
    }
}

/// How an added line is written: a line that carries no indentation of its
/// own gets the change's base indentation.
pub open spec fn reindent(line: Seq<char>, base: Seq<char>) -> Seq<char> {
    if line.len() > 0 && is_ws_char(line[0]) {
        line
    } else {
        base + line
    }
}

/// The lines an added change writes.
pub open spec fn add_lines_of(c: Change) -> Seq<Seq<char>> {
    split_lines_seq(c.content@).map_values(|l: Seq<char>| reindent(l, c.indent@))
}

/// How many source lines a removed change covers.
pub open spec fn remove_count(c: Change) -> int {
    split_lines_seq(c.content@).len() as int
}

/// The region the hunk's changes write, walked from source position `si`:
/// context copies the source line through (or synthesizes it past the end
/// of the file), additions insert their lines, removals advance the cursor
/// without emitting.
pub open spec fn region_lines(cs: Seq<Change>, content: Seq<Seq<char>>, si: int) -> Seq<Seq<char>>
    decreases cs.len(),
{
    if cs.len() == 0 {
        Seq::empty()
    } else {
        let c = cs[0];
        match c.change_type {
            ChangeType::Context => (if 0 <= si < content.len() {
                seq![content[si]]
            } else {
                seq![written_line(c)]
            }) + region_lines(cs.drop_first(), content, si + 1),
            ChangeType::Add => add_lines_of(c) + region_lines(cs.drop_first(), content, si),
            ChangeType::Remove => region_lines(cs.drop_first(), content, si + remove_count(c)),
        }
    }
}

/// Where the read cursor stands after the walk.
pub open spec fn cursor_after(cs: Seq<Change>, si: int) -> int
    decreases cs.len(),
{
    if cs.len() == 0 {
        si
    } else {
        let c = cs[0];
        match c.change_type {
            ChangeType::Context => cursor_after(cs.drop_first(), si + 1),
            ChangeType::Add => cursor_after(cs.drop_first(), si),
            ChangeType::Remove => cursor_after(cs.drop_first(), si + remove_count(c)),
        }
    }
}

proof fn lemma_cursor_monotone(cs: Seq<Change>, si: int)
    ensures
        cursor_after(cs, si) >= si,
    decreases cs.len(),
{
    if cs.len() > 0 {
        let c = cs[0];
        match c.change_type {
            ChangeType::Context => lemma_cursor_monotone(cs.drop_first(), si + 1),
            ChangeType::Add => lemma_cursor_monotone(cs.drop_first(), si),
            ChangeType::Remove => lemma_cursor_monotone(cs.drop_first(), si + remove_count(c)),
        }
    }
}

/// Context-matching reconstruction: splice the hunk's region into the
/// content at the confirmed match position, then score the spliced region
/// against the text the hunk meant to write.
pub fn apply_context_matching(hunk: &Hunk, content: &Vec<String>, match_position: i32) -> (r:
    EditResult)
    requires
        match_position >= -1,
        match_position as int <= content@.len(),
    ensures
        r.strategy@ == "context"@,
        r.confidence <= CONFIDENCE_SCALE,
        match_position == -1 ==> r.confidence == 0 && views_of(r.result@) == views_of(content@),
        match_position != -1 ==> ({
            let cv = views_of(content@);
            let p = match_position as int;
            let reg = region_lines(hunk.changes@, cv, p);
            let cur = min_int(cursor_after(hunk.changes@, p), cv.len() as int);
            &&& views_of(r.result@) == cv.subrange(0, p) + reg + cv.subrange(cur, cv.len() as int)
            &&& r.confidence as int == edit_validation_score(hunk.changes@, join_nl(reg))
        }),
{
    if match_position == -1 {
        let copy = clone_range(content, 0, content.len());
        proof {
            assert(views_of(content@).subrange(0, content@.len() as int) =~= views_of(content@));
        }
        return EditResult { confidence: 0, result: copy, strategy: String::from_str("context") };
    }
    let p = match_position as usize;
    let cv_len: usize = content.len();
    let ghost cv = views_of(content@);
    let cs = &hunk.changes;
    let mut region: Vec<String> = Vec::new();
    let mut si: usize = p;
    let ghost mut si_spec: int = p as int;
    let mut i: usize = 0;
    proof {
        assert(cs@.skip(0) =~= cs@);
        assert(views_of(region@) =~= Seq::<Seq<char>>::empty());
    }
    while i < cs.len()
        invariant
            0 <= i <= cs@.len(),
            cv == views_of(content@),
            cv_len == content@.len(),
            p <= cv_len,
            si_spec >= p,
            si as int == min_int(si_spec, cv_len as int),
            region_lines(cs@, cv, p as int) == views_of(region@) + region_lines(
                cs@.skip(i as int),
                cv,
                si_spec,
            ),
            cursor_after(cs@, p as int) == cursor_after(cs@.skip(i as int), si_spec),
        decreases cs@.len() - i,
    {
        let ghost rest = cs@.skip(i as int);
        proof {
            assert(rest[0] == cs@[i as int]);
            assert(rest.drop_first() =~= cs@.skip(i + 1));
        }
        let c = &cs[i];
        match c.change_type {
            ChangeType::Context => {
                if si < cv_len {
                    region.push(content[si].clone());
                    si = si + 1;
                } else {
                    region.push(c.indent.clone().concat(c.content.as_str()));
                }
                proof {
                    if si_spec < cv_len {
                        assert(views_of(region@) =~= views_of(region@.drop_last()) + seq![
                            cv[si_spec],
                        ]);
                        assert(views_of(region@.drop_last()) + (seq![cv[si_spec]] + region_lines(
                            cs@.skip(i + 1),
                            cv,
                            si_spec + 1,
                        )) =~= views_of(region@) + region_lines(cs@.skip(i + 1), cv, si_spec + 1));
                    } else {
                        assert(views_of(region@) =~= views_of(region@.drop_last()) + seq![
                            written_line(cs@[i as int]),
                        ]);
                        assert(views_of(region@.drop_last()) + (seq![written_line(cs@[i as int])]
                            + region_lines(cs@.skip(i + 1), cv, si_spec + 1)) =~= views_of(region@)
                            + region_lines(cs@.skip(i + 1), cv, si_spec + 1));
                    }
                    si_spec = si_spec + 1;
                }
            },
            ChangeType::Add => {
                let alines = split_lines(c.content.as_str());
                let ghost added = add_lines_of(cs@[i as int]);
                let ghost r0 = views_of(region@);
                let mut j: usize = 0;
                proof {
                    assert(added.len() == alines@.len());
                    assert(views_of(region@) =~= r0 + added.take(0));
                }
                while j < alines.len()
                    invariant
                        0 <= j <= alines@.len(),
                        0 <= i < cs@.len(),
                        views_of(alines@) == split_lines_seq(cs@[i as int].content@),
                        added == add_lines_of(cs@[i as int]),
                        added.len() == alines@.len(),
                        views_of(region@) == r0 + added.take(j as int),
                    decreases alines@.len() - j,
                {
                    let lc = chars_of(alines[j].as_str());
                    let bare = !(lc.len() > 0 && is_ws(lc[0]));
                    let ghost cc = cs@[i as int];
                    let ghost prevreg = region@;
                    proof {
                        assert(added[j as int] == reindent(views_of(alines@)[j as int], cc.indent@));
                        assert(lc@ == views_of(alines@)[j as int]);
                    }
                    if bare {
                        region.push(cs[i].indent.clone().concat(alines[j].as_str()));
                        proof {
                            assert(region@ == prevreg.push(region@.last()));
                            assert(region@.last()@ == cc.indent@ + views_of(alines@)[j as int]);
                            assert(added[j as int] == cc.indent@ + views_of(alines@)[j as int]);
                        }
                    } else {
                        region.push(alines[j].clone());
                        proof {
                            assert(region@ == prevreg.push(region@.last()));
                            assert(region@.last()@ == views_of(alines@)[j as int]);
                            assert(added[j as int] == views_of(alines@)[j as int]);
                        }
                    }
                    proof {
                        assert(views_of(region@) =~= views_of(prevreg).push(added[j as int]));
                        assert(views_of(prevreg).push(added[j as int]) =~= r0 + added.take(j + 1));
                    }
                    j = j + 1;
                }
                proof {
                    assert(added.take(added.len() as int) =~= added);
                    assert(region_lines(cs@.skip(i as int), cv, si_spec) == add_lines_of(
                        cs@[i as int],
                    ) + region_lines(cs@.skip(i + 1), cv, si_spec)) by {
                        assert(cs@.skip(i as int)[0] == cs@[i as int]);
                        assert(cs@.skip(i as int).drop_first() =~= cs@.skip(i + 1));
                    }
                    assert(r0 + (added + region_lines(cs@.skip(i + 1), cv, si_spec)) =~= views_of(
                        region@,
                    ) + region_lines(cs@.skip(i + 1), cv, si_spec));
                }
            },
            ChangeType::Remove => {
                let rlines = split_lines(c.content.as_str());
                let k = rlines.len();
                proof {
                    assert(views_of(rlines@).len() == rlines@.len());
                    assert(remove_count(cs@[i as int]) == k as int);
                }
                if cv_len - si <= k {
                    si = cv_len;
                } else {
                    si = si + k;
                }
                proof {
                    si_spec = si_spec + remove_count(cs@[i as int]);
                }
            },
        }
        i = i + 1;
    }
    proof {
        assert(cs@.skip(cs@.len() as int) =~= Seq::<Change>::empty());
        assert(views_of(region@) + region_lines(Seq::<Change>::empty(), cv, si_spec) =~= views_of(
            region@,
        ));
        lemma_cursor_monotone(Seq::<Change>::empty(), si_spec);
    }
    // assemble: prefix, region, then the tail from the (clamped) cursor on
    let mut out = clone_range(content, 0, p);
    let mut t: usize = 0;
    let ghost regv = views_of(region@);
    while t < region.len()
        invariant
            0 <= t <= region@.len(),
            regv == views_of(region@),
            views_of(out@) == views_of(content@).subrange(0, p as int) + regv.take(t as int),
        decreases region@.len() - t,
    {
        let ghost prevout = out@;
        out.push(region[t].clone());
        proof {
            assert(out@ == prevout.push(region@[t as int]));
            assert(views_of(out@) =~= views_of(prevout).push(regv[t as int]));
            assert(views_of(prevout).push(regv[t as int]) =~= views_of(content@).subrange(
                0,
                p as int,
            ) + regv.take(t + 1));
        }
        t = t + 1;
    }
    proof {
        assert(regv.take(regv.len() as int) =~= regv);
    }
    let mut u: usize = si;
    while u < cv_len
        invariant
            si <= u <= cv_len,
            cv_len == content@.len(),
            regv == views_of(region@),
            p <= cv_len,
            views_of(out@) == views_of(content@).subrange(0, p as int) + regv + views_of(
                content@,
            ).subrange(si as int, u as int),
        decreases cv_len - u,
    {
        let ghost prevout = out@;
        out.push(content[u].clone());
        proof {
            assert(out@ == prevout.push(content@[u as int]));
            assert(views_of(out@) =~= views_of(prevout).push(views_of(content@)[u as int]));
            assert(views_of(prevout).push(views_of(content@)[u as int]) =~= views_of(
                content@,
            ).subrange(0, p as int) + regv + views_of(content@).subrange(si as int, u + 1));
        }
        u = u + 1;
    }
    proof {
        assert(views_of(content@).subrange(si as int, si as int) =~= Seq::<Seq<char>>::empty());
        if si == cv_len {
            assert(views_of(out@) == views_of(content@).subrange(0, p as int) + regv + views_of(
                content@,
            ).subrange(si as int, cv_len as int));
        }
    }
    let after = join_lines(&region);
    let conf = validate_edit_result(hunk, after.as_str());
    EditResult { confidence: conf, result: out, strategy: String::from_str("context") }
}

/// The lines of the hunk's pre-image, as the merge backend is handed them.
pub fn build_pre_image(hunk: &Hunk) -> (r: Vec<String>)
    ensures
        views_of(r@) == pre_image_lines(hunk.changes@),
{
    let cs = &hunk.changes;
    let mut out: Vec<String> = Vec::new();
    let mut i: usize = 0;
    proof {
        assert(cs@.skip(0) =~= cs@);
        assert(views_of(out@) =~= Seq::<Seq<char>>::empty());
    }
    while i < cs.len()
        invariant
            0 <= i <= cs@.len(),
            pre_image_lines(cs@) == views_of(out@) + pre_image_lines(cs@.skip(i as int)),
        decreases cs@.len() - i,
    {
        let ghost rest = cs@.skip(i as int);
        proof {
            assert(rest[0] == cs@[i as int]);
            assert(rest.drop_first() =~= cs@.skip(i + 1));
        }
        let c = &cs[i];
        match c.change_type {
            ChangeType::Add => {},
            _ => {
                let line = match &c.original_line {
                    Some(l) => l.clone(),
                    None => c.indent.clone().concat(c.content.as_str()),
                };
                out.push(line);
                proof {
                    assert(views_of(out@) =~= views_of(out@.drop_last()) + seq![
                        source_line(cs@[i as int]),
                    ]);
                    assert(views_of(out@.drop_last()) + (seq![source_line(cs@[i as int])]
                        + pre_image_lines(cs@.skip(i + 1))) =~= views_of(out@) + pre_image_lines(
                        cs@.skip(i + 1),
                    ));
                }
            },
        }
        i = i + 1;
    }
    proof {
        assert(cs@.skip(cs@.len() as int) =~= Seq::<Change>::empty());
        assert(views_of(out@) + pre_image_lines(Seq::<Change>::empty()) =~= views_of(out@));
    }
    out
}

/// The lines of the hunk's post-image, as the merge backend is handed them.
pub fn build_post_image(hunk: &Hunk) -> (r: Vec<String>)
    ensures
        views_of(r@) == post_image_lines(hunk.changes@),
{
    let cs = &hunk.changes;
    let mut out: Vec<String> = Vec::new();
    let mut i: usize = 0;
    proof {
        assert(cs@.skip(0) =~= cs@);
        assert(views_of(out@) =~= Seq::<Seq<char>>::empty());
    }
    while i < cs.len()
        invariant
            0 <= i <= cs@.len(),
            post_image_lines(cs@) == views_of(out@) + post_image_lines(cs@.skip(i as int)),
        decreases cs@.len() - i,
    {
        let ghost rest = cs@.skip(i as int);
        proof {
            assert(rest[0] == cs@[i as int]);
            assert(rest.drop_first() =~= cs@.skip(i + 1));
        }
        let c = &cs[i];
        match c.change_type {
            ChangeType::Remove => {},
            _ => {
                let line = match &c.original_line {
                    Some(l) => l.clone(),
                    None => c.indent.clone().concat(c.content.as_str()),
                };
                out.push(line);
                proof {
                    assert(views_of(out@) =~= views_of(out@.drop_last()) + seq![
                        source_line(cs@[i as int]),
                    ]);
                    assert(views_of(out@.drop_last()) + (seq![source_line(cs@[i as int])]
                        + post_image_lines(cs@.skip(i + 1))) =~= views_of(out@) + post_image_lines(
                        cs@.skip(i + 1),
                    ));
                }
            },
        }
        i = i + 1;
    }
    proof {
        assert(cs@.skip(cs@.len() as int) =~= Seq::<Change>::empty());
        assert(views_of(out@) + post_image_lines(Seq::<Change>::empty()) =~= views_of(out@));
    }
    out
}

/// Turn a merge backend's outcome into an edit result: a merge that came
/// back earns the full confidence and carries exactly the merged lines; a
/// merge that did not leaves the content unchanged at zero confidence.
pub fn merge_outcome_result(content: &Vec<String>, outcome: Option<Vec<String>>) -> (r: EditResult)
    ensures
        r.strategy@ == "git-fallback"@,
        match outcome {
            Some(lines) => r.confidence == CONFIDENCE_SCALE && r.result@ == lines@,
            None => r.confidence == 0 && views_of(r.result@) == views_of(content@),
        },
{
    match outcome {
        Some(lines) => EditResult {
            confidence: CONFIDENCE_SCALE,
            result: lines,
            strategy: String::from_str("git-fallback"),
        },
        None => {
            let copy = clone_range(content, 0, content.len());
            proof {
                assert(views_of(content@).subrange(0, content@.len() as int) =~= views_of(
                    content@,
                ));
            }
            EditResult { confidence: 0, result: copy, strategy: String::from_str("git-fallback") }
        },
    }
}

/// Hand the hunk to the merge backend. Whatever the backend does, the
/// result is well-formed: full confidence, or the content unchanged at
/// zero.
pub fn apply_merge_fallback<M: MergeBackend>(backend: &M, hunk: &Hunk, content: &Vec<String>) -> (r:
    EditResult)
    ensures
        r.strategy@ == "git-fallback"@,
        r.confidence == CONFIDENCE_SCALE || (r.confidence == 0 && views_of(r.result@) == views_of(
            content@,
        )),
{
    let search_lines = build_pre_image(hunk);
    let replace_lines = build_post_image(hunk);
    let outcome = backend.merge(content, &search_lines, &replace_lines);
    merge_outcome_result(content, outcome)
}

/// The escalation policy: a match below the bar goes straight to the merge
/// backend; otherwise context splicing is tried and kept only when it
/// still clears the bar, the merge backend catching what does not.
pub fn apply_edit<M: MergeBackend>(
    backend: &M,
    hunk: &Hunk,
    content: &Vec<String>,
    match_position: i32,
    confidence: u32,
    confidence_threshold: Option<u32>,
) -> (r: EditResult)
    requires
        match_position >= -1,
        match_position as int <= content@.len(),
    ensures
        ({
            let thr = match confidence_threshold {
                Some(t) => t as int,
                None => 970,
            };
            let cv = views_of(content@);
            let p = match_position as int;
            let reg = region_lines(hunk.changes@, cv, p);
            let cur = min_int(cursor_after(hunk.changes@, p), cv.len() as int);
            let splice_ok = {
                &&& views_of(r.result@) == cv.subrange(0, p) + reg + cv.subrange(
                    cur,
                    cv.len() as int,
                )
                &&& r.confidence as int == edit_validation_score(hunk.changes@, join_nl(reg))
            };
            &&& ((r.strategy@ == "git-fallback"@ && (r.confidence == CONFIDENCE_SCALE || (
            r.confidence == 0 && views_of(r.result@) == views_of(content@)))) || (confidence >= thr
                && match_position != -1 && r.strategy@ == "context"@ && r.confidence as int >= thr
                && splice_ok))
            &&& (confidence >= thr && match_position != -1 && edit_validation_score(
                hunk.changes@,
                join_nl(reg),
            ) >= thr) ==> (r.strategy@ == "context"@ && splice_ok)
        }),
{
    let threshold = match confidence_threshold {
        Some(t) => t,
        None => 970,
    };
    if confidence < threshold {
        return apply_merge_fallback(backend, hunk, content);
    }
    let context_result = apply_context_matching(hunk, content, match_position);
    if context_result.confidence >= threshold && match_position != -1 {
        return context_result;
    }
    apply_merge_fallback(backend, hunk, content)
}

} // verus!
