//! The edit model: the shared vocabulary every strategy operates on.
//! A `Change` is one diff line, a `Hunk` a contiguous group of changes,
//! a `Diff` the ordered hunks, and the result types carry a fixed-point
//! confidence on the `CONFIDENCE_SCALE` of `distance`.

use vstd::prelude::*;

verus! {

use crate::text::views_of;

/// The kind of one diff line.
#[derive(Clone, Copy, PartialEq, Eq, Structural, Debug)]
pub enum ChangeType {
    Context,
    Add,
    Remove,
}

/// One diff line: its kind, its text with leading indentation split off,
/// and, when known, the verbatim source line.
#[derive(Debug)]
pub struct Change {
    pub change_type: ChangeType,
    pub content: String,
    pub indent: String,
    pub original_line: Option<String>,
}

impl Change {
    /// A field-for-field copy.
    pub fn duplicate(&self) -> (r: Change)
        ensures
            r == *self,
    {
        Change {
            change_type: self.change_type,
            content: self.content.clone(),
            indent: self.indent.clone(),
            original_line: match &self.original_line {
                Some(l) => Some(l.clone()),
                None => None,
            },
        }
    }
}

/// A contiguous group of changes standing for one localized edit.
#[derive(Debug)]
pub struct Hunk {
    pub changes: Vec<Change>,
}

impl Hunk {
    pub fn duplicate(&self) -> (r: Hunk)
        ensures
            r.changes@ == self.changes@,
    {
        let mut out: Vec<Change> = Vec::new();
        let mut i: usize = 0;
        while i < self.changes.len()
            invariant
                0 <= i <= self.changes@.len(),
                out@ =~= self.changes@.take(i as int),
            decreases self.changes@.len() - i,
        {
            out.push(self.changes[i].duplicate());
            i = i + 1;
        }
        proof {
            assert(self.changes@.take(self.changes@.len() as int) =~= self.changes@);
        }
        Hunk { changes: out }
    }
}

/// The ordered hunks of one diff, applied in order.
#[derive(Debug)]
pub struct Diff {
    pub hunks: Vec<Hunk>,
}

/// Where a search strategy located a hunk: a line index (`-1` when nothing
/// was found), a confidence on the scale, and the strategy's tag.
#[derive(Debug)]
pub struct SearchResult {
    pub index: i32,
    pub confidence: u32,
    pub strategy: String,
}

/// A reconstructed region: the whole output line sequence, the confidence
/// the reconstruction earned, and the strategy's tag.
#[derive(Debug)]
pub struct EditResult {
    pub confidence: u32,
    pub result: Vec<String>,
    pub strategy: String,
}

/// The line range a failure diagnostic points at.
#[derive(Debug)]
pub struct MatchedRange {
    pub start: usize,
    pub end: usize,
}

/// Structured failure details for programmatic inspection, confidences on
/// the fixed-point scale.
#[derive(Debug)]
pub struct DiffResultDetails {
    pub similarity: Option<u32>,
    pub threshold: Option<u32>,
    pub matched_range: Option<MatchedRange>,
    pub search_content: Option<String>,
    pub best_match: Option<String>,
}

/// The outward-facing result of applying a diff.
#[derive(Debug)]
pub enum DiffResult {
    Success { content: String },
    Failure { error: String, details: Option<DiffResultDetails> },
}

/// The verbatim source line when known, otherwise indentation plus content.
pub open spec fn source_line(c: Change) -> Seq<char> {
    match c.original_line {
        Some(l) => l@,
        None => c.indent@ + c.content@,
    }
}

/// Indentation plus content, the line as the hunk writes it.
pub open spec fn written_line(c: Change) -> Seq<char> {
    c.indent@ + c.content@
}

pub open spec fn keeps_pre(c: Change) -> bool {
    c.change_type is Context || c.change_type is Remove
}

pub open spec fn keeps_post(c: Change) -> bool {
    c.change_type is Context || c.change_type is Add
}

pub open spec fn is_edit(c: Change) -> bool {
    c.change_type is Add || c.change_type is Remove
}

/// The hunk holds at least one added or removed line; pure-context hunks
/// carry no edit and are discarded during parsing.
pub open spec fn has_edit(cs: Seq<Change>) -> bool {
    exists|i: int| 0 <= i < cs.len() && is_edit(cs[i])
}

/// The lines the search engine looks for: the known source lines of the
/// context and removed changes.
pub open spec fn search_text_lines(cs: Seq<Change>) -> Seq<Seq<char>>
    decreases cs.len(),
{
    if cs.len() == 0 {
        Seq::empty()
    } else {
        let rest = search_text_lines(cs.drop_first());
        if keeps_pre(cs[0]) && cs[0].original_line is Some {
            seq![cs[0].original_line->0@] + rest
        } else {
            rest
        }
    }
}

/// The hunk's declared pre-image: source lines of context and removed
/// changes.
pub open spec fn pre_image_lines(cs: Seq<Change>) -> Seq<Seq<char>>
    decreases cs.len(),
{
    if cs.len() == 0 {
        Seq::empty()
    } else {
        let rest = pre_image_lines(cs.drop_first());
        if keeps_pre(cs[0]) {
            seq![source_line(cs[0])] + rest
        } else {
            rest
        }
    }
}

/// The hunk's declared post-image: source lines of context and added
/// changes.
pub open spec fn post_image_lines(cs: Seq<Change>) -> Seq<Seq<char>>
    decreases cs.len(),
{
    if cs.len() == 0 {
        Seq::empty()
    } else {
        let rest = post_image_lines(cs.drop_first());
        if keeps_post(cs[0]) {
            seq![source_line(cs[0])] + rest
        } else {
            rest
        }
    }
}

/// The text the region should read as after the edit, as the hunk writes
/// it: indentation plus content of context and added changes.
pub open spec fn expected_lines(cs: Seq<Change>) -> Seq<Seq<char>>
    decreases cs.len(),
{
    if cs.len() == 0 {
        Seq::empty()
    } else {
        let rest = expected_lines(cs.drop_first());
        if keeps_post(cs[0]) {
            seq![written_line(cs[0])] + rest
        } else {
            rest
        }
    }
}

/// The text the region read as before the edit, as the hunk writes it.
pub open spec fn original_text_lines(cs: Seq<Change>) -> Seq<Seq<char>>
    decreases cs.len(),
{
    if cs.len() == 0 {
        Seq::empty()
    } else {
        let rest = original_text_lines(cs.drop_first());
        if keeps_pre(cs[0]) {
            seq![written_line(cs[0])] + rest
        } else {
            rest
        }
    }
}

/// Whether the lines of `needle` stand verbatim in `content` at `at`.
pub open spec fn lines_eq_at(content: Seq<Seq<char>>, needle: Seq<Seq<char>>, at: int) -> bool {
    0 <= at && at + needle.len() <= content.len() && content.subrange(at, at + needle.len())
        == needle
}

/// A line of the content, cloned.
pub fn line_at(content: &Vec<String>, i: usize) -> (r: String)
    requires
        i < content@.len(),
    ensures
        r@ == views_of(content@)[i as int],
{
    content[i].clone()
}

} // verus!
