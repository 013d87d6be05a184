//! Canned responses the agent loop hands back to the model, a sorted file
//! listing, and a readable patch rendering.

use vstd::prelude::*;

verus! {

use crate::ai::{ContentBlock, ImageBlock, ImageSource, TextBlock};
use crate::text::{chars_of, idx_of, join_lines, join_nl, lemma_idx_of, string_from_chars, views_of};
use vstd::string::StrSliceExecFns;

/// What lowercasing a text yields; the result depends on the characters
/// alone.
pub uninterp spec fn lower_of(s: Seq<char>) -> Seq<char>;

/// Relies on `str::to_lowercase`: the result is a function of the
/// characters alone, named by `lower_of`.
#[verifier::external_body]
fn lowercase(s: &str) -> (r: String)
    ensures
        r@ == lower_of(s@),
{
    s.to_lowercase()
}

/// The line-diff stream between two texts; it depends on the two texts
/// alone. Each entry is a tag — 0 kept, 1 removed, 2 inserted — and the
/// line's text.
pub uninterp spec fn line_diff(old: Seq<char>, new: Seq<char>) -> Seq<(u8, Seq<char>)>;

/// Relies on `similar::TextDiff::from_lines` and `iter_all_changes`: the
/// change stream is computed from the two texts alone, named by
/// `line_diff`. Tags map one arm each: Equal 0, Delete 1, Insert 2.
#[verifier::external_body]
fn diff_lines(old: &str, new: &str) -> (r: Vec<(u8, String)>)
    ensures
        r@.map_values(|p: (u8, String)| (p.0, p.1@)) == line_diff(old@, new@),
{
    let diff = similar::TextDiff::from_lines(old, new);
    let mut out: Vec<(u8, String)> = Vec::new();
    for change in diff.iter_all_changes() {
        let tag: u8 = match change.tag() {
            similar::ChangeTag::Equal => 0,
            similar::ChangeTag::Delete => 1,
            similar::ChangeTag::Insert => 2,
        };
        out.push((tag, change.as_str().unwrap_or("").to_string()));
    }
    out
}

/// One diff entry rendered: its sign, then its text.
pub open spec fn signed_line(p: (u8, Seq<char>)) -> Seq<char> {
    (if p.0 == 1 {
        "-"@
    } else if p.0 == 2 {
        "+"@
    } else {
        " "@
    }) + p.1
}

/// The whole diff stream rendered back to back.
pub open spec fn pretty_patch(entries: Seq<(u8, Seq<char>)>) -> Seq<char>
    decreases entries.len(),
{
    if entries.len() == 0 {
        Seq::empty()
    } else {
        signed_line(entries[0]) + pretty_patch(entries.drop_first())
    }
}

/// A tool result: plain text, or text followed by image blocks.
#[derive(Debug)]
pub enum ToolResult {
    Text(String),
    Blocks(Vec<ContentBlock>),
}

/// A content block of a response: text or an image.
#[derive(Debug)]
pub enum Block {
    Text(TextBlock),
    Image(ImageBlock),
}

/// Split on a separator character, empty pieces kept; empty text is one
/// empty piece.
pub open spec fn split_char_seq(s: Seq<char>, c: char) -> Seq<Seq<char>>
    decreases s.len(),
{
    let i = idx_of(s, c) as int;
    if i >= s.len() {
        seq![s]
    } else {
        seq![s.take(i)] + split_char_seq(s.skip(i + 1), c)
    }
}

/// Split a string on a separator character.
pub fn split_on(s: &str, c: char) -> (r: Vec<String>)
    ensures
        views_of(r@) == split_char_seq(s@, c),
        r@.len() >= 1,
{
    let cs = chars_of(s);
    let mut out: Vec<String> = Vec::new();
    let mut i: usize = 0;
    proof {
        assert(views_of(out@) =~= Seq::<Seq<char>>::empty());
        assert(cs@.skip(0) =~= cs@);
    }
    loop
        invariant
            0 <= i <= cs@.len(),
            cs@ == s@,
            split_char_seq(s@, c) == views_of(out@) + split_char_seq(cs@.skip(i as int), c),
        decreases cs@.len() - i,
    {
        let ghost rest = cs@.skip(i as int);
        let j = crate::text::find_char_from(&cs, c, i);
        proof {
            lemma_idx_of(rest, c);
            assert(forall|m: int| 0 <= m < rest.len() ==> rest[m] == cs@[i + m]);
            if j < cs@.len() {
                assert(idx_of(rest, c) == j - i) by {
                    assert(rest[j - i] == c);
                    assert(forall|m: int| 0 <= m < j - i ==> rest[m] != c);
                    if idx_of(rest, c) < j - i {
                        assert(rest[idx_of(rest, c) as int] == c);
                    }
                    if idx_of(rest, c) > j - i {
                        assert(rest[j - i] != c);
                    }
                }
            } else {
                assert(idx_of(rest, c) == rest.len()) by {
                    if idx_of(rest, c) < rest.len() {
                        assert(rest[idx_of(rest, c) as int] == c);
                        assert(cs@[i + idx_of(rest, c)] == c);
                    }
                }
            }
        }
        let mut piece: Vec<char> = Vec::new();
        let mut k: usize = i;
        while k < j
            invariant
                i <= k <= j <= cs@.len(),
                piece@ == cs@.subrange(i as int, k as int),
            decreases j - k,
        {
            piece.push(cs[k]);
            proof {
                assert(piece@ =~= cs@.subrange(i as int, k + 1));
            }
            k = k + 1;
        }
        let line = string_from_chars(&piece);
        out.push(line);
        proof {
            let ii = idx_of(rest, c) as int;
            if j < cs@.len() {
                assert(rest.take(ii) =~= cs@.subrange(i as int, j as int));
                assert(rest.skip(ii + 1) =~= cs@.skip(j + 1));
                assert(views_of(out@) =~= views_of(out@.drop_last()) + seq![line@]);
                assert(views_of(out@.drop_last()) + (seq![rest.take(ii)] + split_char_seq(
                    cs@.skip(j + 1),
                    c,
                )) =~= views_of(out@) + split_char_seq(cs@.skip(j + 1), c));
            } else {
                assert(split_char_seq(rest, c) == seq![rest]);
                assert(piece@ =~= rest);
                assert(views_of(out@) =~= views_of(out@.drop_last()) + seq![line@]);
                assert(views_of(out@.drop_last()) + seq![rest] =~= views_of(out@));
            }
        }
        if j < cs.len() {
            i = j + 1;
        } else {
            proof {
                assert(split_char_seq(s@, c) =~= views_of(out@));
            }
            return out;
        }
    }
}

/// The image block a data URL yields, when it is well-formed: exactly one
/// comma, and a colon before the media type, which runs to the first
/// semicolon.
pub open spec fn image_of_url(url: Seq<char>) -> Option<(Seq<char>, Seq<char>)> {
    let parts = split_char_seq(url, ',');
    if parts.len() != 2 {
        None
    } else {
        let head_parts = split_char_seq(parts[0], ':');
        if head_parts.len() < 2 {
            None
        } else {
            Some((split_char_seq(head_parts[1], ';')[0], parts[1]))
        }
    }
}

/// Turn data URLs into image blocks; URLs that do not parse are dropped.
pub fn format_images_into_blocks(images: &Vec<String>) -> (r: Vec<ContentBlock>)
{
    let mut out: Vec<ContentBlock> = Vec::new();
    let mut i: usize = 0;
    while i < images.len()
        decreases images@.len() - i,
    {
        let parts = split_on(images[i].as_str(), ',');
        if parts.len() == 2 {
            let head_parts = split_on(parts[0].as_str(), ':');
            if head_parts.len() >= 2 {
                let mime_parts = split_on(head_parts[1].as_str(), ';');
                out.push(
                    ContentBlock::Image(
                        ImageBlock {
                            source: ImageSource {
                                source_type: String::from_str("base64"),
                                media_type: mime_parts[0].clone(),
                                data: parts[1].clone(),
                            },
                        },
                    ),
                );
            }
        }
        i = i + 1;
    }
    out
}

/// The canned responses handed back to the model.
pub struct FormatResponse {}

impl FormatResponse {
    pub fn tool_denied() -> (r: String)
        ensures
            r@ == "The user denied this operation."@,
    {
        String::from_str("The user denied this operation.")
    }

    pub fn tool_denied_with_feedback(feedback: Option<&str>) -> (r: String)
        ensures
            r@ == "The user denied this operation and provided the following feedback:\n<feedback>\n"@
                + (match feedback {
                Some(f) => f@,
                None => Seq::empty(),
            }) + "\n</feedback>"@,
    {
        proof {
            reveal_strlit("");
            assert(""@ =~= Seq::<char>::empty());
        }
        let f = match feedback {
            Some(f) => f,
            None => "",
        };
        String::from_str(
            "The user denied this operation and provided the following feedback:\n<feedback>\n",
        ).concat(f).concat("\n</feedback>")
    }

    pub fn tool_approved_with_feedback(feedback: Option<&str>) -> (r: String)
        ensures
            r@ == "The user approved this operation and provided the following context:\n<feedback>\n"@
                + (match feedback {
                Some(f) => f@,
                None => Seq::empty(),
            }) + "\n</feedback>"@,
    {
        proof {
            reveal_strlit("");
            assert(""@ =~= Seq::<char>::empty());
        }
        let f = match feedback {
            Some(f) => f,
            None => "",
        };
        String::from_str(
            "The user approved this operation and provided the following context:\n<feedback>\n",
        ).concat(f).concat("\n</feedback>")
    }

    pub fn tool_error(error: Option<&str>) -> (r: String)
        ensures
            r@ == "The tool execution failed with the following error:\n<error>\n"@ + (match error {
                Some(e) => e@,
                None => Seq::empty(),
            }) + "\n</error>"@,
    {
        proof {
            reveal_strlit("");
            assert(""@ =~= Seq::<char>::empty());
        }
        let e = match error {
            Some(e) => e,
            None => "",
        };
        String::from_str("The tool execution failed with the following error:\n<error>\n").concat(
            e,
        ).concat("\n</error>")
    }

    pub fn no_tools_used() -> (r: String)
        ensures
            r@ == "[ERROR] You did not use a tool in your previous response! Please retry with a tool use.\n\n"@
                + tool_use_instructions_reminder_text()
                + "\n\n# Next Steps\n\nIf you have completed the user's task, use the attempt_completion tool. \nIf you require additional information from the user, use the ask_followup_question tool. \nOtherwise, if you have not completed the task and do not need additional information, then proceed with the next step of the task. \n(This is an automated message, so do not respond to it conversationally.)"@,
    {
        String::from_str(
            "[ERROR] You did not use a tool in your previous response! Please retry with a tool use.\n\n",
        ).concat(tool_use_instructions_reminder().as_str()).concat(
            "\n\n# Next Steps\n\nIf you have completed the user's task, use the attempt_completion tool. \nIf you require additional information from the user, use the ask_followup_question tool. \nOtherwise, if you have not completed the task and do not need additional information, then proceed with the next step of the task. \n(This is an automated message, so do not respond to it conversationally.)",
        )
    }

    pub fn too_many_mistakes(feedback: Option<&str>) -> (r: String)
        ensures
            r@ == "You seem to be having trouble proceeding. The user has provided the following feedback to help guide you:\n<feedback>\n"@
                + (match feedback {
                Some(f) => f@,
                None => Seq::empty(),
            }) + "\n</feedback>"@,
    {
        proof {
            reveal_strlit("");
            assert(""@ =~= Seq::<char>::empty());
        }
        let f = match feedback {
            Some(f) => f,
            None => "",
        };
        String::from_str(
            "You seem to be having trouble proceeding. The user has provided the following feedback to help guide you:\n<feedback>\n",
        ).concat(f).concat("\n</feedback>")
    }

    pub fn missing_tool_parameter_error(param_name: &str) -> (r: String)
        ensures
            r@ == "Missing value for required parameter '"@ + param_name@
                + "'. Please retry with complete response.\n\n"@
                + tool_use_instructions_reminder_text(),
    {
        String::from_str("Missing value for required parameter '").concat(param_name).concat(
            "'. Please retry with complete response.\n\n",
        ).concat(tool_use_instructions_reminder().as_str())
    }

    pub fn invalid_mcp_tool_argument_error(server_name: &str, tool_name: &str) -> (r: String)
        ensures
            r@ == "Invalid JSON argument used with "@ + server_name@ + " for "@ + tool_name@
                + ". Please retry with a properly formatted JSON argument."@,
    {
        String::from_str("Invalid JSON argument used with ").concat(server_name).concat(" for ")
            .concat(tool_name).concat(". Please retry with a properly formatted JSON argument.")
    }

    /// A text result, or the text followed by image blocks when images came
    /// along.
    pub fn tool_result(text: &str, images: Option<Vec<String>>) -> (r: ToolResult)
    {
        match images {
            Some(images) => {
                if images.len() > 0 {
                    let mut blocks: Vec<ContentBlock> = Vec::new();
                    blocks.push(ContentBlock::Text(TextBlock { text: String::from_str(text) }));
                    let image_blocks = format_images_into_blocks(&images);
                    let mut i: usize = 0;
                    while i < image_blocks.len()
                        decreases image_blocks@.len() - i,
                    {
                        blocks.push(image_blocks[i].duplicate());
                        i = i + 1;
                    }
                    ToolResult::Blocks(blocks)
                } else {
                    ToolResult::Text(String::from_str(text))
                }
            },
            None => ToolResult::Text(String::from_str(text)),
        }
    }

    pub fn image_blocks(images: Option<Vec<String>>) -> (r: Vec<ContentBlock>)
    {
        match images {
            Some(images) => format_images_into_blocks(&images),
            None => Vec::new(),
        }
    }

    /// A readable patch between two texts: each diff line prefixed with
    /// its sign, concatenated.
    pub fn create_pretty_patch(
        filename: Option<&str>,
        old_str: Option<&str>,
        new_str: Option<&str>,
    ) -> (r: String)
        ensures
            r@ == pretty_patch(
                line_diff(
                    match old_str {
                        Some(o) => o@,
                        None => Seq::empty(),
                    },
                    match new_str {
                        Some(n) => n@,
                        None => Seq::empty(),
                    },
                ),
            ),
    {
        proof {
            reveal_strlit("");
            assert(""@ =~= Seq::<char>::empty());
        }
        let o = match old_str {
            Some(o) => o,
            None => "",
        };
        let n = match new_str {
            Some(n) => n,
            None => "",
        };
        let entries = diff_lines(o, n);
        let ghost spec_entries = line_diff(o@, n@);
        let mut out = String::new();
        let mut i: usize = 0;
        proof {
            assert(spec_entries.skip(0) =~= spec_entries);
            assert(entries@.map_values(|p: (u8, String)| (p.0, p.1@)).len() == entries@.len());
        }
        while i < entries.len()
            invariant
                0 <= i <= entries@.len(),
                entries@.map_values(|p: (u8, String)| (p.0, p.1@)) == spec_entries,
                pretty_patch(spec_entries) == out@ + pretty_patch(spec_entries.skip(i as int)),
            decreases entries@.len() - i,
        {
            let ghost rest = spec_entries.skip(i as int);
            proof {
                assert(rest[0] == spec_entries[i as int]);
                assert(spec_entries[i as int] == (entries@[i as int].0, entries@[i as int].1@));
                assert(rest.drop_first() =~= spec_entries.skip(i + 1));
            }
            let ghost prevout = out@;
            let tag = entries[i].0;
            if tag == 1 {
                out.append("-");
            } else if tag == 2 {
                out.append("+");
            } else {
                out.append(" ");
            }
            out.append(entries[i].1.as_str());
            proof {
                assert(out@ =~= prevout + signed_line(spec_entries[i as int]));
                assert(prevout + (signed_line(spec_entries[i as int]) + pretty_patch(
                    spec_entries.skip(i + 1),
                )) =~= (prevout + signed_line(spec_entries[i as int])) + pretty_patch(
                    spec_entries.skip(i + 1),
                ));
            }
            i = i + 1;
        }
        proof {
            assert(spec_entries.skip(spec_entries.len() as int) =~= Seq::<(u8, Seq<char>)>::empty());
            assert(out@ + pretty_patch(Seq::<(u8, Seq<char>)>::empty()) =~= out@);
        }
        out
    }
}

/// Character-by-character lexicographic comparison by code point, the
/// order `str` comparison gives: negative, zero or positive.
pub open spec fn lex_cmp(a: Seq<char>, b: Seq<char>) -> int
    decreases a.len() + b.len(),
{
    if a.len() == 0 && b.len() == 0 {
        0
    } else if a.len() == 0 {
        -1
    } else if b.len() == 0 {
        1
    } else if (a[0] as u32) < (b[0] as u32) {
        -1
    } else if (a[0] as u32) > (b[0] as u32) {
        1
    } else {
        lex_cmp(a.drop_first(), b.drop_first())
    }
}

pub proof fn lemma_lex_cmp_antisym(a: Seq<char>, b: Seq<char>)
    ensures
        lex_cmp(a, b) == -lex_cmp(b, a),
    decreases a.len() + b.len(),
{
    if a.len() > 0 && b.len() > 0 && (a[0] as u32) == (b[0] as u32) {
        lemma_lex_cmp_antisym(a.drop_first(), b.drop_first());
    }
}

/// Compare two file paths component by component: at the first differing
/// component, a path that goes on sorts before one that ends there;
/// otherwise the lowercased components decide; equal prefixes leave the
/// shorter path first.
pub open spec fn parts_cmp(ap: Seq<Seq<char>>, bp: Seq<Seq<char>>) -> int
    decreases ap.len() + bp.len(),
{
    if ap.len() == 0 && bp.len() == 0 {
        0
    } else if ap.len() == 0 {
        -1
    } else if bp.len() == 0 {
        1
    } else if ap[0] != bp[0] {
        if ap.len() == 1 && bp.len() > 1 {
            1
        } else if bp.len() == 1 && ap.len() > 1 {
            -1
        } else {
            lex_cmp(lower_of(ap[0]), lower_of(bp[0]))
        }
    } else {
        parts_cmp(ap.drop_first(), bp.drop_first())
    }
}

pub proof fn lemma_parts_cmp_antisym(ap: Seq<Seq<char>>, bp: Seq<Seq<char>>)
    ensures
        parts_cmp(ap, bp) == -parts_cmp(bp, ap),
    decreases ap.len() + bp.len(),
{
    if ap.len() > 0 && bp.len() > 0 {
        if ap[0] != bp[0] {
            lemma_lex_cmp_antisym(lower_of(ap[0]), lower_of(bp[0]));
        } else {
            lemma_parts_cmp_antisym(ap.drop_first(), bp.drop_first());
        }
    }
}

/// The path order of the file listing.
pub open spec fn path_le(a: Seq<char>, b: Seq<char>) -> bool {
    parts_cmp(split_char_seq(a, '/'), split_char_seq(b, '/')) <= 0
}

/// Adjacent lines in path order.
pub open spec fn path_sorted(ls: Seq<Seq<char>>) -> bool {
    forall|i: int| 0 <= i && i + 1 < ls.len() ==> path_le(#[trigger] ls[i], ls[i + 1])
}

fn lex_cmp_exec(a: &Vec<char>, b: &Vec<char>) -> (r: i32)
    ensures
        r as int == lex_cmp(a@, b@),
{
    let n = a.len();
    let m = b.len();
    let mut i: usize = 0;
    proof {
        assert(a@.skip(0) =~= a@);
        assert(b@.skip(0) =~= b@);
    }
    while i < n && i < m
        invariant
            0 <= i,
            i <= n == a@.len(),
            i <= m == b@.len(),
            lex_cmp(a@, b@) == lex_cmp(a@.skip(i as int), b@.skip(i as int)),
        decreases n - i,
    {
        let ghost ra = a@.skip(i as int);
        let ghost rb = b@.skip(i as int);
        proof {
            assert(ra[0] == a@[i as int]);
            assert(rb[0] == b@[i as int]);
            assert(ra.drop_first() =~= a@.skip(i + 1));
            assert(rb.drop_first() =~= b@.skip(i + 1));
        }
        let ca = a[i] as u32;
        let cb = b[i] as u32;
        if ca < cb {
            return -1;
        } else if ca > cb {
            return 1;
        }
        i = i + 1;
    }
    proof {
        assert(a@.skip(i as int).len() == 0 || b@.skip(i as int).len() == 0);
    }
    if n == m {
        0
    } else if i >= n {
        -1
    } else {
        1
    }
}

fn chars_eq_here(a: &Vec<char>, b: &Vec<char>) -> (r: bool)
    ensures
        r == (a@ == b@),
{
    if a.len() != b.len() {
        assert(a@ != b@);
        return false;
    }
    let mut i: usize = 0;
    while i < a.len()
        invariant
            0 <= i <= a@.len(),
            a@.len() == b@.len(),
            forall|j: int| 0 <= j < i ==> a@[j] == b@[j],
        decreases a@.len() - i,
    {
        if a[i] != b[i] {
            return false;
        }
        i = i + 1;
    }
    proof {
        assert(a@ =~= b@);
    }
    true
}

/// The path comparator of the file listing.
fn path_cmp_exec(a: &String, b: &String) -> (r: i32)
    ensures
        r as int == parts_cmp(split_char_seq(a@, '/'), split_char_seq(b@, '/')),
{
    let ap = split_on(a.as_str(), '/');
    let bp = split_on(b.as_str(), '/');
    let ghost apv = views_of(ap@);
    let ghost bpv = views_of(bp@);
    let n = ap.len();
    let m = bp.len();
    let mut i: usize = 0;
    proof {
        assert(apv.skip(0) =~= apv);
        assert(bpv.skip(0) =~= bpv);
    }
    while i < n && i < m
        invariant
            0 <= i,
            i <= n == ap@.len(),
            i <= m == bp@.len(),
            apv == views_of(ap@),
            bpv == views_of(bp@),
            apv == split_char_seq(a@, '/'),
            bpv == split_char_seq(b@, '/'),
            parts_cmp(apv, bpv) == parts_cmp(apv.skip(i as int), bpv.skip(i as int)),
        decreases n - i,
    {
        let ghost ra = apv.skip(i as int);
        let ghost rb = bpv.skip(i as int);
        proof {
            assert(ra[0] == apv[i as int]);
            assert(rb[0] == bpv[i as int]);
            assert(ra.drop_first() =~= apv.skip(i + 1));
            assert(rb.drop_first() =~= bpv.skip(i + 1));
        }
        let ac = chars_of(ap[i].as_str());
        let bc = chars_of(bp[i].as_str());
        if !chars_eq_here(&ac, &bc) {
            proof {
                assert(ra[0] != rb[0]);
                assert(ra.len() == n - i);
                assert(rb.len() == m - i);
            }
            if i + 1 == n && i + 1 < m {
                proof {
                    assert(parts_cmp(ra, rb) == 1);
                }
                return 1;
            }
            if i + 1 == m && i + 1 < n {
                proof {
                    assert(parts_cmp(ra, rb) == -1);
                }
                return -1;
            }
            let la = lowercase(ap[i].as_str());
            let lb = lowercase(bp[i].as_str());
            let lac = chars_of(la.as_str());
            let lbc = chars_of(lb.as_str());
            let cres = lex_cmp_exec(&lac, &lbc);
            proof {
                assert(parts_cmp(ra, rb) == lex_cmp(lower_of(ra[0]), lower_of(rb[0])));
            }
            return cres;
        }
        i = i + 1;
    }
    proof {
        assert(apv.skip(i as int).len() == 0 || bpv.skip(i as int).len() == 0);
    }
    if n == m {
        0
    } else if i >= n {
        -1
    } else {
        1
    }
}

/// Insertion sort by the path comparator: the same lines, in path order.
#[verifier::rlimit(60)]
fn sort_paths(v: Vec<String>) -> (r: Vec<String>)
    ensures
        views_of(r@).to_multiset() == views_of(v@).to_multiset(),
        path_sorted(views_of(r@)),
{
    broadcast use vstd::seq_lib::lemma_multiset_commutative;

    let mut out: Vec<String> = Vec::new();
    let mut i: usize = 0;
    proof {
        views_of(out@).to_multiset_ensures();
        views_of(v@.take(0)).to_multiset_ensures();
        assert(views_of(out@) =~= Seq::<Seq<char>>::empty());
        assert(views_of(v@.take(0)) =~= Seq::<Seq<char>>::empty());
    }
    while i < v.len()
        invariant
            0 <= i <= v@.len(),
            views_of(out@).to_multiset() == views_of(v@.take(i as int)).to_multiset(),
            path_sorted(views_of(out@)),
        decreases v@.len() - i,
    {
        let x = v[i].clone();
        let mut j: usize = out.len();
        while j > 0 && path_cmp_exec(&out[j - 1], &x) > 0
            invariant
                0 <= j <= out@.len(),
                x == v@[i as int],
                path_sorted(views_of(out@)),
                forall|m: int|
                    j <= m < out@.len() ==> parts_cmp(
                        split_char_seq(#[trigger] views_of(out@)[m], '/'),
                        split_char_seq(x@, '/'),
                    ) > 0,
            decreases j,
        {
            j = j - 1;
        }
        let ghost low_ok = j == 0 || parts_cmp(
            split_char_seq(views_of(out@)[j - 1], '/'),
            split_char_seq(x@, '/'),
        ) <= 0;
        proof {
            assert(low_ok);
        }
        let ghost prevout = out@;
        out.insert(j, x);
        proof {
            assert(out@ == prevout.insert(j as int, v@[i as int]));
            let pv = views_of(prevout);
            let nv = views_of(out@);
            assert(nv =~= pv.take(j as int) + seq![v@[i as int]@] + pv.skip(j as int)) by {
                assert(forall|m: int| 0 <= m < j ==> out@[m] == prevout[m]);
                assert(forall|m: int|
                    j < m < out@.len() ==> out@[m] == prevout[m - 1]);
                assert(out@[j as int] == v@[i as int]);
            }
            // the inserted line keeps the multiset balanced
            assert(pv.take(j as int) + seq![v@[i as int]@] + pv.skip(j as int) =~= (pv.take(
                j as int,
            ) + seq![v@[i as int]@]) + pv.skip(j as int));
            assert((pv.take(j as int) + seq![v@[i as int]@]) =~= pv.take(j as int).push(
                v@[i as int]@,
            ));
            pv.take(j as int).to_multiset_ensures();
            pv.to_multiset_ensures();
            assert(pv.take(j as int) + pv.skip(j as int) =~= pv);
            assert(nv.to_multiset() =~= pv.to_multiset().insert(v@[i as int]@)) by {
                vstd::seq_lib::lemma_multiset_commutative(
                    pv.take(j as int).push(v@[i as int]@),
                    pv.skip(j as int),
                );
                vstd::seq_lib::lemma_multiset_commutative(pv.take(j as int), pv.skip(j as int));
                assert(nv == pv.take(j as int).push(v@[i as int]@) + pv.skip(j as int));
                assert((pv.take(j as int).push(v@[i as int]@)).to_multiset() == pv.take(
                    j as int,
                ).to_multiset().insert(v@[i as int]@));
                assert(pv == pv.take(j as int) + pv.skip(j as int));
                broadcast use vstd::multiset::group_multiset_axioms;
            }
            views_of(v@.take(i as int)).to_multiset_ensures();
            assert(views_of(v@.take(i + 1)) =~= views_of(v@.take(i as int)).push(v@[i as int]@));
            views_of(v@.take(i + 1)).to_multiset_ensures();
            // order around the insertion point
            assert forall|m: int| 0 <= m && m + 1 < nv.len() implies path_le(
                #[trigger] nv[m],
                nv[m + 1],
            ) by {
                if m + 1 < j {
                    assert(nv[m] == pv[m] && nv[m + 1] == pv[m + 1]);
                    assert(path_le(pv[m], pv[m + 1]));
                } else if m + 1 == j {
                    assert(nv[m] == pv[m] && nv[m + 1] == v@[i as int]@);
                } else if m == j {
                    assert(nv[m] == v@[i as int]@ && nv[m + 1] == pv[m]);
                    lemma_parts_cmp_antisym(
                        split_char_seq(v@[i as int]@, '/'),
                        split_char_seq(pv[m], '/'),
                    );
                } else {
                    assert(nv[m] == pv[m - 1] && nv[m + 1] == pv[m]);
                    assert(path_le(pv[m - 1], pv[m]));
                }
            }
            assert(path_sorted(nv));
        }
        i = i + 1;
    }
    proof {
        assert(v@.take(v@.len() as int) =~= v@);
    }
    out
}

/// A trailing separator removed.
pub open spec fn strip_trail_slash(l: Seq<char>) -> Seq<char> {
    if l.len() > 0 && l.last() == '/' {
        l.drop_last()
    } else {
        l
    }
}

/// The path relative to the base, treating paths as '/'-separated text:
/// the base followed by a separator is stripped (with any trailing
/// separator), the base itself leaves nothing, and anything else stays as
/// it is.
pub open spec fn relative_of(file: Seq<char>, base: Seq<char>) -> Seq<char> {
    if base.len() > 0 && file.len() > base.len() && file.take(base.len() as int) == base && file[(
    base.len() as int)] == '/' {
        strip_trail_slash(file.skip(base.len() as int + 1))
    } else if file == base {
        Seq::empty()
    } else {
        file
    }
}

/// Backslashes turned into separators.
pub open spec fn slashify(s: Seq<char>) -> Seq<char> {
    s.map_values(|c: char| if c == '\\' {
        '/'
    } else {
        c
    })
}

/// How one file shows in the listing: relative to the base, separators
/// normalized, directories keeping their trailing separator.
pub open spec fn display_name(file: Seq<char>, base: Seq<char>) -> Seq<char> {
    let rel = slashify(relative_of(file, base));
    if file.len() > 0 && file.last() == '/' {
        rel + "/"@
    } else {
        rel
    }
}

fn display_name_exec(file: &String, base: &Vec<char>) -> (r: String)
    ensures
        r@ == display_name(file@, base@),
{
    let fc = chars_of(file.as_str());
    let bn = base.len();
    let fn_ = fc.len();
    let mut matched: bool = false;
    if bn > 0 && fn_ > bn {
        let mut eq: bool = true;
        let mut t: usize = 0;
        while t < bn
            invariant
                0 <= t <= bn <= fc@.len(),
                bn == base@.len(),
                eq <==> (forall|m: int| 0 <= m < t ==> fc@[m] == base@[m]),
            decreases bn - t,
        {
            if fc[t] != base[t] {
                eq = false;
                t = bn;
            } else {
                assert(fc@[t as int] == base@[t as int]);
                t = t + 1;
            }
        }
        if eq && fc[bn] == '/' {
            matched = true;
            proof {
                assert(fc@.take(bn as int) =~= base@);
            }
        } else {
            proof {
                if fc@.take(bn as int) == base@ {
                    assert(forall|m: int|
                        0 <= m < bn ==> #[trigger] fc@.take(bn as int)[m] == fc@[m]);
                }
            }
        }
    }
    let mut rel: Vec<char> = Vec::new();
    if matched {
        let mut k: usize = bn + 1;
        while k < fn_
            invariant
                bn + 1 <= k <= fn_ == fc@.len(),
                rel@ == fc@.subrange(bn as int + 1, k as int),
            decreases fn_ - k,
        {
            rel.push(fc[k]);
            proof {
                assert(rel@ =~= fc@.subrange(bn as int + 1, k + 1));
            }
            k = k + 1;
        }
        proof {
            assert(rel@ =~= fc@.skip(bn as int + 1));
        }
        if rel.len() > 0 && rel[rel.len() - 1] == '/' {
            let _ = rel.pop();
            proof {
                assert(rel@ =~= fc@.skip(bn as int + 1).drop_last());
            }
        }
    } else {
        let is_base = if fc.len() == base.len() {
            let mut eqb: bool = true;
            let mut t2: usize = 0;
            while t2 < fc.len()
                invariant
                    0 <= t2 <= fc@.len(),
                    fc@.len() == base@.len(),
                    eqb <==> (forall|m: int| 0 <= m < t2 ==> fc@[m] == base@[m]),
                decreases fc@.len() - t2,
            {
                if fc[t2] != base[t2] {
                    eqb = false;
                    t2 = fc.len();
                } else {
                    assert(fc@[t2 as int] == base@[t2 as int]);
                    t2 = t2 + 1;
                }
            }
            proof {
                if eqb {
                    assert(fc@ =~= base@);
                }
            }
            eqb
        } else {
            false
        };
        if !is_base {
            let mut k2: usize = 0;
            while k2 < fn_
                invariant
                    0 <= k2 <= fn_ == fc@.len(),
                    rel@ == fc@.take(k2 as int),
                decreases fn_ - k2,
            {
                rel.push(fc[k2]);
                proof {
                    assert(rel@ =~= fc@.take(k2 + 1));
                }
                k2 = k2 + 1;
            }
            proof {
                assert(rel@ =~= fc@);
            }
        }
    }
    proof {
        assert(rel@ == relative_of(file@, base@));
    }
    // normalize separators
    let mut slashed: Vec<char> = Vec::new();
    let mut k3: usize = 0;
    while k3 < rel.len()
        invariant
            0 <= k3 <= rel@.len(),
            slashed@ == slashify(rel@).take(k3 as int),
        decreases rel@.len() - k3,
    {
        let c = rel[k3];
        if c == '\\' {
            slashed.push('/');
        } else {
            slashed.push(c);
        }
        proof {
            assert(slashed@ =~= slashify(rel@).take(k3 + 1));
        }
        k3 = k3 + 1;
    }
    proof {
        assert(slashed@ =~= slashify(rel@));
    }
    let mut out = string_from_chars(&slashed);
    if fc.len() > 0 && fc[fc.len() - 1] == '/' {
        out.append("/");
    }
    out
}

/// The note appended to a truncated listing.
pub open spec fn truncation_note() -> Seq<char> {
    "\n\n(File list truncated. Use list_files on specific subdirectories if you need to explore further.)"@
}

/// How the sorted names render: joined with newlines; a truncated listing
/// carries the note; an empty listing reads as no files found.
pub open spec fn render_listing(sorted: Seq<Seq<char>>, did_hit_limit: bool) -> Seq<char> {
    if did_hit_limit {
        join_nl(sorted) + truncation_note()
    } else if sorted.len() == 0 || (sorted.len() == 1 && sorted[0].len() == 0) {
        "No files found."@
    } else {
        join_nl(sorted)
    }
}

impl FormatResponse {
    /// The files as a listing: each shown relative to the base path with
    /// normalized separators, the whole set sorted in path order, and
    /// rendered with the truncation note or the empty-listing text.
    pub fn format_files_list(absolute_path: &str, files: &Vec<String>, did_hit_limit: bool) -> (r:
        String)
        ensures
            exists|sorted: Seq<Seq<char>>|
                {
                    &&& #[trigger] path_sorted(sorted)
                    &&& sorted.to_multiset() == views_of(files@).map_values(
                        |f: Seq<char>| display_name(f, absolute_path@),
                    ).to_multiset()
                    &&& r@ == render_listing(sorted, did_hit_limit)
                },
    {
        let base = chars_of(absolute_path);
        let ghost mapped = views_of(files@).map_values(
            |f: Seq<char>| display_name(f, absolute_path@),
        );
        let mut names: Vec<String> = Vec::new();
        let mut i: usize = 0;
        proof {
            assert(views_of(names@) =~= mapped.take(0));
        }
        while i < files.len()
            invariant
                0 <= i <= files@.len(),
                base@ == absolute_path@,
                mapped == views_of(files@).map_values(
                    |f: Seq<char>| display_name(f, absolute_path@),
                ),
                views_of(names@) == mapped.take(i as int),
            decreases files@.len() - i,
        {
            let ghost prev = names@;
            let name = display_name_exec(&files[i], &base);
            proof {
                assert(mapped[i as int] == display_name(views_of(files@)[i as int], absolute_path@));
                assert(views_of(files@)[i as int] == files@[i as int]@);
            }
            names.push(name);
            proof {
                assert(views_of(names@) =~= views_of(prev).push(mapped[i as int]));
                assert(views_of(prev).push(mapped[i as int]) =~= mapped.take(i + 1));
            }
            i = i + 1;
        }
        proof {
            assert(mapped.take(mapped.len() as int) =~= mapped);
        }
        let sorted_vec = sort_paths(names);
        let ghost sorted = views_of(sorted_vec@);
        let joined = join_lines(&sorted_vec);
        if did_hit_limit {
            let r = joined.concat(
                "\n\n(File list truncated. Use list_files on specific subdirectories if you need to explore further.)",
            );
            proof {
                assert(r@ == render_listing(sorted, did_hit_limit));
            }
            r
        } else if sorted_vec.len() == 0 || (sorted_vec.len() == 1 && sorted_vec[0].as_str().unicode_len() == 0) {
            let r = String::from_str("No files found.");
            proof {
                assert(r@ == render_listing(sorted, did_hit_limit));
            }
            r
        } else {
            proof {
                assert(joined@ == render_listing(sorted, did_hit_limit));
            }
            joined
        }
    }
}

/// The reminder on how tool uses are formatted, appended to several
/// responses.
pub open spec fn tool_use_instructions_reminder_text() -> Seq<char> {
    "# Reminder: Instructions for Tool Use\n\nTool uses are formatted using XML-style tags. The tool name is enclosed in opening and closing tags, and each parameter is similarly enclosed within its own set of tags. Here's the structure:\n\n<tool_name>\n<parameter1_name>value1</parameter1_name>\n<parameter2_name>value2</parameter2_name>\n...\n</tool_name>\n\nFor example:\n\n<attempt_completion>\n<result>\nI have completed the task...\n</result>\n</attempt_completion>\n\nAlways adhere to this format for all tool uses to ensure proper parsing and execution."@
}

pub fn tool_use_instructions_reminder() -> (r: String)
    ensures
        r@ == tool_use_instructions_reminder_text(),
{
    String::from_str(
        "# Reminder: Instructions for Tool Use\n\nTool uses are formatted using XML-style tags. The tool name is enclosed in opening and closing tags, and each parameter is similarly enclosed within its own set of tags. Here's the structure:\n\n<tool_name>\n<parameter1_name>value1</parameter1_name>\n<parameter2_name>value2</parameter2_name>\n...\n</tool_name>\n\nFor example:\n\n<attempt_completion>\n<result>\nI have completed the task...\n</result>\n</attempt_completion>\n\nAlways adhere to this format for all tool uses to ensure proper parsing and execution.",
    )
}

} // verus!
