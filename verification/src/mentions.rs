//! Mention handling: find the `#`- and `http`-mentions in a message, and
//! weave resolved mention contents back into the text. Fetching what a
//! mention points at (files, URLs, version control) is the caller's side.

use vstd::prelude::*;

verus! {

use crate::distance::{is_ws, is_ws_char};
use crate::search_replace::first_match;
use crate::text::{chars_of, find_sub, has_match_from, is_match_at, string_from_chars, views_of};

/// The kind of a mention.
#[derive(Clone, Copy, PartialEq, Eq, Structural, Debug)]
pub enum MentionType {
    File,
    Folder,
    Url,
    Problems,
    GitChanges,
    GitCommit,
}

/// A mention and what it resolved to.
#[derive(Debug)]
pub struct MentionContent {
    pub mention_type: MentionType,
    pub value: String,
    pub description: Option<String>,
}

/// One processed mention: the original text, its replacement, and the
/// resolved content.
#[derive(Debug)]
pub struct ParsedMention {
    pub original: String,
    pub replacement: String,
    pub content: MentionContent,
}

/// One left-to-right tokenizing pass: a `#` at a word start or an `http`
/// opens a mention, space, newline and tab close one, and everything else
/// flows into the open mention.
pub open spec fn mentions_rec(
    s: Seq<char>,
    i: int,
    in_m: bool,
    cur: Seq<char>,
    acc: Seq<Seq<char>>,
) -> Seq<Seq<char>>
    decreases s.len() - i,
{
    if i < 0 || i >= s.len() {
        if in_m && cur.len() > 0 {
            acc.push(cur)
        } else {
            acc
        }
    } else {
        let c = s[i];
        if c == '#' {
            if i == 0 || is_ws_char(s[i - 1]) {
                mentions_rec(s, i + 1, true, cur.push('#'), acc)
            } else {
                mentions_rec(s, i + 1, in_m, cur, acc)
            }
        } else if c == 'h' && is_match_at(s, "http"@, i) {
            mentions_rec(s, i + 1, true, cur.push('h'), acc)
        } else if c == ' ' || c == '\n' || c == '\t' {
            if in_m {
                mentions_rec(
                    s,
                    i + 1,
                    false,
                    Seq::empty(),
                    if cur.len() > 0 {
                        acc.push(cur)
                    } else {
                        acc
                    },
                )
            } else {
                mentions_rec(s, i + 1, in_m, cur, acc)
            }
        } else {
            if in_m {
                mentions_rec(s, i + 1, in_m, cur.push(c), acc)
            } else {
                mentions_rec(s, i + 1, in_m, cur, acc)
            }
        }
    }
}

/// The mentions of a text, in order.
pub open spec fn mentions_of(s: Seq<char>) -> Seq<Seq<char>> {
    mentions_rec(s, 0, false, Seq::empty(), Seq::empty())
}

/// Extract the mentions of a text.
pub fn extract_mentions(text: &str) -> (r: Vec<String>)
    ensures
        views_of(r@) == mentions_of(text@),
{
    let cs = chars_of(text);
    let mut mentions: Vec<String> = Vec::new();
    let mut current: Vec<char> = Vec::new();
    let mut in_mention: bool = false;
    let mut i: usize = 0;
    proof {
        assert(views_of(mentions@) =~= Seq::<Seq<char>>::empty());
        assert(current@ =~= Seq::<char>::empty());
        reveal_strlit("http");
    }
    while i < cs.len()
        invariant
            0 <= i <= cs@.len(),
            cs@ == text@,
            mentions_of(text@) == mentions_rec(
                text@,
                i as int,
                in_mention,
                current@,
                views_of(mentions@),
            ),
        decreases cs@.len() - i,
    {
        let c = cs[i];
        proof {
            reveal_strlit("http");
        }
        if c == '#' {
            let at_start = i == 0 || {
                let prev = cs[i - 1];
                is_ws(prev)
            };
            if at_start {
                in_mention = true;
                current.push(c);
            }
        } else if c == 'h' && cs.len() - i > 3 && cs[i + 1] == 't' && cs[i + 2] == 't' && cs[i + 3]
            == 'p' {
            proof {
                assert("http"@.len() == 4);
                assert(cs@.subrange(i as int, i + 4) =~= "http"@);
                assert(is_match_at(text@, "http"@, i as int));
            }
            in_mention = true;
            current.push(c);
        } else if c == ' ' || c == '\n' || c == '\t' {
            proof {
                if c == 'h' {
                    assert(!is_match_at(text@, "http"@, i as int));
                }
            }
            if in_mention {
                if current.len() > 0 {
                    let m = string_from_chars(&current);
                    let ghost prevm = mentions@;
                    mentions.push(m);
                    proof {
                        assert(views_of(mentions@) =~= views_of(prevm).push(current@));
                    }
                }
                current = Vec::new();
                in_mention = false;
                proof {
                    assert(current@ =~= Seq::<char>::empty());
                }
            }
        } else {
            proof {
                if c == 'h' {
                    assert(!is_match_at(text@, "http"@, i as int)) by {
                        if is_match_at(text@, "http"@, i as int) {
                            assert(text@.subrange(i as int, i + 4)[1] == text@[i + 1]);
                            assert(text@.subrange(i as int, i + 4)[2] == text@[i + 2]);
                            assert(text@.subrange(i as int, i + 4)[3] == text@[i + 3]);
                        }
                    }
                }
            }
            if in_mention {
                current.push(c);
            }
        }
        i = i + 1;
    }
    if in_mention && current.len() > 0 {
        let m = string_from_chars(&current);
        let ghost prevm = mentions@;
        mentions.push(m);
        proof {
            assert(views_of(mentions@) =~= views_of(prevm).push(current@));
        }
    }
    mentions
}

/// A `#` standing at the start of a word.
pub open spec fn mention_word_start(s: Seq<char>) -> bool {
    exists|i: int| 0 <= i < s.len() && #[trigger] s[i] == '#' && (i == 0 || is_ws_char(s[i - 1]))
}

/// Whether a text carries anything the mention machinery should process:
/// a word starting with `#`, or an `http` anywhere.
pub fn should_process_mentions(text: &str) -> (r: bool)
    ensures
        r == (mention_word_start(text@) || has_match_from(text@, "http"@, 0)),
{
    let cs = chars_of(text);
    let mut i: usize = 0;
    let mut found: bool = false;
    while i < cs.len()
        invariant
            0 <= i <= cs@.len(),
            cs@ == text@,
            !found ==> forall|j: int|
                0 <= j < i ==> !(#[trigger] text@[j] == '#' && (j == 0 || is_ws_char(
                    text@[j - 1],
                ))),
            found ==> mention_word_start(text@),
        decreases cs@.len() - i,
    {
        if cs[i] == '#' {
            let at_start = i == 0 || {
                let prev = cs[i - 1];
                is_ws(prev)
            };
            if at_start {
                found = true;
            }
        }
        i = i + 1;
    }
    if found {
        return true;
    }
    let http = chars_of("http");
    match find_sub(&cs, &http, 0) {
        Some(_) => true,
        None => {
            proof {
                assert(!mention_word_start(text@));
            }
            false
        },
    }
}

/// The text with every occurrence of `p` replaced by `r`, scanned left to
/// right without overlap; an empty pattern changes nothing.
pub open spec fn replace_seq(t: Seq<char>, p: Seq<char>, r: Seq<char>) -> Seq<char>
    decreases t.len(),
        when p.len() > 0
{
    let fm = first_match(t, p, 0);
    if fm < 0 || fm + p.len() > t.len() {
        t
    } else {
        t.take(fm) + r + replace_seq(t.skip(fm + p.len()), p, r)
    }
}

/// Replace every occurrence of a pattern.
pub fn replace_all(text: &str, pat: &str, repl: &str) -> (r: String)
    ensures
        pat@.len() > 0 ==> r@ == replace_seq(text@, pat@, repl@),
        pat@.len() == 0 ==> r@ == text@,
{
    let tc = chars_of(text);
    let pc = chars_of(pat);
    let rc = chars_of(repl);
    if pc.len() == 0 {
        return String::from_str(text);
    }
    let mut out: Vec<char> = Vec::new();
    let mut i: usize = 0;
    let tn = tc.len();
    proof {
        assert(tc@.skip(0) =~= tc@);
        assert(out@ =~= Seq::<char>::empty());
    }
    loop
        invariant
            0 <= i <= tc@.len(),
            tn == tc@.len(),
            tc@ == text@,
            pc@ == pat@,
            rc@ == repl@,
            pc@.len() > 0,
            replace_seq(text@, pat@, repl@) == out@ + replace_seq(
                tc@.skip(i as int),
                pat@,
                repl@,
            ),
        decreases tc@.len() - i,
    {
        let ghost rest = tc@.skip(i as int);
        proof {
            crate::search_replace::lemma_first_match(rest, pc@, 0);
        }
        match find_sub(&tc, &pc, i) {
            Some(k) => {
                proof {
                    assert(first_match(rest, pc@, 0) == k - i) by {
                        assert(is_match_at(rest, pc@, k - i)) by {
                            assert(rest.subrange(k - i, k - i + pc@.len()) =~= tc@.subrange(
                                k as int,
                                k + pc@.len(),
                            ));
                        }
                        assert(forall|j: int| 0 <= j < k - i ==> !is_match_at(rest, pc@, j)) by {
                            assert forall|j: int| 0 <= j < k - i implies !is_match_at(
                                rest,
                                pc@,
                                j,
                            ) by {
                                if is_match_at(rest, pc@, j) {
                                    assert(rest.subrange(j, j + pc@.len()) =~= tc@.subrange(
                                        i + j,
                                        i + j + pc@.len(),
                                    ));
                                    assert(is_match_at(tc@, pc@, i + j));
                                }
                            }
                        }
                        if first_match(rest, pc@, 0) > rest.len() {
                            assert(!has_match_from(rest, pc@, 0));
                        } else {
                            assert(is_match_at(rest, pc@, first_match(rest, pc@, 0)));
                        }
                    }
                }
                let ghost prevout = out@;
                let mut m: usize = i;
                while m < k
                    invariant
                        i <= m <= k <= tc@.len(),
                        out@ == prevout + tc@.subrange(i as int, m as int),
                    decreases k - m,
                {
                    out.push(tc[m]);
                    proof {
                        assert(out@ =~= prevout + tc@.subrange(i as int, m + 1));
                    }
                    m = m + 1;
                }
                let ghost prevout2 = out@;
                let mut m2: usize = 0;
                while m2 < rc.len()
                    invariant
                        0 <= m2 <= rc@.len(),
                        out@ == prevout2 + rc@.take(m2 as int),
                    decreases rc@.len() - m2,
                {
                    out.push(rc[m2]);
                    proof {
                        assert(out@ =~= prevout2 + rc@.take(m2 + 1));
                    }
                    m2 = m2 + 1;
                }
                proof {
                    assert(rc@.take(rc@.len() as int) =~= rc@);
                    assert(rest.take(k - i) =~= tc@.subrange(i as int, k as int));
                    assert(rest.skip(k - i + pc@.len()) =~= tc@.skip(k + pc@.len()));
                    assert(out@ =~= (prevout + rest.take(k - i)) + rc@);
                    assert(prevout + (rest.take(k - i) + rc@ + replace_seq(
                        tc@.skip(k + pc@.len()),
                        pat@,
                        repl@,
                    )) =~= out@ + replace_seq(tc@.skip(k + pc@.len()), pat@, repl@));
                }
                i = k + pc.len();
            },
            None => {
                proof {
                    assert(first_match(rest, pc@, 0) > rest.len()) by {
                        if first_match(rest, pc@, 0) <= rest.len() {
                            assert(is_match_at(rest, pc@, first_match(rest, pc@, 0)));
                            let fm = first_match(rest, pc@, 0);
                            assert(rest.subrange(fm, fm + pc@.len()) =~= tc@.subrange(
                                i + fm,
                                i + fm + pc@.len(),
                            ));
                            assert(is_match_at(tc@, pc@, i + fm));
                        }
                    }
                    assert(replace_seq(rest, pat@, repl@) == rest);
                }
                let ghost prevout = out@;
                let mut m3: usize = i;
                while m3 < tn
                    invariant
                        i <= m3 <= tn == tc@.len(),
                        out@ == prevout + tc@.subrange(i as int, m3 as int),
                    decreases tn - m3,
                {
                    out.push(tc[m3]);
                    proof {
                        assert(out@ =~= prevout + tc@.subrange(i as int, m3 + 1));
                    }
                    m3 = m3 + 1;
                }
                proof {
                    assert(tc@.subrange(i as int, tn as int) =~= rest);
                }
                return string_from_chars(&out);
            },
        }
    }
}

/// How one resolved mention folds into the text: each occurrence of the
/// mention gains the pointer to its content, and the content stands at the
/// end under the mention's name.
pub open spec fn woven(t: Seq<char>, m: Seq<char>, c: Seq<char>) -> Seq<char> {
    (if m.len() > 0 {
        replace_seq(t, m, m + " (see below for content)"@)
    } else {
        t
    }) + "\n\n"@ + m + "\n"@ + c + "\n"@
}

/// The text with every resolved mention woven in, in order.
pub open spec fn assembled(t: Seq<char>, rs: Seq<(Seq<char>, Seq<char>)>) -> Seq<char>
    decreases rs.len(),
{
    if rs.len() == 0 {
        t
    } else {
        assembled(woven(t, rs[0].0, rs[0].1), rs.drop_first())
    }
}

/// Weave resolved mention contents back into the text: the pure half of
/// mention processing, fed by whatever fetched the contents.
pub fn assemble_mentions(text: &str, resolved: &Vec<(String, String)>) -> (r: String)
    ensures
        r@ == assembled(
            text@,
            resolved@.map_values(|p: (String, String)| (p.0@, p.1@)),
        ),
{
    let ghost rsv = resolved@.map_values(|p: (String, String)| (p.0@, p.1@));
    let mut result = String::from_str(text);
    let mut i: usize = 0;
    proof {
        assert(rsv.skip(0) =~= rsv);
    }
    while i < resolved.len()
        invariant
            0 <= i <= resolved@.len(),
            rsv == resolved@.map_values(|p: (String, String)| (p.0@, p.1@)),
            assembled(text@, rsv) == assembled(result@, rsv.skip(i as int)),
        decreases resolved@.len() - i,
    {
        let ghost rest = rsv.skip(i as int);
        proof {
            assert(rest[0] == rsv[i as int]);
            assert(rsv[i as int] == (resolved@[i as int].0@, resolved@[i as int].1@));
            assert(rest.drop_first() =~= rsv.skip(i + 1));
        }
        let mention = &resolved[i].0;
        let content = &resolved[i].1;
        let pointer = mention.clone().concat(" (see below for content)");
        let mc = chars_of(mention.as_str());
        let replaced = if mc.len() > 0 {
            replace_all(result.as_str(), mention.as_str(), pointer.as_str())
        } else {
            result.clone()
        };
        let mut next = replaced;
        next.append("\n\n");
        next.append(mention.as_str());
        next.append("\n");
        next.append(content.as_str());
        next.append("\n");
        proof {
            assert(next@ =~= woven(result@, rsv[i as int].0, rsv[i as int].1));
        }
        result = next;
        i = i + 1;
    }
    proof {
        assert(rsv.skip(rsv.len() as int) =~= Seq::<(Seq<char>, Seq<char>)>::empty());
    }
    result
}

} // verus!
