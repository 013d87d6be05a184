//! Version-control reporting: turn the raw outputs of status, diff and
//! show queries into the texts the agent reads. Running the queries is the
//! caller's side.

use vstd::prelude::*;

verus! {

use crate::diagnostics::{trim_chars, trim_ws};
use crate::search::join_range;
use crate::text::{chars_of, join_nl, split_lines, split_lines_seq, string_from_chars, views_of};

/// The service that renders version-control state.
#[derive(Debug)]
pub struct GitService {}

/// The readable name of a porcelain status code.
pub open spec fn status_text(code: Seq<char>) -> Seq<char> {
    if code == "M"@ {
        "Modified"@
    } else if code == "A"@ {
        "Added"@
    } else if code == "D"@ {
        "Deleted"@
    } else if code == "R"@ {
        "Renamed"@
    } else if code == "C"@ {
        "Copied"@
    } else if code == "U"@ {
        "Updated but unmerged"@
    } else if code == "??"@ {
        "Untracked"@
    } else {
        "Unknown status"@
    }
}

/// One status line rendered: the path and its state; lines too short to
/// carry a code and a path render nothing.
pub open spec fn status_entry(line: Seq<char>) -> Seq<char> {
    if line.len() < 3 {
        Seq::empty()
    } else {
        "- "@ + line.skip(3) + " ("@ + status_text(trim_ws(line.take(2))) + ")\n"@
    }
}

/// All status lines rendered in order.
pub open spec fn status_entries(lines: Seq<Seq<char>>) -> Seq<char>
    decreases lines.len(),
{
    if lines.len() == 0 {
        Seq::empty()
    } else {
        status_entry(lines[0]) + status_entries(lines.drop_first())
    }
}

/// The whole working-state report: no changes reads as none; otherwise the
/// changed files, and the detailed diff when one came back.
pub open spec fn working_state_text(status: Seq<char>, diff: Seq<char>) -> Seq<char> {
    if status.len() == 0 {
        "No git changes"@
    } else {
        "git changes:\n\n# Changed files\n"@ + status_entries(split_lines_seq(status)) + (if diff.len() == 0 {
            Seq::<char>::empty()
        } else {
            "\n# Detailed changes\n"@ + diff
        })
    }
}

/// The line at an index, or nothing past the end.
pub open spec fn line_or_empty(lines: Seq<Seq<char>>, i: int) -> Seq<char> {
    if 0 <= i < lines.len() {
        lines[i]
    } else {
        Seq::empty()
    }
}

/// The whole commit report assembled from the show, stat and diff outputs.
pub open spec fn commit_info_text(show: Seq<char>, stat: Seq<char>, diff: Seq<char>) -> Seq<char> {
    let lines = split_lines_seq(show);
    let body = if lines.len() <= 5 {
        Seq::<char>::empty()
    } else {
        join_nl(lines.skip(5))
    };
    "Commit: "@ + line_or_empty(lines, 1) + " ("@ + line_or_empty(lines, 0) + ")\n"@ + "Author: "@
        + line_or_empty(lines, 3) + "\n"@ + "Date: "@ + line_or_empty(lines, 4) + "\n\n"@
        + "Message: "@ + line_or_empty(lines, 2) + "\n"@ + (if body.len() == 0 {
        Seq::<char>::empty()
    } else {
        "\nDescription:\n"@ + body + "\n"@
    }) + "\nFiles Changed:\n"@ + stat + "\nFull Changes:\n"@ + diff
}

impl GitService {
    pub fn new() -> (r: Self) {
        GitService {  }
    }

    /// Render the working state from the porcelain status and the diff.
    pub fn format_working_state(&self, status: &str, diff: &str) -> (r: String)
        ensures
            r@ == working_state_text(status@, diff@),
    {
        let sc = chars_of(status);
        if sc.len() == 0 {
            return String::from_str("No git changes");
        }
        let lines = split_lines(status);
        let ghost lsv = views_of(lines@);
        let mut result = String::from_str("git changes:\n\n# Changed files\n");
        let ghost head = "git changes:\n\n# Changed files\n"@;
        let mut i: usize = 0;
        proof {
            assert(lsv.skip(0) =~= lsv);
            assert(head + status_entries(lsv) =~= result@ + status_entries(lsv.skip(0)));
        }
        while i < lines.len()
            invariant
                0 <= i <= lines@.len(),
                lsv == views_of(lines@),
                lsv == split_lines_seq(status@),
                head + status_entries(lsv) == result@ + status_entries(lsv.skip(i as int)),
            decreases lines@.len() - i,
        {
            let ghost rest = lsv.skip(i as int);
            proof {
                assert(rest[0] == lsv[i as int]);
                assert(rest.drop_first() =~= lsv.skip(i + 1));
            }
            let lc = chars_of(lines[i].as_str());
            if lc.len() >= 3 {
                let mut code: Vec<char> = Vec::new();
                code.push(lc[0]);
                code.push(lc[1]);
                proof {
                    assert(code@ =~= lc@.take(2));
                }
                let trimmed = trim_chars(&code);
                let ghost prevres = result@;
                result.append("- ");
                let mut path: Vec<char> = Vec::new();
                let mut k: usize = 3;
                while k < lc.len()
                    invariant
                        3 <= k <= lc@.len(),
                        path@ == lc@.subrange(3, k as int),
                    decreases lc@.len() - k,
                {
                    path.push(lc[k]);
                    proof {
                        assert(path@ =~= lc@.subrange(3, k + 1));
                    }
                    k = k + 1;
                }
                proof {
                    assert(path@ =~= lc@.skip(3));
                }
                result.append(string_from_chars(&path).as_str());
                result.append(" (");
                let m = chars_of("M");
                let a = chars_of("A");
                let d = chars_of("D");
                let rn = chars_of("R");
                let c = chars_of("C");
                let u = chars_of("U");
                let uu = chars_of("??");
                if eq_chars(&trimmed, &m) {
                    result.append("Modified");
                } else if eq_chars(&trimmed, &a) {
                    result.append("Added");
                } else if eq_chars(&trimmed, &d) {
                    result.append("Deleted");
                } else if eq_chars(&trimmed, &rn) {
                    result.append("Renamed");
                } else if eq_chars(&trimmed, &c) {
                    result.append("Copied");
                } else if eq_chars(&trimmed, &u) {
                    result.append("Updated but unmerged");
                } else if eq_chars(&trimmed, &uu) {
                    result.append("Untracked");
                } else {
                    result.append("Unknown status");
                }
                result.append(")\n");
                proof {
                    assert(result@ =~= prevres + status_entry(lsv[i as int]));
                    assert(prevres + (status_entry(lsv[i as int]) + status_entries(
                        lsv.skip(i + 1),
                    )) =~= result@ + status_entries(lsv.skip(i + 1)));
                }
            } else {
                proof {
                    assert(status_entry(lsv[i as int]) =~= Seq::<char>::empty());
                    assert(result@ + (Seq::<char>::empty() + status_entries(lsv.skip(i + 1))) =~=
                        result@ + status_entries(lsv.skip(i + 1)));
                }
            }
            i = i + 1;
        }
        proof {
            assert(lsv.skip(lsv.len() as int) =~= Seq::<Seq<char>>::empty());
            assert(result@ + status_entries(Seq::<Seq<char>>::empty()) =~= result@);
        }
        let dc = chars_of(diff);
        if dc.len() > 0 {
            result.append("\n# Detailed changes\n");
            result.append(diff);
        }
        result
    }

    /// Render the commit report from the formatted show output, the stat
    /// output and the diff output.
    pub fn format_commit_info(&self, show: &str, stat: &str, diff: &str) -> (r: String)
        ensures
            r@ == commit_info_text(show@, stat@, diff@),
    {
        let lines = split_lines(show);
        let ghost lsv = views_of(lines@);
        let n = lines.len();
        let mut result = String::from_str("Commit: ");
        result.append(line_text(&lines, 1).as_str());
        result.append(" (");
        result.append(line_text(&lines, 0).as_str());
        result.append(")\n");
        result.append("Author: ");
        result.append(line_text(&lines, 3).as_str());
        result.append("\n");
        result.append("Date: ");
        result.append(line_text(&lines, 4).as_str());
        result.append("\n\n");
        result.append("Message: ");
        result.append(line_text(&lines, 2).as_str());
        result.append("\n");
        let body = if n <= 5 {
            String::new()
        } else {
            join_range(&lines, 5, n)
        };
        proof {
            if n > 5 {
                assert(lsv.subrange(5, n as int) =~= lsv.skip(5));
            }
        }
        let bc = chars_of(body.as_str());
        if bc.len() > 0 {
            result.append("\nDescription:\n");
            result.append(body.as_str());
            result.append("\n");
        }
        result.append("\nFiles Changed:\n");
        result.append(stat);
        result.append("\nFull Changes:\n");
        result.append(diff);
        result
    }
}

/// Whether two character sequences read the same.
fn eq_chars(a: &Vec<char>, b: &Vec<char>) -> (r: bool)
    ensures
        r == (a@ == b@),
{
    if a.len() != b.len() {
        assert(a@ != b@);
        return false;
    }
    let mut i: usize = 0;
    while i < a.len()
        invariant
            0 <= i <= a@.len(),
            a@.len() == b@.len(),
            forall|j: int| 0 <= j < i ==> a@[j] == b@[j],
        decreases a@.len() - i,
    {
        if a[i] != b[i] {
            return false;
        }
        i = i + 1;
    }
    proof {
        assert(a@ =~= b@);
    }
    true
}

/// The line at an index, or empty text past the end.
fn line_text(lines: &Vec<String>, i: usize) -> (r: String)
    ensures
        r@ == line_or_empty(views_of(lines@), i as int),
{
    if i < lines.len() {
        lines[i].clone()
    } else {
        String::new()
    }
}

} // verus!
