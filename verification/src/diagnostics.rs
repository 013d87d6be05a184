//! Workspace diagnostics: a per-file store of reported problems, keyed by
//! path with insertion order kept, and a rendering of the errors.

use vstd::prelude::*;

verus! {

use crate::distance::{is_ws, is_ws_char};
use crate::text::{chars_of, dec_str, string_from_chars, udec};

/// How severe a diagnostic is.
#[derive(Clone, Copy, PartialEq, Eq, Structural, Debug)]
pub enum DiagnosticSeverity {
    Error,
    Warning,
    Information,
    Hint,
}

/// One reported problem.
#[derive(Debug)]
pub struct Diagnostic {
    pub severity: DiagnosticSeverity,
    pub message: String,
    pub source: Option<String>,
    pub line: u32,
}

impl Diagnostic {
    /// A field-for-field copy.
    pub fn duplicate(&self) -> (r: Diagnostic)
        ensures
            r == *self,
    {
        Diagnostic {
            severity: self.severity,
            message: self.message.clone(),
            source: match &self.source {
                Some(s) => Some(s.clone()),
                None => None,
            },
            line: self.line,
        }
    }
}

/// The position of the first entry with the key, or -1.
pub open spec fn key_index(es: Seq<(String, Vec<Diagnostic>)>, key: Seq<char>) -> int
    decreases es.len(),
{
    if es.len() == 0 {
        -1
    } else if es[0].0@ == key {
        0
    } else {
        let r = key_index(es.drop_first(), key);
        if r == -1 {
            -1
        } else {
            r + 1
        }
    }
}

pub proof fn lemma_key_index(es: Seq<(String, Vec<Diagnostic>)>, key: Seq<char>)
    ensures
        key_index(es, key) == -1 ==> forall|j: int| 0 <= j < es.len() ==> (#[trigger] es[j]).0@
            != key,
        key_index(es, key) != -1 ==> 0 <= key_index(es, key) < es.len() && es[key_index(
            es,
            key,
        )].0@ == key && forall|j: int| 0 <= j < key_index(es, key) ==> (#[trigger] es[j]).0@ != key,
    decreases es.len(),
{
    if es.len() > 0 && es[0].0@ != key {
        lemma_key_index(es.drop_first(), key);
        let d = es.drop_first();
        assert(forall|j: int| 0 <= j < d.len() ==> #[trigger] d[j] == es[j + 1]);
        if key_index(es, key) == -1 {
            assert forall|j: int| 0 <= j < es.len() implies (#[trigger] es[j]).0@ != key by {
                if j > 0 {
                    assert(d[j - 1] == es[j]);
                    assert(d[j - 1].0@ != key);
                }
            }
        } else {
            assert(key_index(es, key) == key_index(d, key) + 1);
            assert(es[key_index(es, key)] == d[key_index(d, key)]);
            assert forall|j: int| 0 <= j < key_index(es, key) implies (#[trigger] es[j]).0@
                != key by {
                if j > 0 {
                    assert(d[j - 1] == es[j]);
                    assert(d[j - 1].0@ != key);
                }
            }
        }
    }
}

/// The per-file diagnostics store: entries keyed by path, insertion order
/// kept, each key standing once.
#[derive(Debug)]
pub struct DiagnosticsProvider {
    pub diagnostics: Vec<(String, Vec<Diagnostic>)>,
}

impl DiagnosticsProvider {
    /// An empty store.
    pub fn new() -> (r: Self)
        ensures
            r.diagnostics@.len() == 0,
    {
        DiagnosticsProvider { diagnostics: Vec::new() }
    }

    /// Record a problem under its file: appended to the file's entry when
    /// one stands, otherwise under a fresh entry at the end.
    pub fn add_diagnostic(&mut self, file_path: String, diagnostic: Diagnostic)
        ensures
            ({
                let es = old(self).diagnostics@;
                let ns = final (self).diagnostics@;
                let k = key_index(es, file_path@);
                &&& (k == -1 ==> ns.len() == es.len() + 1 && ns.take(es.len() as int) == es
                    && ns.last().0 == file_path && ns.last().1@ == seq![diagnostic])
                &&& (k != -1 ==> ns.len() == es.len() && (forall|j: int|
                    0 <= j < es.len() && j != k ==> #[trigger] ns[j] == es[j]) && ns[k].0 == es[k].0
                    && ns[k].1@ == es[k].1@.push(diagnostic))
            }),
    {
        let ghost es = self.diagnostics@;
        proof {
            lemma_key_index(es, file_path@);
        }
        let n = self.diagnostics.len();
        let mut i: usize = 0;
        while i < n
            invariant
                0 <= i <= n,
                n == self.diagnostics@.len(),
                self.diagnostics@ == es,
                old(self).diagnostics@ == es,
                forall|j: int| 0 <= j < i ==> (#[trigger] es[j]).0@ != file_path@,
            decreases n - i,
        {
            if self.diagnostics[i].0.eq(&file_path) {
                proof {
                    assert(key_index(es, file_path@) == i) by {
                        lemma_key_index(es, file_path@);
                        if key_index(es, file_path@) == -1 {
                            assert(es[i as int].0@ != file_path@);
                        }
                        if key_index(es, file_path@) != -1 && key_index(es, file_path@) < i {
                            assert(es[key_index(es, file_path@)].0@ != file_path@);
                        }
                        if key_index(es, file_path@) != -1 && key_index(es, file_path@) > i {
                            assert(es[i as int].0@ != file_path@);
                        }
                    }
                }
                let mut entry = self.diagnostics.remove(i);
                proof {
                    assert(entry == es[i as int]);
                }
                entry.1.push(diagnostic);
                let ghost ne = entry;
                self.diagnostics.insert(i, entry);
                proof {
                    assert(self.diagnostics@ =~= es.update(i as int, ne));
                    assert(forall|j: int|
                        0 <= j < es.len() && j != i ==> #[trigger] self.diagnostics@[j] == es[j]);
                    assert(self.diagnostics@[i as int].0 == es[i as int].0);
                    assert(self.diagnostics@[i as int].1@ == es[i as int].1@.push(diagnostic));
                }
                return ;
            }
            i = i + 1;
        }
        proof {
            assert(key_index(es, file_path@) == -1) by {
                lemma_key_index(es, file_path@);
                if key_index(es, file_path@) != -1 {
                    assert(es[key_index(es, file_path@)].0@ != file_path@);
                }
            }
        }
        let mut fresh: Vec<Diagnostic> = Vec::new();
        fresh.push(diagnostic);
        proof {
            assert(fresh@ =~= seq![diagnostic]);
        }
        self.diagnostics.push((file_path, fresh));
        proof {
            assert(self.diagnostics@.take(es.len() as int) =~= es);
        }
    }

    /// The problems recorded under a file, when any are.
    pub fn get_diagnostics(&self, file_path: &str) -> (r: Option<&Vec<Diagnostic>>)
        ensures
            match r {
                Some(v) => key_index(self.diagnostics@, file_path@) != -1 && v@
                    == self.diagnostics@[key_index(self.diagnostics@, file_path@)].1@,
                None => key_index(self.diagnostics@, file_path@) == -1,
            },
    {
        let ghost es = self.diagnostics@;
        proof {
            lemma_key_index(es, file_path@);
        }
        let n = self.diagnostics.len();
        let mut i: usize = 0;
        while i < n
            invariant
                0 <= i <= n,
                n == self.diagnostics@.len(),
                self.diagnostics@ == es,
                forall|j: int| 0 <= j < i ==> (#[trigger] es[j]).0@ != file_path@,
            decreases n - i,
        {
            let fp = String::from_str(file_path);
            if self.diagnostics[i].0.eq(&fp) {
                proof {
                    assert(key_index(es, file_path@) == i) by {
                        lemma_key_index(es, file_path@);
                        if key_index(es, file_path@) == -1 {
                            assert(es[i as int].0@ != file_path@);
                        }
                        if key_index(es, file_path@) != -1 && key_index(es, file_path@) < i {
                            assert(es[key_index(es, file_path@)].0@ != file_path@);
                        }
                        if key_index(es, file_path@) != -1 && key_index(es, file_path@) > i {
                            assert(es[i as int].0@ != file_path@);
                        }
                    }
                }
                return Some(&self.diagnostics[i].1);
            }
            i = i + 1;
        }
        proof {
            assert(key_index(es, file_path@) == -1) by {
                lemma_key_index(es, file_path@);
                if key_index(es, file_path@) != -1 {
                    assert(es[key_index(es, file_path@)].0@ != file_path@);
                }
            }
        }
        None
    }

    /// Every entry of the store.
    pub fn get_all_diagnostics(&self) -> (r: &Vec<(String, Vec<Diagnostic>)>)
        ensures
            r@ == self.diagnostics@,
    {
        &self.diagnostics
    }

    /// Forget everything recorded.
    pub fn clear(&mut self)
        ensures
            final (self).diagnostics@.len() == 0,
    {
        self.diagnostics.clear();
    }

    /// Render the recorded errors, grouped under their files; warnings and
    /// weaker problems stay out. A store with no errors reads as none
    /// detected.
    pub fn format_diagnostics(&self) -> (r: String)
        ensures
            r@ == ({
                let body = entries_text(self.diagnostics@);
                if body.len() == 0 {
                    "(No errors detected)"@
                } else {
                    trim_ws(body)
                }
            }),
    {
        let es = &self.diagnostics;
        let mut result = String::new();
        let mut i: usize = 0;
        proof {
            assert(es@.skip(0) =~= es@);
        }
        while i < es.len()
            invariant
                0 <= i <= es@.len(),
                entries_text(es@) == result@ + entries_text(es@.skip(i as int)),
            decreases es@.len() - i,
        {
            let ghost rest = es@.skip(i as int);
            proof {
                assert(rest[0] == es@[i as int]);
                assert(rest.drop_first() =~= es@.skip(i + 1));
            }
            let entry = &es[i];
            let mut has_error: bool = false;
            let mut j0: usize = 0;
            while j0 < entry.1.len()
                invariant
                    0 <= j0 <= entry.1@.len(),
                    has_error <==> exists|m: int|
                        0 <= m < j0 && (#[trigger] entry.1@[m]).severity
                            == DiagnosticSeverity::Error,
                decreases entry.1@.len() - j0,
            {
                match entry.1[j0].severity {
                    DiagnosticSeverity::Error => {
                        has_error = true;
                        assert(entry.1@[j0 as int].severity == DiagnosticSeverity::Error);
                    },
                    _ => {},
                }
                j0 = j0 + 1;
            }
            proof {
                assert(has_error == has_error_diag(es@[i as int].1@));
            }
            if has_error {
                let ghost prevres = result@;
                result.append("\n## ");
                result.append(entry.0.as_str());
                let ghost head = prevres + "\n## "@ + es@[i as int].0@;
                proof {
                    assert(result@ =~= head);
                    assert(entry.1@.take(0) =~= Seq::<Diagnostic>::empty());
                }
                let mut j: usize = 0;
                while j < entry.1.len()
                    invariant
                        0 <= j <= entry.1@.len(),
                        result@ == head + error_lines(entry.1@.take(j as int)),
                    decreases entry.1@.len() - j,
                {
                    let ghost prefix = entry.1@.take(j as int);
                    proof {
                        lemma_error_lines_push(prefix, entry.1@[j as int]);
                        assert(entry.1@.take(j + 1) =~= prefix.push(entry.1@[j as int]));
                    }
                    let d = &entry.1[j];
                    match d.severity {
                        DiagnosticSeverity::Error => {
                            let ghost pr = result@;
                            result.append("\n- ");
                            match &d.source {
                                Some(s) => {
                                    result.append("[");
                                    result.append(s.as_str());
                                    result.append("] ");
                                },
                                None => {},
                            }
                            result.append("Line ");
                            result.append(udec(d.line as u64).as_str());
                            result.append(": ");
                            result.append(d.message.as_str());
                            proof {
                                assert(result@ =~= pr + diag_line(entry.1@[j as int]));
                                assert(pr + diag_line(entry.1@[j as int]) =~= head + (error_lines(
                                    prefix,
                                ) + diag_line(entry.1@[j as int])));
                            }
                        },
                        _ => {},
                    }
                    j = j + 1;
                }
                proof {
                    assert(entry.1@.take(entry.1@.len() as int) =~= entry.1@);
                    assert(entry_text(es@[i as int]) == "\n## "@ + es@[i as int].0@ + error_lines(
                        es@[i as int].1@,
                    ));
                    assert(result@ =~= prevres + entry_text(es@[i as int]));
                    assert(prevres + (entry_text(es@[i as int]) + entries_text(es@.skip(i + 1)))
                        =~= result@ + entries_text(es@.skip(i + 1)));
                }
            } else {
                proof {
                    assert(entry_text(es@[i as int]) =~= Seq::<char>::empty());
                    assert(result@ + (Seq::<char>::empty() + entries_text(es@.skip(i + 1))) =~=
                        result@ + entries_text(es@.skip(i + 1)));
                }
            }
            i = i + 1;
        }
        proof {
            assert(es@.skip(es@.len() as int) =~= Seq::<(String, Vec<Diagnostic>)>::empty());
            assert(result@ + entries_text(Seq::<(String, Vec<Diagnostic>)>::empty()) =~= result@);
        }
        let rc = chars_of(result.as_str());
        if rc.len() == 0 {
            return String::from_str("(No errors detected)");
        }
        let trimmed = trim_chars(&rc);
        string_from_chars(&trimmed)
    }
}

/// Whether any problem in the list is an error.
pub open spec fn has_error_diag(ds: Seq<Diagnostic>) -> bool {
    exists|m: int| 0 <= m < ds.len() && (#[trigger] ds[m]).severity == DiagnosticSeverity::Error
}

/// One error rendered on its own line.
pub open spec fn diag_line(d: Diagnostic) -> Seq<char> {
    "\n- "@ + (match d.source {
        Some(s) => "["@ + s@ + "] "@,
        None => Seq::empty(),
    }) + "Line "@ + dec_str(d.line as nat) + ": "@ + d.message@
}

/// The error lines of a list of problems, in order.
pub open spec fn error_lines(ds: Seq<Diagnostic>) -> Seq<char>
    decreases ds.len(),
{
    if ds.len() == 0 {
        Seq::empty()
    } else {
        error_lines(ds.drop_last()) + if ds.last().severity == DiagnosticSeverity::Error {
            diag_line(ds.last())
        } else {
            Seq::empty()
        }
    }
}

proof fn lemma_error_lines_push(ds: Seq<Diagnostic>, d: Diagnostic)
    ensures
        error_lines(ds.push(d)) == error_lines(ds) + if d.severity == DiagnosticSeverity::Error {
            diag_line(d)
        } else {
            Seq::empty()
        },
{
    assert(ds.push(d).drop_last() =~= ds);
    assert(ds.push(d).last() == d);
}

/// One file's section: nothing without errors, otherwise the heading and
/// its error lines.
pub open spec fn entry_text(e: (String, Vec<Diagnostic>)) -> Seq<char> {
    if has_error_diag(e.1@) {
        "\n## "@ + e.0@ + error_lines(e.1@)
    } else {
        Seq::empty()
    }
}

/// All sections back to back.
pub open spec fn entries_text(es: Seq<(String, Vec<Diagnostic>)>) -> Seq<char>
    decreases es.len(),
{
    if es.len() == 0 {
        Seq::empty()
    } else {
        entry_text(es[0]) + entries_text(es.drop_first())
    }
}

/// Leading whitespace dropped.
pub open spec fn trim_left(s: Seq<char>) -> Seq<char>
    decreases s.len(),
{
    if s.len() > 0 && is_ws_char(s[0]) {
        trim_left(s.drop_first())
    } else {
        s
    }
}

/// Trailing whitespace dropped.
pub open spec fn trim_right(s: Seq<char>) -> Seq<char>
    decreases s.len(),
{
    if s.len() > 0 && is_ws_char(s.last()) {
        trim_right(s.drop_last())
    } else {
        s
    }
}

/// Both ends trimmed.
pub open spec fn trim_ws(s: Seq<char>) -> Seq<char> {
    trim_right(trim_left(s))
}

proof fn lemma_trim_left_skip(s: Seq<char>, a: int)
    requires
        0 <= a <= s.len(),
        forall|j: int| 0 <= j < a ==> is_ws_char(s[j]),
        a < s.len() ==> !is_ws_char(s[a]),
    ensures
        trim_left(s) == s.skip(a),
    decreases a,
{
    if a == 0 {
        assert(s.skip(0) =~= s);
        if s.len() > 0 && is_ws_char(s[0]) {
            assert(false);
        }
    } else {
        assert(is_ws_char(s[0]));
        assert(s.len() > 0);
        lemma_trim_left_skip(s.drop_first(), a - 1);
        assert(s.drop_first().skip(a - 1) =~= s.skip(a));
    }
}

proof fn lemma_trim_right_take(s: Seq<char>, b: int)
    requires
        0 <= b <= s.len(),
        forall|j: int| b <= j < s.len() ==> is_ws_char(s[j]),
        b > 0 ==> !is_ws_char(s[b - 1]),
    ensures
        trim_right(s) == s.take(b),
    decreases s.len() - b,
{
    if b == s.len() {
        assert(s.take(b) =~= s);
        if s.len() > 0 && is_ws_char(s.last()) {
            assert(false);
        }
    } else {
        assert(is_ws_char(s.last()));
        lemma_trim_right_take(s.drop_last(), b);
        assert(s.drop_last().take(b) =~= s.take(b));
    }
}

/// Whitespace trimmed from both ends of a character sequence.
pub fn trim_chars(v: &Vec<char>) -> (r: Vec<char>)
    ensures
        r@ == trim_ws(v@),
{
    let n = v.len();
    let mut a: usize = 0;
    while a < n && is_ws(v[a])
        invariant
            0 <= a <= n == v@.len(),
            forall|j: int| 0 <= j < a ==> is_ws_char(v@[j]),
        decreases n - a,
    {
        a = a + 1;
    }
    proof {
        lemma_trim_left_skip(v@, a as int);
    }
    let mut b: usize = n;
    while b > a && is_ws(v[b - 1])
        invariant
            a <= b <= n == v@.len(),
            forall|j: int| b <= j < n ==> is_ws_char(v@[j]),
        decreases b,
    {
        b = b - 1;
    }
    proof {
        let t = v@.skip(a as int);
        assert(forall|j: int| b - a <= j < t.len() ==> t[j] == v@[a + j]);
        if b > a {
            assert(t[b - a - 1] == v@[b - 1]);
        }
        lemma_trim_right_take(t, b - a);
    }
    let mut out: Vec<char> = Vec::new();
    let mut k: usize = a;
    while k < b
        invariant
            a <= k <= b <= v@.len(),
            out@ == v@.subrange(a as int, k as int),
        decreases b - k,
    {
        out.push(v[k]);
        proof {
            assert(out@ =~= v@.subrange(a as int, k + 1));
        }
        k = k + 1;
    }
    proof {
        assert(out@ =~= v@.skip(a as int).take(b - a));
    }
    out
}

} // verus!
