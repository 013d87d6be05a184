//! Character-level text utilities the diff engine is built on: conversion
//! between `String` and `Vec<char>`, substring search, line splitting and
//! joining with the semantics of `str::lines`, and decimal rendering.

use vstd::prelude::*;

verus! {

/// Relies on `str::chars` and `Iterator::collect`: the characters of a
/// string slice, in order, are exactly its view.
#[verifier::external_body]
pub fn chars_of(s: &str) -> (r: Vec<char>)
    ensures
        r@ == s@,
{
    s.chars().collect()
}

/// Relies on `Iterator::collect` for `String`: collecting characters
/// builds the string whose view is that character sequence.
#[verifier::external_body]
pub fn string_from_chars(v: &Vec<char>) -> (r: String)
    ensures
        r@ == v@,
{
    v.iter().collect()
}

/// The pattern `p` occurs in `t` at position `i`.
pub open spec fn is_match_at(t: Seq<char>, p: Seq<char>, i: int) -> bool {
    0 <= i && i + p.len() <= t.len() && t.subrange(i, i + p.len()) == p
}

/// Some position at or after `from` carries a match of `p`.
pub open spec fn has_match_from(t: Seq<char>, p: Seq<char>, from: int) -> bool {
    exists|i: int| from <= i && is_match_at(t, p, i)
}

/// First occurrence of `p` in `t` at or after `from`, as naive scanning finds it.
pub fn find_sub(t: &Vec<char>, p: &Vec<char>, from: usize) -> (r: Option<usize>)
    ensures
        match r {
            Some(i) => from <= i && is_match_at(t@, p@, i as int) && forall|j: int|
                from <= j < i ==> !is_match_at(t@, p@, j),
            None => !has_match_from(t@, p@, from as int),
        },
{
    if p.len() > t.len() {
        assert(forall|i: int| from <= i ==> !is_match_at(t@, p@, i));
        return None;
    }
    let tn: usize = t.len();
    let last_start: usize = tn - p.len();
    let mut i: usize = from;
    while i <= last_start
        invariant
            from <= i,
            p@.len() <= t@.len(),
            tn == t@.len(),
            last_start == t@.len() - p@.len(),
            forall|j: int| from <= j < i ==> !is_match_at(t@, p@, j),
        decreases t@.len() - i,
    {
        let mut k: usize = 0;
        let mut ok: bool = true;
        while k < p.len()
            invariant
                0 <= k <= p@.len(),
                tn == t@.len(),
                i + p@.len() <= t@.len(),
                ok <==> (forall|m: int| 0 <= m < k ==> t@[i + m] == p@[m]),
            decreases p@.len() - k,
        {
            if t[i + k] != p[k] {
                ok = false;
                k = p.len();
            } else {
                assert(t@[i + k] == p@[k as int]);
                k = k + 1;
            }
        }
        if ok {
            assert(t@.subrange(i as int, i + p@.len()) =~= p@);
            return Some(i);
        }
        assert(!is_match_at(t@, p@, i as int)) by {
            if is_match_at(t@, p@, i as int) {
                assert(forall|m: int|
                    0 <= m < p@.len() ==> #[trigger] t@.subrange(i as int, i + p@.len())[m] == t@[i
                        + m]);
            }
        }
        i = i + 1;
    }
    assert(forall|j: int| from <= j ==> !is_match_at(t@, p@, j)) by {
        assert(forall|j: int| j + p@.len() > t@.len() ==> !is_match_at(t@, p@, j));
    }
    None
}

/// Non-overlapping occurrences of `p` in `t` from position `i` on, scanned
/// left to right.
pub open spec fn count_from(t: Seq<char>, p: Seq<char>, i: int) -> nat
    decreases t.len() - i,
        when p.len() > 0
{
    if i + p.len() > t.len() {
        0
    } else if is_match_at(t, p, i) {
        1 + count_from(t, p, i + p.len())
    } else {
        count_from(t, p, i + 1)
    }
}

/// Non-overlapping occurrences of `p` in `t`; an empty pattern matches at
/// every position, ends included.
pub open spec fn count_occ(t: Seq<char>, p: Seq<char>) -> nat {
    if p.len() == 0 {
        t.len() + 1
    } else {
        count_from(t, p, 0)
    }
}

proof fn lemma_count_none(t: Seq<char>, p: Seq<char>, i: int)
    requires
        p.len() > 0,
        !has_match_from(t, p, i),
    ensures
        count_from(t, p, i) == 0,
    decreases t.len() - i,
{
    if i + p.len() > t.len() {
    } else {
        assert(!is_match_at(t, p, i));
        assert(!has_match_from(t, p, i + 1));
        lemma_count_none(t, p, i + 1);
    }
}

proof fn lemma_count_advance(t: Seq<char>, p: Seq<char>, i: int, k: int)
    requires
        p.len() > 0,
        i <= k,
        forall|j: int| i <= j < k ==> !is_match_at(t, p, j),
        k + p.len() <= t.len() + p.len(),
    ensures
        count_from(t, p, i) == count_from(t, p, k),
    decreases k - i,
{
    if i == k {
    } else {
        if i + p.len() > t.len() {
            assert(k + p.len() > t.len());
        } else {
            lemma_count_advance(t, p, i + 1, k);
        }
    }
}

/// How often `p` occurs in `t` (non-overlapping), counted up to `cap`.
pub fn count_occ_capped(t: &Vec<char>, p: &Vec<char>, cap: usize) -> (r: usize)
    ensures
        r == if count_occ(t@, p@) <= cap {
            count_occ(t@, p@) as int
        } else {
            cap as int
        },
{
    if p.len() == 0 {
        if cap <= t.len() {
            return cap;
        } else {
            return t.len() + 1;
        }
    }
    let tn: usize = t.len();
    let pn: usize = p.len();
    let mut i: usize = 0;
    let mut c: usize = 0;
    loop
        invariant
            p@.len() > 0,
            tn == t@.len(),
            pn == p@.len(),
            c <= cap,
            0 <= i <= t@.len() + p@.len(),
            count_occ(t@, p@) == c + count_from(t@, p@, i as int),
        decreases t@.len() + p@.len() - i, cap - c,
    {
        if c == cap {
            return cap;
        }
        match find_sub(t, p, i) {
            Some(k) => {
                proof {
                    lemma_count_advance(t@, p@, i as int, k as int);
                }
                c = c + 1;
                i = k + p.len();
            },
            None => {
                proof {
                    lemma_count_none(t@, p@, i as int);
                }
                return c;
            },
        }
    }
}

/// Index of the first `c` in `s`, or `s.len()` when `s` has no `c`.
pub open spec fn idx_of(s: Seq<char>, c: char) -> nat
    decreases s.len(),
{
    if s.len() == 0 {
        0
    } else if s[0] == c {
        0
    } else {
        1 + idx_of(s.drop_first(), c)
    }
}

pub proof fn lemma_idx_of(s: Seq<char>, c: char)
    ensures
        0 <= idx_of(s, c) <= s.len(),
        idx_of(s, c) < s.len() ==> s[idx_of(s, c) as int] == c,
        forall|j: int| 0 <= j < idx_of(s, c) ==> s[j] != c,
    decreases s.len(),
{
    if s.len() == 0 {
    } else if s[0] == c {
    } else {
        lemma_idx_of(s.drop_first(), c);
        assert forall|j: int| 0 <= j < idx_of(s, c) implies s[j] != c by {
            if j > 0 {
                assert(s.drop_first()[j - 1] == s[j]);
            }
        }
    }
}

/// Index of the first `c` in `s` at or after `from`; `s.len()` when absent.
pub fn find_char_from(s: &Vec<char>, c: char, from: usize) -> (r: usize)
    requires
        from <= s@.len(),
    ensures
        from <= r <= s@.len(),
        r < s@.len() ==> s@[r as int] == c,
        forall|j: int| from <= j < r ==> s@[j] != c,
{
    let mut i: usize = from;
    while i < s.len()
        invariant
            from <= i <= s@.len(),
            forall|j: int| from <= j < i ==> s@[j] != c,
        decreases s@.len() - i,
    {
        if s[i] == c {
            return i;
        }
        i = i + 1;
    }
    i
}

/// The decimal digit characters.
pub open spec fn digit_char(d: nat) -> char {
    if d == 0 {
        '0'
    } else if d == 1 {
        '1'
    } else if d == 2 {
        '2'
    } else if d == 3 {
        '3'
    } else if d == 4 {
        '4'
    } else if d == 5 {
        '5'
    } else if d == 6 {
        '6'
    } else if d == 7 {
        '7'
    } else if d == 8 {
        '8'
    } else {
        '9'
    }
}

/// The decimal rendering of a number, most significant digit first.
pub open spec fn dec_str(n: nat) -> Seq<char>
    decreases n,
{
    if n < 10 {
        seq![digit_char(n)]
    } else {
        dec_str(n / 10).push(digit_char(n % 10))
    }
}

fn digit_of(d: u64) -> (c: char)
    requires
        d < 10,
    ensures
        c == digit_char(d as nat),
{
    if d == 0 {
        '0'
    } else if d == 1 {
        '1'
    } else if d == 2 {
        '2'
    } else if d == 3 {
        '3'
    } else if d == 4 {
        '4'
    } else if d == 5 {
        '5'
    } else if d == 6 {
        '6'
    } else if d == 7 {
        '7'
    } else if d == 8 {
        '8'
    } else {
        '9'
    }
}

fn dec_chars(n: u64) -> (r: Vec<char>)
    ensures
        r@ == dec_str(n as nat),
    decreases n,
{
    if n < 10 {
        let mut v: Vec<char> = Vec::new();
        v.push(digit_of(n));
        proof {
            assert(v@ =~= seq![digit_char(n as nat)]);
        }
        v
    } else {
        let mut v = dec_chars(n / 10);
        v.push(digit_of(n % 10));
        v
    }
}

/// A number rendered in decimal.
pub fn udec(n: u64) -> (r: String)
    ensures
        r@ == dec_str(n as nat),
{
    let v = dec_chars(n);
    string_from_chars(&v)
}

/// A trailing carriage return removed, as `str::lines` does before a newline.
pub open spec fn strip_cr(l: Seq<char>) -> Seq<char> {
    if l.len() > 0 && l.last() == '\r' {
        l.drop_last()
    } else {
        l
    }
}

/// The lines of `s` with the semantics of `str::lines`: split at `'\n'`,
/// a carriage return directly before the split removed, and no empty final
/// line when the text ends with a newline.
pub open spec fn split_lines_seq(s: Seq<char>) -> Seq<Seq<char>>
    decreases s.len(),
{
    if s.len() == 0 {
        Seq::empty()
    } else {
        let i = idx_of(s, '\n') as int;
        if i >= s.len() {
            seq![s]
        } else {
            seq![strip_cr(s.take(i))] + split_lines_seq(s.skip(i + 1))
        }
    }
}

/// Views of a sequence of strings.
pub open spec fn views_of(v: Seq<String>) -> Seq<Seq<char>> {
    v.map_values(|s: String| s@)
}

/// The lines joined back with single newlines (no trailing newline).
pub open spec fn join_nl(ls: Seq<Seq<char>>) -> Seq<char>
    decreases ls.len(),
{
    if ls.len() == 0 {
        Seq::empty()
    } else if ls.len() == 1 {
        ls[0]
    } else {
        ls[0] + seq!['\n'] + join_nl(ls.drop_first())
    }
}

pub proof fn lemma_join_nl_push(ls: Seq<Seq<char>>, x: Seq<char>)
    ensures
        join_nl(ls.push(x)) == if ls.len() == 0 {
            x
        } else {
            join_nl(ls) + seq!['\n'] + x
        },
    decreases ls.len(),
{
    if ls.len() == 0 {
        assert(ls.push(x)[0] =~= x);
        assert(ls.push(x).len() == 1);
        assert(join_nl(ls.push(x)) == x);
    } else {
        lemma_join_nl_push(ls.drop_first(), x);
        assert(ls.push(x).drop_first() =~= ls.drop_first().push(x));
        if ls.len() == 1 {
            assert(join_nl(ls) == ls[0]);
            assert(join_nl(ls.drop_first().push(x)) == x);
            assert(join_nl(ls.push(x)) =~= ls[0] + seq!['\n'] + x);
        } else {
            assert(join_nl(ls.push(x)) == ls[0] + seq!['\n'] + join_nl(ls.drop_first().push(x)));
            assert(join_nl(ls.push(x)) =~= join_nl(ls) + seq!['\n'] + x);
        }
    }
}

/// No newline character anywhere in the line.
pub open spec fn no_nl(l: Seq<char>) -> bool {
    forall|i: int| 0 <= i < l.len() ==> l[i] != '\n'
}

/// A line that splitting and joining treat as one unit: non-empty, free of
/// newlines, and not ending in a carriage return.
pub open spec fn clean_line(l: Seq<char>) -> bool {
    l.len() > 0 && no_nl(l) && l.last() != '\r'
}

pub open spec fn clean_lines(ls: Seq<Seq<char>>) -> bool {
    forall|i: int| 0 <= i < ls.len() ==> clean_line(#[trigger] ls[i])
}

proof fn lemma_idx_of_at(s: Seq<char>, c: char, at: int)
    requires
        0 <= at <= s.len(),
        at < s.len() ==> s[at] == c,
        at == s.len() ==> (forall|j: int| 0 <= j < s.len() ==> s[j] != c),
        forall|j: int| 0 <= j < at ==> s[j] != c,
    ensures
        idx_of(s, c) == at,
{
    lemma_idx_of(s, c);
    if idx_of(s, c) < at {
        assert(s[idx_of(s, c) as int] == c);
    }
    if idx_of(s, c) > at {
        assert(at < s.len());
    }
}

/// Splitting the join of clean lines gives the lines back.
pub proof fn lemma_split_join_id(ls: Seq<Seq<char>>)
    requires
        clean_lines(ls),
    ensures
        split_lines_seq(join_nl(ls)) == ls,
    decreases ls.len(),
{
    if ls.len() == 0 {
        assert(split_lines_seq(join_nl(ls)) =~= ls);
    } else if ls.len() == 1 {
        let s = join_nl(ls);
        assert(s == ls[0]);
        assert(clean_line(ls[0]));
        lemma_idx_of_at(s, '\n', s.len() as int);
        assert(split_lines_seq(s) =~= ls);
    } else {
        let s = join_nl(ls);
        let h = ls[0];
        let rest = join_nl(ls.drop_first());
        assert(s == h + seq!['\n'] + rest);
        assert(clean_line(h));
        lemma_idx_of_at(s, '\n', h.len() as int);
        let i = idx_of(s, '\n') as int;
        assert(i == h.len());
        assert(i < s.len());
        assert(s.take(i) =~= h);
        assert(strip_cr(h) == h);
        assert(s.skip(i + 1) =~= rest);
        assert(forall|j: int| 0 <= j < ls.drop_first().len() ==> ls.drop_first()[j] == ls[j + 1]);
        lemma_split_join_id(ls.drop_first());
        assert(split_lines_seq(s) == seq![h] + ls.drop_first());
        assert(seq![h] + ls.drop_first() =~= ls);
    }
}

/// Two line sequences of the same length, none of whose lines carries a
/// newline, that join to the same text are the same lines.
pub proof fn lemma_join_nl_injective(a: Seq<Seq<char>>, b: Seq<Seq<char>>)
    requires
        a.len() == b.len(),
        forall|i: int| 0 <= i < a.len() ==> no_nl(#[trigger] a[i]),
        forall|i: int| 0 <= i < b.len() ==> no_nl(#[trigger] b[i]),
        join_nl(a) == join_nl(b),
    ensures
        a == b,
    decreases a.len(),
{
    if a.len() == 0 {
        assert(a =~= b);
    } else if a.len() == 1 {
        assert(join_nl(a) == a[0]);
        assert(join_nl(b) == b[0]);
        assert(a =~= b);
    } else {
        let s = join_nl(a);
        assert(s == a[0] + seq!['\n'] + join_nl(a.drop_first()));
        assert(s == b[0] + seq!['\n'] + join_nl(b.drop_first()));
        lemma_idx_of_at(s, '\n', a[0].len() as int);
        lemma_idx_of_at(s, '\n', b[0].len() as int);
        assert(a[0].len() == b[0].len());
        assert(a[0] =~= s.take(a[0].len() as int));
        assert(b[0] =~= s.take(b[0].len() as int));
        assert(join_nl(a.drop_first()) =~= s.skip(a[0].len() as int + 1));
        assert(join_nl(b.drop_first()) =~= s.skip(b[0].len() as int + 1));
        assert(forall|j: int| 0 <= j < a.drop_first().len() ==> a.drop_first()[j] == a[j + 1]);
        assert(forall|j: int| 0 <= j < b.drop_first().len() ==> b.drop_first()[j] == b[j + 1]);
        lemma_join_nl_injective(a.drop_first(), b.drop_first());
        assert forall|j: int| 0 <= j < a.len() implies a[j] == b[j] by {
            if j > 0 {
                assert(a.drop_first()[j - 1] == a[j]);
                assert(b.drop_first()[j - 1] == b[j]);
            }
        }
        assert(a =~= b);
    }
}

/// The lines produced by splitting carry no newline.
pub proof fn lemma_split_lines_no_nl(s: Seq<char>)
    ensures
        forall|i: int|
            0 <= i < split_lines_seq(s).len() ==> no_nl(#[trigger] split_lines_seq(s)[i]),
    decreases s.len(),
{
    if s.len() == 0 {
    } else {
        lemma_idx_of(s, '\n');
        let i = idx_of(s, '\n') as int;
        if i >= s.len() {
            assert(split_lines_seq(s) == seq![s]);
            assert(no_nl(s));
        } else {
            lemma_split_lines_no_nl(s.skip(i + 1));
            assert(no_nl(strip_cr(s.take(i)))) by {
                assert(forall|j: int| 0 <= j < i ==> s.take(i)[j] == s[j]);
                assert(no_nl(s.take(i)));
                if s.take(i).len() > 0 && s.take(i).last() == '\r' {
                    assert(forall|j: int|
                        0 <= j < s.take(i).drop_last().len() ==> s.take(i).drop_last()[j]
                            == s.take(i)[j]);
                }
            }
            assert(forall|j: int|
                0 <= j < split_lines_seq(s).len() ==> split_lines_seq(s)[j] == (seq![
                    strip_cr(s.take(i)),
                ] + split_lines_seq(s.skip(i + 1)))[j]);
        }
    }
}

/// Split text into its lines, as `str::lines` does.
pub fn split_lines(s: &str) -> (r: Vec<String>)
    ensures
        views_of(r@) == split_lines_seq(s@),
{
    let cs = chars_of(s);
    let mut out: Vec<String> = Vec::new();
    let mut i: usize = 0;
    proof {
        assert(views_of(out@) =~= Seq::<Seq<char>>::empty());
        assert(cs@.skip(0) =~= cs@);
    }
    while i < cs.len()
        invariant
            0 <= i <= cs@.len(),
            cs@ == s@,
            split_lines_seq(s@) == views_of(out@) + split_lines_seq(cs@.skip(i as int)),
        decreases cs@.len() - i,
    {
        let ghost rest = cs@.skip(i as int);
        let j = find_char_from(&cs, '\n', i);
        proof {
            lemma_idx_of(rest, '\n');
            assert forall|m: int| 0 <= m < rest.len() implies rest[m] == cs@[i + m] by {}
            if j < cs@.len() {
                assert(idx_of(rest, '\n') == j - i) by {
                    assert(rest[j - i] == '\n');
                    assert(forall|m: int| 0 <= m < j - i ==> rest[m] != '\n');
                    if idx_of(rest, '\n') < j - i {
                        assert(rest[idx_of(rest, '\n') as int] == '\n');
                    }
                    if idx_of(rest, '\n') > j - i {
                        assert(rest[j - i] != '\n');
                    }
                }
            } else {
                assert(idx_of(rest, '\n') == rest.len()) by {
                    if idx_of(rest, '\n') < rest.len() {
                        assert(rest[idx_of(rest, '\n') as int] == '\n');
                        assert(cs@[i + idx_of(rest, '\n')] == '\n');
                    }
                }
            }
        }
        // the piece before the newline (or the rest of the text)
        let mut piece: Vec<char> = Vec::new();
        let mut k: usize = i;
        let end: usize = if j < cs.len() && j > i && cs[j - 1] == '\r' {
            j - 1
        } else {
            j
        };
        while k < end
            invariant
                i <= k <= end <= cs@.len(),
                piece@ == cs@.subrange(i as int, k as int),
            decreases end - k,
        {
            piece.push(cs[k]);
            proof {
                assert(piece@ =~= cs@.subrange(i as int, k + 1));
            }
            k = k + 1;
        }
        let line = string_from_chars(&piece);
        out.push(line);
        proof {
            let ii = idx_of(rest, '\n') as int;
            if j < cs@.len() {
                // a newline was found at j == i + ii
                assert(rest.take(ii) =~= cs@.subrange(i as int, j as int));
                assert(strip_cr(rest.take(ii)) =~= cs@.subrange(i as int, end as int)) by {
                    if j > i && cs@[j - 1] == '\r' {
                        assert(rest.take(ii).len() > 0);
                        assert(rest.take(ii).last() == '\r');
                        assert(rest.take(ii).drop_last() =~= cs@.subrange(i as int, j - 1));
                    } else {
                        if rest.take(ii).len() > 0 && rest.take(ii).last() == '\r' {
                            assert(cs@[j - 1] == '\r');
                        }
                    }
                }
                assert(rest.skip(ii + 1) =~= cs@.skip(j + 1));
                assert(split_lines_seq(rest) == seq![strip_cr(rest.take(ii))]
                    + split_lines_seq(cs@.skip(j + 1)));
                assert(views_of(out@) =~= views_of(out@.drop_last()) + seq![line@]);
                assert(views_of(out@.drop_last()) + (seq![strip_cr(rest.take(ii))]
                    + split_lines_seq(cs@.skip(j + 1))) =~= views_of(out@) + split_lines_seq(
                    cs@.skip(j + 1)));
            } else {
                // no newline: the final line is the whole rest
                assert(rest.len() > 0);
                assert(split_lines_seq(rest) == seq![rest]);
                assert(piece@ =~= rest);
                assert(views_of(out@) =~= views_of(out@.drop_last()) + seq![line@]);
                assert(cs@.skip(cs@.len() as int) =~= Seq::<char>::empty());
                assert(views_of(out@.drop_last()) + seq![rest] =~= views_of(out@)
                    + split_lines_seq(cs@.skip(cs@.len() as int)));
            }
        }
        if j < cs.len() {
            i = j + 1;
        } else {
            i = j;
        }
    }
    proof {
        assert(cs@.skip(i as int) =~= Seq::<char>::empty());
        assert(views_of(out@) + split_lines_seq(Seq::<char>::empty()) =~= views_of(out@));
    }
    out
}

/// Join lines with single newlines, the inverse direction of `split_lines`.
pub fn join_lines(v: &Vec<String>) -> (r: String)
    ensures
        r@ == join_nl(views_of(v@)),
{
    let mut acc = String::new();
    let mut i: usize = 0;
    proof {
        assert(views_of(v@.take(0)) =~= Seq::<Seq<char>>::empty());
    }
    while i < v.len()
        invariant
            0 <= i <= v@.len(),
            acc@ == join_nl(views_of(v@.take(i as int))),
        decreases v@.len() - i,
    {
        if i > 0 {
            acc.append("\n");
            proof {
                reveal_strlit("\n");
            }
        }
        acc.append(v[i].as_str());
        proof {
            lemma_join_nl_push(views_of(v@.take(i as int)), v@[i as int]@);
            assert(views_of(v@.take(i + 1)) =~= views_of(v@.take(i as int)).push(v@[i as int]@));
            if i == 0 {
                assert(acc@ =~= join_nl(views_of(v@.take(i + 1))));
            } else {
                assert(acc@ =~= join_nl(views_of(v@.take(i + 1))));
            }
        }
        i = i + 1;
    }
    proof {
        assert(v@.take(v@.len() as int) =~= v@);
    }
    acc
}

} // verus!
