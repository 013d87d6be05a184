//! Normalized Levenshtein similarity, the confidence measure every search
//! and edit strategy scores with. Similarity is reported on a fixed-point
//! scale: `CONFIDENCE_SCALE` (1000) stands for 1.0.

use vstd::prelude::*;

verus! {

pub const CONFIDENCE_SCALE: u32 = 1000;

pub open spec fn min3(x: nat, y: nat, z: nat) -> nat {
    if x <= y && x <= z {
        x
    } else if y <= z {
        y
    } else {
        z
    }
}

/// Levenshtein edit distance: fewest single-character insertions, deletions
/// and substitutions that turn `a` into `b`.
pub open spec fn lev(a: Seq<char>, b: Seq<char>) -> nat
    decreases a.len(), b.len(),
{
    if a.len() == 0 {
        b.len()
    } else if b.len() == 0 {
        a.len()
    } else {
        min3(
            lev(a.drop_last(), b) + 1,
            lev(a, b.drop_last()) + 1,
            lev(a.drop_last(), b.drop_last()) + if a.last() == b.last() {
                0nat
            } else {
                1nat
            },
        )
    }
}

pub open spec fn max_len(a: Seq<char>, b: Seq<char>) -> nat {
    if a.len() >= b.len() {
        a.len()
    } else {
        b.len()
    }
}

/// The distance never exceeds the longer length.
pub proof fn lemma_lev_le_max(a: Seq<char>, b: Seq<char>)
    ensures
        lev(a, b) <= max_len(a, b),
    decreases a.len(), b.len(),
{
    if a.len() == 0 {
    } else if b.len() == 0 {
    } else {
        lemma_lev_le_max(a.drop_last(), b.drop_last());
    }
}

/// The distance is symmetric in its arguments.
pub proof fn lemma_lev_symmetric(a: Seq<char>, b: Seq<char>)
    ensures
        lev(a, b) == lev(b, a),
    decreases a.len(), b.len(),
{
    if a.len() == 0 {
    } else if b.len() == 0 {
    } else {
        lemma_lev_symmetric(a.drop_last(), b);
        lemma_lev_symmetric(a, b.drop_last());
        lemma_lev_symmetric(a.drop_last(), b.drop_last());
    }
}

/// A sequence is at distance zero from itself.
pub proof fn lemma_lev_self(a: Seq<char>)
    ensures
        lev(a, a) == 0,
    decreases a.len(),
{
    if a.len() == 0 {
    } else {
        lemma_lev_self(a.drop_last());
    }
}

/// Distance zero happens only between equal sequences.
pub proof fn lemma_lev_zero_eq(a: Seq<char>, b: Seq<char>)
    requires
        lev(a, b) == 0,
    ensures
        a == b,
    decreases a.len(), b.len(),
{
    if a.len() == 0 {
        assert(b.len() == 0);
        assert(a =~= b);
    } else if b.len() == 0 {
        assert(false);
    } else {
        assert(lev(a.drop_last(), b.drop_last()) == 0 && a.last() == b.last());
        lemma_lev_zero_eq(a.drop_last(), b.drop_last());
        assert(a =~= a.drop_last().push(a.last()));
        assert(b =~= b.drop_last().push(b.last()));
    }
}

/// Normalized Levenshtein similarity on the fixed-point scale: the distance
/// divided by the longer length, inverted. Two empty sequences are fully
/// similar.
pub open spec fn sim_milli(a: Seq<char>, b: Seq<char>) -> int {
    if max_len(a, b) == 0 {
        CONFIDENCE_SCALE as int
    } else {
        ((max_len(a, b) - lev(a, b)) * (CONFIDENCE_SCALE as int)) / (max_len(a, b) as int)
    }
}

/// Similarity is symmetric.
pub proof fn lemma_sim_symmetric(a: Seq<char>, b: Seq<char>)
    ensures
        sim_milli(a, b) == sim_milli(b, a),
{
    lemma_lev_symmetric(a, b);
}

/// Similarity stays on the scale: between 0 and 1000.
pub proof fn lemma_sim_bounds(a: Seq<char>, b: Seq<char>)
    ensures
        0 <= sim_milli(a, b) <= CONFIDENCE_SCALE,
{
    lemma_lev_le_max(a, b);
    let m = max_len(a, b) as int;
    let d = lev(a, b) as int;
    if m != 0 {
        assert(0 <= (m - d) * 1000 <= m * 1000) by (nonlinear_arith)
            requires
                0 <= d <= m,
        ;
        assert(0 <= ((m - d) * 1000) / m <= 1000) by (nonlinear_arith)
            requires
                m > 0,
                0 <= (m - d) * 1000 <= m * 1000,
        ;
    }
}

/// Full similarity happens exactly between equal sequences.
pub proof fn lemma_sim_full_iff_eq(a: Seq<char>, b: Seq<char>)
    ensures
        sim_milli(a, b) == CONFIDENCE_SCALE <==> a == b,
{
    lemma_lev_le_max(a, b);
    let m = max_len(a, b) as int;
    let d = lev(a, b) as int;
    if m == 0 {
        assert(a =~= b);
        lemma_lev_self(a);
    } else {
        assert(((m - d) * 1000) / m == 1000 <==> d == 0) by (nonlinear_arith)
            requires
                m > 0,
                0 <= d <= m,
        ;
        if d == 0 {
            lemma_lev_zero_eq(a, b);
        }
        if a == b {
            lemma_lev_self(a);
        }
    }
}

/// The whitespace characters, as Unicode defines the White_Space property.
pub open spec fn is_ws_char(c: char) -> bool {
    (c as u32) == 0x09 || (c as u32) == 0x0a || (c as u32) == 0x0b || (c as u32) == 0x0c || (
    c as u32) == 0x0d || (c as u32) == 0x20 || (c as u32) == 0x85 || (c as u32) == 0xa0 || (
    c as u32) == 0x1680 || (0x2000 <= (c as u32) && (c as u32) <= 0x200a) || (c as u32) == 0x2028
        || (c as u32) == 0x2029 || (c as u32) == 0x202f || (c as u32) == 0x205f || (c as u32)
        == 0x3000
}

pub fn is_ws(c: char) -> (r: bool)
    ensures
        r == is_ws_char(c),
{
    let u = c as u32;
    u == 0x09 || u == 0x0a || u == 0x0b || u == 0x0c || u == 0x0d || u == 0x20 || u == 0x85 || u
        == 0xa0 || u == 0x1680 || (0x2000 <= u && u <= 0x200a) || u == 0x2028 || u == 0x2029 || u
        == 0x202f || u == 0x205f || u == 0x3000
}

/// One left-to-right pass of whitespace normalization: runs of whitespace
/// become a single space, and leading and trailing whitespace falls away.
/// `pending` records that a space is owed before the next visible character.
pub open spec fn norm_rec(s: Seq<char>, i: int, pending: bool, acc: Seq<char>) -> Seq<char>
    decreases s.len() - i,
{
    if i < 0 || i >= s.len() {
        acc
    } else if is_ws_char(s[i]) {
        norm_rec(s, i + 1, acc.len() > 0, acc)
    } else if pending {
        norm_rec(s, i + 1, false, acc + seq![' ', s[i]])
    } else {
        norm_rec(s, i + 1, false, acc.push(s[i]))
    }
}

/// Whitespace runs collapsed to single spaces, ends trimmed.
pub open spec fn normalize_ws(s: Seq<char>) -> Seq<char> {
    norm_rec(s, 0, false, Seq::empty())
}

/// Normalize whitespace in a character sequence.
pub fn normalize_chars(v: &Vec<char>) -> (r: Vec<char>)
    ensures
        r@ == normalize_ws(v@),
{
    let mut out: Vec<char> = Vec::new();
    let mut pending: bool = false;
    let mut i: usize = 0;
    while i < v.len()
        invariant
            0 <= i <= v@.len(),
            pending ==> out@.len() > 0,
            normalize_ws(v@) == norm_rec(v@, i as int, pending, out@),
        decreases v@.len() - i,
    {
        let c = v[i];
        if is_ws(c) {
            pending = out.len() > 0;
        } else if pending {
            proof {
                assert(out@ + seq![' ', c] =~= out@.push(' ').push(c));
            }
            out.push(' ');
            out.push(c);
            pending = false;
        } else {
            out.push(c);
        }
        i = i + 1;
    }
    out
}

/// The whole of what similarity promises about whitespace-normalized text:
/// the score does not depend on the order of the two texts, it stays within
/// the scale, and it reaches the top of the scale exactly when the two
/// normalized forms coincide — whatever raw whitespace either text had.
pub proof fn lemma_normalized_similarity(a: Seq<char>, b: Seq<char>)
    ensures
        sim_milli(normalize_ws(a), normalize_ws(b)) == sim_milli(normalize_ws(b), normalize_ws(a)),
        0 <= sim_milli(normalize_ws(a), normalize_ws(b)) <= CONFIDENCE_SCALE,
        sim_milli(normalize_ws(a), normalize_ws(b)) == CONFIDENCE_SCALE <==> normalize_ws(a)
            == normalize_ws(b),
{
    lemma_sim_symmetric(normalize_ws(a), normalize_ws(b));
    lemma_sim_bounds(normalize_ws(a), normalize_ws(b));
    lemma_sim_full_iff_eq(normalize_ws(a), normalize_ws(b));
}

/// What the executable similarity returns: the mathematical score, except
/// that sequences too long for a distance row to be allocated score 0.
pub open spec fn sim_milli_capped(a: Seq<char>, b: Seq<char>) -> int {
    if a.len() >= usize::MAX || b.len() >= usize::MAX {
        0
    } else {
        sim_milli(a, b)
    }
}

/// The edit distance, computed row by row. A row holds one entry more than
/// `b` has characters, so each input must leave room for that.
pub fn levenshtein(a: &Vec<char>, b: &Vec<char>) -> (d: usize)
    requires
        a@.len() < usize::MAX,
        b@.len() < usize::MAX,
    ensures
        d == lev(a@, b@),
{
    let n = a.len();
    let m = b.len();
    let mut prev: Vec<usize> = Vec::new();
    let mut j: usize = 0;
    while j <= m
        invariant
            0 <= j <= m + 1,
            m == b@.len() < usize::MAX,
            prev@.len() == j,
            forall|jj: int| 0 <= jj < j ==> prev@[jj] == lev(Seq::<char>::empty(), b@.take(jj)),
        decreases m + 1 - j,
    {
        proof {
            assert(b@.take(j as int).len() == j);
            assert(lev(Seq::<char>::empty(), b@.take(j as int)) == j);
        }
        prev.push(j);
        j = j + 1;
    }
    proof {
        assert(a@.take(0) =~= Seq::<char>::empty());
    }
    let mut i: usize = 1;
    while i <= n
        invariant
            1 <= i <= n + 1,
            n == a@.len() < usize::MAX,
            m == b@.len() < usize::MAX,
            prev@.len() == m + 1,
            forall|jj: int| 0 <= jj <= m ==> prev@[jj] == lev(a@.take(i - 1), b@.take(jj)),
        decreases n + 1 - i,
    {
        let mut curr: Vec<usize> = Vec::new();
        proof {
            assert(b@.take(0) =~= Seq::<char>::empty());
            assert(lev(a@.take(i as int), b@.take(0)) == a@.take(i as int).len());
        }
        curr.push(i);
        let mut j: usize = 1;
        while j <= m
            invariant
                1 <= j <= m + 1,
                1 <= i <= n,
                n == a@.len() < usize::MAX,
                m == b@.len() < usize::MAX,
                prev@.len() == m + 1,
                curr@.len() == j,
                forall|jj: int| 0 <= jj <= m ==> prev@[jj] == lev(a@.take(i - 1), b@.take(jj)),
                forall|jj: int| 0 <= jj < j ==> curr@[jj] == lev(a@.take(i as int), b@.take(jj)),
            decreases m + 1 - j,
        {
            proof {
                lemma_lev_le_max(a@.take(i as int), b@.take(j - 1));
                lemma_lev_le_max(a@.take(i - 1), b@.take(j as int));
                lemma_lev_le_max(a@.take(i - 1), b@.take(j - 1));
            }
            let cost: usize = if a[i - 1] == b[j - 1] {
                0
            } else {
                1
            };
            let c1 = curr[j - 1] + 1;
            let c2 = prev[j] + 1;
            let c3 = prev[j - 1] + cost;
            let best = if c1 <= c2 && c1 <= c3 {
                c1
            } else if c2 <= c3 {
                c2
            } else {
                c3
            };
            proof {
                let ta = a@.take(i as int);
                let tb = b@.take(j as int);
                assert(ta.len() == i && tb.len() == j);
                assert(ta.drop_last() =~= a@.take(i - 1));
                assert(tb.drop_last() =~= b@.take(j - 1));
                assert(ta.last() == a@[i - 1]);
                assert(tb.last() == b@[j - 1]);
                assert(lev(ta, tb) == min3(
                    lev(a@.take(i - 1), tb) + 1,
                    lev(ta, b@.take(j - 1)) + 1,
                    lev(a@.take(i - 1), b@.take(j - 1)) + if a@[i - 1] == b@[j - 1] {
                        0nat
                    } else {
                        1nat
                    },
                ));
                assert(best == lev(ta, tb));
            }
            curr.push(best);
            j = j + 1;
        }
        prev = curr;
        i = i + 1;
    }
    proof {
        assert(a@.take(n as int) =~= a@);
        assert(b@.take(m as int) =~= b@);
    }
    let out = prev[m];
    out
}

/// The similarity score between two character sequences, on the scale.
pub fn similarity_milli(a: &Vec<char>, b: &Vec<char>) -> (r: u32)
    ensures
        r as int == sim_milli_capped(a@, b@),
        r <= CONFIDENCE_SCALE,
{
    let n = a.len();
    let m = b.len();
    if n == usize::MAX || m == usize::MAX {
        return 0;
    }
    let mx: usize = if n >= m {
        n
    } else {
        m
    };
    if mx == 0 {
        proof {
            lemma_sim_bounds(a@, b@);
        }
        return CONFIDENCE_SCALE;
    }
    let d = levenshtein(a, b);
    proof {
        lemma_lev_le_max(a@, b@);
        lemma_sim_bounds(a@, b@);
    }
    let num: u128 = ((mx - d) as u128) * 1000;
    let q: u128 = num / (mx as u128);
    proof {
        assert(num == (mx - d) * 1000);
        assert(q == ((max_len(a@, b@) - lev(a@, b@)) * (CONFIDENCE_SCALE as int)) / (max_len(
            a@,
            b@,
        ) as int));
        assert(q <= 1000);
    }
    q as u32
}

} // verus!
