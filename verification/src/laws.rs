//! General properties of the punctuation-relocation transformation.

use vstd::prelude::*;

use crate::relocate::compound_at;
use crate::relocate::is_punct;
use crate::relocate::is_ws;
use crate::relocate::lemma_ws_end_bounds;
use crate::relocate::lemma_ws_end_is;
use crate::relocate::match_end;
use crate::relocate::relocate_from;
use crate::relocate::relocated;
use crate::relocate::replacement;
use crate::relocate::starts_match;
use crate::relocate::ws_end;

verus! {

/// From a position after which no qualifying occurrence starts, the scan
/// copies the rest of the text unchanged.
proof fn lemma_copy_to_end(s: Seq<char>, i: int)
    requires
        0 <= i <= s.len(),
        forall|j: int| i <= j < s.len() ==> !starts_match(s, j),
    ensures
        relocate_from(s, i) == s.skip(i),
    decreases s.len() - i,
{
    if i < s.len() {
        lemma_copy_to_end(s, i + 1);
        assert(relocate_from(s, i) =~= s.skip(i));
    } else {
        assert(relocate_from(s, i) =~= s.skip(i));
    }
}

/// A text block in which no position starts a qualifying occurrence is
/// left unchanged by the transformation.
pub proof fn lemma_no_occurrence_no_change(s: Seq<char>)
    requires
        forall|i: int| 0 <= i < s.len() ==> !starts_match(s, i),
    ensures
        relocated(s) == s,
{
    lemma_copy_to_end(s, 0);
    assert(s.skip(0) =~= s);
}

/// Applying the transformation twice yields the same text as applying it
/// once, whenever the first pass leaves no qualifying occurrence behind.
pub proof fn lemma_second_pass_no_op(s: Seq<char>)
    requires
        forall|i: int| 0 <= i < relocated(s).len() ==> !starts_match(relocated(s), i),
    ensures
        relocated(relocated(s)) == relocated(s),
{
    lemma_no_occurrence_no_change(relocated(s));
}

/// A stretch of text in which no qualifying occurrence starts is copied
/// verbatim, and the scan continues unchanged after it.
proof fn lemma_copy_between(s: Seq<char>, i: int, k: int)
    requires
        0 <= i <= k <= s.len(),
        forall|j: int| i <= j < k ==> !starts_match(s, j),
    ensures
        relocate_from(s, i) == s.subrange(i, k) + relocate_from(s, k),
    decreases k - i,
{
    if i == k {
        assert(s.subrange(i, k) + relocate_from(s, k) =~= relocate_from(s, k));
    } else {
        lemma_copy_between(s, i + 1, k);
        assert(relocate_from(s, i) == seq![s[i]] + relocate_from(s, i + 1));
        assert(seq![s[i]] + (s.subrange(i + 1, k) + relocate_from(s, k)) =~= s.subrange(i, k)
            + relocate_from(s, k));
    }
}

/// The scan never jumps over a dollar sign: the output is the output for
/// some prefix followed by the scan's result from the dollar sign on.
proof fn lemma_scan_reaches(s: Seq<char>, q: int, i: int)
    requires
        0 <= q <= i < s.len(),
        s[i] == '$',
    ensures
        exists|pre: Seq<char>| relocate_from(s, q) == pre + relocate_from(s, i),
    decreases i - q,
{
    if q == i {
        assert(relocate_from(s, q) == Seq::<char>::empty() + relocate_from(s, i)) by {
            assert(Seq::<char>::empty() + relocate_from(s, i) =~= relocate_from(s, i));
        }
    } else if starts_match(s, q) {
        lemma_ws_end_bounds(s, q + 1);
        let j = ws_end(s, q + 1);
        let e = match_end(s, q);
        assert(e <= i) by {
            if i < j {
                assert(is_ws(s[i]));
                assert(false);
            } else if i == j {
                assert(is_punct(s[i]));
                assert(false);
            } else if i < e {
                assert(is_punct(s[i]));
                assert(false);
            }
        }
        lemma_scan_reaches(s, e, i);
        let pre0 = choose|pre: Seq<char>| relocate_from(s, e) == pre + relocate_from(s, i);
        assert(relocate_from(s, q) == (replacement(s, q) + pre0) + relocate_from(s, i)) by {
            assert(replacement(s, q) + (pre0 + relocate_from(s, i)) =~= (replacement(s, q) + pre0)
                + relocate_from(s, i));
        }
    } else {
        lemma_scan_reaches(s, q + 1, i);
        let pre0 = choose|pre: Seq<char>| relocate_from(s, q + 1) == pre + relocate_from(s, i);
        assert(relocate_from(s, q) == (seq![s[q]] + pre0) + relocate_from(s, i)) by {
            assert(relocate_from(s, q) == seq![s[q]] + relocate_from(s, q + 1));
            assert(seq![s[q]] + (pre0 + relocate_from(s, i)) =~= (seq![s[q]] + pre0)
                + relocate_from(s, i));
        }
    }
}

/// Escaping invariant: a dollar sign immediately preceded by a backslash is
/// never rewritten, nor is the text after it up to the next unescaped
/// dollar sign: the output holds that whole stretch verbatim, followed by
/// the transformation of the rest.  The bound `k` may be any position such
/// that every dollar sign from `i` up to `k` is escaped.
pub proof fn lemma_escaped_marker_untouched(s: Seq<char>, i: int, k: int)
    requires
        0 < i < s.len(),
        s[i] == '$',
        s[i - 1] == '\\',
        i <= k <= s.len(),
        forall|j: int| i <= j < k && #[trigger] s[j] == '$' ==> s[j - 1] == '\\',
    ensures
        exists|pre: Seq<char>| relocated(s) == pre + s.subrange(i, k) + relocate_from(s, k),
{
    assert forall|j: int| i <= j < k implies !starts_match(s, j) by {
        if s[j] == '$' {
            assert(s[j - 1] == '\\');
        }
    }
    lemma_copy_between(s, i, k);
    lemma_scan_reaches(s, 0, i);
    let pre0 = choose|pre: Seq<char>| relocate_from(s, 0) == pre + relocate_from(s, i);
    assert(relocated(s) == pre0 + s.subrange(i, k) + relocate_from(s, k)) by {
        assert(pre0 + (s.subrange(i, k) + relocate_from(s, k)) =~= pre0 + s.subrange(i, k)
            + relocate_from(s, k));
    }
}

/// Two texts that agree up to a non-whitespace position `m` have the same
/// whitespace runs below `m`.
proof fn lemma_ws_end_agree(s1: Seq<char>, s2: Seq<char>, m: int, a: int)
    requires
        0 <= a <= m,
        m < s1.len(),
        m < s2.len(),
        forall|k: int| 0 <= k <= m ==> s1[k] == s2[k],
        !is_ws(s1[m]),
    ensures
        ws_end(s1, a) == ws_end(s2, a),
        ws_end(s1, a) <= m,
    decreases m - a,
{
    assert(s2[a] == s1[a]);
    if is_ws(s1[a]) {
        lemma_ws_end_agree(s1, s2, m, a + 1);
    }
}

/// Two texts that agree up to a dollar sign at position `m`, and whose
/// transformations agree from `m` on, have equal transformations from any
/// earlier position on: no rewritten span below `m` reaches past `m`.
proof fn lemma_prefix_lockstep(s1: Seq<char>, s2: Seq<char>, m: int, q: int)
    requires
        0 <= q <= m,
        m < s1.len(),
        m < s2.len(),
        s1[m] == '$',
        forall|k: int| 0 <= k <= m ==> s1[k] == s2[k],
        relocate_from(s1, m) == relocate_from(s2, m),
    ensures
        relocate_from(s1, q) == relocate_from(s2, q),
    decreases m - q,
{
    if q < m {
        assert(!is_ws(s1[m]));
        lemma_ws_end_agree(s1, s2, m, q + 1);
        lemma_ws_end_bounds(s1, q + 1);
        let j = ws_end(s1, q + 1);
        assert(s1[q] == s2[q]);
        if starts_match(s1, q) {
            assert(j < m) by {
                if j == m {
                    assert(is_punct(s1[m]));
                    assert(false);
                }
            }
            assert(s1[j] == s2[j]);
            assert(starts_match(s2, q));
            if j + 1 <= m {
                assert(s1[j + 1] == s2[j + 1]);
            }
            assert(compound_at(s1, q) == compound_at(s2, q));
            let e = match_end(s1, q);
            assert(match_end(s2, q) == e);
            assert(e <= m) by {
                if compound_at(s1, q) && j + 1 == m {
                    assert(is_punct(s1[m]));
                    assert(false);
                }
            }
            assert(replacement(s1, q) == replacement(s2, q));
            lemma_prefix_lockstep(s1, s2, m, e);
            assert(relocate_from(s1, q) == replacement(s1, q) + relocate_from(s1, e));
            assert(relocate_from(s2, q) == replacement(s2, q) + relocate_from(s2, e));
        } else {
            assert(!starts_match(s2, q));
            lemma_prefix_lockstep(s1, s2, m, q + 1);
            assert(relocate_from(s1, q) == seq![s1[q]] + relocate_from(s1, q + 1));
            assert(relocate_from(s2, q) == seq![s2[q]] + relocate_from(s2, q + 1));
        }
    }
}

/// Two sequences with equal suffixes have the same length from the cut on.
proof fn lemma_skip_eq_len(s1: Seq<char>, a1: int, s2: Seq<char>, a2: int)
    requires
        0 <= a1 <= s1.len(),
        0 <= a2 <= s2.len(),
        s1.skip(a1) == s2.skip(a2),
    ensures
        s2.len() - a2 == s1.len() - a1,
{
    assert(s1.skip(a1).len() == s1.len() - a1);
    assert(s2.skip(a2).len() == s2.len() - a2);
}

/// Two sequences with equal suffixes agree on every pair of positions at
/// the same distance from the cut.
proof fn lemma_skip_eq_char(s1: Seq<char>, a1: int, s2: Seq<char>, a2: int, d: int)
    requires
        0 <= a1 <= s1.len(),
        0 <= a2 <= s2.len(),
        s1.skip(a1) == s2.skip(a2),
        0 <= d < s1.len() - a1,
    ensures
        s1[a1 + d] == s2[a2 + d],
{
    lemma_skip_eq_len(s1, a1, s2, a2);
    assert(s1[a1 + d] == s1.skip(a1)[d]);
    assert(s2[a2 + d] == s2.skip(a2)[d]);
}

/// Equal suffixes stay equal when the cuts move forward in step.
proof fn lemma_skip_align(s1: Seq<char>, a1: int, s2: Seq<char>, a2: int, b1: int, b2: int)
    requires
        0 <= a1 <= b1 <= s1.len(),
        0 <= a2 <= b2 <= s2.len(),
        b1 - a1 == b2 - a2,
        s1.skip(a1) == s2.skip(a2),
    ensures
        s1.skip(b1) == s2.skip(b2),
{
    lemma_skip_eq_len(s1, a1, s2, a2);
    assert(s1.skip(b1) =~= s2.skip(b2)) by {
        assert forall|k: int| 0 <= k < s1.len() - b1 implies #[trigger] s1.skip(b1)[k] == s2.skip(
            b2,
        )[k] by {
            lemma_skip_eq_char(s1, a1, s2, a2, b1 - a1 + k);
            assert(s1.skip(b1)[k] == s1[b1 + k]);
            assert(s2.skip(b2)[k] == s2[b2 + k]);
        }
    }
}

/// Aligned suffixes have aligned whitespace runs.
proof fn lemma_ws_end_shift(s1: Seq<char>, a1: int, s2: Seq<char>, a2: int)
    requires
        0 <= a1 <= s1.len(),
        0 <= a2 <= s2.len(),
        s1.skip(a1) == s2.skip(a2),
    ensures
        ws_end(s1, a1) - a1 == ws_end(s2, a2) - a2,
    decreases s1.len() - a1,
{
    lemma_skip_eq_len(s1, a1, s2, a2);
    if a1 < s1.len() {
        lemma_skip_eq_char(s1, a1, s2, a2, 0);
        assert(s1[a1] == s2[a2]);
        if is_ws(s1[a1]) {
            lemma_skip_align(s1, a1, s2, a2, a1 + 1, a2 + 1);
            lemma_ws_end_shift(s1, a1 + 1, s2, a2 + 1);
        }
    }
}

/// The transformation of a suffix depends only on the suffix itself and on
/// the single character of look-behind before it.
proof fn lemma_relocate_shift(s1: Seq<char>, i1: int, s2: Seq<char>, i2: int)
    requires
        1 <= i1 <= s1.len(),
        1 <= i2 <= s2.len(),
        s1.skip(i1 - 1) == s2.skip(i2 - 1),
    ensures
        relocate_from(s1, i1) == relocate_from(s2, i2),
    decreases s1.len() - i1,
{
    lemma_skip_eq_len(s1, i1 - 1, s2, i2 - 1);
    if i1 < s1.len() {
        lemma_skip_eq_char(s1, i1 - 1, s2, i2 - 1, 0);
        lemma_skip_eq_char(s1, i1 - 1, s2, i2 - 1, 1);
        assert(s1[i1 - 1] == s2[i2 - 1]);
        assert(s1[i1] == s2[i2]);
        lemma_skip_align(s1, i1 - 1, s2, i2 - 1, i1 + 1, i2 + 1);
        lemma_ws_end_shift(s1, i1 + 1, s2, i2 + 1);
        lemma_ws_end_bounds(s1, i1 + 1);
        lemma_ws_end_bounds(s2, i2 + 1);
        let j1 = ws_end(s1, i1 + 1);
        let j2 = ws_end(s2, i2 + 1);
        assert(j1 - i1 == j2 - i2);
        if j1 < s1.len() {
            lemma_skip_eq_char(s1, i1 - 1, s2, i2 - 1, j1 - i1 + 1);
            assert(s1[j1] == s2[j2]);
        }
        if starts_match(s1, i1) {
            assert(starts_match(s2, i2));
            if j1 + 1 < s1.len() {
                lemma_skip_eq_char(s1, i1 - 1, s2, i2 - 1, j1 - i1 + 2);
                assert(s1[j1 + 1] == s2[j2 + 1]);
            }
            assert(compound_at(s1, i1) == compound_at(s2, i2));
            assert(replacement(s1, i1) == replacement(s2, i2));
            let e1 = match_end(s1, i1);
            let e2 = match_end(s2, i2);
            assert(e1 - i1 == e2 - i2);
            lemma_skip_align(s1, i1 - 1, s2, i2 - 1, e1 - 1, e2 - 1);
            lemma_relocate_shift(s1, e1, s2, e2);
            assert(relocate_from(s1, i1) == replacement(s1, i1) + relocate_from(s1, e1));
            assert(relocate_from(s2, i2) == replacement(s2, i2) + relocate_from(s2, e2));
        } else {
            assert(!starts_match(s2, i2));
            lemma_skip_align(s1, i1 - 1, s2, i2 - 1, i1, i2);
            lemma_relocate_shift(s1, i1 + 1, s2, i2 + 1);
            assert(relocate_from(s1, i1) == seq![s1[i1]] + relocate_from(s1, i1 + 1));
            assert(relocate_from(s2, i2) == seq![s2[i2]] + relocate_from(s2, i2 + 1));
        }
    } else {
        assert(i2 == s2.len());
    }
}

/// Whitespace invariant: the output does not depend on how many whitespace
/// characters stand between the dollar sign and the punctuation mark.  Two
/// inputs that differ only in that whitespace run (`u` against `v`) are
/// transformed to the same text.
pub proof fn lemma_whitespace_count_irrelevant(
    p: Seq<char>,
    u: Seq<char>,
    v: Seq<char>,
    t: Seq<char>,
)
    requires
        forall|j: int| 0 <= j < u.len() ==> is_ws(u[j]),
        forall|j: int| 0 <= j < v.len() ==> is_ws(v[j]),
        p.len() == 0 || p[p.len() - 1] != '\\',
        t.len() > 0,
        is_punct(t[0]),
    ensures
        relocated(p + seq!['$'] + u + t) == relocated(p + seq!['$'] + v + t),
{
    let s1 = p + seq!['$'] + u + t;
    let s2 = p + seq!['$'] + v + t;
    let m = p.len() as int;
    lemma_marker_step(p, u, t);
    lemma_marker_step(p, v, t);
    let tok: int = if t.len() > 1 && t[0] == ')' && is_punct(t[1]) {
        2
    } else {
        1
    };
    let e1 = m + 1 + u.len() + tok;
    let e2 = m + 1 + v.len() + tok;
    assert(s1.skip(e1 - 1) =~= s2.skip(e2 - 1)) by {
        assert forall|k: int| 0 <= k < s1.len() - e1 + 1 implies #[trigger] s1.skip(e1 - 1)[k]
            == s2.skip(e2 - 1)[k] by {
            assert(s1.skip(e1 - 1)[k] == s1[e1 - 1 + k]);
            assert(s1[e1 - 1 + k] == t[tok - 1 + k]);
            assert(s2.skip(e2 - 1)[k] == s2[e2 - 1 + k]);
            assert(s2[e2 - 1 + k] == t[tok - 1 + k]);
        }
    }
    lemma_relocate_shift(s1, e1, s2, e2);
    assert(relocate_from(s1, m) == relocate_from(s2, m)) by {
        assert(relocate_from(s1, m) == replacement(s1, m) + relocate_from(s1, e1));
        assert(relocate_from(s2, m) == replacement(s2, m) + relocate_from(s2, e2));
        assert(replacement(s1, m) == replacement(s2, m));
    }
    lemma_prefix_lockstep(s1, s2, m, 0);
}

/// At the dollar sign behind `p`, the occurrence qualifies, its token is
/// read from the head of `t`, and its span ends inside `t`.
proof fn lemma_marker_step(p: Seq<char>, u: Seq<char>, t: Seq<char>)
    requires
        forall|j: int| 0 <= j < u.len() ==> is_ws(u[j]),
        p.len() == 0 || p[p.len() - 1] != '\\',
        t.len() > 0,
        is_punct(t[0]),
    ensures
        ({
            let s = p + seq!['$'] + u + t;
            let m = p.len() as int;
            let j = m + 1 + u.len();
            &&& ws_end(s, m + 1) == j
            &&& starts_match(s, m)
            &&& compound_at(s, m) == (t.len() > 1 && t[0] == ')' && is_punct(t[1]))
            &&& match_end(s, m) == j + if compound_at(s, m) {
                2int
            } else {
                1int
            }
            &&& replacement(s, m) == (if compound_at(s, m) {
                if t[1] == ':' {
                    seq![')', '\\', '!', '\\', '!', ':', '$']
                } else {
                    seq![')', t[1], '$']
                }
            } else if t[0] == ':' {
                seq!['\\', '!', '\\', '!', ':', '$']
            } else {
                seq![t[0], '$']
            })
        }),
{
    let s = p + seq!['$'] + u + t;
    let m = p.len() as int;
    let j = m + 1 + u.len();
    assert(s.len() == m + 1 + u.len() + t.len());
    assert(s[m] == '$');
    assert forall|k: int| m + 1 <= k < j implies is_ws(s[k]) by {
        assert(s[k] == u[k - (m + 1)]);
    }
    assert(s[j] == t[0]);
    assert(!is_ws(s[j]));
    lemma_ws_end_is(s, m + 1, j);
    if m > 0 {
        assert(s[m - 1] == p[m - 1]);
    }
    assert(starts_match(s, m));
    if t.len() > 1 {
        assert(s[j + 1] == t[1]);
    }
}

} // verus!
