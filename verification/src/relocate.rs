//! The punctuation-relocation transformation.
//!
//! A qualifying occurrence is an unescaped dollar sign (the inline-math
//! closing marker) followed by zero or more whitespace characters and a
//! punctuation token: one of the five marks `, . ; : )`, where a closing
//! parenthesis immediately followed by a second mark forms a two-character
//! token (`),` `).` `);` `):` `))`).  Each occurrence is rewritten so that
//! the punctuation token moves in front of the dollar sign and the
//! whitespace run disappears; a token ending in a colon additionally gets
//! the kerning correction `\!\!` placed before the colon.  A dollar sign
//! immediately preceded by a backslash is escaped and never rewritten.

use vstd::prelude::*;
use vstd::string::StrSliceExecFns;

verus! {

/// Whitespace that may stand between the dollar sign and the punctuation
/// token; a rewrite consumes the whole run.
pub open spec fn is_ws(c: char) -> bool {
    c == ' ' || c == '\t' || c == '\n' || c == '\r' || c == '\u{b}' || c == '\u{c}'
}

/// The five punctuation marks that can follow the dollar sign.
pub open spec fn is_punct(c: char) -> bool {
    c == ',' || c == '.' || c == ';' || c == ':' || c == ')'
}

/// The first position at or after `i` that does not hold whitespace (or the
/// length of `s` if whitespace runs to the end).
pub open spec fn ws_end(s: Seq<char>, i: int) -> int
    recommends
        0 <= i <= s.len(),
    decreases s.len() - i when 0 <= i <= s.len()
{
    if i < s.len() && is_ws(s[i]) {
        ws_end(s, i + 1)
    } else {
        i
    }
}

/// `ws_end` stays within bounds, skips only whitespace, and stops at the
/// first non-whitespace character.
pub proof fn lemma_ws_end_bounds(s: Seq<char>, i: int)
    requires
        0 <= i <= s.len(),
    ensures
        i <= ws_end(s, i) <= s.len(),
        forall|k: int| i <= k < ws_end(s, i) ==> is_ws(s[k]),
        ws_end(s, i) < s.len() ==> !is_ws(s[ws_end(s, i)]),
    decreases s.len() - i,
{
    if i < s.len() && is_ws(s[i]) {
        lemma_ws_end_bounds(s, i + 1);
    }
}

/// A position with only whitespace before it and none at it is exactly
/// where `ws_end` stops.
pub proof fn lemma_ws_end_is(s: Seq<char>, i: int, j: int)
    requires
        0 <= i <= j <= s.len(),
        forall|k: int| i <= k < j ==> is_ws(s[k]),
        j < s.len() ==> !is_ws(s[j]),
    ensures
        ws_end(s, i) == j,
    decreases j - i,
{
    if i < j {
        lemma_ws_end_is(s, i + 1, j);
    }
}

/// Whether a qualifying occurrence starts at position `i`: an unescaped
/// dollar sign followed by optional whitespace and a punctuation mark.
pub open spec fn starts_match(s: Seq<char>, i: int) -> bool
    recommends
        0 <= i < s.len(),
{
    &&& s[i] == '$'
    &&& (i == 0 || s[i - 1] != '\\')
    &&& ws_end(s, i + 1) < s.len()
    &&& is_punct(s[ws_end(s, i + 1)])
}

/// Whether the occurrence at `i` captures a two-character token: a closing
/// parenthesis immediately followed by another punctuation mark moves as
/// one token, rather than the closing parenthesis alone.
pub open spec fn compound_at(s: Seq<char>, i: int) -> bool
    recommends
        0 <= i < s.len(),
{
    let j = ws_end(s, i + 1);
    j + 1 < s.len() && s[j] == ')' && is_punct(s[j + 1])
}

/// End (exclusive) of the span rewritten for the occurrence at `i`: the
/// dollar sign, the whitespace run, and the punctuation token.
pub open spec fn match_end(s: Seq<char>, i: int) -> int
    recommends
        0 <= i < s.len(),
{
    if compound_at(s, i) {
        ws_end(s, i + 1) + 2
    } else {
        ws_end(s, i + 1) + 1
    }
}

/// The text that replaces the span of the occurrence at `i`: the
/// punctuation token, then the dollar sign, with the kerning correction
/// `\!\!` in front of a trailing colon.
pub open spec fn replacement(s: Seq<char>, i: int) -> Seq<char>
    recommends
        0 <= i < s.len(),
{
    let j = ws_end(s, i + 1);
    if compound_at(s, i) {
        if s[j + 1] == ':' {
            seq![')', '\\', '!', '\\', '!', ':', '$']
        } else {
            seq![')', s[j + 1], '$']
        }
    } else if s[j] == ':' {
        seq!['\\', '!', '\\', '!', ':', '$']
    } else {
        seq![s[j], '$']
    }
}

/// The transformation, scanning `s` left to right from position `i`: a
/// qualifying occurrence is replaced as a whole and the scan continues
/// right after its span; any other character is copied.
pub open spec fn relocate_from(s: Seq<char>, i: int) -> Seq<char>
    recommends
        0 <= i <= s.len(),
    decreases s.len() - i when 0 <= i <= s.len()
{
    if i >= s.len() {
        Seq::empty()
    } else if starts_match(s, i) {
        proof {
            lemma_ws_end_bounds(s, i + 1);
        }
        replacement(s, i) + relocate_from(s, match_end(s, i))
    } else {
        seq![s[i]] + relocate_from(s, i + 1)
    }
}

/// The whole transformation of one text block.
pub open spec fn relocated(s: Seq<char>) -> Seq<char> {
    relocate_from(s, 0)
}

/// Relies on String::push, which appends the given character to the end of
/// the string.
pub assume_specification[ String::push ](s: &mut String, ch: char)
    ensures
        final(s)@ == old(s)@.push(ch),
;

/// Whether `c` is whitespace, decided in executable code.
fn is_ws_exec(c: char) -> (b: bool)
    ensures
        b == is_ws(c),
{
    c == ' ' || c == '\t' || c == '\n' || c == '\r' || c == '\u{b}' || c == '\u{c}'
}

/// Whether `c` is one of the five punctuation marks, decided in executable
/// code.
fn is_punct_exec(c: char) -> (b: bool)
    ensures
        b == is_punct(c),
{
    c == ',' || c == '.' || c == ';' || c == ':' || c == ')'
}

/// Scans the whitespace run starting at `from` and returns the position of
/// the first non-whitespace character (or the length of `s`).
fn scan_ws(s: &str, from: usize) -> (r: usize)
    requires
        from <= s@.len(),
    ensures
        r == ws_end(s@, from as int),
        from <= r,
        r <= s@.len(),
{
    let n = s.unicode_len();
    let mut r = from;
    while r < n && is_ws_exec(s.get_char(r))
        invariant
            from <= r <= n,
            n == s@.len(),
            forall|k: int| from <= k < r ==> is_ws(s@[k]),
        decreases n - r,
    {
        r = r + 1;
    }
    proof {
        lemma_ws_end_is(s@, from as int, r as int);
    }
    r
}

/// Replaces every occurrence of "$p" in `s`, where p is zero or one closing
/// parenthesis followed by one of the five punctuation marks `, . ; : )`
/// (possibly with zero or more whitespace characters between the dollar
/// sign and p), by "p$", except if the dollar sign is escaped with a
/// backslash; when p ends with a colon, the kerning correction `\!\!` is
/// inserted in front of the colon.
pub fn find_and_replace(s: &str) -> (r: String)
    ensures
        r@ == relocated(s@),
{
    let n = s.unicode_len();
    let mut out = String::new();
    let mut i: usize = 0;
    proof {
        assert(relocated(s@) =~= Seq::<char>::empty() + relocate_from(s@, 0));
    }
    while i < n
        invariant
            0 <= i <= n,
            n == s@.len(),
            relocated(s@) == out@ + relocate_from(s@, i as int),
        decreases n - i,
    {
        let ghost prev = out@;
        let ghost i0: int = i as int;
        let c = s.get_char(i);
        let escaped = i > 0 && s.get_char(i - 1) == '\\';
        if c == '$' && !escaped {
            let j = scan_ws(s, i + 1);
            if j < n && is_punct_exec(s.get_char(j)) {
                let p = s.get_char(j);
                proof {
                    assert(starts_match(s@, i0));
                    lemma_ws_end_bounds(s@, i0 + 1);
                }
                let compound = p == ')' && j + 1 < n && is_punct_exec(s.get_char(j + 1));
                proof {
                    assert(compound == compound_at(s@, i0));
                }
                if compound {
                    let q = s.get_char(j + 1);
                    if q == ':' {
                        out.push(')');
                        out.push('\\');
                        out.push('!');
                        out.push('\\');
                        out.push('!');
                        out.push(':');
                        out.push('$');
                    } else {
                        out.push(')');
                        out.push(q);
                        out.push('$');
                    }
                    i = j + 2;
                } else if p == ':' {
                    out.push('\\');
                    out.push('!');
                    out.push('\\');
                    out.push('!');
                    out.push(':');
                    out.push('$');
                    i = j + 1;
                } else {
                    out.push(p);
                    out.push('$');
                    i = j + 1;
                }
                proof {
                    assert(out@ =~= prev + replacement(s@, i0));
                    assert(i as int == match_end(s@, i0));
                    assert(relocate_from(s@, i0) == replacement(s@, i0) + relocate_from(
                        s@,
                        match_end(s@, i0),
                    ));
                    assert(prev + (replacement(s@, i0) + relocate_from(s@, i as int)) =~= (prev
                        + replacement(s@, i0)) + relocate_from(s@, i as int));
                }
            } else {
                out.push(c);
                proof {
                    assert(!starts_match(s@, i0));
                    assert(relocate_from(s@, i0) == seq![s@[i0]] + relocate_from(s@, i0 + 1));
                    assert(prev + (seq![s@[i0]] + relocate_from(s@, i0 + 1)) =~= out@
                        + relocate_from(s@, i0 + 1));
                }
                i = i + 1;
            }
        } else {
            out.push(c);
            proof {
                assert(!starts_match(s@, i0));
                assert(relocate_from(s@, i0) == seq![s@[i0]] + relocate_from(s@, i0 + 1));
                assert(prev + (seq![s@[i0]] + relocate_from(s@, i0 + 1)) =~= out@ + relocate_from(
                    s@,
                    i0 + 1,
                ));
            }
            i = i + 1;
        }
    }
    proof {
        assert(out@ + relocate_from(s@, n as int) =~= out@);
    }
    out
}

} // verus!
