//! Character-level text helpers: conversion between strings and character
//! vectors, whitespace collapsing for titles, and literal substring
//! replacement for entity stripping. Every transformation has an exact
//! specification over `Seq<char>`.

use vstd::prelude::*;

verus! {

/// Relies on std's `String::push`: appends the given character to the end
/// of the string.
#[verifier::external_body]
pub fn push_char(s: &mut String, c: char)
    ensures
        final(s)@ == old(s)@.push(c),
{
    s.push(c);
}

/// The characters of a string slice, as a vector.
pub fn chars_of(s: &str) -> (r: Vec<char>)
    ensures
        r@ == s@,
{
    let n = s.unicode_len();
    let mut r: Vec<char> = Vec::new();
    let mut i: usize = 0;
    while i < n
        invariant
            n == s@.len(),
            i <= n,
            r@ == s@.take(i as int),
        decreases n - i,
    {
        r.push(s.get_char(i));
        assert(r@ =~= s@.take(i + 1 as int));
        i += 1;
    }
    assert(r@ =~= s@);
    r
}

/// A string holding exactly the given characters.
pub fn string_of(v: &Vec<char>) -> (r: String)
    ensures
        r@ == v@,
{
    let mut r = String::new();
    let mut i: usize = 0;
    while i < v.len()
        invariant
            i <= v@.len(),
            r@ == v@.take(i as int),
        decreases v@.len() - i,
    {
        push_char(&mut r, v[i]);
        assert(r@ =~= v@.take(i + 1 as int));
        i += 1;
    }
    assert(r@ =~= v@);
    r
}

/// Whether a character counts as whitespace for title normalization
/// (the Unicode white-space class).
pub open spec fn spec_is_space(c: char) -> bool {
    ||| c == ' '
    ||| c == '\t'
    ||| c == '\n'
    ||| c == '\r'
    ||| c == '\u{b}'
    ||| c == '\u{c}'
    ||| c == '\u{85}'
    ||| c == '\u{a0}'
    ||| c == '\u{1680}'
    ||| ('\u{2000}' as u32 <= c as u32 && c as u32 <= '\u{200a}' as u32)
    ||| c == '\u{2028}'
    ||| c == '\u{2029}'
    ||| c == '\u{202f}'
    ||| c == '\u{205f}'
    ||| c == '\u{3000}'
}

/// Whether a character counts as whitespace for title normalization.
pub fn is_space(c: char) -> (r: bool)
    ensures
        r == spec_is_space(c),
{
    c == ' ' || c == '\t' || c == '\n' || c == '\r' || c == '\u{b}' || c == '\u{c}' || c == '\u{85}'
        || c == '\u{a0}' || c == '\u{1680}' || ('\u{2000}' as u32 <= c as u32 && c as u32
        <= '\u{200a}' as u32) || c == '\u{2028}' || c == '\u{2029}' || c == '\u{202f}' || c
        == '\u{205f}' || c == '\u{3000}'
}

/// Helper for [`spec_collapse`]: `started` says whether a word character
/// was already emitted, `pending` whether whitespace was seen since.
pub open spec fn spec_collapse_rec(s: Seq<char>, started: bool, pending: bool) -> Seq<char>
    decreases s.len(),
{
    if s.len() == 0 {
        Seq::empty()
    } else if spec_is_space(s[0]) {
        spec_collapse_rec(s.skip(1), started, true)
    } else if started && pending {
        seq![' ', s[0]] + spec_collapse_rec(s.skip(1), true, false)
    } else {
        seq![s[0]] + spec_collapse_rec(s.skip(1), true, false)
    }
}

/// The whitespace-collapsed form of a text: runs of whitespace join the
/// neighbouring words with a single space, and leading and trailing
/// whitespace is removed.
pub open spec fn spec_collapse(s: Seq<char>) -> Seq<char> {
    spec_collapse_rec(s, false, false)
}

/// Collapses whitespace in the given characters.
pub fn collapse_ws(s: &Vec<char>) -> (r: Vec<char>)
    ensures
        r@ == spec_collapse(s@),
{
    let mut out: Vec<char> = Vec::new();
    let mut i: usize = 0;
    let mut started = false;
    let mut pending = false;
    proof {
        assert(s@.skip(0) =~= s@);
    }
    while i < s.len()
        invariant
            i <= s@.len(),
            spec_collapse(s@) == out@ + spec_collapse_rec(s@.skip(i as int), started, pending),
        decreases s@.len() - i,
    {
        let ghost rest = s@.skip(i as int);
        proof {
            assert(rest.len() > 0);
            assert(rest[0] == s@[i as int]);
            assert(rest.skip(1) =~= s@.skip(i + 1 as int));
        }
        let c = s[i];
        let ghost prev_out = out@;
        if is_space(c) {
            pending = true;
        } else {
            if started && pending {
                out.push(' ');
                out.push(c);
                proof {
                    assert(spec_collapse_rec(rest, started, pending) == seq![' ', c]
                        + spec_collapse_rec(rest.skip(1), true, false));
                    assert(out@ =~= prev_out + seq![' ', c]);
                }
            } else {
                out.push(c);
                proof {
                    assert(spec_collapse_rec(rest, started, pending) == seq![c]
                        + spec_collapse_rec(rest.skip(1), true, false));
                    assert(out@ =~= prev_out + seq![c]);
                }
            }
            started = true;
            pending = false;
        }
        proof {
            assert(spec_collapse(s@) == out@ + spec_collapse_rec(
                s@.skip(i + 1 as int),
                started,
                pending,
            )) by {
                assert(s@.skip(i as int) == rest);
                seq_add_assoc::<char>();
            }
        }
        i += 1;
    }
    proof {
        assert(s@.skip(s@.len() as int) =~= Seq::<char>::empty());
        assert(out@ + Seq::<char>::empty() =~= out@);
    }
    out
}

/// Sequence concatenation is associative.
pub proof fn seq_add_assoc<A>()
    ensures
        forall|a: Seq<A>, b: Seq<A>, c: Seq<A>| #[trigger] ((a + b) + c) =~= a + (b + c),
{
}

/// The text with every non-overlapping occurrence of `pat` replaced by
/// `rep`, scanning from the left. An empty pattern leaves the text
/// unchanged.
pub open spec fn spec_replace(s: Seq<char>, pat: Seq<char>, rep: Seq<char>) -> Seq<char>
    decreases s.len(),
{
    if pat.len() == 0 || s.len() == 0 {
        s
    } else if pat.len() <= s.len() && s.take(pat.len() as int) == pat {
        rep + spec_replace(s.skip(pat.len() as int), pat, rep)
    } else {
        seq![s[0]] + spec_replace(s.skip(1), pat, rep)
    }
}

/// Whether `pat` occurs in `s` starting at index `i`.
fn matches_at(s: &Vec<char>, i: usize, pat: &Vec<char>) -> (r: bool)
    requires
        i <= s@.len(),
    ensures
        r == (i + pat@.len() <= s@.len() && s@.skip(i as int).take(pat@.len() as int) == pat@),
{
    if pat.len() > s.len() - i {
        assert(i + pat@.len() > s@.len());
        return false;
    }
    let n = s.len();
    let mut j: usize = 0;
    while j < pat.len()
        invariant
            n == s@.len(),
            i + pat@.len() <= s@.len(),
            j <= pat@.len(),
            forall|k: int| 0 <= k < j ==> s@[i + k] == pat@[k],
        decreases pat@.len() - j,
    {
        if s[i + j] != pat[j] {
            assert(s@.skip(i as int).take(pat@.len() as int)[j as int] == s@[i + j]);
            assert(s@.skip(i as int).take(pat@.len() as int) != pat@);
            return false;
        }
        j += 1;
    }
    assert(s@.skip(i as int).take(pat@.len() as int) =~= pat@);
    true
}

/// Appends all characters of `src` to `out`.
pub fn push_all(out: &mut Vec<char>, src: &Vec<char>)
    ensures
        final(out)@ == old(out)@ + src@,
{
    let mut j: usize = 0;
    while j < src.len()
        invariant
            j <= src@.len(),
            out@ == old(out)@ + src@.take(j as int),
        decreases src@.len() - j,
    {
        out.push(src[j]);
        assert(out@ =~= old(out)@ + src@.take(j + 1 as int));
        j += 1;
    }
    assert(out@ =~= old(out)@ + src@);
}

/// Replaces every non-overlapping occurrence of `pat` by `rep`, scanning
/// from the left.
pub fn replace_chars(s: &Vec<char>, pat: &Vec<char>, rep: &Vec<char>) -> (r: Vec<char>)
    requires
        pat@.len() >= 1,
    ensures
        r@ == spec_replace(s@, pat@, rep@),
{
    let mut out: Vec<char> = Vec::new();
    let mut i: usize = 0;
    proof {
        assert(s@.skip(0) =~= s@);
    }
    while i < s.len()
        invariant
            i <= s@.len(),
            pat@.len() >= 1,
            spec_replace(s@, pat@, rep@) == out@ + spec_replace(s@.skip(i as int), pat@, rep@),
        decreases s@.len() - i,
    {
        let ghost rest = s@.skip(i as int);
        if matches_at(s, i, pat) {
            proof {
                assert(rest.take(pat@.len() as int) == pat@);
                assert(spec_replace(rest, pat@, rep@) == rep@ + spec_replace(
                    rest.skip(pat@.len() as int),
                    pat@,
                    rep@,
                ));
                assert(rest.skip(pat@.len() as int) =~= s@.skip(i + pat@.len()));
                seq_add_assoc::<char>();
            }
            push_all(&mut out, rep);
            i += pat.len();
        } else {
            proof {
                assert(!(pat@.len() <= rest.len() && rest.take(pat@.len() as int) == pat@));
                assert(rest[0] == s@[i as int]);
                assert(spec_replace(rest, pat@, rep@) == seq![rest[0]] + spec_replace(
                    rest.skip(1),
                    pat@,
                    rep@,
                ));
                assert(rest.skip(1) =~= s@.skip(i + 1));
                seq_add_assoc::<char>();
            }
            out.push(s[i]);
            i += 1;
        }
    }
    proof {
        assert(s@.skip(s@.len() as int) =~= Seq::<char>::empty());
        assert(out@ + Seq::<char>::empty() =~= out@);
    }
    out
}

} // verus!
