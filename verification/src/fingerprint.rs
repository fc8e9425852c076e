//! The deterministic 64-bit identity fingerprint of a posting. It hashes
//! the ordered tuple (link, title, canonical campus string, canonical
//! faculty string) with an FNV-1a-style fold over the characters, with a
//! separator value between fields. The deadline is deliberately left out,
//! so a posting whose deadline moves keeps its fingerprint.

use vstd::prelude::*;

use crate::domain::Campus;
use crate::domain::Faculty;
use crate::domain::spec_campus_name;
use crate::domain::spec_faculty_name;
use crate::position::Position;

verus! {

/// The FNV-1a 64-bit offset basis.
pub open spec fn spec_fnv_basis() -> u64 {
    0xcbf29ce484222325u64
}

/// The FNV-1a 64-bit prime.
pub open spec fn spec_fnv_prime() -> u64 {
    0x100000001b3u64
}

/// A value above every Unicode scalar value, mixed in between fields so
/// that field boundaries cannot be shifted without changing the hash.
pub open spec fn spec_field_sep() -> u64 {
    0x110000u64
}

/// One FNV-1a step: xor the value in, then multiply by the prime
/// (wrapping).
pub open spec fn spec_fnv_step(h: u64, x: u64) -> u64 {
    vstd::wrapping::u64_specs::wrapping_mul(h ^ x, spec_fnv_prime())
}

/// Folds the characters of a text into the hash state, left to right.
pub open spec fn spec_fnv_chars(h: u64, s: Seq<char>) -> u64
    decreases s.len(),
{
    if s.len() == 0 {
        h
    } else {
        spec_fnv_chars(spec_fnv_step(h, s[0] as u64), s.skip(1))
    }
}

/// The fingerprint of a posting identity: the fields are folded in order,
/// each followed by the field separator.
pub open spec fn spec_fingerprint(
    link: Seq<char>,
    title: Seq<char>,
    campus: Campus,
    faculty: Faculty,
) -> u64 {
    let h0 = spec_fnv_chars(spec_fnv_basis(), link);
    let h1 = spec_fnv_chars(spec_fnv_step(h0, spec_field_sep()), title);
    let h2 = spec_fnv_chars(spec_fnv_step(h1, spec_field_sep()), spec_campus_name(campus));
    let h3 = spec_fnv_chars(spec_fnv_step(h2, spec_field_sep()), spec_faculty_name(faculty));
    h3
}

/// Folds the characters of a string into the hash state.
fn fnv_str(h: u64, s: &str) -> (r: u64)
    ensures
        r == spec_fnv_chars(h, s@),
{
    let n = s.unicode_len();
    let mut acc = h;
    let mut i: usize = 0;
    proof {
        assert(s@.skip(0) =~= s@);
    }
    while i < n
        invariant
            n == s@.len(),
            i <= n,
            spec_fnv_chars(h, s@) == spec_fnv_chars(acc, s@.skip(i as int)),
        decreases n - i,
    {
        let c = s.get_char(i);
        proof {
            let rest = s@.skip(i as int);
            assert(rest[0] == c);
            assert(rest.skip(1) =~= s@.skip(i + 1 as int));
            assert(spec_fnv_chars(acc, rest) == spec_fnv_chars(
                spec_fnv_step(acc, c as u64),
                rest.skip(1),
            ));
        }
        acc = (acc ^ (c as u64)).wrapping_mul(0x100000001b3u64);
        i += 1;
    }
    proof {
        assert(s@.skip(n as int) =~= Seq::<char>::empty());
    }
    acc
}

/// One FNV-1a step on the hash state.
fn fnv_step(h: u64, x: u64) -> (r: u64)
    ensures
        r == spec_fnv_step(h, x),
{
    (h ^ x).wrapping_mul(0x100000001b3u64)
}

/// The content fingerprint of a posting, computed over its identity tuple
/// (link, title, canonical campus string, canonical faculty string) and
/// nothing else.
pub fn fingerprint(p: &Position) -> (r: u64)
    ensures
        r == spec_fingerprint(p.link@, p.title@, p.campus, p.faculty),
{
    let h0 = fnv_str(0xcbf29ce484222325u64, p.link.as_str());
    let h1 = fnv_str(fnv_step(h0, 0x110000u64), p.title.as_str());
    let h2 = fnv_str(fnv_step(h1, 0x110000u64), p.campus.name());
    let h3 = fnv_str(fnv_step(h2, 0x110000u64), p.faculty.long_name());
    h3
}

/// LAW: the fingerprint is a function of the identity tuple alone. Two
/// postings with equal link, title, campus and faculty have the same
/// fingerprint, whatever their deadlines or first-seen stamps are; and the
/// fingerprint of one posting, computed twice, is the same value.
pub proof fn lemma_fingerprint_ignores_deadline(a: Position, b: Position)
    requires
        a.link@ == b.link@,
        a.title@ == b.title@,
        a.campus == b.campus,
        a.faculty == b.faculty,
    ensures
        spec_fingerprint(a.link@, a.title@, a.campus, a.faculty) == spec_fingerprint(
            b.link@,
            b.title@,
            b.campus,
            b.faculty,
        ),
{
}

} // verus!
