//! The text codec of the memory store: one object under the key
//! `first_seen_map`, mapping each fingerprint (rendered in decimal, as
//! object keys must be text) to its first-seen timestamp string. The
//! writer and the parser are both specified exactly, and parsing what was
//! written is proved to restore the entries.

use vstd::prelude::*;
use vstd::string::StrSliceExecFns;
use vstd::string::StringExecFns;

use crate::date::spec_is_digit;
use crate::date::spec_digit_val;
use crate::date::is_digit;
use crate::text::push_char;
use crate::text::string_of;

verus! {

broadcast use vstd::string::group_string_axioms;

/// The view of a sequence of store entries.
pub open spec fn pairs_view(s: Seq<(u64, String)>) -> Seq<(u64, Seq<char>)> {
    s.map_values(|e: (u64, String)| (e.0, e.1@))
}

/// The decimal digit character for a value 0 through 9.
pub open spec fn spec_digit_char(d: int) -> char {
    if d == 0 {
        '0'
    } else if d == 1 {
        '1'
    } else if d == 2 {
        '2'
    } else if d == 3 {
        '3'
    } else if d == 4 {
        '4'
    } else if d == 5 {
        '5'
    } else if d == 6 {
        '6'
    } else if d == 7 {
        '7'
    } else if d == 8 {
        '8'
    } else {
        '9'
    }
}

/// The decimal rendering of a number, most significant digit first.
pub open spec fn spec_dec(n: nat) -> Seq<char>
    decreases n,
{
    if n < 10 {
        seq![spec_digit_char(n as int)]
    } else {
        spec_dec(n / 10) + seq![spec_digit_char((n % 10) as int)]
    }
}

/// How one character is written inside a string literal of the store:
/// quote, backslash, newline, carriage return and tab are escaped, every
/// other character stands as itself.
pub open spec fn spec_esc_char(c: char) -> Seq<char> {
    if c == '"' {
        seq!['\\', '"']
    } else if c == '\\' {
        seq!['\\', '\\']
    } else if c == '\n' {
        seq!['\\', 'n']
    } else if c == '\r' {
        seq!['\\', 'r']
    } else if c == '\t' {
        seq!['\\', 't']
    } else {
        seq![c]
    }
}

/// The escaped form of a string body.
pub open spec fn spec_escape(s: Seq<char>) -> Seq<char>
    decreases s.len(),
{
    if s.len() == 0 {
        Seq::empty()
    } else {
        spec_esc_char(s[0]) + spec_escape(s.skip(1))
    }
}

/// One written entry: `"key":"value"` with the key in decimal and the
/// value escaped.
pub open spec fn spec_pair_json(k: u64, v: Seq<char>) -> Seq<char> {
    seq!['"'] + spec_dec(k as nat) + seq!['"', ':', '"'] + spec_escape(v) + seq!['"']
}

/// The written entry list, comma-separated.
pub open spec fn spec_pairs_json(entries: Seq<(u64, Seq<char>)>) -> Seq<char>
    decreases entries.len(),
{
    if entries.len() == 0 {
        Seq::empty()
    } else if entries.len() == 1 {
        spec_pair_json(entries[0].0, entries[0].1)
    } else {
        spec_pair_json(entries[0].0, entries[0].1) + seq![','] + spec_pairs_json(entries.skip(1))
    }
}

/// The whole written store.
pub open spec fn spec_memory_json(entries: Seq<(u64, Seq<char>)>) -> Seq<char> {
    "{\"first_seen_map\":{"@ + spec_pairs_json(entries) + "}}"@
}

/// Parses a string body up to and including its closing quote: the
/// unescaped content and the remaining text. Unknown escapes are rejected;
/// a missing closing quote is rejected.
pub open spec fn spec_parse_string(s: Seq<char>) -> Option<(Seq<char>, Seq<char>)>
    decreases s.len(),
{
    if s.len() == 0 {
        None
    } else if s[0] == '"' {
        Some((Seq::empty(), s.skip(1)))
    } else if s[0] == '\\' {
        if s.len() < 2 {
            None
        } else {
            let u = if s[1] == '"' {
                Some('"')
            } else if s[1] == '\\' {
                Some('\\')
            } else if s[1] == 'n' {
                Some('\n')
            } else if s[1] == 'r' {
                Some('\r')
            } else if s[1] == 't' {
                Some('\t')
            } else {
                None
            };
            match u {
                Some(c) => match spec_parse_string(s.skip(2)) {
                    Some(p) => Some((seq![c] + p.0, p.1)),
                    None => None,
                },
                None => None,
            }
        }
    } else {
        match spec_parse_string(s.skip(1)) {
            Some(p) => Some((seq![s[0]] + p.0, p.1)),
            None => None,
        }
    }
}

/// Splits a text into its maximal leading run of decimal digits and the
/// rest.
pub open spec fn spec_digit_prefix(s: Seq<char>) -> (Seq<char>, Seq<char>)
    decreases s.len(),
{
    if s.len() > 0 && spec_is_digit(s[0]) {
        let p = spec_digit_prefix(s.skip(1));
        (seq![s[0]] + p.0, p.1)
    } else {
        (Seq::empty(), s)
    }
}

/// The numeric value of a digit run, most significant digit first.
pub open spec fn spec_val(ds: Seq<char>) -> nat
    decreases ds.len(),
{
    if ds.len() == 0 {
        0
    } else {
        (spec_val(ds.take(ds.len() - 1)) * 10 + spec_digit_val(ds.last())) as nat
    }
}

/// Parses one decimal key where a key is expected: at least one digit,
/// and a value that fits the fingerprint width.
pub open spec fn spec_parse_key(s: Seq<char>) -> Option<(u64, Seq<char>)> {
    let p = spec_digit_prefix(s);
    if p.0.len() >= 1 && spec_val(p.0) <= u64::MAX as nat {
        Some((spec_val(p.0) as u64, p.1))
    } else {
        None
    }
}

/// Parses a non-empty entry list positioned right after the inner opening
/// brace, up to and including the inner closing brace.
pub open spec fn spec_parse_pairs(s: Seq<char>) -> Option<(Seq<(u64, Seq<char>)>, Seq<char>)>
    decreases s.len(),
{
    if s.len() == 0 || s[0] != '"' {
        None
    } else {
        match spec_parse_key(s.skip(1)) {
            Some(kp) => {
                let k = kp.0;
                let r1 = kp.1;
                if r1.len() >= 3 && r1[0] == '"' && r1[1] == ':' && r1[2] == '"' {
                    match spec_parse_string(r1.skip(3)) {
                        Some(vp) => {
                            let v = vp.0;
                            let r2 = vp.1;
                            if r2.len() >= 1 && r2[0] == ',' {
                                if r2.skip(1).len() < s.len() {
                                    match spec_parse_pairs(r2.skip(1)) {
                                        Some(ep) => Some((seq![(k, v)] + ep.0, ep.1)),
                                        None => None,
                                    }
                                } else {
                                    None
                                }
                            } else if r2.len() >= 1 && r2[0] == '}' {
                                Some((seq![(k, v)], r2.skip(1)))
                            } else {
                                None
                            }
                        },
                        None => None,
                    }
                } else {
                    None
                }
            },
            None => None,
        }
    }
}

/// Parses a whole store text: the fixed head, then either an empty entry
/// list or a comma-separated one, then the two closing braces and nothing
/// after them. Anything else is malformed.
pub open spec fn spec_parse_memory(s: Seq<char>) -> Option<Seq<(u64, Seq<char>)>> {
    let head = "{\"first_seen_map\":{"@;
    if s.len() >= head.len() + 2 && s.take(head.len() as int) == head {
        let r = s.skip(head.len() as int);
        if r[0] == '}' {
            if r == seq!['}', '}'] {
                Some(Seq::empty())
            } else {
                None
            }
        } else {
            match spec_parse_pairs(r) {
                Some(ep) => {
                    if ep.1 == seq!['}'] {
                        Some(ep.0)
                    } else {
                        None
                    }
                },
                None => None,
            }
        }
    } else {
        None
    }
}

// ---------------------------------------------------------------------
// The writer.
// ---------------------------------------------------------------------

/// The decimal digit character for a value 0 through 9.
fn digit_char(d: u64) -> (r: char)
    requires
        d <= 9,
    ensures
        r == spec_digit_char(d as int),
{
    if d == 0 {
        '0'
    } else if d == 1 {
        '1'
    } else if d == 2 {
        '2'
    } else if d == 3 {
        '3'
    } else if d == 4 {
        '4'
    } else if d == 5 {
        '5'
    } else if d == 6 {
        '6'
    } else if d == 7 {
        '7'
    } else if d == 8 {
        '8'
    } else {
        '9'
    }
}

/// Appends the decimal rendering of `n`.
fn push_dec(out: &mut String, n: u64)
    ensures
        final(out)@ == old(out)@ + spec_dec(n as nat),
    decreases n,
{
    if n < 10 {
        push_char(out, digit_char(n));
        assert(final(out)@ =~= old(out)@ + spec_dec(n as nat));
    } else {
        push_dec(out, n / 10);
        push_char(out, digit_char(n % 10));
        assert(final(out)@ =~= old(out)@ + spec_dec(n as nat));
    }
}

/// The escaped form of a single character is its escape.
proof fn lemma_escape_single(c: char)
    ensures
        spec_escape(seq![c]) == spec_esc_char(c),
{
    let s = seq![c];
    assert(s.len() == 1);
    assert(s[0] == c);
    assert(s.skip(1) =~= Seq::<char>::empty());
    assert(spec_escape(s.skip(1)) == Seq::<char>::empty());
    assert(spec_escape(s) == spec_esc_char(s[0]) + spec_escape(s.skip(1)));
    assert(spec_esc_char(c) + Seq::<char>::empty() =~= spec_esc_char(c));
}

/// The escaped form of a concatenation is the concatenation of the
/// escaped forms.
proof fn lemma_escape_app(a: Seq<char>, b: Seq<char>)
    ensures
        spec_escape(a + b) == spec_escape(a) + spec_escape(b),
    decreases a.len(),
{
    if a.len() == 0 {
        assert(a + b =~= b);
        assert(spec_escape(a) + spec_escape(b) =~= spec_escape(b));
    } else {
        assert((a + b).skip(1) =~= a.skip(1) + b);
        lemma_escape_app(a.skip(1), b);
        assert(spec_escape(a + b) =~= spec_escape(a) + spec_escape(b));
    }
}

/// Appends the escaped form of `v`.
fn push_escaped(out: &mut String, v: &str)
    ensures
        final(out)@ == old(out)@ + spec_escape(v@),
{
    let n = v.unicode_len();
    let mut i: usize = 0;
    proof {
        assert(v@.take(0) =~= Seq::<char>::empty());
        assert(old(out)@ + spec_escape(v@.take(0)) =~= old(out)@);
    }
    while i < n
        invariant
            n == v@.len(),
            i <= n,
            out@ == old(out)@ + spec_escape(v@.take(i as int)),
        decreases n - i,
    {
        let c = v.get_char(i);
        if c == '"' {
            push_char(out, '\\');
            push_char(out, '"');
        } else if c == '\\' {
            push_char(out, '\\');
            push_char(out, '\\');
        } else if c == '\n' {
            push_char(out, '\\');
            push_char(out, 'n');
        } else if c == '\r' {
            push_char(out, '\\');
            push_char(out, 'r');
        } else if c == '\t' {
            push_char(out, '\\');
            push_char(out, 't');
        } else {
            push_char(out, c);
        }
        proof {
            assert(v@.take(i + 1 as int) =~= v@.take(i as int) + seq![c]);
            lemma_escape_app(v@.take(i as int), seq![c]);
            lemma_escape_single(c);
            assert(out@ =~= old(out)@ + spec_escape(v@.take(i + 1 as int)));
        }
        i += 1;
    }
    proof {
        assert(v@.take(n as int) =~= v@);
    }
}

/// The written form of an entry list with one more entry at the end.
proof fn lemma_pairs_json_snoc(entries: Seq<(u64, Seq<char>)>, e: (u64, Seq<char>))
    ensures
        spec_pairs_json(entries + seq![e]) == if entries.len() == 0 {
            spec_pair_json(e.0, e.1)
        } else {
            spec_pairs_json(entries) + seq![','] + spec_pair_json(e.0, e.1)
        },
    decreases entries.len(),
{
    let s = entries + seq![e];
    if entries.len() == 0 {
        assert(s.len() == 1);
        assert(s[0] == e);
    } else {
        assert(s.len() >= 2);
        assert(s[0] == entries[0]);
        assert(s.skip(1) =~= entries.skip(1) + seq![e]);
        lemma_pairs_json_snoc(entries.skip(1), e);
        if entries.len() == 1 {
            assert(entries.skip(1).len() == 0);
            assert(spec_pairs_json(s) =~= spec_pairs_json(entries) + seq![','] + spec_pair_json(
                e.0,
                e.1,
            ));
        } else {
            assert(spec_pairs_json(s) =~= spec_pairs_json(entries) + seq![','] + spec_pair_json(
                e.0,
                e.1,
            ));
        }
    }
}

/// Writes the store text for the given entries.
pub fn pairs_to_json(entries: &Vec<(u64, String)>) -> (r: String)
    ensures
        r@ == spec_memory_json(pairs_view(entries@)),
{
    let mut out = "{\"first_seen_map\":{".to_owned();
    let ghost head = "{\"first_seen_map\":{"@;
    let mut i: usize = 0;
    proof {
        assert(pairs_view(entries@).take(0) =~= Seq::<(u64, Seq<char>)>::empty());
        assert(out@ =~= head + spec_pairs_json(pairs_view(entries@).take(0)));
    }
    while i < entries.len()
        invariant
            i <= entries@.len(),
            out@ == head + spec_pairs_json(pairs_view(entries@).take(i as int)),
        decreases entries@.len() - i,
    {
        let ghost done = pairs_view(entries@).take(i as int);
        let ghost e = pairs_view(entries@)[i as int];
        if i > 0 {
            push_char(&mut out, ',');
        }
        push_char(&mut out, '"');
        push_dec(&mut out, entries[i].0);
        push_char(&mut out, '"');
        push_char(&mut out, ':');
        push_char(&mut out, '"');
        push_escaped(&mut out, entries[i].1.as_str());
        push_char(&mut out, '"');
        proof {
            assert(e.0 == entries@[i as int].0 && e.1 == entries@[i as int].1@);
            lemma_pairs_json_snoc(done, e);
            assert(pairs_view(entries@).take(i + 1 as int) =~= done + seq![e]);
            if i > 0 {
                assert(done.len() == i);
                assert(out@ =~= head + spec_pairs_json(pairs_view(entries@).take(i + 1 as int)));
            } else {
                assert(done.len() == 0);
                assert(out@ =~= head + spec_pairs_json(pairs_view(entries@).take(i + 1 as int)));
            }
        }
        i += 1;
    }
    out.append("}}");
    proof {
        assert(pairs_view(entries@).take(entries@.len() as int) =~= pairs_view(entries@));
        assert(out@ =~= spec_memory_json(pairs_view(entries@)));
    }
    out
}

// ---------------------------------------------------------------------
// The parser.
// ---------------------------------------------------------------------

/// Parses a string body starting at `i` (right after the opening quote).
fn p_string(v: &Vec<char>, i: usize) -> (r: Option<(String, usize)>)
    requires
        i <= v@.len(),
    ensures
        match r {
            Some(p) => i < p.1 <= v@.len() && spec_parse_string(v@.skip(i as int)) == Some(
                (p.0@, v@.skip(p.1 as int)),
            ),
            None => spec_parse_string(v@.skip(i as int)) is None,
        },
{
    let n = v.len();
    let mut content: Vec<char> = Vec::new();
    let mut j: usize = i;
    proof {
        match spec_parse_string(v@.skip(i as int)) {
            Some(p) => {
                assert(Seq::<char>::empty() + p.0 =~= p.0);
            },
            None => {},
        }
    }
    while j < n
        invariant
            i <= j <= n,
            n == v@.len(),
            spec_parse_string(v@.skip(i as int)) == (match spec_parse_string(v@.skip(j as int)) {
                Some(p) => Some((content@ + p.0, p.1)),
                None => None::<(Seq<char>, Seq<char>)>,
            }),
        decreases n - j,
    {
        let ghost rest = v@.skip(j as int);
        proof {
            assert(rest[0] == v@[j as int]);
            assert(rest.skip(1) =~= v@.skip(j + 1 as int));
        }
        let c = v[j];
        if c == '"' {
            let s = string_of(&content);
            proof {
                assert(spec_parse_string(rest) == Some(
                    (Seq::<char>::empty(), v@.skip(j + 1 as int)),
                ));
                assert(content@ + Seq::<char>::empty() =~= content@);
            }
            return Some((s, j + 1));
        } else if c == '\\' {
            if j + 1 >= n {
                proof {
                    assert(rest.len() < 2);
                }
                return None;
            }
            proof {
                assert(rest.len() >= 2);
                assert(rest[1] == v@[j + 1 as int]);
                assert(rest.skip(2) =~= v@.skip(j + 2 as int));
            }
            let e = v[j + 1];
            let u: char = if e == '"' {
                '"'
            } else if e == '\\' {
                '\\'
            } else if e == 'n' {
                '\n'
            } else if e == 'r' {
                '\r'
            } else if e == 't' {
                '\t'
            } else {
                return None;
            };
            let ghost before = content@;
            content.push(u);
            proof {
                assert(content@ =~= before + seq![u]);
                match spec_parse_string(v@.skip(j + 2 as int)) {
                    Some(p2) => {
                        assert((before + seq![u]) + p2.0 =~= before + (seq![u] + p2.0));
                    },
                    None => {},
                }
            }
            j += 2;
        } else {
            let ghost before = content@;
            content.push(c);
            proof {
                assert(content@ =~= before + seq![c]);
                match spec_parse_string(v@.skip(j + 1 as int)) {
                    Some(p2) => {
                        assert((before + seq![c]) + p2.0 =~= before + (seq![c] + p2.0));
                    },
                    None => {},
                }
            }
            j += 1;
        }
    }
    proof {
        assert(v@.skip(j as int).len() == 0);
    }
    None
}

/// Whether the character at `j` exists and is a decimal digit.
fn digit_at(v: &Vec<char>, j: usize) -> (r: bool)
    ensures
        r == (j < v@.len() && spec_is_digit(v@[j as int])),
{
    if j < v.len() {
        is_digit(v[j])
    } else {
        false
    }
}

/// Parses one decimal key starting at `i`.
fn p_key(v: &Vec<char>, i: usize) -> (r: Option<(u64, usize)>)
    requires
        i <= v@.len(),
    ensures
        match r {
            Some(p) => i < p.1 <= v@.len() && spec_parse_key(v@.skip(i as int)) == Some(
                (p.0, v@.skip(p.1 as int)),
            ),
            None => spec_parse_key(v@.skip(i as int)) is None,
        },
{
    let n = v.len();
    let mut j: usize = i;
    let mut value: u64 = 0;
    let mut over = false;
    proof {
        assert(v@.subrange(i as int, i as int) =~= Seq::<char>::empty());
    }
    while digit_at(v, j)
        invariant
            i <= j <= n,
            n == v@.len(),
            forall|t: int| i <= t < j ==> spec_is_digit(v@[t]),
            spec_digit_prefix(v@.skip(i as int)) == (
                v@.subrange(i as int, j as int) + spec_digit_prefix(v@.skip(j as int)).0,
                spec_digit_prefix(v@.skip(j as int)).1,
            ),
            !over ==> value == spec_val(v@.subrange(i as int, j as int)),
            over ==> spec_val(v@.subrange(i as int, j as int)) > u64::MAX,
            over ==> j > i,
        decreases n - j,
    {
        let d = v[j];
        let ghost ds = v@.subrange(i as int, j as int);
        let ghost ds2 = v@.subrange(i as int, j + 1 as int);
        proof {
            assert(ds2.take(ds2.len() - 1) =~= ds);
            assert(ds2.last() == v@[j as int]);
            assert(spec_val(ds2) == spec_val(ds) * 10 + spec_digit_val(v@[j as int]));
        }
        let dv32: u32 = (d as u32) - ('0' as u32);
        let dv: u64 = dv32 as u64;
        proof {
            assert(dv == spec_digit_val(d));
        }
        if !over {
            match value.checked_mul(10) {
                Some(m) => match m.checked_add(dv) {
                    Some(s) => {
                        value = s;
                    },
                    None => {
                        over = true;
                    },
                },
                None => {
                    over = true;
                },
            }
        } else {
            proof {
                assert(spec_val(ds2) >= spec_val(ds)) by {
                    assert(spec_val(ds) * 10 >= spec_val(ds));
                }
            }
        }
        proof {
            let rest = v@.skip(j as int);
            assert(rest[0] == v@[j as int]);
            assert(rest.skip(1) =~= v@.skip(j + 1 as int));
            assert(spec_digit_prefix(rest) == (
                seq![rest[0]] + spec_digit_prefix(rest.skip(1)).0,
                spec_digit_prefix(rest.skip(1)).1,
            ));
            assert(v@.subrange(i as int, j as int) + seq![v@[j as int]] =~= v@.subrange(
                i as int,
                j + 1 as int,
            ));
            assert((v@.subrange(i as int, j as int) + seq![v@[j as int]]) + spec_digit_prefix(
                v@.skip(j + 1 as int),
            ).0 =~= v@.subrange(i as int, j as int) + (seq![v@[j as int]] + spec_digit_prefix(
                v@.skip(j + 1 as int),
            ).0));
        }
        j += 1;
    }
    proof {
        let rest = v@.skip(j as int);
        if j < n {
            assert(rest[0] == v@[j as int]);
            assert(!spec_is_digit(rest[0]));
        }
        assert(spec_digit_prefix(rest) == (Seq::<char>::empty(), rest));
        assert(v@.subrange(i as int, j as int) + Seq::<char>::empty() =~= v@.subrange(
            i as int,
            j as int,
        ));
        assert(spec_digit_prefix(v@.skip(i as int)).0 =~= v@.subrange(i as int, j as int));
    }
    if j == i {
        // no digit at all
        return None;
    }
    if over {
        return None;
    }
    Some((value, j))
}

/// Parses a non-empty entry list starting at `i` (right after the inner
/// opening brace), up to and including the inner closing brace.
fn p_pairs(v: &Vec<char>, i: usize) -> (r: Option<(Vec<(u64, String)>, usize)>)
    requires
        i <= v@.len(),
    ensures
        match r {
            Some(p) => i < p.1 <= v@.len() && spec_parse_pairs(v@.skip(i as int)) == Some(
                (pairs_view(p.0@), v@.skip(p.1 as int)),
            ),
            None => spec_parse_pairs(v@.skip(i as int)) is None,
        },
{
    let n = v.len();
    let mut acc: Vec<(u64, String)> = Vec::new();
    let mut j: usize = i;
    proof {
        assert(pairs_view(acc@) =~= Seq::<(u64, Seq<char>)>::empty());
        match spec_parse_pairs(v@.skip(i as int)) {
            Some(p) => {
                assert(pairs_view(acc@) + p.0 =~= p.0);
            },
            None => {},
        }
    }
    loop
        invariant
            i <= j <= n,
            n == v@.len(),
            spec_parse_pairs(v@.skip(i as int)) == (match spec_parse_pairs(v@.skip(j as int)) {
                Some(p) => Some((pairs_view(acc@) + p.0, p.1)),
                None => None::<(Seq<(u64, Seq<char>)>, Seq<char>)>,
            }),
        decreases n - j,
    {
        let ghost rest = v@.skip(j as int);
        if j >= n {
            proof {
                assert(rest.len() == 0);
            }
            return None;
        }
        proof {
            assert(rest[0] == v@[j as int]);
        }
        if v[j] != '"' {
            return None;
        }
        let (k, j1) = match p_key(v, j + 1) {
            Some(p) => p,
            None => {
                proof {
                    assert(rest.skip(1) =~= v@.skip(j + 1 as int));
                }
                return None;
            },
        };
        proof {
            assert(rest.skip(1) =~= v@.skip(j + 1 as int));
        }
        let ghost r1 = v@.skip(j1 as int);
        if n - j1 < 3 {
            proof {
                assert(r1.len() < 3);
            }
            return None;
        }
        proof {
            assert(r1.len() >= 3);
            assert(r1[0] == v@[j1 as int]);
            assert(r1[1] == v@[j1 + 1]);
            assert(r1[2] == v@[j1 + 2]);
        }
        if !(v[j1] == '"' && v[j1 + 1] == ':' && v[j1 + 2] == '"') {
            return None;
        }
        let (val, j2) = match p_string(v, j1 + 3) {
            Some(p) => p,
            None => {
                proof {
                    assert(r1.skip(3) =~= v@.skip(j1 + 3));
                }
                return None;
            },
        };
        proof {
            assert(r1.skip(3) =~= v@.skip(j1 + 3));
        }
        let ghost r2 = v@.skip(j2 as int);
        if j2 >= n {
            proof {
                assert(r2.len() == 0);
            }
            return None;
        }
        proof {
            assert(r2.len() >= 1);
            assert(r2[0] == v@[j2 as int]);
        }
        if v[j2] == ',' {
            let ghost before = acc@;
            acc.push((k, val));
            proof {
                assert(r2.skip(1) =~= v@.skip(j2 + 1));
                assert(r2.skip(1).len() < rest.len());
                assert(pairs_view(acc@) =~= pairs_view(before) + seq![(k, val@)]);
                match spec_parse_pairs(v@.skip(j2 + 1)) {
                    Some(p2) => {
                        assert((pairs_view(before) + seq![(k, val@)]) + p2.0 =~= pairs_view(
                            before,
                        ) + (seq![(k, val@)] + p2.0));
                    },
                    None => {},
                }
            }
            j = j2 + 1;
        } else if v[j2] == '}' {
            let ghost before = acc@;
            acc.push((k, val));
            proof {
                assert(r2.skip(1) =~= v@.skip(j2 + 1));
                assert(spec_parse_pairs(rest) == Some((seq![(k, val@)], v@.skip(j2 + 1))));
                assert(pairs_view(acc@) =~= pairs_view(before) + seq![(k, val@)]);
            }
            return Some((acc, j2 + 1));
        } else {
            return None;
        }
    }
}

/// Parses a whole store text into its entries; `None` when the text is
/// malformed in any way.
pub fn parse_memory_text(s: &str) -> (r: Option<Vec<(u64, String)>>)
    ensures
        match r {
            Some(es) => spec_parse_memory(s@) == Some(pairs_view(es@)),
            None => spec_parse_memory(s@) is None,
        },
{
    let head = "{\"first_seen_map\":{";
    let hl = head.unicode_len();
    let v = crate::text::chars_of(s);
    if v.len() < hl || v.len() - hl < 2 {
        return None;
    }
    if !crate::date::range_eq_str(&v, 0, hl, head) {
        proof {
            assert(v@.subrange(0, hl as int) =~= s@.take(hl as int));
        }
        return None;
    }
    proof {
        assert(v@.subrange(0, hl as int) =~= s@.take(hl as int));
    }
    let ghost r = s@.skip(hl as int);
    proof {
        assert(r.len() >= 2);
        assert(r[0] == v@[hl as int]);
        assert(r[1] == v@[hl + 1]);
    }
    if v[hl] == '}' {
        if v.len() == hl + 2 && v[hl + 1] == '}' {
            proof {
                assert(r =~= seq!['}', '}']);
            }
            let out: Vec<(u64, String)> = Vec::new();
            proof {
                assert(pairs_view(out@) =~= Seq::<(u64, Seq<char>)>::empty());
            }
            return Some(out);
        } else {
            proof {
                if v@.len() == hl + 2 {
                    assert(r.len() == 2);
                    assert(r[1] != '}');
                    assert(r != seq!['}', '}']);
                } else {
                    assert(r.len() != 2);
                    assert(r != seq!['}', '}']);
                }
            }
            return None;
        }
    }
    proof {
        assert(r =~= v@.skip(hl as int));
    }
    match p_pairs(&v, hl) {
        Some((es, j)) => {
            proof {
                assert(v@.skip(j as int) == spec_parse_pairs(r)->Some_0.1);
            }
            if j == v.len() - 1 {
                // exactly the final closing brace must remain
                proof {
                    assert(v@.skip(j as int).len() == 1);
                    assert(v@.skip(j as int)[0] == v@[j as int]);
                }
                if v[j] == '}' {
                    proof {
                        assert(v@.skip(j as int) =~= seq!['}']);
                    }
                    Some(es)
                } else {
                    proof {
                        assert(v@.skip(j as int) != seq!['}']);
                    }
                    None
                }
            } else {
                proof {
                    assert(v@.skip(j as int).len() != 1);
                    assert(v@.skip(j as int) != seq!['}']);
                }
                None
            }
        },
        None => None,
    }
}

// ---------------------------------------------------------------------
// Parsing what was written restores the entries.
// ---------------------------------------------------------------------

/// Parsing a written string body yields back the original content and
/// leaves exactly the text after the closing quote.
proof fn lemma_parse_string_escape(v: Seq<char>, rest: Seq<char>)
    ensures
        spec_parse_string(spec_escape(v) + seq!['"'] + rest) == Some((v, rest)),
    decreases v.len(),
{
    let s = spec_escape(v) + seq!['"'] + rest;
    if v.len() == 0 {
        assert(s =~= seq!['"'] + rest);
        assert(s[0] == '"');
        assert(s.skip(1) =~= rest);
    } else {
        let c = v[0];
        let tail2 = spec_escape(v.skip(1)) + seq!['"'] + rest;
        assert(s =~= spec_esc_char(c) + tail2);
        lemma_parse_string_escape(v.skip(1), rest);
        assert(seq![c] + v.skip(1) =~= v);
        if c == '"' || c == '\\' || c == '\n' || c == '\r' || c == '\t' {
            assert(spec_esc_char(c).len() == 2);
            assert(s.len() >= 2);
            assert(s[0] == '\\');
            assert(s[1] == spec_esc_char(c)[1]);
            assert(s.skip(2) =~= tail2);
            assert(spec_parse_string(s) == Some((v, rest)));
        } else {
            assert(spec_esc_char(c) =~= seq![c]);
            assert(s[0] == c);
            assert(c != '"' && c != '\\');
            assert(s.skip(1) =~= tail2);
            assert(spec_parse_string(s) == Some((v, rest)));
        }
    }
}

/// Splitting a digit run followed by a non-digit finds exactly that run.
proof fn lemma_digit_prefix_split(ds: Seq<char>, rest: Seq<char>)
    requires
        forall|t: int| 0 <= t < ds.len() ==> spec_is_digit(ds[t]),
        rest.len() == 0 || !spec_is_digit(rest[0]),
    ensures
        spec_digit_prefix(ds + rest) == (ds, rest),
    decreases ds.len(),
{
    let s = ds + rest;
    if ds.len() == 0 {
        assert(s =~= rest);
        assert(ds =~= Seq::<char>::empty());
    } else {
        assert(s[0] == ds[0]);
        assert(s.skip(1) =~= ds.skip(1) + rest);
        assert(forall|t: int| 0 <= t < ds.skip(1).len() ==> spec_is_digit(ds.skip(1)[t]));
        lemma_digit_prefix_split(ds.skip(1), rest);
        assert(seq![s[0]] + ds.skip(1) =~= ds);
    }
}

/// The decimal rendering of a number is a non-empty digit run whose value
/// is that number.
proof fn lemma_dec_digits(n: nat)
    ensures
        spec_dec(n).len() >= 1,
        forall|t: int| 0 <= t < spec_dec(n).len() ==> spec_is_digit(spec_dec(n)[t]),
        spec_val(spec_dec(n)) == n,
    decreases n,
{
    if n < 10 {
        let d = spec_dec(n);
        assert(d =~= seq![spec_digit_char(n as int)]);
        assert(spec_is_digit(spec_digit_char(n as int)));
        assert(d.take(0) =~= Seq::<char>::empty());
        assert(spec_val(d.take(0)) == 0);
        assert(spec_digit_val(spec_digit_char(n as int)) == n);
    } else {
        lemma_dec_digits(n / 10);
        let d = spec_dec(n);
        let front = spec_dec(n / 10);
        assert(d =~= front + seq![spec_digit_char((n % 10) as int)]);
        assert(d.take(d.len() - 1) =~= front);
        assert(d.last() == spec_digit_char((n % 10) as int));
        assert(spec_digit_val(spec_digit_char((n % 10) as int)) == n % 10);
        assert(spec_val(d) == spec_val(front) * 10 + n % 10);
        assert((n / 10) * 10 + n % 10 == n);
    }
}

/// Parsing a written decimal key yields back the key.
proof fn lemma_parse_key_dec(k: u64, rest: Seq<char>)
    requires
        rest.len() >= 1,
        !spec_is_digit(rest[0]),
    ensures
        spec_parse_key(spec_dec(k as nat) + rest) == Some((k, rest)),
{
    lemma_dec_digits(k as nat);
    lemma_digit_prefix_split(spec_dec(k as nat), rest);
}

/// Parsing a written entry list followed by a closing brace yields back
/// the entries.
proof fn lemma_parse_pairs_json(entries: Seq<(u64, Seq<char>)>, tail: Seq<char>)
    requires
        entries.len() >= 1,
        tail.len() >= 1,
        tail[0] == '}',
    ensures
        spec_parse_pairs(spec_pairs_json(entries) + tail) == Some((entries, tail.skip(1))),
    decreases entries.len(),
{
    let e = entries[0];
    let s = spec_pairs_json(entries) + tail;
    lemma_dec_digits(e.0 as nat);
    if entries.len() == 1 {
        let rk = seq!['"', ':', '"'] + (spec_escape(e.1) + (seq!['"'] + tail));
        assert(s =~= seq!['"'] + (spec_dec(e.0 as nat) + rk));
        assert(s[0] == '"');
        assert(s.skip(1) =~= spec_dec(e.0 as nat) + rk);
        assert(!spec_is_digit('"'));
        lemma_parse_key_dec(e.0, rk);
        assert(spec_parse_key(s.skip(1)) == Some((e.0, rk)));
        assert(rk.len() >= 3 && rk[0] == '"' && rk[1] == ':' && rk[2] == '"');
        assert(rk.skip(3) =~= spec_escape(e.1) + seq!['"'] + tail);
        lemma_parse_string_escape(e.1, tail);
        assert(spec_parse_string(rk.skip(3)) == Some((e.1, tail)));
        assert(tail[0] != ',');
        assert(spec_parse_pairs(s) == Some((seq![(e.0, e.1)], tail.skip(1))));
        assert((e.0, e.1) == e);
        assert(seq![e] =~= entries);
    } else {
        let t_after = seq![','] + (spec_pairs_json(entries.skip(1)) + tail);
        let rk = seq!['"', ':', '"'] + (spec_escape(e.1) + (seq!['"'] + t_after));
        assert(spec_pairs_json(entries) == spec_pair_json(e.0, e.1) + seq![','] + spec_pairs_json(
            entries.skip(1),
        ));
        assert(s =~= seq!['"'] + (spec_dec(e.0 as nat) + rk));
        assert(s[0] == '"');
        assert(s.skip(1) =~= spec_dec(e.0 as nat) + rk);
        assert(!spec_is_digit('"'));
        lemma_parse_key_dec(e.0, rk);
        assert(spec_parse_key(s.skip(1)) == Some((e.0, rk)));
        assert(rk.len() >= 3 && rk[0] == '"' && rk[1] == ':' && rk[2] == '"');
        assert(rk.skip(3) =~= spec_escape(e.1) + seq!['"'] + t_after);
        lemma_parse_string_escape(e.1, t_after);
        assert(spec_parse_string(rk.skip(3)) == Some((e.1, t_after)));
        assert(t_after.len() >= 1 && t_after[0] == ',');
        assert(t_after.skip(1) =~= spec_pairs_json(entries.skip(1)) + tail);
        assert(t_after.skip(1).len() < s.len());
        lemma_parse_pairs_json(entries.skip(1), tail);
        assert(spec_parse_pairs(t_after.skip(1)) == Some((entries.skip(1), tail.skip(1))));
        assert(spec_parse_pairs(s) == Some((seq![(e.0, e.1)] + entries.skip(1), tail.skip(1))));
        assert((e.0, e.1) == e);
        assert(seq![e] + entries.skip(1) =~= entries);
    }
}

/// LAW: the store codec round-trips. Parsing the written form of any entry
/// list yields back exactly those entries.
pub proof fn lemma_store_round_trip(entries: Seq<(u64, Seq<char>)>)
    ensures
        spec_parse_memory(spec_memory_json(entries)) == Some(entries),
{
    reveal_strlit("{\"first_seen_map\":{");
    reveal_strlit("}}");
    let head = "{\"first_seen_map\":{"@;
    let s = spec_memory_json(entries);
    assert(head.len() == 19);
    assert("}}"@ =~= seq!['}', '}']);
    assert(s.take(head.len() as int) =~= head);
    assert(s.len() >= head.len() + 2);
    let r = s.skip(head.len() as int);
    assert(r =~= spec_pairs_json(entries) + "}}"@);
    if entries.len() == 0 {
        assert(spec_pairs_json(entries) == Seq::<char>::empty());
        assert(r =~= seq!['}', '}']);
        assert(r[0] == '}');
        assert(entries =~= Seq::<(u64, Seq<char>)>::empty());
    } else {
        lemma_dec_digits(entries[0].0 as nat);
        assert(spec_pairs_json(entries)[0] == '"');
        assert(r[0] == '"');
        assert(r[0] != '}');
        lemma_parse_pairs_json(entries, "}}"@);
        assert(spec_parse_pairs(r) == Some((entries, "}}"@.skip(1))));
        assert("}}"@.skip(1) =~= seq!['}']);
        assert(spec_parse_memory(s) == Some(entries));
    }
}

} // verus!

