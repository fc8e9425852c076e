//! The persisted memory store: a mapping from a posting's 64-bit
//! fingerprint to the RFC-2822 text of when it was first seen. The store
//! is loaded from text once per run (malformed text yields an empty store,
//! never an error) and written back as text at the end; entries are only
//! ever added, never removed or overwritten.

use vstd::prelude::*;

use crate::json::pairs_view;
use crate::json::pairs_to_json;
use crate::json::parse_memory_text;
use crate::json::spec_memory_json;
use crate::json::spec_parse_memory;
use crate::json::lemma_store_round_trip;

verus! {

/// No two entries carry the same fingerprint.
pub open spec fn spec_unique_keys(ps: Seq<(u64, Seq<char>)>) -> bool {
    forall|a: int, b: int| 0 <= a < b < ps.len() ==> ps[a].0 != ps[b].0
}

/// Whether some entry carries the fingerprint `k`.
pub open spec fn spec_has_key(ps: Seq<(u64, Seq<char>)>, k: u64) -> bool {
    exists|t: int| 0 <= t < ps.len() && ps[t].0 == k
}

/// The mapping denoted by an entry list; an earlier entry wins over a
/// later one with the same fingerprint.
pub open spec fn map_of(ps: Seq<(u64, Seq<char>)>) -> Map<u64, Seq<char>>
    decreases ps.len(),
{
    if ps.len() == 0 {
        Map::empty()
    } else {
        map_of(ps.skip(1)).insert(ps[0].0, ps[0].1)
    }
}

/// The entry at `t` is in the mapping; with unique fingerprints its
/// timestamp is the mapped value.
pub proof fn lemma_map_of_get(ps: Seq<(u64, Seq<char>)>, t: int)
    requires
        spec_unique_keys(ps),
        0 <= t < ps.len(),
    ensures
        map_of(ps).dom().contains(ps[t].0),
        map_of(ps)[ps[t].0] == ps[t].1,
    decreases ps.len(),
{
    if t > 0 {
        assert(forall|a: int, b: int|
            0 <= a < b < ps.skip(1).len() ==> ps.skip(1)[a].0 != ps.skip(1)[b].0);
        assert(ps.skip(1)[t - 1] == ps[t]);
        lemma_map_of_get(ps.skip(1), t - 1);
        assert(ps[t].0 != ps[0].0);
    }
}

/// A fingerprint on no entry is not in the mapping.
pub proof fn lemma_map_of_absent(ps: Seq<(u64, Seq<char>)>, k: u64)
    requires
        !spec_has_key(ps, k),
    ensures
        !map_of(ps).dom().contains(k),
    decreases ps.len(),
{
    if ps.len() > 0 {
        assert(ps[0].0 != k) by {
            if ps[0].0 == k {
                assert(spec_has_key(ps, k));
            }
        }
        assert(!spec_has_key(ps.skip(1), k)) by {
            if spec_has_key(ps.skip(1), k) {
                let t = choose|t: int| 0 <= t < ps.skip(1).len() && ps.skip(1)[t].0 == k;
                assert(ps[t + 1].0 == k);
                assert(spec_has_key(ps, k));
            }
        }
        lemma_map_of_absent(ps.skip(1), k);
    }
}

/// Appending an entry with a fresh fingerprint inserts it into the
/// mapping.
pub proof fn lemma_map_of_push(ps: Seq<(u64, Seq<char>)>, e: (u64, Seq<char>))
    requires
        !spec_has_key(ps, e.0),
    ensures
        map_of(ps.push(e)) == map_of(ps).insert(e.0, e.1),
    decreases ps.len(),
{
    if ps.len() == 0 {
        assert(ps.push(e)[0] == e);
        assert(ps.push(e).skip(1) =~= ps);
        assert(map_of(ps) =~= Map::<u64, Seq<char>>::empty());
        assert(map_of(ps.push(e)) == map_of(ps.push(e).skip(1)).insert(e.0, e.1));
    } else {
        assert(ps.push(e)[0] == ps[0]);
        assert(ps.push(e).skip(1) =~= ps.skip(1).push(e));
        assert(!spec_has_key(ps.skip(1), e.0)) by {
            if spec_has_key(ps.skip(1), e.0) {
                let t = choose|t: int|
                    0 <= t < ps.skip(1).len() && ps.skip(1)[t].0 == e.0;
                assert(ps[t + 1].0 == e.0);
            }
        }
        lemma_map_of_push(ps.skip(1), e);
        assert(ps[0].0 != e.0) by {
            if ps[0].0 == e.0 {
                assert(spec_has_key(ps, e.0));
            }
        }
        assert(map_of(ps.skip(1)).insert(e.0, e.1).insert(ps[0].0, ps[0].1) =~= map_of(
            ps.skip(1),
        ).insert(ps[0].0, ps[0].1).insert(e.0, e.1));
    }
}

/// The persisted store: fingerprints of postings already seen, each with
/// the RFC-2822 text of when it was first observed.
#[derive(Debug)]
pub struct Memory {
    entries: Vec<(u64, String)>,
}

impl View for Memory {
    type V = Map<u64, Seq<char>>;

    open spec fn view(&self) -> Map<u64, Seq<char>> {
        map_of(self.pairs())
    }
}

/// Replays an entry list into a store that keeps the first entry per
/// fingerprint: the entries the store holds afterwards.
pub open spec fn spec_load_rec(
    es: Seq<(u64, Seq<char>)>,
    acc: Seq<(u64, Seq<char>)>,
) -> Seq<(u64, Seq<char>)>
    decreases es.len(),
{
    if es.len() == 0 {
        acc
    } else {
        spec_load_rec(
            es.skip(1),
            if spec_has_key(acc, es[0].0) {
                acc
            } else {
                acc.push(es[0])
            },
        )
    }
}

/// The entries a store holds after loading an entry list into an empty
/// store.
pub open spec fn spec_load(es: Seq<(u64, Seq<char>)>) -> Seq<(u64, Seq<char>)> {
    spec_load_rec(es, Seq::empty())
}

/// Replaying entries with unique fingerprints restores them unchanged.
pub proof fn lemma_load_rec_unique(es: Seq<(u64, Seq<char>)>, acc: Seq<(u64, Seq<char>)>)
    requires
        spec_unique_keys(acc + es),
    ensures
        spec_load_rec(es, acc) == acc + es,
    decreases es.len(),
{
    if es.len() == 0 {
        assert(acc + es =~= acc);
    } else {
        let e = es[0];
        let all = acc + es;
        assert(!spec_has_key(acc, e.0)) by {
            if spec_has_key(acc, e.0) {
                let t = choose|t: int| 0 <= t < acc.len() && acc[t].0 == e.0;
                assert(all[t] == acc[t]);
                assert(all[acc.len() as int] == e);
            }
        }
        assert(acc.push(e) + es.skip(1) =~= acc + es);
        lemma_load_rec_unique(es.skip(1), acc.push(e));
    }
}

/// LAW: loading a saved store restores it. For a well-formed store, the
/// written text parses back to exactly the same entries, and replaying
/// those entries rebuilds them unchanged.
pub proof fn lemma_save_load(m: Memory)
    requires
        m.wf(),
    ensures
        spec_parse_memory(spec_memory_json(m.pairs())) == Some(m.pairs()),
        spec_load(m.pairs()) == m.pairs(),
{
    lemma_store_round_trip(m.pairs());
    assert(Seq::<(u64, Seq<char>)>::empty() + m.pairs() =~= m.pairs());
    lemma_load_rec_unique(m.pairs(), Seq::empty());
}

impl Memory {
    /// The entries of the store, in insertion order.
    pub closed spec fn pairs(&self) -> Seq<(u64, Seq<char>)> {
        pairs_view(self.entries@)
    }

    /// Well-formed: no fingerprint occurs twice.
    pub open spec fn wf(&self) -> bool {
        spec_unique_keys(self.pairs())
    }

    /// An empty store.
    pub fn new() -> (r: Memory)
        ensures
            r.wf(),
            r.pairs() == Seq::<(u64, Seq<char>)>::empty(),
            r@ == Map::<u64, Seq<char>>::empty(),
    {
        let r = Memory { entries: Vec::new() };
        proof {
            assert(r.pairs() =~= Seq::<(u64, Seq<char>)>::empty());
        }
        r
    }

    /// The number of entries.
    pub fn len(&self) -> (r: usize)
        ensures
            r == self.pairs().len(),
    {
        self.entries.len()
    }

    /// The stored first-seen text for a fingerprint, if any.
    pub fn lookup(&self, fp: u64) -> (r: Option<String>)
        requires
            self.wf(),
        ensures
            match r {
                Some(ts) => self@.dom().contains(fp) && ts@ == self@[fp],
                None => !self@.dom().contains(fp),
            },
    {
        let mut i: usize = 0;
        while i < self.entries.len()
            invariant
                self.wf(),
                i <= self.entries@.len(),
                forall|t: int| 0 <= t < i ==> self.pairs()[t].0 != fp,
            decreases self.entries@.len() - i,
        {
            if self.entries[i].0 == fp {
                proof {
                    assert(self.pairs()[i as int].0 == fp);
                    lemma_map_of_get(self.pairs(), i as int);
                }
                return Some(self.entries[i].1.clone());
            }
            i += 1;
        }
        proof {
            if spec_has_key(self.pairs(), fp) {
                let t = choose|t: int| 0 <= t < self.pairs().len() && self.pairs()[t].0 == fp;
                assert(false);
            }
            lemma_map_of_absent(self.pairs(), fp);
        }
        None
    }

    /// Records a first-seen text for a fingerprint not seen before; a
    /// fingerprint already present keeps its original text.
    pub fn record(&mut self, fp: u64, ts: &str)
        requires
            old(self).wf(),
        ensures
            final(self).wf(),
            final(self)@ == (if old(self)@.dom().contains(fp) {
                old(self)@
            } else {
                old(self)@.insert(fp, ts@)
            }),
            final(self).pairs() == (if spec_has_key(old(self).pairs(), fp) {
                old(self).pairs()
            } else {
                old(self).pairs().push((fp, ts@))
            }),
    {
        let mut i: usize = 0;
        while i < self.entries.len()
            invariant
                *self == *old(self),
                old(self).wf(),
                i <= self.entries@.len(),
                forall|t: int| 0 <= t < i ==> self.pairs()[t].0 != fp,
            decreases self.entries@.len() - i,
        {
            if self.entries[i].0 == fp {
                proof {
                    assert(self.pairs()[i as int].0 == fp);
                    lemma_map_of_get(self.pairs(), i as int);
                }
                return ;
            }
            i += 1;
        }
        proof {
            if spec_has_key(self.pairs(), fp) {
                let t = choose|t: int| 0 <= t < self.pairs().len() && self.pairs()[t].0 == fp;
                assert(false);
            }
            lemma_map_of_absent(self.pairs(), fp);
            lemma_map_of_push(self.pairs(), (fp, ts@));
        }
        let ghost before = self.pairs();
        self.entries.push((fp, ts.to_owned()));
        proof {
            assert(self.pairs() =~= before.push((fp, ts@)));
            assert forall|a: int, b: int| 0 <= a < b < self.pairs().len() implies self.pairs()[a].0
                != self.pairs()[b].0 by {
                if b < before.len() {
                } else {
                    assert(self.pairs()[b] == (fp, ts@));
                    assert(self.pairs()[a] == before[a]);
                }
            }
        }
    }

    /// The store rendered as its persisted text.
    pub fn to_json(&self) -> (r: String)
        ensures
            r@ == spec_memory_json(self.pairs()),
    {
        pairs_to_json(&self.entries)
    }

    /// A store read from its persisted text. Text that is malformed in any
    /// way yields an empty store, never an error; an entry list with a
    /// repeated fingerprint keeps the first entry.
    pub fn from_json(s: &str) -> (r: Memory)
        ensures
            r.wf(),
            r.pairs() == (match spec_parse_memory(s@) {
                Some(es) => spec_load(es),
                None => Seq::<(u64, Seq<char>)>::empty(),
            }),
    {
        let mut m = Memory::new();
        match parse_memory_text(s) {
            Some(es) => {
                let ghost full = pairs_view(es@);
                let mut i: usize = 0;
                proof {
                    assert(full.skip(0) =~= full);
                }
                while i < es.len()
                    invariant
                        i <= es@.len(),
                        full == pairs_view(es@),
                        m.wf(),
                        spec_load(full) == spec_load_rec(full.skip(i as int), m.pairs()),
                    decreases es@.len() - i,
                {
                    proof {
                        let rest = full.skip(i as int);
                        assert(rest[0] == full[i as int]);
                        assert(rest.skip(1) =~= full.skip(i + 1 as int));
                        assert(full[i as int] == (es@[i as int].0, es@[i as int].1@));
                    }
                    m.record(es[i].0, es[i].1.as_str());
                    i += 1;
                }
                proof {
                    assert(full.skip(es@.len() as int) =~= Seq::<(u64, Seq<char>)>::empty());
                }
                m
            },
            None => m,
        }
    }
}

impl Default for Memory {
    /// An empty store.
    fn default() -> (r: Memory)
        ensures
            r.wf(),
            r.pairs() == Seq::<(u64, Seq<char>)>::empty(),
            r@ == Map::<u64, Seq<char>>::empty(),
    {
        Memory::new()
    }
}

} // verus!
