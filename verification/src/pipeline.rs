//! The dedup/enrichment pass and the whole-document entry points: parse
//! the table, fingerprint every posting, recover each posting's first-seen
//! stamp from the memory store or mint a fresh one, and record the store's
//! new state.

use vstd::prelude::*;

use crate::fingerprint::fingerprint;
use crate::fingerprint::spec_fingerprint;
use crate::html::dom_of;
use crate::html::extract_positions;
use crate::html::html_ok;
use crate::html::parse_html_nodes;
use crate::html::spec_list_positions;
use crate::html::lemma_equiv_list_positions;
use crate::html::lemma_list_positions_wf;
use crate::memory::Memory;
use crate::position::Position;
use crate::position::PositionView;
use crate::position::spec_position_wf;
use crate::position::views_of;

verus! {

/// Whether a text is a well-formed RFC-2822 date-time. Relied on below:
/// the outside parser accepts or rejects a text as a function of the text
/// alone.
pub uninterp spec fn is_rfc2822(s: Seq<char>) -> bool;

/// Relies on `chrono::DateTime::parse_from_rfc2822`: whether it accepts a
/// text depends on the text alone.
#[verifier::external_body]
fn rfc2822_ok(s: &str) -> (r: bool)
    ensures
        r == is_rfc2822(s@),
{
    chrono::DateTime::parse_from_rfc2822(s).is_ok()
}

/// Relies on `chrono::Local::now` and `chrono::DateTime::to_rfc2822` for
/// the current local time as RFC-2822 text. Which time comes back depends
/// on the clock and the machine's time zone, so no more is promised than
/// the format: `to_rfc2822` emits exactly the fixed-format text that
/// `parse_from_rfc2822` accepts.
#[verifier::external_body]
fn now_rfc2822() -> (r: String)
    ensures
        is_rfc2822(r@),
{
    chrono::Local::now().to_rfc2822()
}

/// The identity fingerprint of a posting value.
pub open spec fn spec_fp_of(p: PositionView) -> u64 {
    spec_fingerprint(p.link, p.title, p.campus, p.faculty)
}

/// The first-seen stamp one posting receives against a store state: the
/// stored text when its fingerprint is known (dropped if unreadable), the
/// fresh `now` text otherwise.
pub open spec fn spec_assign(p: PositionView, m: Map<u64, Seq<char>>, now: Seq<char>) -> PositionView {
    let fp = spec_fp_of(p);
    PositionView {
        first_seen: if m.dom().contains(fp) {
            if is_rfc2822(m[fp]) {
                Some(m[fp])
            } else {
                None
            }
        } else {
            Some(now)
        },
        ..p
    }
}

/// The store state after one posting: unchanged when its fingerprint is
/// known, extended by the fresh stamp otherwise.
pub open spec fn spec_step_mem(p: PositionView, m: Map<u64, Seq<char>>, now: Seq<char>) -> Map<
    u64,
    Seq<char>,
> {
    let fp = spec_fp_of(p);
    if m.dom().contains(fp) {
        m
    } else {
        m.insert(fp, now)
    }
}

/// The enriched postings, in order, each judged against the store state
/// left by the ones before it.
pub open spec fn spec_enrich_seq(
    ps: Seq<PositionView>,
    m: Map<u64, Seq<char>>,
    now: Seq<char>,
) -> Seq<PositionView>
    decreases ps.len(),
{
    if ps.len() == 0 {
        Seq::empty()
    } else {
        seq![spec_assign(ps[0], m, now)] + spec_enrich_seq(
            ps.skip(1),
            spec_step_mem(ps[0], m, now),
            now,
        )
    }
}

/// The store state after the whole pass.
pub open spec fn spec_enrich_mem(
    ps: Seq<PositionView>,
    m: Map<u64, Seq<char>>,
    now: Seq<char>,
) -> Map<u64, Seq<char>>
    decreases ps.len(),
{
    if ps.len() == 0 {
        m
    } else {
        spec_enrich_mem(ps.skip(1), spec_step_mem(ps[0], m, now), now)
    }
}

/// Assigns every posting its first-seen stamp and records fresh
/// fingerprints in the store, in input order.
pub fn enrich(positions: Vec<Position>, memory: &mut Memory, now: &str) -> (r: Vec<Position>)
    requires
        old(memory).wf(),
    ensures
        final(memory).wf(),
        views_of(r@) == spec_enrich_seq(views_of(positions@), old(memory)@, now@),
        final(memory)@ == spec_enrich_mem(views_of(positions@), old(memory)@, now@),
{
    let ghost all = views_of(positions@);
    let mut rest = positions;
    let mut out: Vec<Position> = Vec::new();
    proof {
        assert(views_of(out@) =~= Seq::<PositionView>::empty());
        assert(views_of(out@) + spec_enrich_seq(views_of(rest@), memory@, now@)
            =~= spec_enrich_seq(all, old(memory)@, now@));
    }
    while rest.len() > 0
        invariant
            memory.wf(),
            views_of(out@) + spec_enrich_seq(views_of(rest@), memory@, now@) == spec_enrich_seq(
                all,
                old(memory)@,
                now@,
            ),
            spec_enrich_mem(views_of(rest@), memory@, now@) == spec_enrich_mem(
                all,
                old(memory)@,
                now@,
            ),
        decreases rest@.len(),
    {
        let ghost rest_views = views_of(rest@);
        let ghost mem0 = memory@;
        let mut p = rest.remove(0);
        proof {
            assert(rest_views[0] == p@);
            assert(views_of(rest@) =~= rest_views.skip(1));
            assert(spec_enrich_seq(rest_views, mem0, now@) == seq![spec_assign(
                rest_views[0],
                mem0,
                now@,
            )] + spec_enrich_seq(rest_views.skip(1), spec_step_mem(rest_views[0], mem0, now@), now@));
        }
        let fp = fingerprint(&p);
        match memory.lookup(fp) {
            Some(ts) => {
                if rfc2822_ok(ts.as_str()) {
                    p.first_seen = Some(ts);
                } else {
                    p.first_seen = None;
                }
                proof {
                    assert(p@ == spec_assign(rest_views[0], mem0, now@));
                    assert(spec_step_mem(rest_views[0], mem0, now@) == memory@);
                }
            },
            None => {
                memory.record(fp, now);
                p.first_seen = Some(now.to_owned());
                proof {
                    assert(p@ == spec_assign(rest_views[0], mem0, now@));
                    assert(spec_step_mem(rest_views[0], mem0, now@) == memory@);
                }
            },
        }
        let ghost out_before = out@;
        out.push(p);
        proof {
            assert(views_of(out@) =~= views_of(out_before) + seq![p@]);
            assert((views_of(out_before) + seq![p@]) + spec_enrich_seq(
                views_of(rest@),
                memory@,
                now@,
            ) =~= views_of(out_before) + (seq![p@] + spec_enrich_seq(views_of(rest@), memory@, now@)));
        }
    }
    proof {
        assert(views_of(rest@) =~= Seq::<PositionView>::empty());
        assert(views_of(out@) + Seq::<PositionView>::empty() =~= views_of(out@));
    }
    out
}

/// The whole-document structural failure: the input could not be parsed
/// as HTML at all.
#[derive(Debug, Clone, Copy, PartialEq, Eq, Structural)]
pub struct DocError {}

/// Parses a document into its valid postings, none of them stamped yet.
/// Fails exactly when the text is not parseable as HTML; every row that
/// fails validation is silently dropped.
pub fn parse_positions(html: &str, domain_root: &str) -> (r: Result<Vec<Position>, DocError>)
    ensures
        (r is Ok) == html_ok(html@),
        match r {
            Ok(ps) => views_of(ps@) == spec_list_positions(dom_of(html@), domain_root@) && forall|
                i: int,
            |
                0 <= i < ps@.len() ==> spec_position_wf(#[trigger] views_of(ps@)[i]) && views_of(
                    ps@,
                )[i].first_seen is None,
            Err(_) => true,
        },
{
    match parse_html_nodes(html) {
        Some(nodes) => {
            let ps = extract_positions(&nodes, domain_root);
            proof {
                lemma_equiv_list_positions(nodes@, dom_of(html@), domain_root@);
                lemma_list_positions_wf(nodes@, domain_root@);
            }
            Ok(ps)
        },
        None => Err(DocError {}),
    }
}

/// Parses a document and runs the dedup/enrichment pass against the
/// store: every returned posting is well formed and carries a first-seen
/// stamp judged against the store, fresh fingerprints are recorded under
/// the current local time, and no stored stamp is ever changed or lost.
pub fn parse_dom(html: &str, domain_root: &str, memory: &mut Memory) -> (r: Result<
    Vec<Position>,
    DocError,
>)
    requires
        old(memory).wf(),
    ensures
        final(memory).wf(),
        (r is Ok) == html_ok(html@),
        r is Err ==> final(memory)@ == old(memory)@,
        match r {
            Ok(ps) => (forall|i: int|
                0 <= i < ps@.len() ==> spec_position_wf(#[trigger] views_of(ps@)[i])) && (exists|
                now: Seq<char>,
            |
                {
                    let rows = spec_list_positions(dom_of(html@), domain_root@);
                    &&& #[trigger] is_rfc2822(now)
                    &&& views_of(ps@) == spec_enrich_seq(rows, old(memory)@, now)
                    &&& final(memory)@ == spec_enrich_mem(rows, old(memory)@, now)
                }),
            Err(_) => true,
        },
        forall|k: u64|
            #[trigger] old(memory)@.dom().contains(k) ==> final(memory)@.dom().contains(k)
                && final(memory)@[k] == old(memory)@[k],
{
    let parsed = match parse_positions(html, domain_root) {
        Ok(ps) => ps,
        Err(e) => {
            return Err(e);
        },
    };
    let ghost parsed_views = views_of(parsed@);
    let now = now_rfc2822();
    let enriched = enrich(parsed, memory, now.as_str());
    proof {
        lemma_enrich_keeps_fields(parsed_views, old(memory)@, now@);
        assert forall|k: u64| #[trigger] old(memory)@.dom().contains(k) implies memory@
            .dom().contains(k) && memory@[k] == old(memory)@[k] by {
            lemma_memory_monotonic(parsed_views, old(memory)@, now@, k);
        }
        let rows = spec_list_positions(dom_of(html@), domain_root@);
        assert(parsed_views == rows);
        assert(is_rfc2822(now@) && views_of(enriched@) == spec_enrich_seq(
            rows,
            old(memory)@,
            now@,
        ) && memory@ == spec_enrich_mem(rows, old(memory)@, now@));
    }
    Ok(enriched)
}

/// LAW: the pass only fills in first-seen stamps. Every other field of
/// every posting is kept, and the order and number of postings is kept.
pub proof fn lemma_enrich_keeps_fields(
    ps: Seq<PositionView>,
    m: Map<u64, Seq<char>>,
    now: Seq<char>,
)
    ensures
        spec_enrich_seq(ps, m, now).len() == ps.len(),
        forall|i: int|
            0 <= i < ps.len() ==> {
                let q = #[trigger] spec_enrich_seq(ps, m, now)[i];
                q.link == ps[i].link && q.title == ps[i].title && q.campus == ps[i].campus
                    && q.faculty == ps[i].faculty && q.deadline == ps[i].deadline
            },
    decreases ps.len(),
{
    if ps.len() > 0 {
        lemma_enrich_keeps_fields(ps.skip(1), spec_step_mem(ps[0], m, now), now);
        assert forall|i: int| 0 <= i < ps.len() implies {
            let q = #[trigger] spec_enrich_seq(ps, m, now)[i];
            q.link == ps[i].link && q.title == ps[i].title && q.campus == ps[i].campus && q.faculty
                == ps[i].faculty && q.deadline == ps[i].deadline
        } by {
            if i > 0 {
                assert(spec_enrich_seq(ps, m, now)[i] == spec_enrich_seq(
                    ps.skip(1),
                    spec_step_mem(ps[0], m, now),
                    now,
                )[i - 1]);
                assert(ps.skip(1)[i - 1] == ps[i]);
            }
        }
    }
}

/// LAW: first-seen stamps are monotonic. A fingerprint already in the
/// store keeps exactly its stored stamp through any pass.
pub proof fn lemma_memory_monotonic(
    ps: Seq<PositionView>,
    m: Map<u64, Seq<char>>,
    now: Seq<char>,
    k: u64,
)
    requires
        m.dom().contains(k),
    ensures
        spec_enrich_mem(ps, m, now).dom().contains(k),
        spec_enrich_mem(ps, m, now)[k] == m[k],
    decreases ps.len(),
{
    if ps.len() > 0 {
        lemma_memory_monotonic(ps.skip(1), spec_step_mem(ps[0], m, now), now, k);
    }
}

/// LAW: after the pass, the store knows every posting's fingerprint.
pub proof fn lemma_enrich_mem_contains(
    ps: Seq<PositionView>,
    m: Map<u64, Seq<char>>,
    now: Seq<char>,
)
    ensures
        forall|i: int|
            0 <= i < ps.len() ==> spec_enrich_mem(ps, m, now).dom().contains(
                #[trigger] spec_fp_of(ps[i]),
            ),
    decreases ps.len(),
{
    if ps.len() > 0 {
        let m1 = spec_step_mem(ps[0], m, now);
        lemma_enrich_mem_contains(ps.skip(1), m1, now);
        assert forall|i: int| 0 <= i < ps.len() implies spec_enrich_mem(ps, m, now).dom().contains(
            #[trigger] spec_fp_of(ps[i]),
        ) by {
            if i == 0 {
                assert(m1.dom().contains(spec_fp_of(ps[0])));
                lemma_memory_monotonic(ps.skip(1), m1, now, spec_fp_of(ps[0]));
            } else {
                assert(ps.skip(1)[i - 1] == ps[i]);
            }
        }
    }
}

/// LAW: replay is stable. Running the pass a second time on the same
/// postings against the store the first run left changes nothing in the
/// store; and when the fresh stamp of the first run was well-formed
/// RFC-2822 text, the second run returns exactly the postings of the
/// first.
pub proof fn lemma_stable_replay(
    ps: Seq<PositionView>,
    m: Map<u64, Seq<char>>,
    now1: Seq<char>,
    now2: Seq<char>,
)
    ensures
        spec_enrich_mem(ps, spec_enrich_mem(ps, m, now1), now2) == spec_enrich_mem(ps, m, now1),
        is_rfc2822(now1) ==> spec_enrich_seq(ps, spec_enrich_mem(ps, m, now1), now2)
            == spec_enrich_seq(ps, m, now1),
    decreases ps.len(),
{
    if ps.len() > 0 {
        let p = ps[0];
        let fp = spec_fp_of(p);
        let mstep = spec_step_mem(p, m, now1);
        let m1 = spec_enrich_mem(ps, m, now1);
        assert(m1 == spec_enrich_mem(ps.skip(1), mstep, now1));
        // the head's fingerprint is in the final store, with its run-one stamp
        assert(mstep.dom().contains(fp));
        lemma_memory_monotonic(ps.skip(1), mstep, now1, fp);
        assert(m1.dom().contains(fp));
        assert(m1[fp] == mstep[fp]);
        assert(spec_step_mem(p, m1, now2) == m1);
        lemma_stable_replay(ps.skip(1), mstep, now1, now2);
        assert(spec_enrich_mem(ps, m1, now2) == spec_enrich_mem(ps.skip(1), m1, now2));
        if is_rfc2822(now1) {
            let h1 = spec_assign(p, m, now1);
            let h2 = spec_assign(p, m1, now2);
            if m.dom().contains(fp) {
                assert(mstep[fp] == m[fp]);
                assert(h2 == h1);
            } else {
                assert(mstep[fp] == now1);
                assert(h1.first_seen == Some(now1));
                assert(h2.first_seen == Some(now1));
                assert(h2 == h1);
            }
            assert(spec_enrich_seq(ps, m1, now2) =~= spec_enrich_seq(ps, m, now1));
        }
    }
}

} // verus!

