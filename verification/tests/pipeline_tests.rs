use sdu_openrss::Campus;
use sdu_openrss::Faculty;
use sdu_openrss::Memory;
use sdu_openrss::Position;
use sdu_openrss::date::Date;
use sdu_openrss::enrich;
use sdu_openrss::fingerprint::fingerprint;
use sdu_openrss::parse_dom;

const NOW: &str = "Tue, 01 Jul 2003 10:52:37 +0200";
const LATER: &str = "Wed, 02 Jul 2003 09:00:00 +0200";
const ROOT: &str = "https://www.sdu.dk";

fn posting(deadline: Date) -> Position {
    Position {
        link: "https://www.sdu.dk/job/1".to_string(),
        title: "A Job".to_string(),
        campus: Campus::Odense,
        faculty: Faculty::Science,
        deadline,
        first_seen: None,
    }
}

#[test]
fn fingerprint_is_deterministic() {
    let a = posting(Date { year: 2023, month: 3, day: 5 });
    assert_eq!(fingerprint(&a), fingerprint(&a));
    let b = posting(Date { year: 2023, month: 3, day: 5 });
    assert_eq!(fingerprint(&a), fingerprint(&b));
}

#[test]
fn fingerprint_ignores_deadline_and_first_seen() {
    let a = posting(Date { year: 2023, month: 3, day: 5 });
    let mut b = posting(Date { year: 2024, month: 12, day: 24 });
    b.first_seen = Some(NOW.to_string());
    assert_eq!(fingerprint(&a), fingerprint(&b));
}

#[test]
fn fingerprint_depends_on_the_identity_tuple() {
    let a = posting(Date { year: 2023, month: 3, day: 5 });
    let mut b = posting(Date { year: 2023, month: 3, day: 5 });
    b.title = "Another Job".to_string();
    assert_ne!(fingerprint(&a), fingerprint(&b));
    let mut c = posting(Date { year: 2023, month: 3, day: 5 });
    c.campus = Campus::Kolding;
    assert_ne!(fingerprint(&a), fingerprint(&c));
}

#[test]
fn first_run_assigns_now_and_records_one_entry() {
    let mut m = Memory::new();
    let out = enrich(vec![posting(Date { year: 2023, month: 3, day: 5 })], &mut m, NOW);
    assert_eq!(out.len(), 1);
    assert_eq!(out[0].first_seen.as_deref(), Some(NOW));
    assert_eq!(m.len(), 1);
}

#[test]
fn replay_keeps_the_original_first_seen() {
    let mut m = Memory::new();
    let run1 = enrich(vec![posting(Date { year: 2023, month: 3, day: 5 })], &mut m, NOW);
    // persist and reload the store between the runs
    let mut m2 = Memory::from_json(&m.to_json());
    let run2 = enrich(vec![posting(Date { year: 2023, month: 3, day: 5 })], &mut m2, LATER);
    assert_eq!(run2[0].first_seen, run1[0].first_seen);
    assert_eq!(run2[0].first_seen.as_deref(), Some(NOW));
    assert_eq!(m2.len(), 1);
}

#[test]
fn a_moved_deadline_keeps_the_first_seen() {
    let mut m = Memory::new();
    let run1 = enrich(vec![posting(Date { year: 2023, month: 3, day: 5 })], &mut m, NOW);
    let mut m2 = Memory::from_json(&m.to_json());
    let moved = posting(Date { year: 2023, month: 6, day: 30 });
    let run2 = enrich(vec![moved], &mut m2, LATER);
    assert_eq!(run2[0].first_seen, run1[0].first_seen);
    assert_eq!(m2.len(), 1);
}

#[test]
fn unreadable_stored_stamps_leave_first_seen_unset() {
    let p = posting(Date { year: 2023, month: 3, day: 5 });
    let fp = fingerprint(&p);
    let mut m = Memory::new();
    m.record(fp, "never o'clock");
    let out = enrich(vec![p], &mut m, NOW);
    assert_eq!(out[0].first_seen, None);
    assert_eq!(m.len(), 1);
}

#[test]
fn ordering_does_not_change_fingerprints() {
    let a = posting(Date { year: 2023, month: 3, day: 5 });
    let mut b = posting(Date { year: 2023, month: 3, day: 5 });
    b.link = "https://www.sdu.dk/job/2".to_string();
    let mut m = Memory::new();
    let fa = fingerprint(&a);
    let fb = fingerprint(&b);
    enrich(vec![a, b], &mut m, NOW);
    let mut m2 = Memory::from_json(&m.to_json());
    let a2 = posting(Date { year: 2023, month: 3, day: 5 });
    let mut b2 = posting(Date { year: 2023, month: 3, day: 5 });
    b2.link = "https://www.sdu.dk/job/2".to_string();
    // reversed input order on the second run
    let out = enrich(vec![b2, a2], &mut m2, LATER);
    assert_eq!(m2.len(), 2);
    assert_eq!(out[0].first_seen.as_deref(), Some(NOW));
    assert_eq!(out[1].first_seen.as_deref(), Some(NOW));
    assert_eq!(fingerprint(&out[1]), fa);
    assert_eq!(fingerprint(&out[0]), fb);
}

#[test]
fn parse_dom_stamps_and_remembers() {
    let html = "<table><tbody>\
        <tr><td><a href=\"/job/1\">Job One</a></td><td>Faculty of Science</td><td>Odense</td><td>2023-March-05</td></tr>\
        </tbody></table>";
    let mut m = Memory::new();
    let run1 = parse_dom(html, ROOT, &mut m).expect("document parses");
    assert_eq!(run1.len(), 1);
    let stamp = run1[0].first_seen.clone().expect("fresh posting is stamped");
    assert_eq!(m.len(), 1);
    // a second run against the persisted store sees the same stamp
    let mut m2 = Memory::from_json(&m.to_json());
    let run2 = parse_dom(html, ROOT, &mut m2).expect("document parses");
    assert_eq!(run2[0].first_seen.as_deref(), Some(stamp.as_str()));
    assert_eq!(m2.len(), 1);
}

#[test]
fn parse_dom_rejects_unparseable_documents() {
    let mut m = Memory::new();
    m.record(9, NOW);
    let r = parse_dom("<!DOCTYPE html><html></html><html></html>", ROOT, &mut m);
    assert!(r.is_err());
    assert_eq!(m.len(), 1);
    assert_eq!(m.lookup(9).as_deref(), Some(NOW));
}
