use sdu_openrss::Memory;

#[test]
fn malformed_text_yields_empty_store() {
    assert_eq!(Memory::from_json("this is not the store format").len(), 0);
    assert_eq!(Memory::from_json("").len(), 0);
    assert_eq!(Memory::from_json("{}").len(), 0);
    assert_eq!(Memory::from_json("{\"first_seen_map\":{").len(), 0);
    assert_eq!(Memory::from_json("{\"first_seen_map\":{}} trailing").len(), 0);
    assert_eq!(Memory::from_json("{\"first_seen_map\":{\"notanumber\":\"x\"}}").len(), 0);
}

#[test]
fn empty_store_round_trips() {
    let m = Memory::new();
    let text = m.to_json();
    assert_eq!(text, "{\"first_seen_map\":{}}");
    let back = Memory::from_json(&text);
    assert_eq!(back.len(), 0);
}

#[test]
fn entries_round_trip_through_the_text() {
    let mut m = Memory::new();
    m.record(17, "Tue, 01 Jul 2003 10:52:37 +0200");
    m.record(u64::MAX, "Wed, 18 Feb 2015 23:16:09 GMT");
    let text = m.to_json();
    let back = Memory::from_json(&text);
    assert_eq!(back.len(), 2);
    assert_eq!(back.lookup(17).as_deref(), Some("Tue, 01 Jul 2003 10:52:37 +0200"));
    assert_eq!(back.lookup(u64::MAX).as_deref(), Some("Wed, 18 Feb 2015 23:16:09 GMT"));
    assert_eq!(back.lookup(18), None);
}

#[test]
fn awkward_characters_round_trip() {
    let mut m = Memory::new();
    m.record(1, "with \"quotes\" and \\backslash\\");
    m.record(2, "line\nbreak\ttab\rreturn");
    let back = Memory::from_json(&m.to_json());
    assert_eq!(back.lookup(1).as_deref(), Some("with \"quotes\" and \\backslash\\"));
    assert_eq!(back.lookup(2).as_deref(), Some("line\nbreak\ttab\rreturn"));
}

#[test]
fn record_never_overwrites() {
    let mut m = Memory::new();
    m.record(5, "first");
    m.record(5, "second");
    assert_eq!(m.len(), 1);
    assert_eq!(m.lookup(5).as_deref(), Some("first"));
}

#[test]
fn handwritten_store_text_is_read() {
    let m = Memory::from_json("{\"first_seen_map\":{\"5\":\"x\",\"6\":\"y\"}}");
    assert_eq!(m.len(), 2);
    assert_eq!(m.lookup(5).as_deref(), Some("x"));
    assert_eq!(m.lookup(6).as_deref(), Some("y"));
}

#[test]
fn duplicate_fingerprints_keep_the_first() {
    let m = Memory::from_json("{\"first_seen_map\":{\"5\":\"x\",\"5\":\"y\"}}");
    assert_eq!(m.len(), 1);
    assert_eq!(m.lookup(5).as_deref(), Some("x"));
}

#[test]
fn oversized_fingerprints_are_malformed() {
    assert_eq!(Memory::from_json("{\"first_seen_map\":{\"18446744073709551616\":\"x\"}}").len(), 0);
}
