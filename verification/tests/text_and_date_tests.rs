use sdu_openrss::date::Date;
use sdu_openrss::date::parse_date;
use sdu_openrss::html::strip_entities;
use sdu_openrss::text::chars_of;
use sdu_openrss::text::collapse_ws;
use sdu_openrss::text::string_of;

fn collapse(s: &str) -> String {
    string_of(&collapse_ws(&chars_of(s)))
}

fn strip(s: &str) -> String {
    string_of(&strip_entities(&chars_of(s)))
}

fn date_of(s: &str) -> Option<Date> {
    parse_date(&chars_of(s))
}

#[test]
fn whitespace_collapses_to_single_spaces() {
    assert_eq!(collapse("Hello\n   World\t x"), "Hello World x");
    assert_eq!(collapse("  leading and trailing  "), "leading and trailing");
    assert_eq!(collapse("one"), "one");
    assert_eq!(collapse("   \n\t  "), "");
    assert_eq!(collapse(""), "");
}

#[test]
fn entity_cleanup_removes_amp_and_replaces_nbsp() {
    assert_eq!(strip("A&amp;B"), "AB");
    assert_eq!(strip("A&nbsp;B"), "A B");
    assert_eq!(strip("Business &amp;&nbsp;Social"), "Business  Social");
    assert_eq!(strip("plain"), "plain");
    assert!(!strip("x&nbsp;y").contains("&nbsp;"));
}

#[test]
fn deadline_parses_full_format() {
    assert_eq!(date_of("2023-March-05"), Some(Date { year: 2023, month: 3, day: 5 }));
    assert_eq!(date_of("1999-December-31"), Some(Date { year: 1999, month: 12, day: 31 }));
    assert_eq!(date_of("2023-March-5"), Some(Date { year: 2023, month: 3, day: 5 }));
}

#[test]
fn deadline_respects_the_calendar() {
    assert_eq!(date_of("2024-February-29"), Some(Date { year: 2024, month: 2, day: 29 }));
    assert_eq!(date_of("2023-February-29"), None);
    assert_eq!(date_of("2000-February-29"), Some(Date { year: 2000, month: 2, day: 29 }));
    assert_eq!(date_of("1900-February-29"), None);
    assert_eq!(date_of("2023-April-31"), None);
    assert_eq!(date_of("2023-April-00"), None);
}

#[test]
fn deadline_rejects_malformed_text() {
    assert_eq!(date_of(""), None);
    assert_eq!(date_of("2023-Mar-05"), None);
    assert_eq!(date_of("23-March-05"), None);
    assert_eq!(date_of("2023March05"), None);
    assert_eq!(date_of("2023-March-"), None);
    assert_eq!(date_of("2023-March-055"), None);
    assert_eq!(date_of("2023-march-05"), None);
    assert_eq!(date_of("2023-March-05 "), None);
}
