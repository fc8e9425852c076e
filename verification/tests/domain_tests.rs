use sdu_openrss::Campus;
use sdu_openrss::Faculty;

#[test]
fn campus_known_labels() {
    assert!(matches!(Campus::from_label("Copenhagen"), Some(Campus::Copenhagen)));
    assert!(matches!(Campus::from_label("Esbjerg"), Some(Campus::Esbjerg)));
    assert!(matches!(Campus::from_label("Kolding"), Some(Campus::Kolding)));
    assert!(matches!(Campus::from_label("Odense"), Some(Campus::Odense)));
    assert!(matches!(Campus::from_label("Slagelse"), Some(Campus::Slagelse)));
    assert!(matches!(Campus::from_label("S\u{f8}nderborg"), Some(Campus::Soenderborg)));
    assert!(matches!(Campus::from_label("Flere tjenestesteder"), Some(Campus::Several)));
}

#[test]
fn campus_unknown_label_is_rejected() {
    assert!(Campus::from_label("Mars").is_none());
    assert!(Campus::from_label("").is_none());
    assert!(Campus::from_label("odense").is_none());
}

#[test]
fn campus_names_round_trip() {
    // every campus but Several displays its source label back
    let all = [
        Campus::Copenhagen,
        Campus::Esbjerg,
        Campus::Kolding,
        Campus::Odense,
        Campus::Slagelse,
        Campus::Soenderborg,
    ];
    for c in all {
        let label = c.name();
        assert!(matches!(Campus::from_label(label), Some(back) if back == c));
    }
    assert_eq!(Campus::Soenderborg.name(), "S\u{f8}nderborg");
    // the several-locations campus displays as Several, not as its label
    assert_eq!(Campus::Several.name(), "Several");
    assert!(Campus::from_label("Several").is_none());
}

#[test]
fn label_errors_name_the_label() {
    assert!(matches!(Campus::try_from_label("Odense"), Ok(Campus::Odense)));
    let e = Campus::try_from_label("Atlantis").unwrap_err();
    assert_eq!(e.label, "Atlantis");
    assert!(matches!(Faculty::try_from_label("SDU Library"), Ok(Faculty::Library)));
    let e = Faculty::try_from_label("Faculty of Alchemy").unwrap_err();
    assert_eq!(e.label, "Faculty of Alchemy");
}

#[test]
fn faculty_known_labels() {
    assert!(matches!(Faculty::from_label("Faculty of Engineering"), Some(Faculty::Engineering)));
    assert!(matches!(
        Faculty::from_label("Faculty of Health Sciences"),
        Some(Faculty::HealthSciences)
    ));
    assert!(matches!(
        Faculty::from_label("Faculty of Business and Social Sciences"),
        Some(Faculty::BusinessAndSocialSciences)
    ));
    assert!(matches!(Faculty::from_label("Faculty of Science"), Some(Faculty::Science)));
    assert!(matches!(Faculty::from_label("Faculty of Humanities"), Some(Faculty::Humanities)));
    assert!(matches!(
        Faculty::from_label("Central Administration"),
        Some(Faculty::CentralAdministration)
    ));
    assert!(matches!(Faculty::from_label("SDU Library"), Some(Faculty::Library)));
}

#[test]
fn faculty_unknown_label_is_rejected() {
    assert!(Faculty::from_label("Faculty of Magic").is_none());
    assert!(Faculty::from_label("").is_none());
}

#[test]
fn faculty_display_strings() {
    assert_eq!(Faculty::Engineering.long_name(), "Faculty of Engineering");
    assert_eq!(Faculty::Engineering.to_short_name(), "Engineering");
    assert_eq!(Faculty::HealthSciences.to_short_name(), "Health");
    assert_eq!(Faculty::BusinessAndSocialSciences.to_short_name(), "Business");
    assert_eq!(Faculty::Science.to_short_name(), "Science");
    assert_eq!(Faculty::Humanities.to_short_name(), "Humanities");
    assert_eq!(Faculty::CentralAdministration.to_short_name(), "Administration");
    assert_eq!(Faculty::Library.to_short_name(), "Library");
}
