//! The closed campus and faculty enumerations of the job-listings page,
//! with conversions from the raw source-page labels and back to their
//! canonical display strings.

use vstd::prelude::*;

verus! {

/// A campus location a posting can be attached to.
#[derive(Debug, Clone, Copy, PartialEq, Eq, Structural, Hash)]
pub enum Campus {
    Copenhagen,
    Esbjerg,
    Kolding,
    Odense,
    Slagelse,
    Soenderborg,
    Several,
}

/// An organizational unit a posting can belong to.
#[derive(Debug, Clone, Copy, PartialEq, Eq, Structural, Hash)]
pub enum Faculty {
    Engineering,
    HealthSciences,
    BusinessAndSocialSciences,
    Science,
    Humanities,
    CentralAdministration,
    Library,
}

/// The canonical display string of a campus. It equals the source-page
/// label — the Soenderborg campus round-trips its non-ASCII form — except
/// for the several-locations campus, which displays as `Several` rather
/// than its Danish source label.
pub open spec fn spec_campus_name(c: Campus) -> Seq<char> {
    match c {
        Campus::Copenhagen => "Copenhagen"@,
        Campus::Esbjerg => "Esbjerg"@,
        Campus::Kolding => "Kolding"@,
        Campus::Odense => "Odense"@,
        Campus::Slagelse => "Slagelse"@,
        Campus::Soenderborg => "S\u{f8}nderborg"@,
        Campus::Several => "Several"@,
    }
}

/// The campus denoted by a source-page label, if any.
pub open spec fn spec_campus_of_label(s: Seq<char>) -> Option<Campus> {
    if s == "Copenhagen"@ {
        Some(Campus::Copenhagen)
    } else if s == "Esbjerg"@ {
        Some(Campus::Esbjerg)
    } else if s == "Kolding"@ {
        Some(Campus::Kolding)
    } else if s == "Odense"@ {
        Some(Campus::Odense)
    } else if s == "Slagelse"@ {
        Some(Campus::Slagelse)
    } else if s == "S\u{f8}nderborg"@ {
        Some(Campus::Soenderborg)
    } else if s == "Flere tjenestesteder"@ {
        Some(Campus::Several)
    } else {
        None
    }
}

/// The canonical long display string of a faculty.
pub open spec fn spec_faculty_name(f: Faculty) -> Seq<char> {
    match f {
        Faculty::Engineering => "Faculty of Engineering"@,
        Faculty::HealthSciences => "Faculty of Health Sciences"@,
        Faculty::BusinessAndSocialSciences => "Faculty of Business and Social Sciences"@,
        Faculty::Science => "Faculty of Science"@,
        Faculty::Humanities => "Faculty of Humanities"@,
        Faculty::CentralAdministration => "Central Administration"@,
        Faculty::Library => "SDU Library"@,
    }
}

/// The faculty denoted by a source-page label, if any.
pub open spec fn spec_faculty_of_label(s: Seq<char>) -> Option<Faculty> {
    if s == "Faculty of Engineering"@ {
        Some(Faculty::Engineering)
    } else if s == "Faculty of Health Sciences"@ {
        Some(Faculty::HealthSciences)
    } else if s == "Faculty of Business and Social Sciences"@ {
        Some(Faculty::BusinessAndSocialSciences)
    } else if s == "Faculty of Science"@ {
        Some(Faculty::Science)
    } else if s == "Faculty of Humanities"@ {
        Some(Faculty::Humanities)
    } else if s == "Central Administration"@ {
        Some(Faculty::CentralAdministration)
    } else if s == "SDU Library"@ {
        Some(Faculty::Library)
    } else {
        None
    }
}

/// The compact display string of a faculty, used for feed titles.
pub open spec fn spec_faculty_short_name(f: Faculty) -> Seq<char> {
    match f {
        Faculty::Engineering => "Engineering"@,
        Faculty::HealthSciences => "Health"@,
        Faculty::BusinessAndSocialSciences => "Business"@,
        Faculty::Science => "Science"@,
        Faculty::Humanities => "Humanities"@,
        Faculty::CentralAdministration => "Administration"@,
        Faculty::Library => "Library"@,
    }
}

/// A label conversion failure, naming the unrecognized label.
#[derive(Debug)]
pub struct ValidationError {
    /// The label that no campus or faculty carries.
    pub label: String,
}

impl Campus {
    /// Converts a raw source-page label to a campus; unknown labels are
    /// rejected.
    pub fn from_label(s: &str) -> (r: Option<Campus>)
        ensures
            r == spec_campus_of_label(s@),
    {
        proof {
            reveal_strlit("Copenhagen");
            reveal_strlit("Esbjerg");
            reveal_strlit("Kolding");
            reveal_strlit("Odense");
            reveal_strlit("Slagelse");
            reveal_strlit("S\u{f8}nderborg");
            reveal_strlit("Flere tjenestesteder");
        }
        if str_eq(s, "Copenhagen") {
            Some(Campus::Copenhagen)
        } else if str_eq(s, "Esbjerg") {
            Some(Campus::Esbjerg)
        } else if str_eq(s, "Kolding") {
            Some(Campus::Kolding)
        } else if str_eq(s, "Odense") {
            Some(Campus::Odense)
        } else if str_eq(s, "Slagelse") {
            Some(Campus::Slagelse)
        } else if str_eq(s, "S\u{f8}nderborg") {
            Some(Campus::Soenderborg)
        } else if str_eq(s, "Flere tjenestesteder") {
            Some(Campus::Several)
        } else {
            None
        }
    }

    /// The canonical display string of this campus.
    pub fn name(&self) -> (r: &'static str)
        ensures
            r@ == spec_campus_name(*self),
    {
        match self {
            Campus::Copenhagen => "Copenhagen",
            Campus::Esbjerg => "Esbjerg",
            Campus::Kolding => "Kolding",
            Campus::Odense => "Odense",
            Campus::Slagelse => "Slagelse",
            Campus::Soenderborg => "S\u{f8}nderborg",
            Campus::Several => "Several",
        }
    }

    /// Converts a raw source-page label to a campus; an unrecognized label
    /// is a validation error naming that label.
    pub fn try_from_label(s: &str) -> (r: Result<Campus, ValidationError>)
        ensures
            match r {
                Ok(c) => spec_campus_of_label(s@) == Some(c),
                Err(e) => spec_campus_of_label(s@) is None && e.label@ == s@,
            },
    {
        match Campus::from_label(s) {
            Some(c) => Ok(c),
            None => Err(ValidationError { label: s.to_owned() }),
        }
    }
}

impl Faculty {
    /// Converts a raw source-page label to a faculty; unknown labels are
    /// rejected.
    pub fn from_label(s: &str) -> (r: Option<Faculty>)
        ensures
            r == spec_faculty_of_label(s@),
    {
        proof {
            reveal_strlit("Faculty of Engineering");
            reveal_strlit("Faculty of Health Sciences");
            reveal_strlit("Faculty of Business and Social Sciences");
            reveal_strlit("Faculty of Science");
            reveal_strlit("Faculty of Humanities");
            reveal_strlit("Central Administration");
            reveal_strlit("SDU Library");
        }
        if str_eq(s, "Faculty of Engineering") {
            Some(Faculty::Engineering)
        } else if str_eq(s, "Faculty of Health Sciences") {
            Some(Faculty::HealthSciences)
        } else if str_eq(s, "Faculty of Business and Social Sciences") {
            Some(Faculty::BusinessAndSocialSciences)
        } else if str_eq(s, "Faculty of Science") {
            Some(Faculty::Science)
        } else if str_eq(s, "Faculty of Humanities") {
            Some(Faculty::Humanities)
        } else if str_eq(s, "Central Administration") {
            Some(Faculty::CentralAdministration)
        } else if str_eq(s, "SDU Library") {
            Some(Faculty::Library)
        } else {
            None
        }
    }

    /// Converts a raw source-page label to a faculty; an unrecognized
    /// label is a validation error naming that label.
    pub fn try_from_label(s: &str) -> (r: Result<Faculty, ValidationError>)
        ensures
            match r {
                Ok(f) => spec_faculty_of_label(s@) == Some(f),
                Err(e) => spec_faculty_of_label(s@) is None && e.label@ == s@,
            },
    {
        match Faculty::from_label(s) {
            Some(f) => Ok(f),
            None => Err(ValidationError { label: s.to_owned() }),
        }
    }

    /// The canonical long display string of this faculty.
    pub fn long_name(&self) -> (r: &'static str)
        ensures
            r@ == spec_faculty_name(*self),
    {
        match self {
            Faculty::Engineering => "Faculty of Engineering",
            Faculty::HealthSciences => "Faculty of Health Sciences",
            Faculty::BusinessAndSocialSciences => "Faculty of Business and Social Sciences",
            Faculty::Science => "Faculty of Science",
            Faculty::Humanities => "Faculty of Humanities",
            Faculty::CentralAdministration => "Central Administration",
            Faculty::Library => "SDU Library",
        }
    }

    /// The compact display string of this faculty, used for feed titles.
    pub fn to_short_name(&self) -> (r: &'static str)
        ensures
            r@ == spec_faculty_short_name(*self),
    {
        match self {
            Faculty::Engineering => "Engineering",
            Faculty::HealthSciences => "Health",
            Faculty::BusinessAndSocialSciences => "Business",
            Faculty::Science => "Science",
            Faculty::Humanities => "Humanities",
            Faculty::CentralAdministration => "Administration",
            Faculty::Library => "Library",
        }
    }
}

/// Character-for-character equality of two string slices.
pub fn str_eq(a: &str, b: &str) -> (r: bool)
    ensures
        r == (a@ == b@),
{
    let a_len = a.unicode_len();
    let b_len = b.unicode_len();
    if a_len != b_len {
        assert(a@ != b@) by {
            assert(a@.len() != b@.len());
        }
        return false;
    }
    let mut i: usize = 0;
    while i < a_len
        invariant
            a_len == a@.len(),
            b_len == b@.len(),
            a_len == b_len,
            i <= a_len,
            forall|j: int| 0 <= j < i ==> a@[j] == b@[j],
        decreases a_len - i,
    {
        if a.get_char(i) != b.get_char(i) {
            assert(a@ != b@);
            return false;
        }
        i += 1;
    }
    assert(a@ =~= b@);
    true
}

} // verus!
