//! One job posting, and its mathematical view.

use vstd::prelude::*;

use crate::date::Date;
use crate::date::spec_date_valid;
use crate::domain::Campus;
use crate::domain::Faculty;

verus! {

/// One job posting extracted from the listings table.
#[derive(Debug)]
pub struct Position {
    /// Absolute URL of the posting.
    pub link: String,
    /// Whitespace-normalized title.
    pub title: String,
    /// Campus location.
    pub campus: Campus,
    /// Organizational unit.
    pub faculty: Faculty,
    /// Application deadline.
    pub deadline: Date,
    /// RFC-2822 timestamp of when the posting was first observed; absent
    /// until the dedup pass runs, or when the stored stamp is unreadable.
    pub first_seen: Option<String>,
}

/// The mathematical value of a posting.
pub struct PositionView {
    pub link: Seq<char>,
    pub title: Seq<char>,
    pub campus: Campus,
    pub faculty: Faculty,
    pub deadline: Date,
    pub first_seen: Option<Seq<char>>,
}

impl View for Position {
    type V = PositionView;

    open spec fn view(&self) -> PositionView {
        PositionView {
            link: self.link@,
            title: self.title@,
            campus: self.campus,
            faculty: self.faculty,
            deadline: self.deadline,
            first_seen: match self.first_seen {
                Some(s) => Some(s@),
                None => None,
            },
        }
    }
}

/// Every posting the parser returns satisfies this: a non-empty link and
/// title and a deadline that exists on the calendar.
pub open spec fn spec_position_wf(p: PositionView) -> bool {
    &&& p.link.len() > 0
    &&& p.title.len() > 0
    &&& spec_date_valid(p.deadline)
}

/// The views of a sequence of postings.
pub open spec fn views_of(s: Seq<Position>) -> Seq<PositionView> {
    s.map_values(|p: Position| p@)
}

} // verus!
